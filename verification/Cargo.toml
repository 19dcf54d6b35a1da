[package]
name = "prost_reflect"
version = "0.8.1"
edition = "2021"
publish = false

[dependencies]
base64 = "0.13"
prost = "0.11"
prost-types = "0.11"
serde = "=1.0.229"
