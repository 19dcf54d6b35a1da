//! Protocol-buffer messages whose shape is known only at run time: a schema
//! pool, a value model, the field store that holds a message's values, the
//! canonical JSON mapping of messages, and the binary form that the payload
//! of an `Any` is held in.

pub mod descriptor;
pub mod fields;
pub mod json;
pub mod message;
pub mod unknown;
pub mod value;
pub mod wire;
mod order;
mod text;

pub use crate::descriptor::{
    Cardinality, DescriptorPool, EnumData, EnumDescriptorRef, EnumValueData, ExtensionData,
    ExtensionDescriptorRef, FieldData, FieldDescriptorRef, Kind, KindRef, MessageData,
    MessageDescriptorRef, OneofDescriptorRef,
};
pub use crate::fields::{
    DynamicMessageFieldSet, FieldDescriptorLike, ValueAndDescriptor, ValueOrUnknown,
};
pub use crate::json::{DeserializeOptions, SerializeOptions};
pub use crate::message::DynamicMessage;
pub use crate::unknown::UnknownField;
pub use crate::value::{MapEntry, MapKey, Value};
