use prost_reflect::json::{
    check_duration, check_timestamp, is_well_known_type, Duration, Timestamp,
};
use prost_reflect::{DeserializeOptions, SerializeOptions};

#[test]
fn serialize_options_default_to_the_canonical_mapping() {
    let options = SerializeOptions::new();
    assert!(options.is_stringify_64_bit_integers());
    assert!(!options.is_use_enum_numbers());
    assert!(!options.is_use_proto_field_name());
    assert!(options.is_skip_default_fields());
}

#[test]
fn deserialize_options_deny_unknown_fields_by_default() {
    assert!(DeserializeOptions::new().is_deny_unknown_fields());
    assert!(!DeserializeOptions::new().deny_unknown_fields(false).is_deny_unknown_fields());
}

#[test]
fn duration_boundary() {
    assert_eq!(check_duration(&Duration { seconds: 315576000000, nanos: 999999999 }), Ok(()));
    assert_eq!(
        check_duration(&Duration { seconds: 315576000001, nanos: 0 }),
        Err("duration out of range")
    );
}

#[test]
fn timestamp_boundary() {
    assert_eq!(check_timestamp(&Timestamp { seconds: 253402300799, nanos: 0 }), Ok(()));
    assert_eq!(
        check_timestamp(&Timestamp { seconds: 253402300800, nanos: 0 }),
        Err("timestamp out of range")
    );
}

#[test]
fn well_known_names() {
    assert!(is_well_known_type("google.protobuf.Any"));
    assert!(!is_well_known_type("google.protobuf.Anything"));
}
