use prost_reflect::json::de::DeserializeError;
use prost_reflect::json::ser::SerializeError;
use prost_reflect::json::value::{JsonMember, JsonNumber, JsonValue};
use prost_reflect::wire::decode::decode_fields;
use prost_reflect::wire::encode::encode_message;
use prost_reflect::{
    Cardinality, DescriptorPool, DynamicMessage, FieldData, Kind, MapEntry, MapKey, MessageData,
    MessageDescriptorRef, SerializeOptions, UnknownField, Value,
};

const ANY_TYPE: usize = 0;
const DURATION_TYPE: usize = 1;
const INNER: usize = 2;
const LABELS_ENTRY: usize = 3;
const BOX: usize = 4;

fn plain(name: &str, number: u32, kind: Kind) -> FieldData {
    FieldData {
        name: name.to_string(),
        json_name: name.to_string(),
        number,
        kind,
        cardinality: Cardinality::Optional,
        explicit_presence: false,
        oneof: None,
        is_packed: false,
        is_group: false,
    }
}

fn repeated(name: &str, number: u32, kind: Kind, is_packed: bool) -> FieldData {
    let mut f = plain(name, number, kind);
    f.cardinality = Cardinality::Repeated;
    f.is_packed = is_packed;
    f
}

fn typed(name: &str, fields: Vec<FieldData>) -> MessageData {
    MessageData { full_name: name.to_string(), is_map_entry: false, fields }
}

fn any_pool() -> DescriptorPool {
    let mut entry = typed(
        "test.Inner.LabelsEntry",
        vec![plain("key", 1, Kind::String), plain("value", 2, Kind::Sint32)],
    );
    entry.is_map_entry = true;
    let messages = vec![
        typed(
            "google.protobuf.Any",
            vec![plain("type_url", 1, Kind::String), plain("value", 2, Kind::Bytes)],
        ),
        typed(
            "google.protobuf.Duration",
            vec![plain("seconds", 1, Kind::Int64), plain("nanos", 2, Kind::Int32)],
        ),
        typed(
            "test.Inner",
            vec![
                plain("a", 1, Kind::Int32),
                plain("b", 2, Kind::String),
                repeated("c", 3, Kind::Int32, true),
                plain("child", 4, Kind::Message(INNER)),
                repeated("labels", 5, Kind::Message(LABELS_ENTRY), false),
                plain("wide", 6, Kind::Fixed64),
                plain("narrow", 7, Kind::Sfixed32),
                repeated("names", 8, Kind::String, false),
            ],
        ),
        entry,
        typed("test.Box", vec![plain("held", 1, Kind::Message(ANY_TYPE))]),
    ];
    DescriptorPool::new(messages, vec![], vec![]).expect("a consistent pool")
}

fn inner_with<'a>(desc: MessageDescriptorRef<'a>, number: u32, value: Value<'a>) -> DynamicMessage<'a> {
    let mut message = DynamicMessage::new(desc);
    message.fields.set(desc.get_field(number).unwrap(), value);
    message
}

fn any_of<'a>(desc: MessageDescriptorRef<'a>, url: &str, bytes: Vec<u8>) -> DynamicMessage<'a> {
    let mut message = DynamicMessage::new(desc);
    message.fields.set(desc.get_field(1).unwrap(), Value::String(url.to_string()));
    message.fields.set(desc.get_field(2).unwrap(), Value::Bytes(bytes));
    message
}

fn named(name: &str, value: JsonValue) -> JsonMember {
    JsonMember { name: name.to_string(), value }
}

fn string(s: &str) -> JsonValue {
    JsonValue::String(s.to_string())
}

#[test]
fn a_number_is_written_in_variable_width() {
    let pool = any_pool();
    let inner = pool.get_message(INNER).unwrap();
    let message = inner_with(inner, 1, Value::I32(150));
    assert_eq!(encode_message(&message), Some(vec![0x08, 0x96, 0x01]));
    assert_eq!(decode_fields(&[0x08, 0x96, 0x01], inner), Some(message));
}

#[test]
fn a_negative_number_takes_ten_bytes() {
    let pool = any_pool();
    let inner = pool.get_message(INNER).unwrap();
    let message = inner_with(inner, 1, Value::I32(-1));
    let bytes = vec![0x08, 0xff, 0xff, 0xff, 0xff, 0xff, 0xff, 0xff, 0xff, 0xff, 0x01];
    assert_eq!(encode_message(&message), Some(bytes.clone()));
    assert_eq!(decode_fields(&bytes, inner), Some(message));
}

#[test]
fn a_text_is_written_as_a_run() {
    let pool = any_pool();
    let inner = pool.get_message(INNER).unwrap();
    let message = inner_with(inner, 2, Value::String("testing".to_string()));
    let bytes = vec![0x12, 0x07, 0x74, 0x65, 0x73, 0x74, 0x69, 0x6e, 0x67];
    assert_eq!(encode_message(&message), Some(bytes.clone()));
    assert_eq!(decode_fields(&bytes, inner), Some(message));
    assert_eq!(decode_fields(&[0x12, 0x02, 0xc3, 0x28], inner), None);
}

#[test]
fn a_packed_list_is_one_run() {
    let pool = any_pool();
    let inner = pool.get_message(INNER).unwrap();
    let list = Value::List(vec![Value::I32(3), Value::I32(270), Value::I32(86942)]);
    let message = inner_with(inner, 3, list);
    let bytes = vec![0x1a, 0x06, 0x03, 0x8e, 0x02, 0x9e, 0xa7, 0x05];
    assert_eq!(encode_message(&message), Some(bytes.clone()));
    assert_eq!(decode_fields(&bytes, inner), Some(message.clone()));
    // The same list, each item behind its own tag.
    assert_eq!(
        decode_fields(&[0x18, 0x03, 0x18, 0x8e, 0x02, 0x18, 0x9e, 0xa7, 0x05], inner),
        Some(message)
    );
}

#[test]
fn fixed_widths_zigzag_and_nesting() {
    let pool = any_pool();
    let inner = pool.get_message(INNER).unwrap();
    let mut child = DynamicMessage::new(inner);
    child.fields.set(inner.get_field(6).unwrap(), Value::U64(0x0102030405060708));
    child.fields.set(inner.get_field(7).unwrap(), Value::I32(-2));
    let mut message = DynamicMessage::new(inner);
    message.fields.set(inner.get_field(4).unwrap(), Value::Message(child));
    message.fields.set(
        inner.get_field(5).unwrap(),
        Value::Entries(vec![MapEntry { key: MapKey::String("k".to_string()), value: Value::I32(-3) }]),
    );
    message.fields.set(
        inner.get_field(8).unwrap(),
        Value::List(vec![Value::String("x".to_string()), Value::String(String::new())]),
    );
    let bytes = vec![
        0x22, 0x0e, 0x31, 0x08, 0x07, 0x06, 0x05, 0x04, 0x03, 0x02, 0x01, 0x3d, 0xfe, 0xff, 0xff, 0xff,
        0x2a, 0x05, 0x0a, 0x01, 0x6b, 0x10, 0x05, 0x42, 0x01, 0x78, 0x42, 0x00,
    ];
    assert_eq!(encode_message(&message), Some(bytes.clone()));
    assert_eq!(decode_fields(&bytes, inner), Some(message));
}

#[test]
fn undeclared_fields_are_kept_as_they_are() {
    let pool = any_pool();
    let inner = pool.get_message(INNER).unwrap();
    let bytes = vec![0x08, 0x01, 0xa0, 0x06, 0x07, 0xaa, 0x06, 0x01, 0x21];
    let read = decode_fields(&bytes, inner).unwrap();
    let mut expected = inner_with(inner, 1, Value::I32(1));
    expected.fields.add_unknown(100, UnknownField::new(vec![0xa0, 0x06, 0x07]));
    expected.fields.add_unknown(101, UnknownField::new(vec![0xaa, 0x06, 0x01, 0x21]));
    assert_eq!(read, expected);
    assert_eq!(encode_message(&read), Some(bytes));
}

#[test]
fn cut_or_malformed_bytes_are_refused() {
    let pool = any_pool();
    let inner = pool.get_message(INNER).unwrap();
    assert_eq!(decode_fields(&[], inner), Some(DynamicMessage::new(inner)));
    assert_eq!(decode_fields(&[0x08], inner), None);
    assert_eq!(decode_fields(&[0x12, 0x05, 0x61], inner), None);
    assert_eq!(decode_fields(&[0x00, 0x01], inner), None);
    assert_eq!(decode_fields(&[0x0a, 0x00], inner), None);
    assert_eq!(decode_fields(&[0x0b], inner), None);
    assert_eq!(decode_fields(&[0x31, 0x01, 0x02], inner), None);
}

#[test]
fn a_value_that_does_not_fit_is_not_written() {
    let pool = any_pool();
    let inner = pool.get_message(INNER).unwrap();
    let mut store = prost_reflect::DynamicMessageFieldSet::new();
    store.add_unknown(1, UnknownField::new(vec![0x08, 0x05]));
    let message = DynamicMessage { desc: inner, fields: store };
    // An undecoded entry under a declared number is written as it is.
    assert_eq!(encode_message(&message), Some(vec![0x08, 0x05]));
}

#[test]
fn any_is_written_with_its_type_and_the_members_of_its_payload() {
    let pool = any_pool();
    let any = pool.get_message(ANY_TYPE).unwrap();
    let message = any_of(any, "type.googleapis.com/test.Inner", vec![0x08, 0x96, 0x01, 0x12, 0x01, 0x78]);
    let json = JsonValue::Object(vec![
        named("@type", string("type.googleapis.com/test.Inner")),
        named("a", JsonValue::Number(JsonNumber::from_i64(150))),
        named("b", string("x")),
    ]);
    assert_eq!(DynamicMessage::deserialize(any, &json), Ok(message.clone()));
    assert_eq!(message.serialize(), Ok(json));
}

#[test]
fn any_of_a_well_known_type_holds_it_under_value() {
    let pool = any_pool();
    let any = pool.get_message(ANY_TYPE).unwrap();
    let message = any_of(any, "type.googleapis.com/google.protobuf.Duration", vec![0x08, 0x01, 0x10, 0x80, 0xca, 0xb5, 0xee, 0x01]);
    let json = JsonValue::Object(vec![
        named("@type", string("type.googleapis.com/google.protobuf.Duration")),
        named("value", string("1.5s")),
    ]);
    assert_eq!(DynamicMessage::deserialize(any, &json), Ok(message.clone()));
    assert_eq!(message.serialize(), Ok(json));
}

#[test]
fn any_in_a_field_and_in_another_any() {
    let pool = any_pool();
    let any = pool.get_message(ANY_TYPE).unwrap();
    let holder = pool.get_message(BOX).unwrap();
    let payload = any_of(any, "test.Inner", vec![0x08, 0x01]);
    let outer = any_of(any, "here/google.protobuf.Any", encode_message(&payload).unwrap());
    let boxed = inner_with(holder, 1, Value::Message(outer.clone()));
    let json = JsonValue::Object(vec![named(
        "held",
        JsonValue::Object(vec![
            named("@type", string("here/google.protobuf.Any")),
            named(
                "value",
                JsonValue::Object(vec![
                    named("@type", string("test.Inner")),
                    named("a", JsonValue::Number(JsonNumber::from_i64(1))),
                ]),
            ),
        ]),
    )]);
    assert_eq!(DynamicMessage::deserialize(holder, &json), Ok(boxed.clone()));
    assert_eq!(boxed.serialize().as_ref(), Ok(&json));
    // One `Any` inside another needs two levels.
    assert_eq!(
        boxed.serialize_with_options(&SerializeOptions::new().any_nesting(1)),
        Err(SerializeError::InvalidValue)
    );
    assert_eq!(boxed.serialize_with_options(&SerializeOptions::new().any_nesting(2)), Ok(json));
}

#[test]
fn any_of_an_unknown_type_or_of_broken_bytes_fails() {
    let pool = any_pool();
    let any = pool.get_message(ANY_TYPE).unwrap();
    assert_eq!(
        any_of(any, "type.googleapis.com/test.Missing", vec![]).serialize(),
        Err(SerializeError::UnsupportedType)
    );
    assert_eq!(DynamicMessage::new(any).serialize(), Err(SerializeError::UnsupportedType));
    assert_eq!(
        any_of(any, "type.googleapis.com/test.Inner", vec![0x08]).serialize(),
        Err(SerializeError::InvalidValue)
    );
    assert_eq!(
        DynamicMessage::deserialize(
            any,
            &JsonValue::Object(vec![named("@type", string("x/test.Missing"))])
        ),
        Err(DeserializeError::UnsupportedType)
    );
    assert_eq!(
        DynamicMessage::deserialize(any, &JsonValue::Object(vec![named("a", JsonValue::Null)])),
        Err(DeserializeError::InvalidValue)
    );
    assert_eq!(
        DynamicMessage::deserialize(
            any,
            &JsonValue::Object(vec![
                named("@type", string("test.Inner")),
                named("nothing", JsonValue::Null)
            ])
        ),
        Err(DeserializeError::UnknownField)
    );
    assert_eq!(DynamicMessage::deserialize(any, &string("test.Inner")), Err(DeserializeError::InvalidValue));
}

#[test]
fn any_of_a_payload_with_lists_and_maps_comes_back() {
    let pool = any_pool();
    let any = pool.get_message(ANY_TYPE).unwrap();
    let inner = pool.get_message(INNER).unwrap();
    let mut payload = DynamicMessage::new(inner);
    payload.fields.set(inner.get_field(3).unwrap(), Value::List(vec![Value::I32(-1), Value::I32(2)]));
    payload.fields.set(
        inner.get_field(5).unwrap(),
        Value::Entries(vec![
            MapEntry { key: MapKey::String("a".to_string()), value: Value::I32(1) },
            MapEntry { key: MapKey::String("".to_string()), value: Value::I32(0) },
        ]),
    );
    payload.fields.set(
        inner.get_field(4).unwrap(),
        Value::Message(inner_with(inner, 8, Value::List(vec![Value::String("n".to_string())]))),
    );
    let bytes = encode_message(&payload).unwrap();
    assert_eq!(decode_fields(&bytes, inner), Some(payload));
    let message = any_of(any, "test.Inner", bytes);
    let json = message.serialize().unwrap();
    assert_eq!(
        json,
        JsonValue::Object(vec![
            named("@type", string("test.Inner")),
            named(
                "c",
                JsonValue::Array(vec![
                    JsonValue::Number(JsonNumber::from_i64(-1)),
                    JsonValue::Number(JsonNumber::from_i64(2)),
                ])
            ),
            named(
                "child",
                JsonValue::Object(vec![named("names", JsonValue::Array(vec![string("n")]))])
            ),
            named(
                "labels",
                JsonValue::Object(vec![
                    named("a", JsonValue::Number(JsonNumber::from_i64(1))),
                    named("", JsonValue::Number(JsonNumber::from_i64(0))),
                ])
            ),
        ])
    );
    assert_eq!(DynamicMessage::deserialize(any, &json), Ok(message));
}
