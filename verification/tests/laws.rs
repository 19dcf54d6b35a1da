use prost_reflect::json::de::DeserializeError;
use prost_reflect::json::ser::SerializeError;
use prost_reflect::json::value::{JsonMember, JsonNumber, JsonValue};
use prost_reflect::{
    Cardinality, DescriptorPool, DynamicMessage, DynamicMessageFieldSet, ExtensionData, FieldData,
    FieldDescriptorLike, Kind, MessageData, MessageDescriptorRef, SerializeOptions, Value,
    ValueAndDescriptor,
};

const SPAN: usize = 0;
const OUTER: usize = 1;
const OTHER: usize = 2;
const STAMP: usize = 3;
const COUNT: usize = 4;
const ANYTHING: usize = 5;

fn declared(name: &str, number: u32, kind: Kind) -> FieldData {
    FieldData {
        name: name.to_string(),
        json_name: name.to_string(),
        number,
        kind,
        cardinality: Cardinality::Optional,
        explicit_presence: false,
        oneof: None,
        is_packed: false,
        is_group: false,
    }
}

fn listed(name: &str, number: u32, kind: Kind) -> FieldData {
    let mut f = declared(name, number, kind);
    f.cardinality = Cardinality::Repeated;
    f
}

fn of_type(name: &str, fields: Vec<FieldData>) -> MessageData {
    MessageData { full_name: name.to_string(), is_map_entry: false, fields }
}

fn extension(full_name: &str, json_name: &str, number: u32, extendee: usize) -> ExtensionData {
    ExtensionData {
        full_name: full_name.to_string(),
        json_name: json_name.to_string(),
        number,
        kind: Kind::Int32,
        cardinality: Cardinality::Optional,
        extendee,
        is_packed: false,
        is_group: false,
    }
}

fn messages() -> Vec<MessageData> {
    vec![
        of_type(
            "google.protobuf.Duration",
            vec![declared("seconds", 1, Kind::Int64), declared("nanos", 2, Kind::Int32)],
        ),
        of_type(
            "test.Outer",
            vec![
                declared("last", 9, Kind::Int32),
                declared("inner", 5, Kind::Message(OUTER)),
                declared("span", 1, Kind::Message(SPAN)),
                listed("spans", 2, Kind::Message(SPAN)),
                declared("stamp", 3, Kind::Message(STAMP)),
                declared("count", 4, Kind::Message(COUNT)),
                declared("anything", 6, Kind::Message(ANYTHING)),
            ],
        ),
        of_type("test.Other", vec![declared("stray", 77, Kind::Int32)]),
        of_type(
            "google.protobuf.Timestamp",
            vec![declared("seconds", 1, Kind::Int64), declared("nanos", 2, Kind::Int32)],
        ),
        of_type("google.protobuf.Int64Value", vec![declared("value", 1, Kind::Int64)]),
        of_type("google.protobuf.Value", vec![declared("number_value", 2, Kind::Double)]),
    ]
}

fn laws_pool() -> DescriptorPool {
    DescriptorPool::new(messages(), vec![], vec![extension("test.mid", "[test.mid]", 7, OUTER)])
        .expect("a consistent pool")
}

fn span<'a>(desc: MessageDescriptorRef<'a>, seconds: i64, nanos: i32) -> DynamicMessage<'a> {
    let mut message = DynamicMessage::new(desc);
    message.fields.set(desc.get_field(1).unwrap(), Value::I64(seconds));
    message.fields.set(desc.get_field(2).unwrap(), Value::I32(nanos));
    message
}

fn holding<'a>(desc: MessageDescriptorRef<'a>, number: u32, value: Value<'a>) -> DynamicMessage<'a> {
    let mut message = DynamicMessage::new(desc);
    message.fields.set(desc.get_field(number).unwrap(), value);
    message
}

fn entry(name: &str, value: JsonValue) -> JsonMember {
    JsonMember { name: name.to_string(), value }
}

fn words(s: &str) -> JsonValue {
    JsonValue::String(s.to_string())
}

#[test]
fn members_stand_in_ascending_order_of_field_numbers() {
    let pool = laws_pool();
    let outer = pool.get_message(OUTER).unwrap();
    let mut message = DynamicMessage::new(outer);
    message.fields.set(outer.get_field(9).unwrap(), Value::I32(9));
    message.fields.set(outer.get_extension(7).unwrap(), Value::I32(7));
    message.fields.set(outer.get_field(1).unwrap(), Value::Message(span(pool.get_message(SPAN).unwrap(), 1, 0)));
    let json = JsonValue::Object(vec![
        entry("span", words("1s")),
        entry("[test.mid]", JsonValue::Number(JsonNumber::from_i64(7))),
        entry("last", JsonValue::Number(JsonNumber::from_i64(9))),
    ]);
    assert_eq!(DynamicMessage::deserialize(outer, &json), Ok(message.clone()));
    assert_eq!(message.serialize(), Ok(json));
    let numbers: Vec<u32> = message
        .fields
        .iter(outer)
        .iter()
        .map(|item| match item {
            ValueAndDescriptor::Field(_, field) => field.number(),
            ValueAndDescriptor::Extension(_, extension) => extension.number(),
            ValueAndDescriptor::Unknown(number, _) => *number,
        })
        .collect();
    assert_eq!(numbers, vec![1, 7, 9]);
}

#[test]
fn every_declared_number_is_written_when_defaults_are_kept() {
    let pool = laws_pool();
    let outer = pool.get_message(OUTER).unwrap();
    let kept = SerializeOptions::new().skip_default_fields(false);
    assert_eq!(
        DynamicMessage::new(outer).serialize_with_options(&kept),
        Ok(JsonValue::Object(vec![
            entry("span", words("0s")),
            entry("spans", JsonValue::Array(vec![])),
            entry("stamp", words("1970-01-01T00:00:00Z")),
            entry("count", words("0")),
            entry("inner", JsonValue::Object(vec![])),
            entry("anything", JsonValue::Null),
            entry("[test.mid]", JsonValue::Number(JsonNumber::from_i64(0))),
            entry("last", JsonValue::Number(JsonNumber::from_i64(0))),
        ]))
    );
    assert_eq!(DynamicMessage::new(outer).serialize(), Ok(JsonValue::Object(vec![])));
}

#[test]
fn a_duration_out_of_range_fails_the_message_that_holds_it_at_any_depth() {
    let pool = laws_pool();
    let outer = pool.get_message(OUTER).unwrap();
    let bad = span(pool.get_message(SPAN).unwrap(), 315576000001, 0);
    let good = span(pool.get_message(SPAN).unwrap(), 1, 0);
    let deepest = holding(outer, 2, Value::List(vec![Value::Message(good), Value::Message(bad)]));
    let middle = holding(outer, 5, Value::Message(deepest));
    let top = holding(outer, 5, Value::Message(middle));
    for skip in [true, false] {
        let options = SerializeOptions::new().skip_default_fields(skip);
        assert_eq!(top.serialize_with_options(&options), Err(SerializeError::DurationOutOfRange));
    }
    let late = span(pool.get_message(STAMP).unwrap(), 253402300800, 0);
    let holder = holding(outer, 5, Value::Message(holding(outer, 3, Value::Message(late))));
    assert_eq!(holder.serialize(), Err(SerializeError::TimestampOutOfRange));
}

#[test]
fn well_known_types_in_fields_come_back() {
    let pool = laws_pool();
    let outer = pool.get_message(OUTER).unwrap();
    let mut inner = DynamicMessage::new(outer);
    inner.fields.set(outer.get_field(1).unwrap(), Value::Message(span(pool.get_message(SPAN).unwrap(), -2, -500000000)));
    inner.fields.set(
        outer.get_field(4).unwrap(),
        Value::Message(holding(pool.get_message(COUNT).unwrap(), 1, Value::I64(-7))),
    );
    inner.fields.set(
        outer.get_field(6).unwrap(),
        Value::Message(holding(pool.get_message(ANYTHING).unwrap(), 2, Value::F64(0x3ff8000000000000))),
    );
    let message = holding(outer, 5, Value::Message(inner));
    let json = message.serialize().unwrap();
    assert_eq!(
        json,
        JsonValue::Object(vec![entry(
            "inner",
            JsonValue::Object(vec![
                entry("span", words("-2.5s")),
                entry("count", words("-7")),
                entry("anything", JsonValue::Number(JsonNumber::from_double_bits(0x3ff8000000000000))),
            ])
        )])
    );
    assert_eq!(DynamicMessage::deserialize(outer, &json), Ok(message));
}

#[test]
fn a_value_under_an_undeclared_number_is_not_written() {
    let pool = laws_pool();
    let outer = pool.get_message(OUTER).unwrap();
    let stray = pool.get_message(OTHER).unwrap().get_field(77).unwrap();
    let mut fields = DynamicMessageFieldSet::new();
    fields.set(stray, Value::I32(1));
    assert!(fields.try_iter(outer).is_none());
    assert!(fields.try_iter(pool.get_message(OTHER).unwrap()).is_some());
    let message = DynamicMessage { desc: outer, fields };
    for skip in [true, false] {
        let options = SerializeOptions::new().skip_default_fields(skip);
        assert_eq!(message.serialize_with_options(&options), Err(SerializeError::InvalidValue));
    }
    assert_eq!(prost_reflect::wire::encode::encode_message(&message), None);
}

#[test]
fn an_extension_goes_by_its_full_name_in_brackets() {
    assert!(DescriptorPool::new(messages(), vec![], vec![extension("test.mid", "[test.mid]", 7, OUTER)]).is_some());
    for wrong in ["test.mid", "[test.mid", "test.mid]", "[test.mad]", "[test.mid]]", ""] {
        assert!(
            DescriptorPool::new(messages(), vec![], vec![extension("test.mid", wrong, 7, OUTER)]).is_none(),
            "{:?}",
            wrong
        );
    }
}

#[test]
fn declared_numbers_are_found_in_ascending_order() {
    let pool = laws_pool();
    let outer = pool.get_message(OUTER).unwrap();
    let mut found = Vec::new();
    let mut from: u64 = 0;
    while let Some(number) = outer.next_declared(from as u32) {
        found.push(number);
        from = number as u64 + 1;
    }
    assert_eq!(found, vec![1, 2, 3, 4, 5, 6, 7, 9]);
    assert_eq!(outer.next_declared(10), None);
    assert_eq!(outer.next_declared(u32::MAX), None);
    assert_eq!(pool.get_message_by_name("test.Other").map(|m| m.position()), Some(OTHER));
    assert!(pool.get_message_by_name("test.Othe").is_none());
    assert!(pool.get_message_by_name("").is_none());
}

#[test]
fn the_text_of_a_duration_is_read_strictly() {
    let pool = laws_pool();
    let desc = pool.get_message(SPAN).unwrap();
    let read = |s: &str| DynamicMessage::deserialize(desc, &words(s));
    assert_eq!(read("1.000000001s"), Ok(span(desc, 1, 1)));
    assert_eq!(read("-0.000000001s"), Ok(span(desc, 0, -1)));
    assert_eq!(read("3.14s"), Ok(span(desc, 3, 140000000)));
    assert_eq!(read("0s"), Ok(span(desc, 0, 0)));
    assert_eq!(read("-315576000000.999999999s"), Ok(span(desc, -315576000000, -999999999)));
    assert_eq!(read("9223372036854775807s"), Err(DeserializeError::DurationOutOfRange));
    for bad in [
        "", "s", "-s", "1", "1.s", ".5s", "+1s", "1.0000000001s", "1.5.5s", "1,5s", "1s ", " 1s",
        "--1s", "1S", "9223372036854775808s", "1e3s", "١s",
    ] {
        assert_eq!(read(bad), Err(DeserializeError::InvalidValue), "{:?}", bad);
    }
}
