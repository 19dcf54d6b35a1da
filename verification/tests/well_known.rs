use prost_reflect::json::de::DeserializeError;
use prost_reflect::json::ser::SerializeError;
use prost_reflect::json::value::{JsonMember, JsonNumber, JsonValue};
use prost_reflect::{
    Cardinality, DescriptorPool, DeserializeOptions, DynamicMessage, EnumData, EnumValueData,
    FieldData, Kind, MapEntry, MapKey, MessageData, MessageDescriptorRef, SerializeOptions, Value,
};

fn field(name: &str, number: u32, kind: Kind) -> FieldData {
    FieldData {
        name: name.to_string(),
        json_name: name.to_string(),
        number,
        kind,
        cardinality: Cardinality::Optional,
        explicit_presence: false,
        oneof: None,
        is_packed: false,
        is_group: false,
    }
}

fn message(name: &str, fields: Vec<FieldData>) -> MessageData {
    MessageData { full_name: name.to_string(), is_map_entry: false, fields }
}

const DURATION: usize = 0;
const TIMESTAMP: usize = 1;
const INT32_VALUE: usize = 2;
const STRING_VALUE: usize = 3;
const STRUCT: usize = 4;
const FIELDS_ENTRY: usize = 5;
const VALUE: usize = 6;
const LIST_VALUE: usize = 7;
const EMPTY: usize = 8;
const ANY: usize = 9;
const HOLDER: usize = 10;
const INT64_VALUE: usize = 11;
const FIELD_MASK: usize = 12;

fn well_known_pool() -> DescriptorPool {
    let timed = |name: &str| {
        message(name, vec![field("seconds", 1, Kind::Int64), field("nanos", 2, Kind::Int32)])
    };
    let mut fields = field("fields", 1, Kind::Message(FIELDS_ENTRY));
    fields.cardinality = Cardinality::Repeated;
    let mut entry = message(
        "google.protobuf.Struct.FieldsEntry",
        vec![field("key", 1, Kind::String), field("value", 2, Kind::Message(VALUE))],
    );
    entry.is_map_entry = true;
    let kinds = vec![
        field("null_value", 1, Kind::Enum(0)),
        field("number_value", 2, Kind::Double),
        field("string_value", 3, Kind::String),
        field("bool_value", 4, Kind::Bool),
        field("struct_value", 5, Kind::Message(STRUCT)),
        field("list_value", 6, Kind::Message(LIST_VALUE)),
    ]
    .into_iter()
    .map(|mut f| {
        f.oneof = Some(0);
        f
    })
    .collect();
    let mut values = field("values", 1, Kind::Message(VALUE));
    values.cardinality = Cardinality::Repeated;
    let mut paths = field("paths", 1, Kind::String);
    paths.cardinality = Cardinality::Repeated;
    let messages = vec![
        timed("google.protobuf.Duration"),
        timed("google.protobuf.Timestamp"),
        message("google.protobuf.Int32Value", vec![field("value", 1, Kind::Int32)]),
        message("google.protobuf.StringValue", vec![field("value", 1, Kind::String)]),
        message("google.protobuf.Struct", vec![fields]),
        entry,
        message("google.protobuf.Value", kinds),
        message("google.protobuf.ListValue", vec![values]),
        message("google.protobuf.Empty", vec![]),
        message(
            "google.protobuf.Any",
            vec![field("type_url", 1, Kind::String), field("value", 2, Kind::Bytes)],
        ),
        message(
            "test.Holder",
            vec![
                field("elapsed", 1, Kind::Message(DURATION)),
                field("count", 2, Kind::Message(INT32_VALUE)),
                field("anything", 3, Kind::Message(VALUE)),
            ],
        ),
        message("google.protobuf.Int64Value", vec![field("value", 1, Kind::Int64)]),
        message("google.protobuf.FieldMask", vec![paths]),
    ];
    let null = EnumData {
        full_name: "google.protobuf.NullValue".to_string(),
        values: vec![EnumValueData { name: "NULL_VALUE".to_string(), number: 0 }],
    };
    DescriptorPool::new(messages, vec![null], vec![]).expect("a consistent pool")
}

fn timed<'a>(desc: MessageDescriptorRef<'a>, seconds: i64, nanos: i32) -> DynamicMessage<'a> {
    let mut message = DynamicMessage::new(desc);
    message.fields.set(desc.get_field(1).unwrap(), Value::I64(seconds));
    message.fields.set(desc.get_field(2).unwrap(), Value::I32(nanos));
    message
}

fn text(s: &str) -> JsonValue {
    JsonValue::String(s.to_string())
}

fn member(name: &str, value: JsonValue) -> JsonMember {
    JsonMember { name: name.to_string(), value }
}

#[test]
fn duration_is_written_as_seconds() {
    let pool = well_known_pool();
    let desc = pool.get_message(DURATION).unwrap();
    let cases = [
        (315576000000, 999999999, "315576000000.999999999s"),
        (1, 500000000, "1.5s"),
        (1, 1000, "1.000001s"),
        (-1, 0, "-1s"),
        (0, -500000000, "-0.5s"),
        (-3, -1, "-3.000000001s"),
        (0, 0, "0s"),
    ];
    for (seconds, nanos, expected) in cases {
        assert_eq!(timed(desc, seconds, nanos).serialize(), Ok(text(expected)));
        assert_eq!(DynamicMessage::deserialize(desc, &text(expected)), Ok(timed(desc, seconds, nanos)));
    }
    assert_eq!(DynamicMessage::new(desc).serialize(), Ok(text("0s")));
}

#[test]
fn duration_out_of_range_fails() {
    let pool = well_known_pool();
    let desc = pool.get_message(DURATION).unwrap();
    assert_eq!(timed(desc, 315576000001, 0).serialize(), Err(SerializeError::DurationOutOfRange));
    assert_eq!(timed(desc, -315576000001, 0).serialize(), Err(SerializeError::DurationOutOfRange));
    assert_eq!(timed(desc, 0, 1000000000).serialize(), Err(SerializeError::DurationOutOfRange));
    // Parts that differ in sign are brought to one sign before writing.
    assert_eq!(timed(desc, 1, -1).serialize(), Ok(text("0.999999999s")));
    assert_eq!(timed(desc, -1, 1).serialize(), Ok(text("-0.999999999s")));
    assert_eq!(timed(desc, 2, -500000000).serialize(), Ok(text("1.5s")));
    assert_eq!(
        DynamicMessage::deserialize(desc, &text("315576000001s")),
        Err(DeserializeError::DurationOutOfRange)
    );
    assert_eq!(DynamicMessage::deserialize(desc, &text("1")), Err(DeserializeError::InvalidValue));
    assert_eq!(
        DynamicMessage::deserialize(desc, &JsonValue::Bool(true)),
        Err(DeserializeError::InvalidValue)
    );
}

#[test]
fn timestamp_is_written_as_rfc3339() {
    let pool = well_known_pool();
    let desc = pool.get_message(TIMESTAMP).unwrap();
    let cases = [
        (0, 0, "1970-01-01T00:00:00Z"),
        (253402300799, 0, "9999-12-31T23:59:59Z"),
        (-62135596800, 0, "0001-01-01T00:00:00Z"),
        (1, 500000000, "1970-01-01T00:00:01.500Z"),
    ];
    for (seconds, nanos, expected) in cases {
        assert_eq!(timed(desc, seconds, nanos).serialize(), Ok(text(expected)));
        assert_eq!(DynamicMessage::deserialize(desc, &text(expected)), Ok(timed(desc, seconds, nanos)));
    }
    assert_eq!(
        DynamicMessage::deserialize(desc, &text("1970-01-01T01:00:00+01:00")),
        Ok(timed(desc, 0, 0))
    );
}

#[test]
fn timestamp_out_of_range_fails() {
    let pool = well_known_pool();
    let desc = pool.get_message(TIMESTAMP).unwrap();
    assert_eq!(timed(desc, 253402300800, 0).serialize(), Err(SerializeError::TimestampOutOfRange));
    assert_eq!(timed(desc, -62135596801, 0).serialize(), Err(SerializeError::TimestampOutOfRange));
    // Nanoseconds outside one second are carried into the seconds.
    assert_eq!(timed(desc, 0, -1).serialize(), Ok(text("1969-12-31T23:59:59.999999999Z")));
    assert_eq!(timed(desc, 0, 1500000000).serialize(), Ok(text("1970-01-01T00:00:01.500Z")));
    assert_eq!(timed(desc, -62135596800, -1).serialize(), Err(SerializeError::TimestampOutOfRange));
    assert_eq!(timed(desc, 253402300799, 1000000000).serialize(), Err(SerializeError::TimestampOutOfRange));
    assert_eq!(
        DynamicMessage::deserialize(desc, &text("9999-12-31T23:59:59-01:00")),
        Err(DeserializeError::TimestampOutOfRange)
    );
    for bad in ["1970-01-01", "1970-01-01T1", "1970-01-01T00:00:00", "1970-01-01T00:00:00.Z", "x"] {
        assert_eq!(
            DynamicMessage::deserialize(desc, &text(bad)),
            Err(DeserializeError::InvalidValue),
            "{:?}",
            bad
        );
    }
}

#[test]
fn wrappers_are_written_bare() {
    let pool = well_known_pool();
    let int32 = pool.get_message(INT32_VALUE).unwrap();
    let mut wrapped = DynamicMessage::new(int32);
    assert_eq!(wrapped.serialize(), Ok(JsonValue::Number(JsonNumber::from_i64(0))));
    wrapped.fields.set(int32.get_field(1).unwrap(), Value::I32(-7));
    assert_eq!(wrapped.serialize(), Ok(JsonValue::Number(JsonNumber::from_i64(-7))));
    assert_eq!(
        DynamicMessage::deserialize(int32, &JsonValue::Number(JsonNumber::from_i64(-7))),
        Ok(wrapped)
    );
    let int64 = pool.get_message(INT64_VALUE).unwrap();
    let mut wide = DynamicMessage::new(int64);
    wide.fields.set(int64.get_field(1).unwrap(), Value::I64(1 << 40));
    assert_eq!(wide.serialize(), Ok(text("1099511627776")));
    assert_eq!(DynamicMessage::deserialize(int64, &text("1099511627776")), Ok(wide));
    let string = pool.get_message(STRING_VALUE).unwrap();
    assert_eq!(
        DynamicMessage::deserialize(string, &JsonValue::Bool(true)),
        Err(DeserializeError::InvalidValue)
    );
}

#[test]
fn struct_value_and_list_are_native_json() {
    let pool = well_known_pool();
    let json = JsonValue::Object(vec![
        member("a", JsonValue::Null),
        member("b", JsonValue::Bool(true)),
        member("c", text("x")),
        member(
            "d",
            JsonValue::Array(vec![
                JsonValue::Number(JsonNumber::from_double_bits(0x3ff8_0000_0000_0000)),
                JsonValue::Object(vec![]),
            ]),
        ),
    ]);
    let desc = pool.get_message(STRUCT).unwrap();
    let read = DynamicMessage::deserialize(desc, &json).unwrap();
    assert_eq!(read.serialize(), Ok(json));
    let entries = match read.fields.get(desc.get_field(1).unwrap()).into_owned() {
        Value::Entries(entries) => entries,
        other => panic!("unexpected {:?}", other),
    };
    assert_eq!(entries.len(), 4);
    assert_eq!(entries[1].key, MapKey::String("b".to_string()));
    let value = pool.get_message(VALUE).unwrap();
    let mut truth = DynamicMessage::new(value);
    truth.fields.set(value.get_field(4).unwrap(), Value::Bool(true));
    assert_eq!(entries[1], MapEntry { key: MapKey::String("b".to_string()), value: Value::Message(truth) });
    assert_eq!(DynamicMessage::new(value).serialize(), Err(SerializeError::InvalidValue));
    assert_eq!(
        DynamicMessage::deserialize(pool.get_message(LIST_VALUE).unwrap(), &JsonValue::Object(vec![])),
        Err(DeserializeError::InvalidValue)
    );
}

#[test]
fn empty_and_unsupported_types() {
    let pool = well_known_pool();
    let empty = pool.get_message(EMPTY).unwrap();
    assert_eq!(DynamicMessage::new(empty).serialize(), Ok(JsonValue::Object(vec![])));
    assert_eq!(DynamicMessage::deserialize(empty, &JsonValue::Object(vec![])), Ok(DynamicMessage::new(empty)));
    assert_eq!(
        DynamicMessage::deserialize(empty, &JsonValue::Object(vec![member("x", JsonValue::Null)])),
        Err(DeserializeError::UnknownField)
    );
    let any = pool.get_message(ANY).unwrap();
    assert_eq!(DynamicMessage::new(any).serialize(), Err(SerializeError::UnsupportedType));
    assert_eq!(
        DynamicMessage::deserialize(any, &JsonValue::Object(vec![])),
        Err(DeserializeError::InvalidValue)
    );
}

#[test]
fn well_known_types_nest() {
    let pool = well_known_pool();
    let holder = pool.get_message(HOLDER).unwrap();
    let json = JsonValue::Object(vec![
        member("elapsed", text("2.25s")),
        member("count", JsonValue::Number(JsonNumber::from_i64(3))),
        member("anything", JsonValue::Null),
    ]);
    let read = DynamicMessage::deserialize(holder, &json).unwrap();
    assert_eq!(
        read.fields.get(holder.get_field(1).unwrap()).into_owned(),
        Value::Message(timed(pool.get_message(DURATION).unwrap(), 2, 250000000))
    );
    assert!(read.fields.has(holder.get_field(3).unwrap()));
    assert_eq!(read.serialize_with_options(&SerializeOptions::new()), Ok(json));
    let skipped = JsonValue::Object(vec![member("elapsed", JsonValue::Null)]);
    assert_eq!(
        DynamicMessage::deserialize_with_options(holder, &skipped, &DeserializeOptions::new()),
        Ok(DynamicMessage::new(holder))
    );
}

fn mask<'a>(desc: MessageDescriptorRef<'a>, paths: &[&str]) -> DynamicMessage<'a> {
    let mut message = DynamicMessage::new(desc);
    message.fields.set(
        desc.get_field(1).unwrap(),
        Value::List(paths.iter().map(|p| Value::String(p.to_string())).collect()),
    );
    message
}

#[test]
fn field_mask_is_written_in_camel_case() {
    let pool = well_known_pool();
    let desc = pool.get_message(FIELD_MASK).unwrap();
    assert_eq!(mask(desc, &["foo_bar", "baz.qux_quux", "a1"]).serialize(), Ok(text("fooBar,baz.quxQuux,a1")));
    assert_eq!(
        DynamicMessage::deserialize(desc, &text("fooBar,baz.quxQuux,a1")),
        Ok(mask(desc, &["foo_bar", "baz.qux_quux", "a1"]))
    );
    assert_eq!(DynamicMessage::new(desc).serialize(), Ok(text("")));
    assert_eq!(mask(desc, &[]).serialize(), Ok(text("")));
    assert_eq!(DynamicMessage::deserialize(desc, &text("")), Ok(mask(desc, &[])));
    assert_eq!(mask(desc, &["a", ""]).serialize(), Ok(text("a,")));
    assert_eq!(DynamicMessage::deserialize(desc, &text("a,")), Ok(mask(desc, &["a", ""])));
    for bad in ["fooBar", "foo_", "foo__bar", "foo_1", "_"] {
        assert_eq!(mask(desc, &[bad]).serialize(), Err(SerializeError::InvalidValue), "{:?}", bad);
    }
    assert_eq!(
        DynamicMessage::deserialize(desc, &text("foo_bar")),
        Err(DeserializeError::InvalidValue)
    );
    assert_eq!(
        DynamicMessage::deserialize(desc, &JsonValue::Array(vec![])),
        Err(DeserializeError::InvalidValue)
    );
}
