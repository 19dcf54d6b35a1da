use prost_reflect::json::de::{deserialize_message, DeserializeError};
use prost_reflect::json::ser::{serialize_message, SerializeError};
use prost_reflect::json::value::{JsonMember, JsonNumber, JsonValue};
use prost_reflect::{
    Cardinality, DescriptorPool, DeserializeOptions, DynamicMessage, EnumData, EnumValueData,
    ExtensionData, FieldData, Kind, MapEntry, MapKey, MessageData, SerializeOptions, Value,
};

fn field(name: &str, json_name: &str, number: u32, kind: Kind) -> FieldData {
    FieldData {
        name: name.to_string(),
        json_name: json_name.to_string(),
        number,
        kind,
        cardinality: Cardinality::Optional,
        explicit_presence: false,
        oneof: None,
        is_packed: false,
        is_group: false,
    }
}

fn test_pool() -> DescriptorPool {
    let mut one_a = field("one_a", "oneA", 3, Kind::Int32);
    one_a.oneof = Some(0);
    let mut one_b = field("one_b", "oneB", 4, Kind::String);
    one_b.oneof = Some(0);
    let mut numbers = field("numbers", "numbers", 6, Kind::Int64);
    numbers.cardinality = Cardinality::Repeated;
    let mut labels = field("labels", "labels", 7, Kind::Message(1));
    labels.cardinality = Cardinality::Repeated;
    let mut opt = field("opt", "opt", 11, Kind::Int32);
    opt.explicit_presence = true;
    let message = MessageData {
        full_name: "test.Message".to_string(),
        is_map_entry: false,
        fields: vec![
            field("a_int", "aInt", 1, Kind::Int32),
            field("name", "name", 2, Kind::String),
            one_a,
            one_b,
            field("child", "child", 5, Kind::Message(0)),
            numbers,
            labels,
            field("color", "color", 8, Kind::Enum(0)),
            field("big", "big", 9, Kind::Uint64),
            field("data", "data", 10, Kind::Bytes),
            opt,
        ],
    };
    let entry = MessageData {
        full_name: "test.Message.LabelsEntry".to_string(),
        is_map_entry: true,
        fields: vec![field("key", "key", 1, Kind::String), field("value", "value", 2, Kind::Int32)],
    };
    let color = EnumData {
        full_name: "test.Color".to_string(),
        values: vec![
            EnumValueData { name: "RED".to_string(), number: 0 },
            EnumValueData { name: "GREEN".to_string(), number: 1 },
        ],
    };
    let extension = ExtensionData {
        full_name: "test.ext".to_string(),
        json_name: "[test.ext]".to_string(),
        number: 100,
        kind: Kind::Int32,
        cardinality: Cardinality::Optional,
        extendee: 0,
        is_packed: false,
        is_group: false,
    };
    DescriptorPool::new(vec![message, entry], vec![color], vec![extension]).expect("a consistent pool")
}

fn member(name: &str, value: JsonValue) -> JsonMember {
    JsonMember { name: name.to_string(), value }
}

fn num(n: i64) -> JsonValue {
    JsonValue::Number(JsonNumber::from_i64(n))
}

fn text(s: &str) -> JsonValue {
    JsonValue::String(s.to_string())
}

#[test]
fn default_int32_is_written_only_when_defaults_are_kept() {
    let pool = test_pool();
    let message = DynamicMessage::new(pool.get_message(0).unwrap());
    assert_eq!(serialize_message(&message, &SerializeOptions::new()), Ok(JsonValue::Object(vec![])));
    let kept = serialize_message(&message, &SerializeOptions::new().skip_default_fields(false)).unwrap();
    let members = match kept {
        JsonValue::Object(members) => members,
        other => panic!("unexpected {:?}", other),
    };
    assert_eq!(members[0], member("aInt", num(0)));
    let names: Vec<&str> = members.iter().map(|m| m.name.as_str()).collect();
    assert_eq!(
        names,
        vec![
            "aInt", "name", "oneA", "oneB", "child", "numbers", "labels", "color", "big", "data", "opt",
            "[test.ext]"
        ]
    );
    assert_eq!(members[4], member("child", JsonValue::Object(vec![])));
    assert_eq!(members[5], member("numbers", JsonValue::Array(vec![])));
    assert_eq!(members[7], member("color", text("RED")));
    assert_eq!(members[8], member("big", text("0")));
}

#[test]
fn unnamed_enum_value_fails_by_name_and_is_written_by_number() {
    let pool = test_pool();
    let desc = pool.get_message(0).unwrap();
    let mut message = DynamicMessage::new(desc);
    message.fields.set(desc.get_field(8).unwrap(), Value::EnumNumber(5));
    assert_eq!(
        serialize_message(&message, &SerializeOptions::new()),
        Err(SerializeError::UnknownEnumValue(5))
    );
    assert_eq!(
        serialize_message(&message, &SerializeOptions::new().use_enum_numbers(true)),
        Ok(JsonValue::Object(vec![member("color", num(5))]))
    );
    message.fields.set(desc.get_field(8).unwrap(), Value::EnumNumber(1));
    assert_eq!(
        serialize_message(&message, &SerializeOptions::new()),
        Ok(JsonValue::Object(vec![member("color", text("GREEN"))]))
    );
}

#[test]
fn two_members_of_one_oneof_are_ambiguous() {
    let pool = test_pool();
    let desc = pool.get_message(0).unwrap();
    let json = JsonValue::Object(vec![member("oneA", text("123")), member("one_b", text("x"))]);
    assert_eq!(
        deserialize_message(desc, &json, &DeserializeOptions::new()),
        Err(DeserializeError::AmbiguousOneof)
    );
    let twice = JsonValue::Object(vec![member("oneA", text("123")), member("one_a", num(5))]);
    assert_eq!(
        deserialize_message(desc, &twice, &DeserializeOptions::new()),
        Err(DeserializeError::AmbiguousOneof)
    );
}

#[test]
fn unknown_members_are_denied_or_passed_over() {
    let pool = test_pool();
    let desc = pool.get_message(0).unwrap();
    let json = JsonValue::Object(vec![member("nope", num(1)), member("aInt", num(2))]);
    assert_eq!(
        deserialize_message(desc, &json, &DeserializeOptions::new()),
        Err(DeserializeError::UnknownField)
    );
    let read =
        deserialize_message(desc, &json, &DeserializeOptions::new().deny_unknown_fields(false)).unwrap();
    assert_eq!(read.fields.get(desc.get_field(1).unwrap()).into_owned(), Value::I32(2));
}

#[test]
fn sixty_four_bit_integers_are_strings_unless_asked_otherwise() {
    let pool = test_pool();
    let desc = pool.get_message(0).unwrap();
    let mut message = DynamicMessage::new(desc);
    message.fields.set(desc.get_field(9).unwrap(), Value::U64(18446744073709551615));
    message.fields.set(desc.get_field(6).unwrap(), Value::List(vec![Value::I64(-12), Value::I64(0)]));
    assert_eq!(
        serialize_message(&message, &SerializeOptions::new()),
        Ok(JsonValue::Object(vec![
            member("numbers", JsonValue::Array(vec![text("-12"), text("0")])),
            member("big", text("18446744073709551615")),
        ]))
    );
    assert_eq!(
        serialize_message(&message, &SerializeOptions::new().stringify_64_bit_integers(false)),
        Ok(JsonValue::Object(vec![
            member("numbers", JsonValue::Array(vec![num(-12), num(0)])),
            member("big", JsonValue::Number(JsonNumber::from_u64(18446744073709551615))),
        ]))
    );
}

#[test]
fn declared_names_are_used_on_request() {
    let pool = test_pool();
    let desc = pool.get_message(0).unwrap();
    let mut message = DynamicMessage::new(desc);
    message.fields.set(desc.get_field(1).unwrap(), Value::I32(4));
    message.fields.set(desc.get_extension(100).unwrap(), Value::I32(6));
    assert_eq!(
        serialize_message(&message, &SerializeOptions::new().use_proto_field_name(true)),
        Ok(JsonValue::Object(vec![member("a_int", num(4)), member("[test.ext]", num(6))]))
    );
}

#[test]
fn numbers_are_read_from_strings_and_range_checked() {
    let pool = test_pool();
    let desc = pool.get_message(0).unwrap();
    let options = DeserializeOptions::new();
    let read = deserialize_message(desc, &JsonValue::Object(vec![member("aInt", text("-17"))]), &options)
        .unwrap();
    assert_eq!(read.fields.get(desc.get_field(1).unwrap()).into_owned(), Value::I32(-17));
    for bad in ["2147483648", "1.5", "", "-", "12a"] {
        assert_eq!(
            deserialize_message(desc, &JsonValue::Object(vec![member("aInt", text(bad))]), &options),
            Err(DeserializeError::InvalidValue),
            "{:?}",
            bad
        );
    }
    assert_eq!(
        deserialize_message(desc, &JsonValue::Object(vec![member("aInt", num(1 << 40))]), &options),
        Err(DeserializeError::InvalidValue)
    );
    assert_eq!(
        deserialize_message(desc, &JsonValue::Object(vec![member("color", text("BLUE"))]), &options),
        Err(DeserializeError::UnknownEnumName)
    );
    assert_eq!(
        deserialize_message(desc, &num(1), &options),
        Err(DeserializeError::InvalidValue)
    );
}

fn sample<'a>(pool: &'a DescriptorPool) -> DynamicMessage<'a> {
    let desc = pool.get_message(0).unwrap();
    let mut child = DynamicMessage::new(desc);
    child.fields.set(desc.get_field(4).unwrap(), Value::String("inner".to_string()));
    let mut message = DynamicMessage::new(desc);
    message.fields.set(desc.get_field(1).unwrap(), Value::I32(-3));
    message.fields.set(desc.get_field(2).unwrap(), Value::String("outer".to_string()));
    message.fields.set(desc.get_field(3).unwrap(), Value::I32(0));
    message.fields.set(desc.get_field(5).unwrap(), Value::Message(child));
    message.fields.set(desc.get_field(6).unwrap(), Value::List(vec![Value::I64(1), Value::I64(-2)]));
    message.fields.set(
        desc.get_field(7).unwrap(),
        Value::Entries(vec![
            MapEntry { key: MapKey::String("x".to_string()), value: Value::I32(1) },
            MapEntry { key: MapKey::String("y".to_string()), value: Value::I32(2) },
        ]),
    );
    message.fields.set(desc.get_field(8).unwrap(), Value::EnumNumber(1));
    message.fields.set(desc.get_field(9).unwrap(), Value::U64(1 << 63));
    message.fields.set(desc.get_field(10).unwrap(), Value::Bytes(vec![0, 1, 2, 253, 254, 255]));
    message.fields.set(desc.get_field(11).unwrap(), Value::I32(0));
    message.fields.set(desc.get_extension(100).unwrap(), Value::I32(77));
    message
}

#[test]
fn bytes_are_written_in_base64() {
    let pool = test_pool();
    let desc = pool.get_message(0).unwrap();
    let mut message = DynamicMessage::new(desc);
    message.fields.set(desc.get_field(10).unwrap(), Value::Bytes(vec![0, 1, 2, 253, 254, 255]));
    assert_eq!(
        serialize_message(&message, &SerializeOptions::new()),
        Ok(JsonValue::Object(vec![member("data", text("AAEC/f7/"))]))
    );
    let read = deserialize_message(
        desc,
        &JsonValue::Object(vec![member("data", text("AAEC/f7/"))]),
        &DeserializeOptions::new(),
    )
    .unwrap();
    assert_eq!(read, message);
    assert_eq!(
        deserialize_message(
            desc,
            &JsonValue::Object(vec![member("data", text("!"))]),
            &DeserializeOptions::new()
        ),
        Err(DeserializeError::InvalidValue)
    );
}

#[test]
fn messages_come_back_as_they_were_written() {
    let pool = test_pool();
    let message = sample(&pool);
    let desc = pool.get_message(0).unwrap();
    for stringify in [true, false] {
        for numbers in [true, false] {
            for declared in [true, false] {
                for skip in [true, false] {
                    let options = SerializeOptions::new()
                        .stringify_64_bit_integers(stringify)
                        .use_enum_numbers(numbers)
                        .use_proto_field_name(declared)
                        .skip_default_fields(skip);
                    let json = serialize_message(&message, &options).unwrap();
                    if skip {
                        let read = deserialize_message(desc, &json, &DeserializeOptions::new()).unwrap();
                        assert_eq!(read, message);
                        assert_eq!(serialize_message(&read, &options).unwrap(), json);
                    } else {
                        // Every member of a oneof group is written, so the
                        // object names two members of one group.
                        assert_eq!(
                            deserialize_message(desc, &json, &DeserializeOptions::new()),
                            Err(DeserializeError::AmbiguousOneof)
                        );
                    }
                }
            }
        }
    }
}

#[test]
fn floats_that_are_no_numbers_are_written_as_strings() {
    let pool = DescriptorPool::new(
        vec![MessageData {
            full_name: "test.Floats".to_string(),
            is_map_entry: false,
            fields: vec![field("single", "single", 1, Kind::Float), field("double", "double", 2, Kind::Double)],
        }],
        vec![],
        vec![],
    )
    .unwrap();
    let desc = pool.get_message(0).unwrap();
    let cases: [(u32, u64, JsonValue, JsonValue); 4] = [
        (0x7fc0_0000, 0x7ff8_0000_0000_0000, text("NaN"), text("NaN")),
        (0x7f80_0000, 0x7ff0_0000_0000_0000, text("Infinity"), text("Infinity")),
        (0xff80_0000, 0xfff0_0000_0000_0000, text("-Infinity"), text("-Infinity")),
        (
            0x3fc0_0000,
            0x3ff8_0000_0000_0000,
            JsonValue::Number(JsonNumber::from_single_bits(0x3fc0_0000)),
            JsonValue::Number(JsonNumber::from_double_bits(0x3ff8_0000_0000_0000)),
        ),
    ];
    for (single, double, single_json, double_json) in cases {
        let mut message = DynamicMessage::new(desc);
        message.fields.set(desc.get_field(1).unwrap(), Value::F32(single));
        message.fields.set(desc.get_field(2).unwrap(), Value::F64(double));
        let json = serialize_message(&message, &SerializeOptions::new()).unwrap();
        assert_eq!(json, JsonValue::Object(vec![member("single", single_json), member("double", double_json)]));
        assert_eq!(deserialize_message(desc, &json, &DeserializeOptions::new()), Ok(message));
    }
    // a number that was read holds its readings in both widths, and as an integer
    let read = JsonValue::Number(JsonNumber {
        int: Some(2),
        uint: Some(2),
        double: Some(0x4000_0000_0000_0000),
        single: Some(0x4000_0000),
    });
    let message = deserialize_message(
        desc,
        &JsonValue::Object(vec![member("single", read)]),
        &DeserializeOptions::new(),
    )
    .unwrap();
    assert_eq!(message.fields.get(desc.get_field(1).unwrap()).into_owned(), Value::F32(0x4000_0000));
    assert_eq!(
        deserialize_message(desc, &JsonValue::Object(vec![member("double", num(2))]), &DeserializeOptions::new()),
        Err(DeserializeError::InvalidValue)
    );
}

#[test]
fn map_keys_are_written_as_text() {
    let key = |name: &str, kind: Kind| {
        let mut entry = MessageData {
            full_name: name.to_string(),
            is_map_entry: true,
            fields: vec![field("key", "key", 1, kind), field("value", "value", 2, Kind::Bool)],
        };
        entry.is_map_entry = true;
        entry
    };
    let mut by_flag = field("by_flag", "byFlag", 1, Kind::Message(1));
    by_flag.cardinality = Cardinality::Repeated;
    let mut by_number = field("by_number", "byNumber", 2, Kind::Message(2));
    by_number.cardinality = Cardinality::Repeated;
    let pool = DescriptorPool::new(
        vec![
            MessageData { full_name: "test.Maps".to_string(), is_map_entry: false, fields: vec![by_flag, by_number] },
            key("test.Maps.ByFlagEntry", Kind::Bool),
            key("test.Maps.ByNumberEntry", Kind::Sint64),
        ],
        vec![],
        vec![],
    )
    .unwrap();
    let desc = pool.get_message(0).unwrap();
    let mut message = DynamicMessage::new(desc);
    message.fields.set(
        desc.get_field(1).unwrap(),
        Value::Entries(vec![MapEntry { key: MapKey::Bool(true), value: Value::Bool(false) }]),
    );
    message.fields.set(
        desc.get_field(2).unwrap(),
        Value::Entries(vec![
            MapEntry { key: MapKey::I64(-9223372036854775808), value: Value::Bool(true) },
            MapEntry { key: MapKey::I64(7), value: Value::Bool(false) },
        ]),
    );
    let json = serialize_message(&message, &SerializeOptions::new()).unwrap();
    assert_eq!(
        json,
        JsonValue::Object(vec![
            member("byFlag", JsonValue::Object(vec![member("true", JsonValue::Bool(false))])),
            member(
                "byNumber",
                JsonValue::Object(vec![
                    member("-9223372036854775808", JsonValue::Bool(true)),
                    member("7", JsonValue::Bool(false)),
                ])
            ),
        ])
    );
    assert_eq!(deserialize_message(desc, &json, &DeserializeOptions::new()), Ok(message));
    let twice = JsonValue::Object(vec![member(
        "byNumber",
        JsonValue::Object(vec![member("7", JsonValue::Bool(true)), member("07", JsonValue::Bool(true))]),
    )]);
    assert_eq!(
        deserialize_message(desc, &twice, &DeserializeOptions::new()),
        Err(DeserializeError::InvalidValue)
    );
    let no_key = JsonValue::Object(vec![member(
        "byFlag",
        JsonValue::Object(vec![member("yes", JsonValue::Bool(true))]),
    )]);
    assert_eq!(
        deserialize_message(desc, &no_key, &DeserializeOptions::new()),
        Err(DeserializeError::InvalidValue)
    );
}
