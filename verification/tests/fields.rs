use prost_reflect::{
    Cardinality, DescriptorPool, DynamicMessageFieldSet, EnumData, EnumValueData, ExtensionData,
    FieldData, Kind, MapEntry, MapKey, MessageData, UnknownField, Value, ValueAndDescriptor,
};

fn field(name: &str, json_name: &str, number: u32, kind: Kind) -> FieldData {
    FieldData {
        name: name.to_string(),
        json_name: json_name.to_string(),
        number,
        kind,
        cardinality: Cardinality::Optional,
        explicit_presence: false,
        oneof: None,
        is_packed: false,
        is_group: false,
    }
}

fn test_pool() -> DescriptorPool {
    let mut one_a = field("one_a", "oneA", 3, Kind::Int32);
    one_a.oneof = Some(0);
    let mut one_b = field("one_b", "oneB", 4, Kind::String);
    one_b.oneof = Some(0);
    let mut numbers = field("numbers", "numbers", 6, Kind::Int64);
    numbers.cardinality = Cardinality::Repeated;
    let mut labels = field("labels", "labels", 7, Kind::Message(1));
    labels.cardinality = Cardinality::Repeated;
    let mut opt = field("opt", "opt", 11, Kind::Int32);
    opt.explicit_presence = true;
    let message = MessageData {
        full_name: "test.Message".to_string(),
        is_map_entry: false,
        fields: vec![
            field("a_int", "aInt", 1, Kind::Int32),
            field("name", "name", 2, Kind::String),
            one_a,
            one_b,
            field("child", "child", 5, Kind::Message(0)),
            numbers,
            labels,
            field("color", "color", 8, Kind::Enum(0)),
            field("big", "big", 9, Kind::Uint64),
            field("data", "data", 10, Kind::Bytes),
            opt,
        ],
    };
    let entry = MessageData {
        full_name: "test.Message.LabelsEntry".to_string(),
        is_map_entry: true,
        fields: vec![field("key", "key", 1, Kind::String), field("value", "value", 2, Kind::Int32)],
    };
    let color = EnumData {
        full_name: "test.Color".to_string(),
        values: vec![
            EnumValueData { name: "RED".to_string(), number: 0 },
            EnumValueData { name: "GREEN".to_string(), number: 1 },
        ],
    };
    let extension = ExtensionData {
        full_name: "test.ext".to_string(),
        json_name: "[test.ext]".to_string(),
        number: 100,
        kind: Kind::Int32,
        cardinality: Cardinality::Optional,
        extendee: 0,
        is_packed: false,
        is_group: false,
    };
    DescriptorPool::new(vec![message, entry], vec![color], vec![extension]).expect("a consistent pool")
}

#[test]
fn pool_rejects_dangling_kinds_and_repeated_numbers() {
    let dangling = MessageData {
        full_name: "m".to_string(),
        is_map_entry: false,
        fields: vec![field("f", "f", 1, Kind::Message(3))],
    };
    assert!(DescriptorPool::new(vec![dangling], vec![], vec![]).is_none());
    let twice = MessageData {
        full_name: "m".to_string(),
        is_map_entry: false,
        fields: vec![field("f", "f", 1, Kind::Int32), field("g", "g", 1, Kind::Int32)],
    };
    assert!(DescriptorPool::new(vec![twice], vec![], vec![]).is_none());
}

#[test]
fn unset_field_reads_as_default() {
    let pool = test_pool();
    let message = pool.get_message(0).unwrap();
    let store = DynamicMessageFieldSet::new();
    let a_int = message.get_field(1).unwrap();
    let name = message.get_field(2).unwrap();
    let numbers = message.get_field(6).unwrap();
    let labels = message.get_field(7).unwrap();
    assert!(!store.has(a_int));
    assert_eq!(store.get(a_int).into_owned(), Value::I32(0));
    assert_eq!(store.get(name).into_owned(), Value::String(String::new()));
    assert_eq!(store.get(numbers).into_owned(), Value::List(vec![]));
    assert_eq!(store.get(labels).into_owned(), Value::Entries(vec![]));
    assert!(store.get_value(1).is_none());
}

#[test]
fn implicit_presence_counts_only_values_off_the_default() {
    let pool = test_pool();
    let message = pool.get_message(0).unwrap();
    let a_int = message.get_field(1).unwrap();
    let opt = message.get_field(11).unwrap();
    let mut store = DynamicMessageFieldSet::new();
    store.set(a_int, Value::I32(0));
    store.set(opt, Value::I32(0));
    assert!(!store.has(a_int));
    assert!(store.has(opt));
    store.set(a_int, Value::I32(7));
    assert!(store.has(a_int));
    assert_eq!(store.get(a_int).into_owned(), Value::I32(7));
}

#[test]
fn clear_resets_to_default() {
    let pool = test_pool();
    let message = pool.get_message(0).unwrap();
    let a_int = message.get_field(1).unwrap();
    let mut store = DynamicMessageFieldSet::new();
    store.set(a_int, Value::I32(5));
    store.clear(a_int);
    assert_eq!(store.get(a_int).into_owned(), Value::I32(0));
    assert!(!store.has(a_int));
    assert!(store.is_empty());
}

#[test]
fn writing_one_member_of_a_oneof_clears_the_others() {
    let pool = test_pool();
    let message = pool.get_message(0).unwrap();
    let one_a = message.get_field(3).unwrap();
    let one_b = message.get_field(4).unwrap();
    let mut store = DynamicMessageFieldSet::new();
    store.set(one_a, Value::I32(0));
    assert!(store.has(one_a));
    assert!(!store.has(one_b));
    store.set(one_b, Value::String("x".to_string()));
    assert!(store.has(one_b));
    assert!(!store.has(one_a));
    assert!(store.get_value(3).is_none());
    *store.get_mut(one_a) = Value::I32(9);
    assert!(store.has(one_a));
    assert!(!store.has(one_b));
    assert_eq!(store.get(one_a).into_owned(), Value::I32(9));
}

#[test]
fn get_mut_materializes_the_default() {
    let pool = test_pool();
    let message = pool.get_message(0).unwrap();
    let numbers = message.get_field(6).unwrap();
    let opt = message.get_field(11).unwrap();
    let mut store = DynamicMessageFieldSet::new();
    match store.get_mut(numbers) {
        Value::List(items) => items.push(Value::I64(4)),
        other => panic!("unexpected {:?}", other),
    }
    assert_eq!(store.get(numbers).into_owned(), Value::List(vec![Value::I64(4)]));
    assert_eq!(*store.get_mut(opt), Value::I32(0));
    assert!(store.has(opt));
}

#[test]
fn unknown_entries_are_walked_in_insertion_order() {
    let pool = test_pool();
    let message = pool.get_message(0).unwrap();
    let a_int = message.get_field(1).unwrap();
    let mut store = DynamicMessageFieldSet::new();
    store.add_unknown(50, UnknownField::new(vec![1]));
    store.add_unknown(50, UnknownField::new(vec![2, 3]));
    store.set(a_int, Value::I32(1));
    let items = store.iter(message);
    assert_eq!(items.len(), 2);
    match &items[0] {
        ValueAndDescriptor::Field(value, field) => {
            assert_eq!(**value, Value::I32(1));
            assert_eq!(field.number(), 1);
        }
        other => panic!("unexpected {:?}", other),
    }
    match &items[1] {
        ValueAndDescriptor::Unknown(number, entries) => {
            assert_eq!(*number, 50);
            assert_eq!(entries.len(), 2);
            assert_eq!(entries[0].bytes, vec![1]);
            assert_eq!(entries[1].bytes, vec![2, 3]);
        }
        other => panic!("unexpected {:?}", other),
    }
}

#[test]
fn a_write_discards_unknown_entries() {
    let pool = test_pool();
    let message = pool.get_message(0).unwrap();
    let a_int = message.get_field(1).unwrap();
    let mut store = DynamicMessageFieldSet::new();
    store.add_unknown(1, UnknownField::new(vec![9]));
    assert!(!store.has(a_int));
    assert_eq!(store.get(a_int).into_owned(), Value::I32(0));
    store.set(a_int, Value::I32(3));
    let items = store.iter(message);
    assert_eq!(items.len(), 1);
    assert!(matches!(&items[0], ValueAndDescriptor::Field(value, _) if **value == Value::I32(3)));
}

#[test]
fn walk_ascends_and_names_extensions() {
    let pool = test_pool();
    let message = pool.get_message(0).unwrap();
    let extension = message.get_extension(100).unwrap();
    let name = message.get_field(2).unwrap();
    let a_int = message.get_field(1).unwrap();
    let mut store = DynamicMessageFieldSet::new();
    store.set(extension, Value::I32(8));
    store.set(name, Value::String("n".to_string()));
    store.set(a_int, Value::I32(0));
    let items = store.iter(message);
    assert_eq!(items.len(), 2);
    assert!(matches!(&items[0], ValueAndDescriptor::Field(_, field) if field.number() == 2));
    assert!(
        matches!(&items[1], ValueAndDescriptor::Extension(value, ext) if ext.number() == 100 && **value == Value::I32(8))
    );
    store.clear_all();
    assert!(store.iter(message).is_empty());
}

#[test]
fn validity_follows_the_kind() {
    let pool = test_pool();
    let message = pool.get_message(0).unwrap();
    let a_int = message.get_field(1).unwrap();
    let numbers = message.get_field(6).unwrap();
    let labels = message.get_field(7).unwrap();
    assert!(Value::I32(1).is_valid_for_field(&a_int));
    assert!(!Value::I64(1).is_valid_for_field(&a_int));
    assert!(Value::List(vec![Value::I64(1)]).is_valid_for_field(&numbers));
    assert!(!Value::List(vec![Value::I32(1)]).is_valid_for_field(&numbers));
    let entry = |k: &str, v: i32| MapEntry { key: MapKey::String(k.to_string()), value: Value::I32(v) };
    assert!(Value::Entries(vec![entry("a", 1), entry("b", 2)]).is_valid_for_field(&labels));
    assert!(!Value::Entries(vec![entry("a", 1), entry("a", 2)]).is_valid_for_field(&labels));
}

#[test]
fn clones_hold_the_same() {
    let pool = test_pool();
    let message = pool.get_message(0).unwrap();
    let name = message.get_field(2).unwrap();
    let mut store = DynamicMessageFieldSet::new();
    store.set(name, Value::String("n".to_string()));
    store.add_unknown(60, UnknownField::new(vec![1, 2]));
    assert_eq!(store.clone(), store);
}

#[test]
fn descriptors_answer_for_their_declarations() {
    let pool = test_pool();
    assert_eq!(pool.message_count(), 2);
    assert_eq!(pool.extension_count(), 1);
    assert!(pool.get_message(2).is_none());
    let message = pool.get_message(0).unwrap();
    assert_eq!(message.full_name(), "test.Message");
    assert_eq!(message.field_count(), 11);
    assert!(message.get_field(99).is_none());
    assert!(message.get_extension(1).is_none());
    let labels = message.get_field(7).unwrap();
    assert!(labels.is_map() && !labels.is_list() && !labels.supports_presence());
    let numbers = message.get_field(6).unwrap();
    assert!(numbers.is_list() && numbers.is_packable());
    let name = message.get_field(2).unwrap();
    assert!(!name.is_packable() && !name.supports_presence());
    assert_eq!(name.name(), "name");
    let child = message.get_field(5).unwrap();
    assert!(child.supports_presence());
    let one_a = message.get_field_by_any_name("oneA").unwrap();
    assert_eq!(one_a.number(), 3);
    assert_eq!(message.get_field_by_any_name("one_a").unwrap().number(), 3);
    let group = one_a.containing_oneof().unwrap();
    let members: Vec<u32> = group.fields().iter().map(|f| f.number()).collect();
    assert_eq!(members, vec![3, 4]);
    assert!(name.containing_oneof().is_none());
    let extension = message.get_extension_by_any_name("test.ext").unwrap();
    assert_eq!(extension.number(), 100);
    assert_eq!(extension.full_name(), "test.ext");
    assert_eq!(extension.containing_message().full_name(), "test.Message");
    assert!(extension.supports_presence());
}
