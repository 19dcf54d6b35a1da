//! `Struct`, `Value` and `ListValue` are read back from the JSON that they
//! are written as.

use vstd::prelude::*;
use crate::descriptor::{FieldDescriptorRef, KindRef, MessageDescriptorRef};
use crate::fields::{decoded, set_spec};
use crate::json::de::{
    list_of_json, message_of_json, nested_type, nesting_message, scalar_message_of_json,
    scalar_of_json, struct_of_json, value_message_of_json, value_of_json, well_known_of_json,
    DeserializeError,
};
use crate::json::laws::law_scalar_reads_back;
use crate::json::round_trip::{
    lemma_entries_read_back, lemma_entries_written, lemma_field_count_fits, lemma_items_read_back,
    lemma_items_written,
};
use crate::json::ser::{
    double_is_infinite, double_is_nan, json_of_entries, json_of_field_value, json_of_held,
    json_of_items, json_of_message, json_of_numbered, json_of_scalar, json_of_value,
    json_of_well_known, kind_held, SerializeError,
};
use crate::json::value::JsonView;
use crate::json::{well_known_type, DeserializeOptions, SerializeOptions};
use crate::value::{valid_key_for_kind, EntryView, MapKeyView, MessageView, ValueView};

verus! {

/// The message holds `v` under `number`, and nothing else.
pub open spec fn holds_only<'a>(m: MessageView<'a>, number: u32, v: ValueView<'a>) -> bool {
    m.fields == Map::<u32, EntryView<'a>>::empty().insert(number, EntryView::Value(v))
}

/// The field of `desc` numbered `number`, where it declares one.
pub open spec fn numbered<'a>(desc: MessageDescriptorRef<'a>, number: u32) -> FieldDescriptorRef<'a> {
    FieldDescriptorRef::at(desc, desc.field_index(number)->Some_0 as usize)
}

/// The type declares a singular field under `number`.
pub open spec fn declares_single<'a>(desc: MessageDescriptorRef<'a>, number: u32) -> bool {
    &&& desc.field_index(number) is Some
    &&& !numbered(desc, number).holds_list()
    &&& !numbered(desc, number).holds_map()
}

/// The `Struct` is one that is read back: it holds, under the number 1 and
/// nothing else, a map from distinct strings to values that are read back.
pub open spec fn struct_kept<'a>(m: MessageView<'a>) -> bool
    decreases m, 0nat,
{
    &&& m.desc.wf()
    &&& m.desc.full_name_spec() == "google.protobuf.Struct"@
    &&& m.desc.field_index(1) is Some
    &&& numbered(m.desc, 1).holds_map()
    &&& numbered(m.desc, 1).resolved_kind() matches KindRef::Message(entry)
    &&& entry.data().is_map_entry
    &&& entry.map_key_kind_spec() is String
    &&& entry.map_value_kind_spec() matches KindRef::Message(inner)
    &&& m.fields.contains_key(1)
    &&& m.fields[1] matches EntryView::Value(ValueView::Entries(entries))
    &&& holds_only(m, 1, ValueView::Entries(entries))
    &&& forall|i: int|
        0 <= i < entries.len() ==> (#[trigger] entries[i]).0 is String && (
        entries[i].1 matches ValueView::Message(held) && held.desc == inner && value_kept(held))
    &&& forall|a: int, b: int|
        0 <= a < b < entries.len() ==> (#[trigger] entries[a]).0 != (#[trigger] entries[b]).0
}

/// The `ListValue` is one that is read back: it holds, under the number 1
/// and nothing else, a list of values that are read back.
pub open spec fn list_kept<'a>(m: MessageView<'a>) -> bool
    decreases m, 0nat,
{
    &&& m.desc.wf()
    &&& m.desc.full_name_spec() == "google.protobuf.ListValue"@
    &&& m.desc.field_index(1) is Some
    &&& numbered(m.desc, 1).holds_list()
    &&& numbered(m.desc, 1).resolved_kind() matches KindRef::Message(inner)
    &&& m.fields.contains_key(1)
    &&& m.fields[1] matches EntryView::Value(ValueView::List(items))
    &&& holds_only(m, 1, ValueView::List(items))
    &&& forall|i: int|
        0 <= i < items.len() ==> ((#[trigger] items[i]) matches ValueView::Message(held) && held.desc
            == inner && value_kept(held))
}

/// The `Value` is one that is read back: it holds one of its six kinds, and
/// nothing else. The null value is zero, the number is finite, and the
/// `Struct` and the `ListValue` are read back.
pub open spec fn value_kept<'a>(m: MessageView<'a>) -> bool
    decreases m, 1nat,
{
    &&& m.desc.wf()
    &&& m.desc.full_name_spec() == "google.protobuf.Value"@
    &&& {
        ||| {
            &&& declares_single(m.desc, 1)
            &&& numbered(m.desc, 1).resolved_kind() matches KindRef::Enum(e)
            &&& e.data().full_name@ == "google.protobuf.NullValue"@
            &&& holds_only(m, 1, ValueView::EnumNumber(0))
        }
        ||| {
            &&& declares_single(m.desc, 2)
            &&& numbered(m.desc, 2).resolved_kind() is Double
            &&& m.fields.contains_key(2)
            &&& m.fields[2] matches EntryView::Value(ValueView::F64(bits))
            &&& holds_only(m, 2, ValueView::F64(bits))
            &&& !double_is_nan(bits)
            &&& !double_is_infinite(bits)
        }
        ||| {
            &&& declares_single(m.desc, 3)
            &&& numbered(m.desc, 3).resolved_kind() is String
            &&& m.fields.contains_key(3)
            &&& m.fields[3] matches EntryView::Value(ValueView::String(s))
            &&& holds_only(m, 3, ValueView::String(s))
        }
        ||| {
            &&& declares_single(m.desc, 4)
            &&& numbered(m.desc, 4).resolved_kind() is Bool
            &&& m.fields.contains_key(4)
            &&& m.fields[4] matches EntryView::Value(ValueView::Bool(b))
            &&& holds_only(m, 4, ValueView::Bool(b))
        }
        ||| {
            &&& declares_single(m.desc, 5)
            &&& numbered(m.desc, 5).resolved_kind() matches KindRef::Message(inner)
            &&& m.fields.contains_key(5)
            &&& m.fields[5] matches EntryView::Value(ValueView::Message(held))
            &&& holds_only(m, 5, ValueView::Message(held))
            &&& held.desc == inner
            &&& struct_kept(held)
        }
        ||| {
            &&& declares_single(m.desc, 6)
            &&& numbered(m.desc, 6).resolved_kind() matches KindRef::Message(inner)
            &&& m.fields.contains_key(6)
            &&& m.fields[6] matches EntryView::Value(ValueView::Message(held))
            &&& holds_only(m, 6, ValueView::Message(held))
            &&& held.desc == inner
            &&& list_kept(held)
        }
    }
}


/// The name sets the type apart from the well-known types that are tried
/// before `Value`.
pub open spec fn tried_before_value(full_name: Seq<char>) -> bool {
    ||| full_name == "google.protobuf.Duration"@
    ||| full_name == "google.protobuf.Timestamp"@
    ||| full_name == "google.protobuf.Empty"@
    ||| full_name == "google.protobuf.Any"@
    ||| full_name == "google.protobuf.FieldMask"@
}

proof fn lemma_value_name(full_name: Seq<char>)
    requires
        full_name == "google.protobuf.Value"@,
    ensures
        well_known_type(full_name),
        !tried_before_value(full_name),
{
    reveal_strlit("google.protobuf.Value");
    reveal_strlit("google.protobuf.Duration");
    reveal_strlit("google.protobuf.Timestamp");
    reveal_strlit("google.protobuf.Empty");
    reveal_strlit("google.protobuf.Any");
    reveal_strlit("google.protobuf.FieldMask");
    assert("google.protobuf.Value"@.len() == 21);
    assert("google.protobuf.Duration"@.len() == 24);
    assert("google.protobuf.Timestamp"@.len() == 25);
    assert("google.protobuf.Any"@.len() == 19);
    assert("google.protobuf.FieldMask"@.len() == 25);
    assert("google.protobuf.Value"@[16] == 'V');
    assert("google.protobuf.Empty"@[16] == 'E');
}

proof fn lemma_struct_name(full_name: Seq<char>)
    requires
        full_name == "google.protobuf.Struct"@,
    ensures
        well_known_type(full_name),
        !tried_before_value(full_name),
        full_name != "google.protobuf.Value"@,
{
    reveal_strlit("google.protobuf.Struct");
    reveal_strlit("google.protobuf.Value");
    reveal_strlit("google.protobuf.Duration");
    reveal_strlit("google.protobuf.Timestamp");
    reveal_strlit("google.protobuf.Empty");
    reveal_strlit("google.protobuf.Any");
    reveal_strlit("google.protobuf.FieldMask");
    assert("google.protobuf.Struct"@.len() == 22);
    assert("google.protobuf.Value"@.len() == 21);
    assert("google.protobuf.Duration"@.len() == 24);
    assert("google.protobuf.Timestamp"@.len() == 25);
    assert("google.protobuf.Empty"@.len() == 21);
    assert("google.protobuf.Any"@.len() == 19);
    assert("google.protobuf.FieldMask"@.len() == 25);
}

proof fn lemma_list_name(full_name: Seq<char>)
    requires
        full_name == "google.protobuf.ListValue"@,
    ensures
        well_known_type(full_name),
        !tried_before_value(full_name),
        full_name != "google.protobuf.Value"@,
        full_name != "google.protobuf.Struct"@,
{
    reveal_strlit("google.protobuf.ListValue");
    reveal_strlit("google.protobuf.Struct");
    reveal_strlit("google.protobuf.Value");
    reveal_strlit("google.protobuf.Duration");
    reveal_strlit("google.protobuf.Timestamp");
    reveal_strlit("google.protobuf.Empty");
    reveal_strlit("google.protobuf.Any");
    reveal_strlit("google.protobuf.FieldMask");
    assert("google.protobuf.ListValue"@.len() == 25);
    assert("google.protobuf.Struct"@.len() == 22);
    assert("google.protobuf.Value"@.len() == 21);
    assert("google.protobuf.Duration"@.len() == 24);
    assert("google.protobuf.Empty"@.len() == 21);
    assert("google.protobuf.Any"@.len() == 19);
    assert("google.protobuf.ListValue"@[16] == 'L');
    assert("google.protobuf.Timestamp"@[16] == 'T');
    assert("google.protobuf.FieldMask"@[16] == 'F');
}

/// A message of a well-known type that is neither tried before `Value` nor
/// `Value` is written as what it holds under the number 1.
#[verifier::spinoff_prover]
proof fn lemma_first_written<'a>(m: MessageView<'a>, written: SerializeOptions)
    requires
        well_known_type(m.desc.full_name_spec()),
        !tried_before_value(m.desc.full_name_spec()),
        m.desc.full_name_spec() != "google.protobuf.Value"@,
    ensures
        json_of_message(m, written) == json_of_numbered(m, 1, written),
{
    assert(json_of_message(m, written) == json_of_well_known(m, written));
}

/// A `Value` is written as what it holds under the number of the kind that
/// it holds.
#[verifier::spinoff_prover]
proof fn lemma_kind_written<'a>(m: MessageView<'a>, written: SerializeOptions, number: u32)
    requires
        well_known_type(m.desc.full_name_spec()),
        !tried_before_value(m.desc.full_name_spec()),
        m.desc.full_name_spec() == "google.protobuf.Value"@,
        kind_held(m.fields) == Some(number),
    ensures
        json_of_message(m, written) == json_of_numbered(m, number, written),
{
    assert(json_of_message(m, written) == json_of_well_known(m, written));
}

/// What a message holds under a number is written as the value of the field
/// of that number.
#[verifier::spinoff_prover]
proof fn lemma_numbered_written<'a>(
    m: MessageView<'a>,
    number: u32,
    v: ValueView<'a>,
    written: SerializeOptions,
)
    requires
        m.desc.field_index(number) is Some,
        m.fields.contains_key(number),
        m.fields[number] == EntryView::Value(v),
    ensures
        json_of_numbered(m, number, written) == json_of_field_value(
            v,
            numbered(m.desc, number).resolved_kind(),
            numbered(m.desc, number).holds_list(),
            numbered(m.desc, number).holds_map(),
            written,
        ),
{
    let field = numbered(m.desc, number);
    assert(json_of_numbered(m, number, written) == json_of_held(m, field, written));
    assert(decoded(m.fields, field.data().number) == Some(v)) by {
        broadcast use FieldDescriptorRef::lemma_at_parts;

        lemma_field_count_fits(m.desc);
        assert(field.data() == m.desc.data().fields@[m.desc.field_index(number)->Some_0]);
    }
}

/// The field that a type declares under a number carries the number.
proof fn lemma_numbered_number<'a>(desc: MessageDescriptorRef<'a>, number: u32)
    requires
        desc.field_index(number) is Some,
    ensures
        numbered(desc, number).data().number == number,
        numbered(desc, number) == FieldDescriptorRef::at(
            desc,
            desc.field_index(number)->Some_0 as usize,
        ),
{
    broadcast use FieldDescriptorRef::lemma_at_parts;

    lemma_field_count_fits(desc);
    assert(numbered(desc, number).data() == desc.data().fields@[desc.field_index(number)->Some_0]);
}

/// A message that holds a value under a number only is what a write of the
/// value to the field of that number makes of the message that holds
/// nothing.
proof fn lemma_holds_only_written<'a>(m: MessageView<'a>, number: u32, v: ValueView<'a>)
    requires
        m.desc.field_index(number) is Some,
        holds_only(m, number, v),
    ensures
        crate::json::de::message_with(m.desc, numbered(m.desc, number), v) == m,
{
    lemma_numbered_number(m.desc, number);
    assert(set_spec(Map::<u32, EntryView<'a>>::empty(), numbered(m.desc, number), v) =~= m.fields);
}

/// A `Struct` is read from an object.
#[verifier::spinoff_prover]
proof fn lemma_struct_read<'a>(j: JsonView, desc: MessageDescriptorRef<'a>, read: DeserializeOptions)
    requires
        well_known_type(desc.full_name_spec()),
        !tried_before_value(desc.full_name_spec()),
        desc.full_name_spec() != "google.protobuf.Value"@,
        desc.full_name_spec() == "google.protobuf.Struct"@,
    ensures
        message_of_json(j, desc, read) == struct_of_json(j, desc, read),
{
    assert(message_of_json(j, desc, read) == well_known_of_json(j, desc, read));
}

/// A `ListValue` is read from an array.
#[verifier::spinoff_prover]
proof fn lemma_list_read<'a>(j: JsonView, desc: MessageDescriptorRef<'a>, read: DeserializeOptions)
    requires
        well_known_type(desc.full_name_spec()),
        !tried_before_value(desc.full_name_spec()),
        desc.full_name_spec() != "google.protobuf.Value"@,
        desc.full_name_spec() != "google.protobuf.Struct"@,
        desc.full_name_spec() == "google.protobuf.ListValue"@,
    ensures
        message_of_json(j, desc, read) == list_of_json(j, desc, read),
{
    assert(message_of_json(j, desc, read) == well_known_of_json(j, desc, read));
}

/// A `Value` is read from any JSON value.
#[verifier::spinoff_prover]
proof fn lemma_value_read<'a>(j: JsonView, desc: MessageDescriptorRef<'a>, read: DeserializeOptions)
    requires
        well_known_type(desc.full_name_spec()),
        !tried_before_value(desc.full_name_spec()),
        desc.full_name_spec() == "google.protobuf.Value"@,
    ensures
        message_of_json(j, desc, read) == value_message_of_json(j, desc, read),
{
    assert(message_of_json(j, desc, read) == well_known_of_json(j, desc, read));
}

/// A `Struct` that is kept is written as an object, and is read back from
/// it as it was.
pub proof fn law_struct_reads_back<'a>(
    m: MessageView<'a>,
    written: SerializeOptions,
    read: DeserializeOptions,
)
    requires
        struct_kept(m),
    ensures
        json_of_message(m, written) matches Ok(j) ==> j is Object && message_of_json(j, m.desc, read)
            == Ok::<MessageView<'a>, DeserializeError>(m),
    decreases m, 0nat,
{
    let desc = m.desc;
    lemma_struct_name(desc.full_name_spec());
    lemma_first_written(m, written);
    let field = numbered(desc, 1);
    let entry = field.resolved_kind()->Message_0;
    let kind = entry.map_value_kind_spec();
    let inner = kind->Message_0;
    let v = m.fields[1]->Value_0;
    let entries = v->Entries_0;
    lemma_numbered_written(m, 1, v, written);
    if json_of_message(m, written) is Ok {
        let j = json_of_message(m, written)->Ok_0;
        assert(json_of_entries(v, entries.len(), kind, written) is Ok);
        assert(j == JsonView::Object(json_of_entries(v, entries.len(), kind, written)->Ok_0));
        lemma_entries_written(v, entries.len(), kind, written);
        assert forall|i: int| 0 <= i < entries.len() implies (json_of_value(
            (#[trigger] v->Entries_0[i]).1,
            kind,
            written,
        ) matches Ok(ji) ==> value_of_json(ji, kind, read) == Ok::<ValueView<'a>, DeserializeError>(
            v->Entries_0[i].1,
        )) by {
            let held = entries[i].1->Message_0;
            law_value_reads_back(held, written, read);
        }
        assert forall|i: int| 0 <= i < entries.len() implies valid_key_for_kind(
            (#[trigger] v->Entries_0[i]).0,
            entry.map_key_kind_spec(),
        ) by {
            assert(entries[i].0 is String);
        }
        lemma_entries_read_back(v, entries.len(), entry, written, read, j);
        assert(entries.subrange(0, entries.len() as int) =~= entries);
        lemma_struct_read(j, desc, read);
        lemma_numbered_number(desc, 1);
        lemma_holds_only_written(m, 1, v);
    }
}

/// A `ListValue` that is kept is written as an array, and is read back from
/// it as it was.
pub proof fn law_list_reads_back<'a>(
    m: MessageView<'a>,
    written: SerializeOptions,
    read: DeserializeOptions,
)
    requires
        list_kept(m),
    ensures
        json_of_message(m, written) matches Ok(j) ==> j is Array && message_of_json(j, m.desc, read)
            == Ok::<MessageView<'a>, DeserializeError>(m),
    decreases m, 0nat,
{
    let desc = m.desc;
    lemma_list_name(desc.full_name_spec());
    lemma_first_written(m, written);
    let field = numbered(desc, 1);
    let kind = field.resolved_kind();
    let v = m.fields[1]->Value_0;
    let items = v->List_0;
    lemma_numbered_written(m, 1, v, written);
    if json_of_message(m, written) is Ok {
        let j = json_of_message(m, written)->Ok_0;
        assert(json_of_items(v, items.len(), kind, written) is Ok);
        assert(j == JsonView::Array(json_of_items(v, items.len(), kind, written)->Ok_0));
        lemma_items_written(v, items.len(), kind, written);
        assert forall|i: int| 0 <= i < items.len() implies (json_of_value(
            #[trigger] v->List_0[i],
            kind,
            written,
        ) matches Ok(ji) ==> value_of_json(ji, kind, read) == Ok::<ValueView<'a>, DeserializeError>(
            v->List_0[i],
        )) by {
            let held = items[i]->Message_0;
            law_value_reads_back(held, written, read);
        }
        lemma_items_read_back(v, items.len(), kind, written, read, j);
        assert(items.subrange(0, items.len() as int) =~= items);
        lemma_list_read(j, desc, read);
        lemma_numbered_number(desc, 1);
        lemma_holds_only_written(m, 1, v);
    }
}

/// A `Value` that holds a scalar kind is read back.
proof fn lemma_scalar_kind_reads_back<'a>(
    m: MessageView<'a>,
    number: u32,
    v: ValueView<'a>,
    written: SerializeOptions,
    read: DeserializeOptions,
)
    requires
        m.desc.wf(),
        m.desc.full_name_spec() == "google.protobuf.Value"@,
        1 <= number <= 4,
        declares_single(m.desc, number),
        holds_only(m, number, v),
        json_of_field_value(
            v,
            numbered(m.desc, number).resolved_kind(),
            false,
            false,
            written,
        ) matches Ok(j) && scalar_of_json(j, numbered(m.desc, number).resolved_kind()) == Ok::<
            ValueView<'a>,
            DeserializeError,
        >(v) && !(numbered(m.desc, number).resolved_kind() is Message) && match number {
            1 => j is Null,
            2 => j is Number,
            3 => j is String,
            _ => j is Bool,
        },
    ensures
        json_of_message(m, written) matches Ok(j) && message_of_json(j, m.desc, read) == Ok::<
            MessageView<'a>,
            DeserializeError,
        >(m),
{
    let desc = m.desc;
    lemma_value_name(desc.full_name_spec());
    assert(kind_held(m.fields) == Some(number));
    lemma_kind_written(m, written, number);
    lemma_numbered_written(m, number, v, written);
    let j = json_of_message(m, written)->Ok_0;
    lemma_value_read(j, desc, read);
    lemma_numbered_number(desc, number);
    lemma_holds_only_written(m, number, v);
    assert(value_message_of_json(j, desc, read) == scalar_message_of_json(j, desc, number));
}

/// A `Value` that is kept is read back as it was from what is written for
/// it.
pub proof fn law_value_reads_back<'a>(
    m: MessageView<'a>,
    written: SerializeOptions,
    read: DeserializeOptions,
)
    requires
        value_kept(m),
    ensures
        json_of_message(m, written) matches Ok(j) ==> message_of_json(j, m.desc, read) == Ok::<
            MessageView<'a>,
            DeserializeError,
        >(m),
    decreases m, 1nat,
{
    let desc = m.desc;
    lemma_value_name(desc.full_name_spec());
    if m.fields.contains_key(1) {
        let kind = numbered(desc, 1).resolved_kind();
        let v = ValueView::<'a>::EnumNumber(0);
        assert(json_of_scalar(v, kind, written) == Ok::<JsonView, SerializeError>(JsonView::Null));
        assert(scalar_of_json(JsonView::Null, kind) == Ok::<ValueView<'a>, DeserializeError>(v)) by {
            reveal(scalar_of_json);
            reveal(crate::json::de::enum_of_json);
        }
        lemma_scalar_kind_reads_back(m, 1, v, written, read);
    } else if m.fields.contains_key(2) {
        let kind = numbered(desc, 2).resolved_kind();
        let v = m.fields[2]->Value_0;
        law_scalar_reads_back(v, kind, written);
        lemma_scalar_kind_reads_back(m, 2, v, written, read);
    } else if m.fields.contains_key(3) {
        let kind = numbered(desc, 3).resolved_kind();
        let v = m.fields[3]->Value_0;
        law_scalar_reads_back(v, kind, written);
        lemma_scalar_kind_reads_back(m, 3, v, written, read);
    } else if m.fields.contains_key(4) {
        let kind = numbered(desc, 4).resolved_kind();
        let v = m.fields[4]->Value_0;
        law_scalar_reads_back(v, kind, written);
        lemma_scalar_kind_reads_back(m, 4, v, written, read);
    } else if m.fields.contains_key(5) {
        let held = m.fields[5]->Value_0->Message_0;
        law_struct_reads_back(held, written, read);
        lemma_nested_kind_reads_back(m, 5, held, written, read);
    } else {
        let held = m.fields[6]->Value_0->Message_0;
        law_list_reads_back(held, written, read);
        lemma_nested_kind_reads_back(m, 6, held, written, read);
    }
}

/// A `Value` that holds a `Struct` or a `ListValue` that is read back is
/// read back.
proof fn lemma_nested_kind_reads_back<'a>(
    m: MessageView<'a>,
    number: u32,
    held: MessageView<'a>,
    written: SerializeOptions,
    read: DeserializeOptions,
)
    requires
        m.desc.wf(),
        m.desc.full_name_spec() == "google.protobuf.Value"@,
        number == 5 || number == 6,
        declares_single(m.desc, number),
        numbered(m.desc, number).resolved_kind() == KindRef::Message(held.desc),
        holds_only(m, number, ValueView::Message(held)),
        number == 5 ==> struct_kept(held),
        number == 6 ==> list_kept(held),
        json_of_message(held, written) matches Ok(j) ==> message_of_json(j, held.desc, read) == Ok::<
            MessageView<'a>,
            DeserializeError,
        >(held) && if number == 5 {
            j is Object
        } else {
            j is Array
        },
    ensures
        json_of_message(m, written) matches Ok(j) ==> message_of_json(j, m.desc, read) == Ok::<
            MessageView<'a>,
            DeserializeError,
        >(m),
{
    let desc = m.desc;
    let v = ValueView::Message(held);
    lemma_value_name(desc.full_name_spec());
    assert(kind_held(m.fields) == Some(number));
    lemma_kind_written(m, written, number);
    lemma_numbered_written(m, number, v, written);
    assert(json_of_message(m, written) == json_of_message(held, written));
    if json_of_message(m, written) is Ok {
        let j = json_of_message(m, written)->Ok_0;
        lemma_value_read(j, desc, read);
        lemma_numbered_number(desc, number);
        lemma_holds_only_written(m, number, v);
        assert(nested_type(desc, number) == Some(held.desc));
        if number == 5 {
            lemma_struct_name(held.desc.full_name_spec());
            lemma_struct_read(j, held.desc, read);
        } else {
            lemma_list_name(held.desc.full_name_spec());
            lemma_list_read(j, held.desc, read);
        }
        assert(nesting_message(desc, number, held) == Ok::<MessageView<'a>, DeserializeError>(m));
    }
}

} // verus!
