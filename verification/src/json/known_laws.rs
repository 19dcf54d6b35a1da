//! The messages of well-known types that are read back as they were from
//! what is written for them, as one condition and one law.

use crate::descriptor::{FieldDescriptorRef, KindRef};
use crate::json::de::{message_of_json, string_values, DeserializeError};
use crate::json::laws::kept_by_mapping;
use crate::json::mask::camel_valid;
use crate::json::mask_laws::law_field_mask_reads_back;
use crate::json::native_laws::{
    law_list_reads_back, law_struct_reads_back, law_value_reads_back, list_kept, struct_kept,
    value_kept,
};
use crate::json::round_trip::{
    law_empty_reads_back, law_wrapper_reads_back, lemma_scalar_not_null, wrapper_type,
};
use crate::json::ser::json_of_message;
use crate::json::time_laws::{duration_kept, law_duration_reads_back};
use crate::json::{well_known_type, DeserializeOptions, SerializeOptions};
use crate::value::{valid_for_kind, EntryView, MessageView, ValueView};
use vstd::prelude::*;

verus! {

/// The wrapper is one that is read back: it holds, under the number 1 and
/// nothing else, a scalar that the mapping keeps.
pub open spec fn wrapper_kept<'a>(m: MessageView<'a>, written: SerializeOptions) -> bool {
    &&& m.desc.wf()
    &&& wrapper_type(m.desc.full_name_spec())
    &&& m.fields.contains_key(1)
    &&& m.fields[1] is Value
    &&& m.fields == Map::<u32, EntryView<'a>>::empty().insert(1, m.fields[1])
    &&& m.desc.field_index(1) matches Some(i) && {
        let field = FieldDescriptorRef::at(m.desc, i as usize);
        &&& !field.holds_list()
        &&& !field.holds_map()
        &&& !(field.resolved_kind() is Message)
        &&& !(field.resolved_kind() matches KindRef::Enum(e) && e.data().full_name@
            == "google.protobuf.NullValue"@)
        &&& valid_for_kind(m.fields[1]->Value_0, field.resolved_kind())
        &&& kept_by_mapping(m.fields[1]->Value_0, field.resolved_kind(), written)
    }
}

/// The texts that a list of strings holds.
pub open spec fn texts_of<'a>(items: Seq<ValueView<'a>>) -> Seq<Seq<char>> {
    Seq::new(items.len(), |i: int| items[i]->String_0)
}

/// The field mask is one that is read back: it holds, under the number 1
/// and nothing else, a list of paths that can be written in lowerCamelCase
/// and hold no comma, and not the one empty path alone.
pub open spec fn mask_kept<'a>(m: MessageView<'a>) -> bool {
    &&& m.desc.wf()
    &&& m.desc.full_name_spec() == "google.protobuf.FieldMask"@
    &&& m.desc.field_index(1) matches Some(i) && {
        let field = FieldDescriptorRef::at(m.desc, i as usize);
        field.holds_list() && field.resolved_kind() is String
    }
    &&& m.fields.contains_key(1)
    &&& m.fields[1] matches EntryView::Value(ValueView::List(items))
    &&& m.fields == Map::<u32, EntryView<'a>>::empty().insert(1, m.fields[1])
    &&& forall|p: int| 0 <= p < items.len() ==> (#[trigger] items[p]) is String
    &&& forall|p: int| 0 <= p < items.len() ==> camel_valid(#[trigger] texts_of(items)[p])
    &&& forall|p: int, i: int|
        0 <= p < items.len() && 0 <= i < texts_of(items)[p].len() ==> (#[trigger] texts_of(
            items,
        )[p][i]) != ','
    &&& !(items.len() == 1 && texts_of(items)[0].len() == 0)
}

/// The message is of a well-known type and is one that is read back: a
/// wrapper, an `Empty`, a `Struct`, a `ListValue`, a `Value`, a `FieldMask`
/// or a `Duration` that is.
pub open spec fn known_kept<'a>(m: MessageView<'a>, written: SerializeOptions) -> bool {
    ||| wrapper_kept(m, written)
    ||| (m.desc.full_name_spec() == "google.protobuf.Empty"@ && m.fields == Map::<
        u32,
        EntryView<'a>,
    >::empty())
    ||| struct_kept(m)
    ||| list_kept(m)
    ||| value_kept(m)
    ||| mask_kept(m)
    ||| duration_kept(m)
}

/// A message of a well-known type that is kept is read back as it was from
/// what is written for it, and only a `Value` is written as `null`.
pub proof fn lemma_known_reads_back<'a>(
    m: MessageView<'a>,
    written: SerializeOptions,
    read: DeserializeOptions,
)
    requires
        known_kept(m, written),
    ensures
        json_of_message(m, written) matches Ok(j) ==> message_of_json(j, m.desc, read) == Ok::<
            MessageView<'a>,
            DeserializeError,
        >(m),
        json_of_message(m, written) matches Ok(j) ==> (j is Null ==> m.desc.full_name_spec()
            == "google.protobuf.Value"@),
{
    if wrapper_kept(m, written) {
        let v = m.fields[1]->Value_0;
        let kind = FieldDescriptorRef::at(m.desc, m.desc.field_index(1)->Some_0 as usize).resolved_kind();
        law_wrapper_reads_back(m, v, written, read);
        lemma_scalar_not_null(v, kind, written);
    } else if m.desc.full_name_spec() == "google.protobuf.Empty"@ && m.fields == Map::<
        u32,
        EntryView<'a>,
    >::empty() {
        law_empty_reads_back(m, written, read);
    } else if struct_kept(m) {
        law_struct_reads_back(m, written, read);
    } else if list_kept(m) {
        law_list_reads_back(m, written, read);
    } else if value_kept(m) {
        law_value_reads_back(m, written, read);
    } else if duration_kept(m) {
        law_duration_reads_back(m, written, read);
    } else {
        let items = m.fields[1]->Value_0->List_0;
        let paths = texts_of(items);
        assert(string_values::<'a>(paths) =~= items);
        law_field_mask_reads_back(m, paths, written, read);
    }
}

/// A message that is kept as one of a well-known type is of a well-known
/// type.
pub proof fn lemma_known_is_well_known<'a>(m: MessageView<'a>, written: SerializeOptions)
    requires
        known_kept(m, written),
    ensures
        well_known_type(m.desc.full_name_spec()),
{
    reveal_strlit("google.protobuf.Empty");
    reveal_strlit("google.protobuf.Struct");
    reveal_strlit("google.protobuf.ListValue");
    reveal_strlit("google.protobuf.Value");
    reveal_strlit("google.protobuf.FieldMask");
    reveal_strlit("google.protobuf.Duration");
    if wrapper_kept(m, written) {
        crate::json::round_trip::lemma_wrapper_names(m.desc.full_name_spec());
    }
}

} // verus!
