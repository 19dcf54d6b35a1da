//! A message that was written as JSON is read back as it was.

use vstd::prelude::*;
use crate::descriptor::{
    ExtensionDescriptorRef, FieldDescriptorRef, KindRef, MessageDescriptorRef,
    OneofDescriptorRef,
};
use crate::fields::{
    all_declared, counts_as_set, decoded, has_spec, item_at, oneof_siblings, oneofs_exclusive,
    set_spec, walk_below, walk_of, FieldDescriptorLike, ItemView,
};
use crate::json::de::{
    entries_of_json, field_value_of_json, fields_of_json, holds_key, items_of_json, key_of_text,
    member_of_json, message_of_json, object_of_json, oneof_taken, reads_null, value_of_json,
    DeserializeError,
};
use crate::json::known_laws::{known_kept, lemma_known_reads_back};
use crate::json::laws::{
    kept_by_mapping, law_decimal_reads_back, law_scalar_reads_back, law_signed_decimal_reads_back,
};
use crate::json::ser::{
    json_of_entries, json_of_field_value, json_of_held, json_of_item, json_of_items,
    json_of_members, json_of_message, json_of_value, json_of_walk, key_text, member_name,
    SerializeError,
};
use crate::json::text::{decimal, digit_value};
use crate::json::value::JsonView;
use crate::json::{well_known_type, DeserializeOptions, SerializeOptions};
use crate::value::{
    valid_for_kind, valid_key_for_kind, EntryView, MapKeyView, MessageView, ValueView,
};

verus! {

/// The name under which a map key is written stands for the key.
pub proof fn law_key_reads_back<'a>(key: MapKeyView, kind: KindRef<'a>)
    requires
        valid_key_for_kind(key, kind),
    ensures
        key_of_text(key_text(key), kind) == Some(key),
{
    reveal(key_of_text);
    reveal_strlit("true");
    reveal_strlit("false");
    match key {
        MapKeyView::Bool(b) => {
            assert("true"@.len() != "false"@.len());
        },
        MapKeyView::I32(n) => {
            law_signed_decimal_reads_back(n as int);
        },
        MapKeyView::I64(n) => {
            law_signed_decimal_reads_back(n as int);
        },
        MapKeyView::U32(n) => {
            law_decimal_reads_back(n as nat);
            assert(digit_value(decimal(n as nat)[0]) is Some);
        },
        MapKeyView::U64(n) => {
            law_decimal_reads_back(n as nat);
            assert(digit_value(decimal(n as nat)[0]) is Some);
        },
        MapKeyView::String(s) => {},
    }
}

/// What was written for the first items of a list: one JSON value for each,
/// that of the item.
pub proof fn lemma_items_written<'a>(
    v: ValueView<'a>,
    n: nat,
    kind: KindRef<'a>,
    options: SerializeOptions,
)
    requires
        v is List,
        n <= v->List_0.len(),
        json_of_items(v, n, kind, options) is Ok,
    ensures
        json_of_items(v, n, kind, options)->Ok_0.len() == n,
        forall|i: int|
            0 <= i < n ==> json_of_value(#[trigger] v->List_0[i], kind, options) == Ok::<
                JsonView,
                SerializeError,
            >(json_of_items(v, n, kind, options)->Ok_0[i]),
    decreases n,
{
    if n > 0 {
        lemma_items_written(v, (n - 1) as nat, kind, options);
    }
}

/// The items of a list are read back from what was written for them, where
/// each of them is.
pub proof fn lemma_items_read_back<'a>(
    v: ValueView<'a>,
    n: nat,
    kind: KindRef<'a>,
    written: SerializeOptions,
    read: DeserializeOptions,
    j: JsonView,
)
    requires
        v is List,
        n <= v->List_0.len(),
        json_of_items(v, n, kind, written) is Ok,
        j is Array,
        n <= j->Array_0.len(),
        forall|i: int|
            0 <= i < n ==> (#[trigger] j->Array_0[i]) == json_of_items(v, n, kind, written)->Ok_0[i],
        forall|i: int|
            0 <= i < n ==> (json_of_value(#[trigger] v->List_0[i], kind, written) matches Ok(ji)
                ==> value_of_json(ji, kind, read) == Ok::<ValueView<'a>, DeserializeError>(
                v->List_0[i],
            )),
    ensures
        items_of_json(j, n, kind, read) == Ok::<Seq<ValueView<'a>>, DeserializeError>(
            v->List_0.subrange(0, n as int),
        ),
    decreases n,
{
    lemma_items_written(v, n, kind, written);
    if n == 0 {
        assert(v->List_0.subrange(0, 0) =~= Seq::empty());
    } else {
        let before = (n - 1) as nat;
        lemma_items_written(v, before, kind, written);
        assert forall|i: int| 0 <= i < before implies (#[trigger] j->Array_0[i]) == json_of_items(
            v,
            before,
            kind,
            written,
        )->Ok_0[i] by {
            assert(json_of_value(v->List_0[i], kind, written) == Ok::<JsonView, SerializeError>(
                json_of_items(v, n, kind, written)->Ok_0[i],
            ));
        }
        lemma_items_read_back(v, before, kind, written, read, j);
        assert(json_of_value(v->List_0[n - 1], kind, written) == Ok::<JsonView, SerializeError>(
            j->Array_0[n - 1],
        ));
        assert(v->List_0.subrange(0, n as int) =~= v->List_0.subrange(0, before as int).push(
            v->List_0[n - 1],
        ));
    }
}

/// What was written for the first entries of a map: one member for each,
/// named by the text of the key and holding the JSON of the value.
pub proof fn lemma_entries_written<'a>(
    v: ValueView<'a>,
    n: nat,
    kind: KindRef<'a>,
    options: SerializeOptions,
)
    requires
        v is Entries,
        n <= v->Entries_0.len(),
        json_of_entries(v, n, kind, options) is Ok,
    ensures
        json_of_entries(v, n, kind, options)->Ok_0.len() == n,
        forall|i: int|
            0 <= i < n ==> {
                &&& (#[trigger] json_of_entries(v, n, kind, options)->Ok_0[i]).0 == key_text(
                    v->Entries_0[i].0,
                )
                &&& json_of_value(v->Entries_0[i].1, kind, options) == Ok::<JsonView, SerializeError>(
                    json_of_entries(v, n, kind, options)->Ok_0[i].1,
                )
            },
    decreases n,
{
    if n > 0 {
        lemma_entries_written(v, (n - 1) as nat, kind, options);
    }
}

/// The entries of a map are read back from what was written for them, where
/// the keys are distinct keys of the kind of the map's keys and each value is
/// read back.
pub proof fn lemma_entries_read_back<'a>(
    v: ValueView<'a>,
    n: nat,
    entry: MessageDescriptorRef<'a>,
    written: SerializeOptions,
    read: DeserializeOptions,
    j: JsonView,
)
    requires
        v is Entries,
        n <= v->Entries_0.len(),
        json_of_entries(v, n, entry.map_value_kind_spec(), written) is Ok,
        j is Object,
        n <= j->Object_0.len(),
        forall|i: int|
            0 <= i < n ==> (#[trigger] j->Object_0[i]) == json_of_entries(
                v,
                n,
                entry.map_value_kind_spec(),
                written,
            )->Ok_0[i],
        forall|i: int|
            0 <= i < n ==> valid_key_for_kind((#[trigger] v->Entries_0[i]).0, entry.map_key_kind_spec()),
        forall|a: int, b: int|
            0 <= a < b < n ==> (#[trigger] v->Entries_0[a]).0 != (#[trigger] v->Entries_0[b]).0,
        forall|i: int|
            0 <= i < n ==> (json_of_value(
                (#[trigger] v->Entries_0[i]).1,
                entry.map_value_kind_spec(),
                written,
            ) matches Ok(ji) ==> value_of_json(ji, entry.map_value_kind_spec(), read) == Ok::<
                ValueView<'a>,
                DeserializeError,
            >(v->Entries_0[i].1)),
    ensures
        entries_of_json(j, n, entry, read) == Ok::<Seq<(MapKeyView, ValueView<'a>)>, DeserializeError>(
            v->Entries_0.subrange(0, n as int),
        ),
    decreases n,
{
    let kind = entry.map_value_kind_spec();
    lemma_entries_written(v, n, kind, written);
    if n == 0 {
        assert(v->Entries_0.subrange(0, 0) =~= Seq::empty());
    } else {
        let before = (n - 1) as nat;
        lemma_entries_written(v, before, kind, written);
        assert forall|i: int| 0 <= i < before implies (#[trigger] j->Object_0[i]) == json_of_entries(
            v,
            before,
            kind,
            written,
        )->Ok_0[i] by {
            let now = json_of_entries(v, n, kind, written)->Ok_0[i];
            let then = json_of_entries(v, before, kind, written)->Ok_0[i];
            assert(now.0 == then.0);
            assert(json_of_value(v->Entries_0[i].1, kind, written) == Ok::<JsonView, SerializeError>(
                now.1,
            ));
            assert(json_of_value(v->Entries_0[i].1, kind, written) == Ok::<JsonView, SerializeError>(
                then.1,
            ));
        }
        lemma_entries_read_back(v, before, entry, written, read, j);
        let front = v->Entries_0.subrange(0, before as int);
        let last = v->Entries_0[n - 1];
        law_key_reads_back(last.0, entry.map_key_kind_spec());
        assert(j->Object_0[n - 1].0 == key_text(last.0));
        assert(!holds_key(front, last.0)) by {
            if holds_key(front, last.0) {
                let i = choose|i: int| 0 <= i < front.len() && (#[trigger] front[i]).0 == last.0;
                assert(v->Entries_0[i].0 != v->Entries_0[n - 1].0);
            }
        }
        assert(json_of_value(last.1, kind, written) == Ok::<JsonView, SerializeError>(
            j->Object_0[n - 1].1,
        ));
        assert(v->Entries_0.subrange(0, n as int) =~= front.push(last));
    }
}


/// The name under which the field at position `i` of `desc` is written.
pub open spec fn field_name_at<'a>(desc: MessageDescriptorRef<'a>, i: int, options: SerializeOptions) -> Seq<
    char,
> {
    if options.uses_proto_field_name() {
        desc.data().fields@[i].name@
    } else {
        desc.data().fields@[i].json_name@
    }
}

/// The names under which the fields and the extensions of `desc` are written
/// name them: each field is the first that goes by its name, and each
/// extension is named by no field, is the first extension that goes by its
/// name, and is the one that is found under its number.
#[verifier::opaque]
pub open spec fn names_resolve<'a>(desc: MessageDescriptorRef<'a>, options: SerializeOptions) -> bool {
    let exts = desc.pool().extensions();
    &&& forall|i: int|
        0 <= i < desc.data().fields@.len() ==> desc.field_named(
            #[trigger] field_name_at(desc, i, options),
        ) == Some(i)
    &&& forall|k: int|
        0 <= k < exts.len() && (#[trigger] exts[k]).extendee == desc.index() ==> {
            &&& desc.field_named(exts[k].json_name@) is None
            &&& desc.extension_named(exts[k].json_name@) == Some(k)
            &&& desc.field_index(exts[k].number) is None
            &&& desc.extension_index(exts[k].number) == Some(k)
        }
}

/// What was written for a field that is set is read back as the value that
/// the message holds for the field.
#[verifier::opaque]
pub open spec fn held_reads_back<'a, D: FieldDescriptorLike<'a>>(
    m: MessageView<'a>,
    desc: D,
    written: SerializeOptions,
    read: DeserializeOptions,
) -> bool {
    has_spec(m.fields, desc) ==> (json_of_held(m, desc, written) matches Ok(j) ==> {
        &&& !(j is Null && !reads_null(desc.kind_spec(), desc.is_list_spec(), desc.is_map_spec()))
        &&& field_value_of_json(
            j,
            desc.kind_spec(),
            desc.is_list_spec(),
            desc.is_map_spec(),
            read,
        ) == Ok::<ValueView<'a>, DeserializeError>(m.fields[desc.number_spec()]->Value_0)
    })
}

/// The message holds decoded values only, each under the number of a field
/// of its type or of an extension of its type, and each counting as set.
#[verifier::opaque]
pub open spec fn holds_set_fields<'a>(m: MessageView<'a>) -> bool {
    let fields = m.desc.data().fields@;
    let exts = m.desc.pool().extensions();
    &&& forall|k: u32| m.fields.contains_key(k) ==> (#[trigger] m.fields[k]) is Value
    &&& forall|k: u32|
        #[trigger] m.fields.contains_key(k) ==> (exists|i: int|
            0 <= i < fields.len() && (#[trigger] fields[i]).number == k) || (exists|i: int|
            0 <= i < exts.len() && (#[trigger] exts[i]).extendee == m.desc.index() && exts[i].number
                == k)
    &&& forall|i: int|
        0 <= i < fields.len() && m.fields.contains_key((#[trigger] fields[i]).number) ==> has_spec(
            m.fields,
            FieldDescriptorRef::at(m.desc, i as usize),
        )
    &&& forall|i: int|
        0 <= i < exts.len() && (#[trigger] exts[i]).extendee == m.desc.index()
            && m.fields.contains_key(exts[i].number) ==> has_spec(
            m.fields,
            ExtensionDescriptorRef::at(m.desc.pool(), i as usize),
        )
}

/// The message is of a shape that is read back: its type is well formed,
/// the names of its type resolve, its oneof groups are exclusive, and it
/// holds fields that are set, and nothing else.
#[verifier::opaque]
pub open spec fn kept_shape<'a>(m: MessageView<'a>, written: SerializeOptions) -> bool {
    &&& m.desc.wf()
    &&& names_resolve(m.desc, written)
    &&& oneofs_exclusive(m.fields, m.desc)
    &&& holds_set_fields(m)
}

/// The number of fields of a message type is one that executable code can
/// count.
pub proof fn lemma_field_count_fits<'a>(desc: MessageDescriptorRef<'a>)
    ensures
        desc.data().fields@.len() <= usize::MAX,
{
    assert(desc.data().fields.len() == desc.data().fields@.len());
}

/// What was written for the field at position `i` is read back.
#[verifier::opaque]
pub open spec fn field_reads_back<'a>(
    m: MessageView<'a>,
    i: nat,
    written: SerializeOptions,
    read: DeserializeOptions,
) -> bool {
    held_reads_back(m, FieldDescriptorRef::at(m.desc, i as usize), written, read)
}

/// What the first `k` members of the object `j` are read as.
#[verifier::opaque]
pub open spec fn read_upto<'a>(
    j: JsonView,
    k: nat,
    desc: MessageDescriptorRef<'a>,
    read: DeserializeOptions,
) -> Result<Map<u32, EntryView<'a>>, DeserializeError> {
    fields_of_json(j, k, desc, read)
}

/// Nothing is read from no member.
pub proof fn lemma_read_none<'a>(j: JsonView, desc: MessageDescriptorRef<'a>, read: DeserializeOptions)
    ensures
        read_upto(j, 0, desc, read) == Ok::<Map<u32, EntryView<'a>>, DeserializeError>(Map::empty()),
{
    reveal(read_upto);
}

/// One more member is read into what the members before it were read as.
pub proof fn lemma_read_one_more<'a>(
    j: JsonView,
    k: nat,
    desc: MessageDescriptorRef<'a>,
    read: DeserializeOptions,
)
    requires
        j is Object,
        0 < k <= j->Object_0.len(),
        read_upto(j, (k - 1) as nat, desc, read) is Ok,
    ensures
        read_upto(j, k, desc, read) == member_of_json(
            read_upto(j, (k - 1) as nat, desc, read)->Ok_0,
            j->Object_0[k - 1].0,
            j->Object_0[k - 1].1,
            desc,
            read,
        ),
{
    reveal(read_upto);
}


/// What was written for the extension at position `i` of the pool is read
/// back, where the extension extends the message's type.
#[verifier::opaque]
pub open spec fn extension_reads_back<'a>(
    m: MessageView<'a>,
    i: nat,
    written: SerializeOptions,
    read: DeserializeOptions,
) -> bool {
    m.desc.pool().extensions()[i as int].extendee == m.desc.index() ==> held_reads_back(
        m,
        ExtensionDescriptorRef::at(m.desc.pool(), i as usize),
        written,
        read,
    )
}


/// The single value is one that is read back from what is written for it: a
/// message that is kept, or a scalar that the mapping keeps.
pub open spec fn value_kept<'a>(v: ValueView<'a>, kind: KindRef<'a>, written: SerializeOptions) -> bool
    decreases v, 0nat,
{
    match kind {
        KindRef::Message(desc) => v matches ValueView::Message(m) && m.desc == desc && (message_kept(
            m,
            written,
        ) || known_kept(m, written)),
        _ => valid_for_kind(v, kind) && kept_by_mapping(v, kind, written),
    }
}

/// The value of a field is one that is read back from what is written for
/// it: a list of values that are kept; a map of values that are kept, under
/// distinct keys of the kind of its keys; or a single value that is kept and
/// is not written as `null`.
pub open spec fn field_kept<'a>(
    v: ValueView<'a>,
    kind: KindRef<'a>,
    is_list: bool,
    is_map: bool,
    written: SerializeOptions,
) -> bool
    decreases v, 1nat,
{
    if is_list {
        v matches ValueView::List(items) && forall|i: int|
            0 <= i < items.len() ==> value_kept(#[trigger] items[i], kind, written)
    } else if is_map {
        &&& v matches ValueView::Entries(entries)
        &&& kind matches KindRef::Message(entry)
        &&& entry.data().is_map_entry
        &&& forall|i: int|
            0 <= i < entries.len() ==> valid_key_for_kind(
                (#[trigger] entries[i]).0,
                entry.map_key_kind_spec(),
            ) && value_kept(entries[i].1, entry.map_value_kind_spec(), written)
        &&& forall|a: int, b: int|
            0 <= a < b < entries.len() ==> (#[trigger] entries[a]).0 != (#[trigger] entries[b]).0
    } else {
        &&& value_kept(v, kind, written)
        &&& !(kind matches KindRef::Enum(e) && e.data().full_name@ == "google.protobuf.NullValue"@)
    }
}

/// The message is one that is read back from what is written for it: it is
/// of no well-known type and of a shape that is read back, and the values
/// that it holds are kept.
pub open spec fn message_kept<'a>(m: MessageView<'a>, written: SerializeOptions) -> bool
    decreases m, 0nat,
{
    let fields = m.desc.data().fields@;
    let exts = m.desc.pool().extensions();
    &&& !well_known_type(m.desc.full_name_spec())
    &&& kept_shape(m, written)
    &&& forall|i: int|
        0 <= i < fields.len() && m.fields.contains_key((#[trigger] fields[i]).number)
            && m.fields[fields[i].number] is Value ==> {
            let field = FieldDescriptorRef::at(m.desc, i as usize);
            field_kept(
                m.fields[fields[i].number]->Value_0,
                field.resolved_kind(),
                field.holds_list(),
                field.holds_map(),
                written,
            )
        }
    &&& forall|i: int|
        0 <= i < exts.len() && (#[trigger] exts[i]).extendee == m.desc.index()
            && m.fields.contains_key(exts[i].number) && m.fields[exts[i].number] is Value ==> {
            let extension = ExtensionDescriptorRef::at(m.desc.pool(), i as usize);
            field_kept(
                m.fields[exts[i].number]->Value_0,
                extension.resolved_kind(),
                extension.holds_list(),
                extension.holds_map(),
                written,
            )
        }
}

/// A message of no well-known type is read from an object as what its
/// members are read as.
pub proof fn lemma_message_read<'a>(
    j: JsonView,
    desc: MessageDescriptorRef<'a>,
    read: DeserializeOptions,
)
    requires
        !well_known_type(desc.full_name_spec()),
        j is Object,
        read_upto(j, j->Object_0.len(), desc, read) is Ok,
    ensures
        message_of_json(j, desc, read) == Ok::<MessageView<'a>, DeserializeError>(
            MessageView { desc, fields: read_upto(j, j->Object_0.len(), desc, read)->Ok_0 },
        ),
{
    reveal(read_upto);
    assert(message_of_json(j, desc, read) == object_of_json(j, desc, read));
}

/// A scalar that the mapping keeps is written as `null` only where it is a
/// value of `NullValue`.
pub proof fn lemma_scalar_not_null<'a>(v: ValueView<'a>, kind: KindRef<'a>, written: SerializeOptions)
    requires
        !(kind matches KindRef::Enum(e) && e.data().full_name@ == "google.protobuf.NullValue"@),
    ensures
        json_of_scalar_is_null(v, kind, written) == false,
{
}

/// The JSON that is written for the scalar is `null`.
pub open spec fn json_of_scalar_is_null<'a>(
    v: ValueView<'a>,
    kind: KindRef<'a>,
    written: SerializeOptions,
) -> bool {
    crate::json::ser::json_of_scalar(v, kind, written) matches Ok(j) && j is Null
}

/// A single value that is kept is read back from what is written for it.
pub proof fn lemma_value_reads_back<'a>(
    v: ValueView<'a>,
    kind: KindRef<'a>,
    written: SerializeOptions,
    read: DeserializeOptions,
)
    requires
        written.skips_default_fields(),
        value_kept(v, kind, written),
    ensures
        json_of_value(v, kind, written) matches Ok(j) ==> value_of_json(j, kind, read) == Ok::<
            ValueView<'a>,
            DeserializeError,
        >(v),
        json_of_value(v, kind, written) matches Ok(j) ==> (j is Null ==> (kind matches KindRef::Enum(e)
            && e.data().full_name@ == "google.protobuf.NullValue"@) || reads_null(kind, false, false)),
    decreases v, 0nat,
{
    match kind {
        KindRef::Message(desc) => {
            let m = v->Message_0;
            if message_kept(m, written) {
                law_message_reads_back(m, written, read);
                if json_of_message(m, written) is Ok {
                    assert(!well_known_type(m.desc.full_name_spec()));
                    assert(json_of_message(m, written)->Ok_0 is Object);
                }
            } else {
                lemma_known_reads_back(m, written, read);
            }
        },
        _ => {
            law_scalar_reads_back(v, kind, written);
            if !(kind matches KindRef::Enum(e) && e.data().full_name@ == "google.protobuf.NullValue"@) {
                lemma_scalar_not_null(v, kind, written);
            }
        },
    }
}

/// The value of a field that is kept is read back from what is written for
/// it, and what is written for it is not `null`.
pub proof fn lemma_field_value_reads_back<'a>(
    v: ValueView<'a>,
    kind: KindRef<'a>,
    is_list: bool,
    is_map: bool,
    written: SerializeOptions,
    read: DeserializeOptions,
)
    requires
        written.skips_default_fields(),
        field_kept(v, kind, is_list, is_map, written),
    ensures
        json_of_field_value(v, kind, is_list, is_map, written) matches Ok(j) ==> !(j is Null
            && !reads_null(kind, is_list, is_map)) && field_value_of_json(
            j,
            kind,
            is_list,
            is_map,
            read,
        ) == Ok::<ValueView<'a>, DeserializeError>(v),
    decreases v, 1nat,
{
    if json_of_field_value(v, kind, is_list, is_map, written) is Ok {
        let j = json_of_field_value(v, kind, is_list, is_map, written)->Ok_0;
        if is_list {
            let items = v->List_0;
            assert forall|i: int| 0 <= i < items.len() implies (json_of_value(
                #[trigger] v->List_0[i],
                kind,
                written,
            ) matches Ok(ji) ==> value_of_json(ji, kind, read) == Ok::<ValueView<'a>, DeserializeError>(
                v->List_0[i],
            )) by {
                lemma_value_reads_back(items[i], kind, written, read);
            }
            lemma_items_written(v, items.len(), kind, written);
            lemma_items_read_back(v, items.len(), kind, written, read, j);
            assert(items.subrange(0, items.len() as int) =~= items);
        } else if is_map {
            let entries = v->Entries_0;
            let entry = kind->Message_0;
            let value_kind = entry.map_value_kind_spec();
            assert forall|i: int| 0 <= i < entries.len() implies (json_of_value(
                (#[trigger] v->Entries_0[i]).1,
                value_kind,
                written,
            ) matches Ok(ji) ==> value_of_json(ji, value_kind, read) == Ok::<
                ValueView<'a>,
                DeserializeError,
            >(v->Entries_0[i].1)) by {
                lemma_value_reads_back(entries[i].1, value_kind, written, read);
            }
            lemma_entries_written(v, entries.len(), value_kind, written);
            lemma_entries_read_back(v, entries.len(), entry, written, read, j);
            assert(entries.subrange(0, entries.len() as int) =~= entries);
        } else {
            lemma_value_reads_back(v, kind, written, read);
        }
    }
}

/// `state` is a part of what the message holds.
pub open spec fn part_of<'a>(state: Map<u32, EntryView<'a>>, m: MessageView<'a>) -> bool {
    forall|k: u32| #[trigger] state.contains_key(k) ==> m.fields.contains_key(k) && state[k] == m.fields[k]
}

/// Of what the message holds, the part under the numbers below `n`.
pub open spec fn held_below<'a>(m: MessageView<'a>, n: nat) -> Map<u32, EntryView<'a>> {
    Map::new(|k: u32| m.fields.contains_key(k) && k < n, |k: u32| m.fields[k])
}

/// A write of what the message holds for a field that is set, to a part of
/// what the message holds that lacks it, finds no member of the field's
/// oneof group there, and adds what the message holds for the field.
pub proof fn lemma_write_adds<'a>(m: MessageView<'a>, i: nat, state: Map<u32, EntryView<'a>>)
    requires
        m.desc.wf(),
        oneofs_exclusive(m.fields, m.desc),
        forall|k: u32| m.fields.contains_key(k) ==> (#[trigger] m.fields[k]) is Value,
        i < m.desc.data().fields@.len(),
        m.fields.contains_key(m.desc.data().fields@[i as int].number),
        part_of(state, m),
        !state.contains_key(m.desc.data().fields@[i as int].number),
    ensures
        !oneof_taken(state, FieldDescriptorRef::at(m.desc, i as usize)),
        set_spec(
            state,
            FieldDescriptorRef::at(m.desc, i as usize),
            m.fields[m.desc.data().fields@[i as int].number]->Value_0,
        ) == state.insert(
            m.desc.data().fields@[i as int].number,
            m.fields[m.desc.data().fields@[i as int].number],
        ),
{
    broadcast use {
        FieldDescriptorRef::lemma_at_parts,
        OneofDescriptorRef::lemma_of,
        OneofDescriptorRef::lemma_of_parts,
    };

    let desc = m.desc;
    let fields = desc.data().fields@;
    lemma_field_count_fits(desc);
    let field = FieldDescriptorRef::at(desc, i as usize);
    let number = fields[i as int].number;
    let v = m.fields[number]->Value_0;
    assert(field.data() == fields[i as int]);
    assert(m.fields[number] is Value);
    assert(decoded(m.fields, fields[i as int].number) is Some);
    if oneof_taken(state, field) {
        let w = choose|w: int|
            0 <= w < fields.len() && (#[trigger] fields[w]).oneof == field.data().oneof && decoded(
                state,
                fields[w].number,
            ) is Some;
        assert(state.contains_key(fields[w].number));
        assert(w != i);
        assert(decoded(m.fields, fields[w].number) is Some);
        assert(false);
    }
    let siblings = oneof_siblings(field);
    assert forall|k: u32| state.contains_key(k) implies !siblings.contains(k) by {
        if siblings.contains(k) {
            let oneof = field.oneof()->Some_0;
            let w = choose|w: int|
                oneof.has_member(w) && (#[trigger] oneof.message().data().fields@[w]).number == k;
            assert(fields[w].oneof == fields[i as int].oneof);
            assert(m.fields.contains_key(k) && m.fields[k] is Value);
            assert(decoded(m.fields, fields[w].number) is Some);
            assert(w != i);
            assert(false);
        }
    }
    assert(state.remove_keys(siblings) =~= state);
    assert(set_spec(state, field, v) =~= state.insert(number, m.fields[number]));
}

/// The member that was written for a field that is set is read into a part
/// of what the message holds as that part with what it holds for the field.
pub proof fn lemma_field_read_into<'a>(
    m: MessageView<'a>,
    i: nat,
    state: Map<u32, EntryView<'a>>,
    written: SerializeOptions,
    read: DeserializeOptions,
    jv: JsonView,
)
    requires
        kept_shape(m, written),
        i < m.desc.data().fields@.len(),
        has_spec(m.fields, FieldDescriptorRef::at(m.desc, i as usize)),
        json_of_held(m, FieldDescriptorRef::at(m.desc, i as usize), written) == Ok::<
            JsonView,
            SerializeError,
        >(jv),
        field_reads_back(m, i, written, read),
        part_of(state, m),
        !state.contains_key(m.desc.data().fields@[i as int].number),
    ensures
        member_of_json(state, field_name_at(m.desc, i as int, written), jv, m.desc, read) == Ok::<
            Map<u32, EntryView<'a>>,
            DeserializeError,
        >(
            state.insert(
                m.desc.data().fields@[i as int].number,
                m.fields[m.desc.data().fields@[i as int].number],
            ),
        ),
{
    broadcast use FieldDescriptorRef::lemma_at_parts;

    let desc = m.desc;
    let fields = desc.data().fields@;
    lemma_field_count_fits(desc);
    let field = FieldDescriptorRef::at(desc, i as usize);
    let number = fields[i as int].number;
    let v = m.fields[number]->Value_0;
    assert(field.data() == fields[i as int]);
    assert(desc.field_named(field_name_at(desc, i as int, written)) == Some(i as int)) by {
        reveal(kept_shape);
        reveal(names_resolve);
    }
    assert(m.fields.contains_key(number));
    assert(!oneof_taken(state, field) && set_spec(state, field, v) == state.insert(
        number,
        m.fields[number],
    )) by {
        reveal(kept_shape);
        reveal(holds_set_fields);
        lemma_write_adds(m, i, state);
    }
    assert(!(jv is Null && !reads_null(field.resolved_kind(), field.holds_list(), field.holds_map()))
        && field_value_of_json(
        jv,
        field.resolved_kind(),
        field.holds_list(),
        field.holds_map(),
        read,
    ) == Ok::<ValueView<'a>, DeserializeError>(v)) by {
        reveal(field_reads_back);
        reveal(held_reads_back);
    }
}

/// The member that was written for an extension that is set is read into a
/// part of what the message holds as that part with what it holds for the
/// extension.
pub proof fn lemma_extension_read_into<'a>(
    m: MessageView<'a>,
    e: nat,
    state: Map<u32, EntryView<'a>>,
    written: SerializeOptions,
    read: DeserializeOptions,
    jv: JsonView,
)
    requires
        kept_shape(m, written),
        e < m.desc.pool().extensions().len(),
        m.desc.pool().extensions()[e as int].extendee == m.desc.index(),
        has_spec(m.fields, ExtensionDescriptorRef::at(m.desc.pool(), e as usize)),
        json_of_held(m, ExtensionDescriptorRef::at(m.desc.pool(), e as usize), written) == Ok::<
            JsonView,
            SerializeError,
        >(jv),
        extension_reads_back(m, e, written, read),
    ensures
        member_of_json(state, m.desc.pool().extensions()[e as int].json_name@, jv, m.desc, read)
            == Ok::<Map<u32, EntryView<'a>>, DeserializeError>(
            state.insert(
                m.desc.pool().extensions()[e as int].number,
                m.fields[m.desc.pool().extensions()[e as int].number],
            ),
        ),
{
    broadcast use ExtensionDescriptorRef::lemma_at_parts;

    let desc = m.desc;
    let exts = desc.pool().extensions();
    desc.pool().lemma_counts_fit();
    let extension = ExtensionDescriptorRef::at(desc.pool(), e as usize);
    let number = exts[e as int].number;
    let name = exts[e as int].json_name@;
    let v = m.fields[number]->Value_0;
    assert(extension.data() == exts[e as int]);
    assert(desc.field_named(name) is None && desc.extension_named(name) == Some(e as int)) by {
        reveal(kept_shape);
        reveal(names_resolve);
    }
    assert(m.fields.contains_key(number) && m.fields[number] == EntryView::Value(v));
    assert(oneof_siblings(extension) =~= Set::empty());
    assert(state.remove_keys(Set::empty()) =~= state);
    assert(set_spec(state, extension, v) =~= state.insert(number, m.fields[number]));
    assert(!(jv is Null && !reads_null(
        extension.resolved_kind(),
        extension.holds_list(),
        extension.holds_map(),
    )) && field_value_of_json(
        jv,
        extension.resolved_kind(),
        extension.holds_list(),
        extension.holds_map(),
        read,
    ) == Ok::<ValueView<'a>, DeserializeError>(v)) by {
        reveal(extension_reads_back);
        reveal(held_reads_back);
    }
}

/// What the store yields below a number stands at the front of what it
/// yields below a larger one.
pub proof fn lemma_walk_grows<'a>(m: MessageView<'a>, n: nat, to: nat)
    requires
        n <= to,
    ensures
        walk_below(m.fields, m.desc, n).len() <= walk_below(m.fields, m.desc, to).len(),
        walk_below(m.fields, m.desc, n) == walk_below(m.fields, m.desc, to).subrange(
            0,
            walk_below(m.fields, m.desc, n).len() as int,
        ),
    decreases to - n,
{
    let short = walk_below(m.fields, m.desc, n);
    if n < to {
        lemma_walk_grows(m, n, (to - 1) as nat);
        let front = walk_below(m.fields, m.desc, (to - 1) as nat);
        assert(walk_below(m.fields, m.desc, to).subrange(0, short.len() as int) =~= front.subrange(
            0,
            short.len() as int,
        ));
    } else {
        assert(short =~= short.subrange(0, short.len() as int));
    }
}

/// Where all items of the walk can be written, the first of them can, and
/// what is written for them stands at the front of what is written for all.
pub proof fn lemma_walk_front<'a>(m: MessageView<'a>, n: nat, len: nat, written: SerializeOptions)
    requires
        n <= len <= walk_of(m.fields, m.desc).len(),
        json_of_walk(m, len, written) is Ok,
    ensures
        json_of_walk(m, n, written) is Ok,
        json_of_walk(m, n, written)->Ok_0.len() <= json_of_walk(m, len, written)->Ok_0.len(),
        json_of_walk(m, n, written)->Ok_0 == json_of_walk(m, len, written)->Ok_0.subrange(
            0,
            json_of_walk(m, n, written)->Ok_0.len() as int,
        ),
    decreases len - n,
{
    let short = json_of_walk(m, n, written);
    if n < len {
        lemma_walk_front(m, n, (len - 1) as nat, written);
        let front = json_of_walk(m, (len - 1) as nat, written)->Ok_0;
        assert(json_of_walk(m, len, written)->Ok_0.subrange(0, short->Ok_0.len() as int)
            =~= front.subrange(0, short->Ok_0.len() as int));
    } else {
        assert(short->Ok_0 =~= short->Ok_0.subrange(0, short->Ok_0.len() as int));
    }
}

/// The item that the store of a message of a kept shape yields under a
/// number that it holds: the value with the field of that number, or with
/// the extension of that number.
pub proof fn lemma_item_held<'a>(m: MessageView<'a>, written: SerializeOptions, k: u32)
    requires
        kept_shape(m, written),
    ensures
        !m.fields.contains_key(k) ==> item_at(m.fields, m.desc, k) is None,
        m.fields.contains_key(k) ==> {
            &&& m.fields[k] is Value
            &&& match m.desc.field_index(k) {
                Some(i) => 0 <= i < m.desc.data().fields@.len() && m.desc.data().fields@[i].number == k
                    && has_spec(m.fields, FieldDescriptorRef::at(m.desc, i as usize)) && item_at(
                    m.fields,
                    m.desc,
                    k,
                ) == Some(
                    ItemView::Field(m.fields[k]->Value_0, FieldDescriptorRef::at(m.desc, i as usize)),
                ),
                None => m.desc.extension_index(k) matches Some(e) && 0 <= e
                    < m.desc.pool().extensions().len() && m.desc.pool().extensions()[e].extendee
                    == m.desc.index() && m.desc.pool().extensions()[e].number == k && has_spec(
                    m.fields,
                    ExtensionDescriptorRef::at(m.desc.pool(), e as usize),
                ) && item_at(m.fields, m.desc, k) == Some(
                    ItemView::Extension(
                        m.fields[k]->Value_0,
                        ExtensionDescriptorRef::at(m.desc.pool(), e as usize),
                    ),
                ),
            }
        },
{
    broadcast use {FieldDescriptorRef::lemma_at_parts, ExtensionDescriptorRef::lemma_at_parts};

    reveal(kept_shape);
    reveal(holds_set_fields);
    reveal(names_resolve);
    lemma_field_count_fits(m.desc);
    m.desc.pool().lemma_counts_fit();
    let fields = m.desc.data().fields@;
    let exts = m.desc.pool().extensions();
    if m.fields.contains_key(k) {
        assert(m.fields[k] is Value);
        match m.desc.field_index(k) {
            Some(i) => {
                let field = FieldDescriptorRef::at(m.desc, i as usize);
                assert(field.data() == fields[i]);
                assert(m.fields.contains_key(fields[i].number));
            },
            None => {
                let e = choose|e: int|
                    0 <= e < exts.len() && (#[trigger] exts[e]).extendee == m.desc.index()
                        && exts[e].number == k;
                assert(m.desc.extension_index(exts[e].number) == Some(e));
                let extension = ExtensionDescriptorRef::at(m.desc.pool(), e as usize);
                assert(extension.data() == exts[e]);
                assert(m.fields.contains_key(exts[e].number));
            },
        }
    }
}

/// The member that was written for what the message holds under a number
/// is read into a part of what the message holds, which lacks the number, as
/// that part with what the message holds under the number.
pub proof fn lemma_member_read_into<'a>(
    m: MessageView<'a>,
    k: u32,
    state: Map<u32, EntryView<'a>>,
    written: SerializeOptions,
    read: DeserializeOptions,
    member: (Seq<char>, JsonView),
)
    requires
        kept_shape(m, written),
        m.fields.contains_key(k),
        part_of(state, m),
        !state.contains_key(k),
        item_at(m.fields, m.desc, k) is Some,
        json_of_item(m, item_at(m.fields, m.desc, k)->Some_0, written) == Ok::<
            Option<(Seq<char>, JsonView)>,
            SerializeError,
        >(Some(member)),
        forall|i: nat| i < m.desc.data().fields@.len() ==> #[trigger] field_reads_back(m, i, written, read),
        forall|e: nat|
            e < m.desc.pool().extensions().len() ==> #[trigger] extension_reads_back(
                m,
                e,
                written,
                read,
            ),
    ensures
        member_of_json(state, member.0, member.1, m.desc, read) == Ok::<
            Map<u32, EntryView<'a>>,
            DeserializeError,
        >(state.insert(k, m.fields[k])),
{
    lemma_item_held(m, written, k);
    match m.desc.field_index(k) {
        Some(i) => {
            assert(field_reads_back(m, i as nat, written, read));
            let field = FieldDescriptorRef::at(m.desc, i as usize);
            lemma_field_count_fits(m.desc);
            assert(member_name(field, written) == field_name_at(m.desc, i, written)) by {
                broadcast use FieldDescriptorRef::lemma_at_parts;

            }
            lemma_field_read_into(m, i as nat, state, written, read, member.1);
        },
        None => {
            let e = m.desc.extension_index(k)->Some_0;
            assert(extension_reads_back(m, e as nat, written, read));
            m.desc.pool().lemma_counts_fit();
            assert(member.0 == m.desc.pool().extensions()[e].json_name@) by {
                broadcast use ExtensionDescriptorRef::lemma_at_parts;

            }
            lemma_extension_read_into(m, e as nat, state, written, read, member.1);
        },
    }
}

/// The item that the store of a message of a kept shape yields under a
/// number is written as a member, where the items can be written.
pub proof fn lemma_item_written<'a>(m: MessageView<'a>, written: SerializeOptions, q: nat)
    requires
        kept_shape(m, written),
        q < walk_of(m.fields, m.desc).len(),
        json_of_walk(m, walk_of(m.fields, m.desc).len(), written) is Ok,
        exists|k: u32|
            m.fields.contains_key(k) && #[trigger] item_at(m.fields, m.desc, k) == Some(
                walk_of(m.fields, m.desc)[q as int],
            ),
    ensures
        json_of_walk(m, q, written) is Ok,
        json_of_walk(m, q + 1, written) is Ok,
        json_of_item(m, walk_of(m.fields, m.desc)[q as int], written) matches Ok(Some(member))
            && json_of_walk(m, q + 1, written)->Ok_0 == json_of_walk(m, q, written)->Ok_0.push(
            member,
        ) && json_of_walk(m, walk_of(m.fields, m.desc).len(), written)->Ok_0[json_of_walk(
            m,
            q,
            written,
        )->Ok_0.len() as int] == member,
{
    let walk = walk_of(m.fields, m.desc);
    let k = choose|k: u32|
        m.fields.contains_key(k) && #[trigger] item_at(m.fields, m.desc, k) == Some(walk[q as int]);
    lemma_item_held(m, written, k);
    lemma_walk_front(m, q + 1, walk.len(), written);
    lemma_walk_front(m, q, walk.len(), written);
    let front = json_of_walk(m, q, written)->Ok_0;
    let more = json_of_walk(m, q + 1, written)->Ok_0;
    let all = json_of_walk(m, walk.len(), written)->Ok_0;
    assert(json_of_item(m, walk[q as int], written) is Ok);
    let member = json_of_item(m, walk[q as int], written)->Ok_0->Some_0;
    assert(more == front.push(member));
    assert(all[front.len() as int] == more[front.len() as int]);
}

/// What was written for each field and each extension of the message is
/// read back.
#[verifier::opaque]
pub open spec fn all_read_back<'a>(
    m: MessageView<'a>,
    written: SerializeOptions,
    read: DeserializeOptions,
) -> bool {
    &&& forall|i: nat| i < m.desc.data().fields@.len() ==> #[trigger] field_reads_back(m, i, written, read)
    &&& forall|e: nat|
        e < m.desc.pool().extensions().len() ==> #[trigger] extension_reads_back(m, e, written, read)
}

/// The members written for what the store yields below `n` are `count`
/// many, and are read as what the message holds below `n`.
pub open spec fn read_below<'a>(
    m: MessageView<'a>,
    n: nat,
    written: SerializeOptions,
    read: DeserializeOptions,
    j: JsonView,
    count: nat,
) -> bool {
    &&& count == walk_below(m.fields, m.desc, n).len()
    &&& count <= walk_of(m.fields, m.desc).len()
    &&& json_of_walk(m, count, written) is Ok
    &&& json_of_walk(m, count, written)->Ok_0.len() == count
    &&& count <= j->Object_0.len()
    &&& read_upto(j, count, m.desc, read) == Ok::<Map<u32, EntryView<'a>>, DeserializeError>(
        held_below(m, n),
    )
}

/// The store of a message of a kept shape yields an item under exactly the
/// numbers that it holds.
pub proof fn lemma_item_exists<'a>(m: MessageView<'a>, written: SerializeOptions, k: u32)
    requires
        kept_shape(m, written),
    ensures
        m.fields.contains_key(k) <==> item_at(m.fields, m.desc, k) is Some,
{
    lemma_item_held(m, written, k);
}

/// What the store yields below `n`, where it yields an item under `n - 1`:
/// that item, behind what it yields below `n - 1`.
pub proof fn lemma_next_item<'a>(m: MessageView<'a>, n: nat)
    requires
        1 <= n <= 0x1_0000_0000,
        item_at(m.fields, m.desc, (n - 1) as u32) is Some,
    ensures
        walk_below(m.fields, m.desc, n).len() == walk_below(m.fields, m.desc, (n - 1) as nat).len() + 1,
        walk_below(m.fields, m.desc, n).len() <= walk_of(m.fields, m.desc).len(),
        walk_of(m.fields, m.desc)[walk_below(m.fields, m.desc, (n - 1) as nat).len() as int]
            == item_at(m.fields, m.desc, (n - 1) as u32)->Some_0,
{
    let walk = walk_of(m.fields, m.desc);
    let now = walk_below(m.fields, m.desc, n);
    let front = walk_below(m.fields, m.desc, (n - 1) as nat);
    lemma_walk_grows(m, n, 0x1_0000_0000);
    assert(now == front.push(item_at(m.fields, m.desc, (n - 1) as u32)->Some_0));
    assert(walk[front.len() as int] == now[front.len() as int]);
}

/// What the store yields below `n`, where it yields nothing under `n - 1`:
/// what it yields below `n - 1`.
pub proof fn lemma_no_item<'a>(m: MessageView<'a>, n: nat)
    requires
        1 <= n,
        item_at(m.fields, m.desc, (n - 1) as u32) is None,
    ensures
        walk_below(m.fields, m.desc, n) == walk_below(m.fields, m.desc, (n - 1) as nat),
{
}

/// What the message holds below `n`: what it holds below `n - 1`, and what
/// it holds under `n - 1`.
pub proof fn lemma_held_more<'a>(m: MessageView<'a>, n: nat)
    requires
        1 <= n <= 0x1_0000_0000,
    ensures
        part_of(held_below(m, (n - 1) as nat), m),
        !held_below(m, (n - 1) as nat).contains_key((n - 1) as u32),
        m.fields.contains_key((n - 1) as u32) ==> held_below(m, n) == held_below(
            m,
            (n - 1) as nat,
        ).insert((n - 1) as u32, m.fields[(n - 1) as u32]),
        !m.fields.contains_key((n - 1) as u32) ==> held_below(m, n) == held_below(m, (n - 1) as nat),
{
    let k = (n - 1) as u32;
    let state = held_below(m, (n - 1) as nat);
    if m.fields.contains_key(k) {
        assert(held_below(m, n) =~= state.insert(k, m.fields[k]));
    } else {
        assert(held_below(m, n) =~= state);
    }
}

/// One member more is read into the state that the members before it were
/// read as.
pub proof fn lemma_read_member<'a>(
    j: JsonView,
    before: nat,
    desc: MessageDescriptorRef<'a>,
    read: DeserializeOptions,
    state: Map<u32, EntryView<'a>>,
    next: Map<u32, EntryView<'a>>,
)
    requires
        j is Object,
        before < j->Object_0.len(),
        read_upto(j, before, desc, read) == Ok::<Map<u32, EntryView<'a>>, DeserializeError>(state),
        member_of_json(state, j->Object_0[before as int].0, j->Object_0[before as int].1, desc, read)
            == Ok::<Map<u32, EntryView<'a>>, DeserializeError>(next),
    ensures
        read_upto(j, before + 1, desc, read) == Ok::<Map<u32, EntryView<'a>>, DeserializeError>(next),
{
    lemma_read_one_more(j, before + 1, desc, read);
}

/// One number more, under which the message holds nothing: nothing was
/// written for it.
pub proof fn lemma_walk_read_skip<'a>(
    m: MessageView<'a>,
    n: nat,
    written: SerializeOptions,
    read: DeserializeOptions,
    j: JsonView,
    before: nat,
)
    requires
        kept_shape(m, written),
        1 <= n <= 0x1_0000_0000,
        !m.fields.contains_key((n - 1) as u32),
        read_below(m, (n - 1) as nat, written, read, j, before),
    ensures
        read_below(m, n, written, read, j, before),
{
    lemma_item_exists(m, written, (n - 1) as u32);
    lemma_held_more(m, n);
    lemma_no_item(m, n);
}

/// One number more, under which the message holds something: that was
/// written as the next member, and is read from it.
pub proof fn lemma_walk_read_take<'a>(
    m: MessageView<'a>,
    n: nat,
    written: SerializeOptions,
    read: DeserializeOptions,
    j: JsonView,
    before: nat,
)
    requires
        kept_shape(m, written),
        1 <= n <= 0x1_0000_0000,
        m.fields.contains_key((n - 1) as u32),
        json_of_walk(m, walk_of(m.fields, m.desc).len(), written) is Ok,
        j == JsonView::Object(json_of_walk(m, walk_of(m.fields, m.desc).len(), written)->Ok_0),
        all_read_back(m, written, read),
        read_below(m, (n - 1) as nat, written, read, j, before),
    ensures
        read_below(m, n, written, read, j, before + 1),
{
    let k = (n - 1) as u32;
    let state = held_below(m, (n - 1) as nat);
    let next = held_below(m, n);
    lemma_item_exists(m, written, k);
    lemma_held_more(m, n);
    let item = item_at(m.fields, m.desc, k)->Some_0;
    lemma_next_item(m, n);
    lemma_item_written(m, written, before);
    let member = json_of_item(m, item, written)->Ok_0->Some_0;
    assert(j->Object_0[before as int] == member);
    assert(member_of_json(state, member.0, member.1, m.desc, read) == Ok::<
        Map<u32, EntryView<'a>>,
        DeserializeError,
    >(next)) by {
        reveal(all_read_back);
        lemma_member_read_into(m, k, state, written, read, member);
    }
    lemma_walk_front(m, before + 1, walk_of(m.fields, m.desc).len(), written);
    lemma_read_member(j, before, m.desc, read, state, next);
}

/// What was written for a message of a kept shape, under options that skip
/// fields that are not set, is read back number by number: the members
/// written for what the store yields below `n` are read as what the message
/// holds below `n`. The result is the count of those members.
pub proof fn lemma_walk_read_back<'a>(
    m: MessageView<'a>,
    n: nat,
    written: SerializeOptions,
    read: DeserializeOptions,
    j: JsonView,
) -> (count: nat)
    requires
        kept_shape(m, written),
        n <= 0x1_0000_0000,
        json_of_walk(m, walk_of(m.fields, m.desc).len(), written) is Ok,
        j == JsonView::Object(json_of_walk(m, walk_of(m.fields, m.desc).len(), written)->Ok_0),
        all_read_back(m, written, read),
    ensures
        read_below(m, n, written, read, j, count),
    decreases n,
{
    if n == 0 {
        lemma_read_none(j, m.desc, read);
        assert(held_below(m, 0) =~= Map::empty());
        0
    } else {
        let before = lemma_walk_read_back(m, (n - 1) as nat, written, read, j);
        if m.fields.contains_key((n - 1) as u32) {
            lemma_walk_read_take(m, n, written, read, j, before);
            before + 1
        } else {
            lemma_walk_read_skip(m, n, written, read, j, before);
            before
        }
    }
}

/// A message that is kept is read back from what was written for it under
/// options that skip fields that are not set: the same message.
pub proof fn law_message_reads_back<'a>(
    m: MessageView<'a>,
    written: SerializeOptions,
    read: DeserializeOptions,
)
    requires
        written.skips_default_fields(),
        message_kept(m, written),
    ensures
        json_of_message(m, written) matches Ok(j) ==> message_of_json(j, m.desc, read) == Ok::<
            MessageView<'a>,
            DeserializeError,
        >(m),
    decreases m, 3nat,
{
    if json_of_message(m, written) is Ok {
        let desc = m.desc;
        let count = desc.data().fields@.len();
        let total = desc.pool().extensions().len();
        let walk = walk_of(m.fields, desc);
        assert(json_of_members(m, written) == json_of_walk(m, walk.len(), written));
        let members = json_of_walk(m, walk.len(), written)->Ok_0;
        let j = JsonView::Object(members);
        assert(json_of_message(m, written) == Ok::<JsonView, SerializeError>(j));
        assert forall|i: nat| i < count implies #[trigger] field_reads_back(m, i, written, read) by {
            lemma_field_kept_reads_back(m, i, written, read);
        }
        assert forall|i: nat| i < total implies #[trigger] extension_reads_back(m, i, written, read) by {
            lemma_extension_kept_reads_back(m, i, written, read);
        }
        assert(all_read_back(m, written, read)) by {
            reveal(all_read_back);
        }
        let read_count = lemma_walk_read_back(m, 0x1_0000_0000, written, read, j);
        assert(held_below(m, 0x1_0000_0000) =~= m.fields);
        lemma_walk_front(m, walk.len(), walk.len(), written);
        assert(read_count == members.len());
        lemma_message_read(j, desc, read);
    }
}

/// What was written for a field of a message that is kept is read back.
pub proof fn lemma_field_kept_reads_back<'a>(
    m: MessageView<'a>,
    i: nat,
    written: SerializeOptions,
    read: DeserializeOptions,
)
    requires
        written.skips_default_fields(),
        message_kept(m, written),
        i < m.desc.data().fields@.len(),
    ensures
        field_reads_back(m, i, written, read),
    decreases m, 2nat,
{
    broadcast use FieldDescriptorRef::lemma_at_parts;

    reveal(field_reads_back);
    reveal(held_reads_back);
    lemma_field_count_fits(m.desc);
    let field = FieldDescriptorRef::at(m.desc, i as usize);
    let number = m.desc.data().fields@[i as int].number;
    assert(field.data() == m.desc.data().fields@[i as int]);
    if has_spec(m.fields, field) {
        let v = m.fields[number]->Value_0;
        assert(m.fields.contains_key(number) && m.fields[number] is Value);
        lemma_field_value_reads_back(
            v,
            field.resolved_kind(),
            field.holds_list(),
            field.holds_map(),
            written,
            read,
        );
    }
}

/// What was written for an extension of a message that is kept is read
/// back.
pub proof fn lemma_extension_kept_reads_back<'a>(
    m: MessageView<'a>,
    i: nat,
    written: SerializeOptions,
    read: DeserializeOptions,
)
    requires
        written.skips_default_fields(),
        message_kept(m, written),
        i < m.desc.pool().extensions().len(),
    ensures
        extension_reads_back(m, i, written, read),
    decreases m, 2nat,
{
    broadcast use ExtensionDescriptorRef::lemma_at_parts;

    reveal(extension_reads_back);
    reveal(held_reads_back);
    m.desc.pool().lemma_counts_fit();
    let extension = ExtensionDescriptorRef::at(m.desc.pool(), i as usize);
    let exts = m.desc.pool().extensions();
    let number = exts[i as int].number;
    assert(extension.data() == exts[i as int]);
    if exts[i as int].extendee == m.desc.index() && has_spec(m.fields, extension) {
        let v = m.fields[number]->Value_0;
        assert(m.fields.contains_key(number) && m.fields[number] is Value);
        lemma_field_value_reads_back(
            v,
            extension.resolved_kind(),
            extension.holds_list(),
            extension.holds_map(),
            written,
            read,
        );
    }
}


/// The name is that of one of the wrappers of a scalar.
pub open spec fn wrapper_type(full_name: Seq<char>) -> bool {
    ||| full_name == "google.protobuf.FloatValue"@
    ||| full_name == "google.protobuf.DoubleValue"@
    ||| full_name == "google.protobuf.Int32Value"@
    ||| full_name == "google.protobuf.Int64Value"@
    ||| full_name == "google.protobuf.UInt32Value"@
    ||| full_name == "google.protobuf.UInt64Value"@
    ||| full_name == "google.protobuf.BoolValue"@
    ||| full_name == "google.protobuf.StringValue"@
    ||| full_name == "google.protobuf.BytesValue"@
}

/// The name of a wrapper is that of a well-known type, and of none of the
/// other well-known types.
pub proof fn lemma_wrapper_names(full_name: Seq<char>)
    requires
        wrapper_type(full_name),
    ensures
        well_known_type(full_name),
        not_otherwise_known(full_name),
{
    reveal_strlit("google.protobuf.FloatValue");
    reveal_strlit("google.protobuf.DoubleValue");
    reveal_strlit("google.protobuf.Int32Value");
    reveal_strlit("google.protobuf.Int64Value");
    reveal_strlit("google.protobuf.UInt32Value");
    reveal_strlit("google.protobuf.UInt64Value");
    reveal_strlit("google.protobuf.BoolValue");
    reveal_strlit("google.protobuf.StringValue");
    reveal_strlit("google.protobuf.BytesValue");
    reveal_strlit("google.protobuf.Any");
    reveal_strlit("google.protobuf.Timestamp");
    reveal_strlit("google.protobuf.Duration");
    reveal_strlit("google.protobuf.Struct");
    reveal_strlit("google.protobuf.FieldMask");
    reveal_strlit("google.protobuf.ListValue");
    reveal_strlit("google.protobuf.Value");
    reveal_strlit("google.protobuf.Empty");
    if full_name.len() == 25 {
        assert(full_name[16] == 'B');
        assert("google.protobuf.Timestamp"@[16] == 'T');
        assert("google.protobuf.FieldMask"@[16] == 'F');
        assert("google.protobuf.ListValue"@[16] == 'L');
    }
}

/// The name sets the type apart from the well-known types that are not
/// wrappers.
pub open spec fn not_otherwise_known(full_name: Seq<char>) -> bool {
    &&& full_name != "google.protobuf.Any"@
    &&& full_name != "google.protobuf.Timestamp"@
    &&& full_name != "google.protobuf.Duration"@
    &&& full_name != "google.protobuf.Struct"@
    &&& full_name != "google.protobuf.FieldMask"@
    &&& full_name != "google.protobuf.ListValue"@
    &&& full_name != "google.protobuf.Value"@
    &&& full_name != "google.protobuf.Empty"@
}

/// A wrapper that holds a scalar under the number 1 is written as the
/// scalar.
#[verifier::spinoff_prover]
proof fn lemma_wrapper_written<'a>(m: MessageView<'a>, v: ValueView<'a>, written: SerializeOptions)
    requires
        well_known_type(m.desc.full_name_spec()),
        not_otherwise_known(m.desc.full_name_spec()),
        decoded(m.fields, 1) == Some(v),
        m.desc.field_index(1) matches Some(i) && {
            let field = FieldDescriptorRef::at(m.desc, i as usize);
            &&& !field.holds_list()
            &&& !field.holds_map()
            &&& !(field.resolved_kind() is Message)
            &&& field.data().number == 1
        },
    ensures
        json_of_message(m, written) == crate::json::ser::json_of_scalar(
            v,
            FieldDescriptorRef::at(m.desc, m.desc.field_index(1)->Some_0 as usize).resolved_kind(),
            written,
        ),
{
    let field = FieldDescriptorRef::at(m.desc, m.desc.field_index(1)->Some_0 as usize);
    assert(json_of_message(m, written) == crate::json::ser::json_of_well_known(m, written));
    assert(crate::json::ser::json_of_well_known(m, written) == crate::json::ser::json_of_numbered(
        m,
        1,
        written,
    ));
    assert(crate::json::ser::json_of_numbered(m, 1, written) == json_of_held(m, field, written));
    assert(json_of_held(m, field, written) == json_of_field_value(
        v,
        field.resolved_kind(),
        false,
        false,
        written,
    ));
}

/// A wrapper is read from the scalar that it wraps.
#[verifier::spinoff_prover]
proof fn lemma_wrapper_read<'a>(j: JsonView, desc: MessageDescriptorRef<'a>, read: DeserializeOptions)
    requires
        well_known_type(desc.full_name_spec()),
        not_otherwise_known(desc.full_name_spec()),
    ensures
        message_of_json(j, desc, read) == crate::json::de::scalar_message_of_json(j, desc, 1),
{
    assert(message_of_json(j, desc, read) == crate::json::de::well_known_of_json(j, desc, read));
}

/// A wrapper that holds a scalar that the mapping keeps, and nothing else,
/// is read back as it was from what is written for it.
pub proof fn law_wrapper_reads_back<'a>(
    m: MessageView<'a>,
    v: ValueView<'a>,
    written: SerializeOptions,
    read: DeserializeOptions,
)
    requires
        m.desc.wf(),
        wrapper_type(m.desc.full_name_spec()),
        m.fields == Map::<u32, EntryView<'a>>::empty().insert(1, EntryView::Value(v)),
        m.desc.field_index(1) matches Some(i) && {
            let field = FieldDescriptorRef::at(m.desc, i as usize);
            &&& !field.holds_list()
            &&& !field.holds_map()
            &&& !(field.resolved_kind() is Message)
            &&& valid_for_kind(v, field.resolved_kind())
            &&& kept_by_mapping(v, field.resolved_kind(), written)
        },
    ensures
        json_of_message(m, written) matches Ok(j) ==> message_of_json(j, m.desc, read) == Ok::<
            MessageView<'a>,
            DeserializeError,
        >(m),
        json_of_message(m, written) == crate::json::ser::json_of_scalar(
            v,
            FieldDescriptorRef::at(m.desc, m.desc.field_index(1)->Some_0 as usize).resolved_kind(),
            written,
        ),
{
    broadcast use FieldDescriptorRef::lemma_at_parts;

    let desc = m.desc;
    lemma_wrapper_names(desc.full_name_spec());
    lemma_field_count_fits(desc);
    let i = desc.field_index(1)->Some_0;
    let field = FieldDescriptorRef::at(desc, i as usize);
    let kind = field.resolved_kind();
    assert(field.data() == desc.data().fields@[i]);
    assert(field.data().number == 1);
    assert(decoded(m.fields, 1) == Some(v));
    lemma_wrapper_written(m, v, written);
    law_scalar_reads_back(v, kind, written);
    if json_of_message(m, written) is Ok {
        let j = json_of_message(m, written)->Ok_0;
        lemma_wrapper_read(j, desc, read);
        assert(set_spec(Map::<u32, EntryView<'a>>::empty(), field, v) =~= m.fields);
    }
}

/// The name `Empty` is that of a well-known type, and of neither `Duration`
/// nor `Timestamp`.
proof fn lemma_empty_name(full_name: Seq<char>)
    requires
        full_name == "google.protobuf.Empty"@,
    ensures
        well_known_type(full_name),
        full_name != "google.protobuf.Duration"@,
        full_name != "google.protobuf.Timestamp"@,
{
    reveal_strlit("google.protobuf.Empty");
    reveal_strlit("google.protobuf.Duration");
    reveal_strlit("google.protobuf.Timestamp");
    assert("google.protobuf.Empty"@.len() == 21);
    assert("google.protobuf.Duration"@.len() == 24);
    assert("google.protobuf.Timestamp"@.len() == 25);
}

/// An `Empty` that holds nothing is read back as it was from what is written
/// for it.
#[verifier::spinoff_prover]
pub proof fn law_empty_reads_back<'a>(
    m: MessageView<'a>,
    written: SerializeOptions,
    read: DeserializeOptions,
)
    requires
        m.desc.full_name_spec() == "google.protobuf.Empty"@,
        m.fields == Map::<u32, EntryView<'a>>::empty(),
    ensures
        json_of_message(m, written) matches Ok(j) && message_of_json(j, m.desc, read) == Ok::<
            MessageView<'a>,
            DeserializeError,
        >(m),
{
    lemma_empty_name(m.desc.full_name_spec());
    let j = JsonView::Object(Seq::empty());
    assert(json_of_message(m, written) == crate::json::ser::json_of_well_known(m, written));
    assert(crate::json::ser::json_of_well_known(m, written) == Ok::<JsonView, SerializeError>(j));
    assert(message_of_json(j, m.desc, read) == crate::json::de::well_known_of_json(j, m.desc, read));
    assert(crate::json::de::well_known_of_json(j, m.desc, read) == object_of_json(j, m.desc, read));
    assert(fields_of_json(j, 0, m.desc, read) == Ok::<Map<u32, EntryView<'a>>, DeserializeError>(
        Map::empty(),
    ));
    assert(object_of_json(j, m.desc, read) == Ok::<MessageView<'a>, DeserializeError>(m));
}

} // verus!
