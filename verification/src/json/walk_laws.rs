//! What holds of the members that a message of no well-known type is
//! written with: an error in one of them is an error of the message, at any
//! depth; a field that is not set is written where, and only where, fields
//! that are not set are asked for.

use crate::descriptor::{
    EnumDescriptorRef, ExtensionDescriptorRef, FieldDescriptorRef, KindRef, MessageDescriptorRef,
};
use crate::fields::{
    all_declared, decoded, get_spec, has_spec, item_at, walk_below, walk_of, FieldDescriptorLike,
    ItemView,
};
use crate::json::any::{held_bytes, held_text};
use crate::json::round_trip::lemma_walk_grows;
use crate::json::ser::{
    held_i32, held_i64, json_of_declared, json_of_duration, json_of_entries, json_of_enum,
    json_of_field_value, json_of_held, json_of_item, json_of_items, json_of_members,
    json_of_message, json_of_numbers, json_of_scalar, json_of_timestamp, json_of_value,
    json_of_walk, json_of_well_known, lemma_entries_error, lemma_items_error, lemma_numbers_error,
    lemma_walk_error, member_name, SerializeError,
};
use crate::json::value::{number_of_int, JsonView};
use crate::json::{duration_in_range, timestamp_in_range, well_known_type, Duration, SerializeOptions, Timestamp};
use crate::value::{EntryView, MessageView, ValueView};
use vstd::prelude::*;

verus! {

/// What the store yields under a number below `n` is among what it yields
/// below `n`.
pub proof fn lemma_in_walk_below<'a>(m: MessageView<'a>, number: u32, n: nat) -> (q: int)
    requires
        number < n,
        item_at(m.fields, m.desc, number) is Some,
    ensures
        0 <= q < walk_below(m.fields, m.desc, n).len(),
        walk_below(m.fields, m.desc, n)[q] == item_at(m.fields, m.desc, number)->Some_0,
    decreases n,
{
    let front = walk_below(m.fields, m.desc, (n - 1) as nat);
    if n - 1 == number {
        front.len() as int
    } else {
        lemma_in_walk_below(m, number, (n - 1) as nat)
    }
}

/// Every item of what the store yields below `n` is what it yields under
/// the item's number.
pub proof fn lemma_walk_items<'a>(m: MessageView<'a>, n: nat, q: int)
    requires
        0 <= q < walk_below(m.fields, m.desc, n).len(),
        n <= 0x1_0000_0000,
    ensures
        exists|k: u32| #[trigger]
            item_at(m.fields, m.desc, k) == Some(walk_below(m.fields, m.desc, n)[q]),
    decreases n,
{
    let front = walk_below(m.fields, m.desc, (n - 1) as nat);
    if n > 0 {
        if q < front.len() {
            lemma_walk_items(m, (n - 1) as nat, q);
            let k = choose|k: u32| #[trigger] item_at(m.fields, m.desc, k) == Some(front[q]);
            assert(item_at(m.fields, m.desc, k) == Some(walk_below(m.fields, m.desc, n)[q]));
        } else {
            let k = (n - 1) as u32;
            assert(item_at(m.fields, m.desc, k) == Some(walk_below(m.fields, m.desc, n)[q]));
        }
    }
}

/// The message is written as the object of its members, where it is of no
/// well-known type and the store holds decoded values under declared
/// numbers only.
pub open spec fn plainly_written<'a>(m: MessageView<'a>) -> bool {
    !well_known_type(m.desc.full_name_spec()) && all_declared(m.fields, m.desc)
}

/// The member that stands under `number` cannot be written: under options
/// that skip what is not set, the item that the store yields under the
/// number; else what the message holds, or its default, for the field or
/// extension of the number.
pub open spec fn member_fails<'a>(m: MessageView<'a>, number: u32, options: SerializeOptions) -> bool {
    if options.skips_default_fields() {
        item_at(m.fields, m.desc, number) matches Some(item) && json_of_item(m, item, options) is Err
    } else {
        json_of_declared(m, number, options) is Err
    }
}

/// A member that cannot be written makes the message fail: serialization
/// stops at the first error and gives no partial object.
pub proof fn law_member_error_fails_message<'a>(
    m: MessageView<'a>,
    number: u32,
    options: SerializeOptions,
)
    requires
        !well_known_type(m.desc.full_name_spec()),
        member_fails(m, number, options),
    ensures
        json_of_message(m, options) is Err,
{
    if all_declared(m.fields, m.desc) {
        if options.skips_default_fields() {
            let walk = walk_of(m.fields, m.desc);
            let q = lemma_in_walk_below(m, number, 0x1_0000_0000);
            assert(json_of_walk(m, (q + 1) as nat, options) is Err);
            lemma_walk_error(m, (q + 1) as nat, walk.len(), options);
            assert(json_of_members(m, options) is Err);
        } else {
            assert(json_of_numbers(m, (number + 1) as nat, options) is Err);
            lemma_numbers_error(m, (number + 1) as nat, 0x1_0000_0000, options);
            assert(json_of_members(m, options) is Err);
        }
    }
}

/// The value holds the message `inner` where a field of a message kind
/// holds its messages: as the single value, as an item of the list, or as a
/// value of the map.
pub open spec fn message_in<'a>(
    v: ValueView<'a>,
    kind: KindRef<'a>,
    is_list: bool,
    is_map: bool,
    inner: MessageView<'a>,
) -> bool {
    if is_list {
        kind is Message && v is List && exists|i: int|
            0 <= i < v->List_0.len() && #[trigger] v->List_0[i] == ValueView::Message(inner)
    } else if is_map {
        &&& v is Entries
        &&& kind matches KindRef::Message(entry)
        &&& entry.map_value_kind_spec() is Message
        &&& exists|i: int|
            0 <= i < v->Entries_0.len() && (#[trigger] v->Entries_0[i]).1 == ValueView::Message(inner)
    } else {
        kind is Message && v == ValueView::Message(inner)
    }
}

/// A message that cannot be written makes the value of the field that
/// holds it fail.
pub proof fn lemma_inner_error_fails_value<'a>(
    v: ValueView<'a>,
    kind: KindRef<'a>,
    is_list: bool,
    is_map: bool,
    inner: MessageView<'a>,
    options: SerializeOptions,
)
    requires
        message_in(v, kind, is_list, is_map, inner),
        json_of_message(inner, options) is Err,
    ensures
        json_of_field_value(v, kind, is_list, is_map, options) is Err,
{
    if is_list {
        let items = v->List_0;
        let i = choose|i: int| 0 <= i < items.len() && #[trigger] items[i] == ValueView::Message(inner);
        assert(json_of_value(items[i], kind, options) is Err);
        assert(json_of_items(v, (i + 1) as nat, kind, options) is Err);
        lemma_items_error(v, (i + 1) as nat, items.len(), kind, options);
    } else if is_map {
        let entries = v->Entries_0;
        let entry = kind->Message_0;
        let value_kind = entry.map_value_kind_spec();
        let i = choose|i: int|
            0 <= i < entries.len() && (#[trigger] entries[i]).1 == ValueView::Message(inner);
        if entry.data().is_map_entry {
            assert(json_of_value(entries[i].1, value_kind, options) is Err);
            assert(json_of_entries(v, (i + 1) as nat, value_kind, options) is Err);
            lemma_entries_error(v, (i + 1) as nat, entries.len(), value_kind, options);
        }
    } else {
        assert(json_of_value(v, kind, options) is Err);
    }
}

/// The message `m`, of no well-known type, holds the message `inner` in the
/// field or extension numbered `number`, which is written.
pub open spec fn holds_message<'a>(m: MessageView<'a>, number: u32, inner: MessageView<'a>) -> bool {
    &&& !well_known_type(m.desc.full_name_spec())
    &&& decoded(m.fields, number) is Some
    &&& match item_at(m.fields, m.desc, number) {
        Some(ItemView::Field(_, field)) => message_in(
            m.fields[number]->Value_0,
            field.kind_spec(),
            field.is_list_spec(),
            field.is_map_spec(),
            inner,
        ),
        Some(ItemView::Extension(_, extension)) => message_in(
            m.fields[number]->Value_0,
            extension.kind_spec(),
            extension.is_list_spec(),
            extension.is_map_spec(),
            inner,
        ),
        _ => false,
    }
}

/// The message `m` holds the message `inner` at the depth `depth`: it is
/// `inner` at depth 0, and else holds a message that holds `inner` one level
/// less deep.
pub open spec fn holds_at_depth<'a>(m: MessageView<'a>, inner: MessageView<'a>, depth: nat) -> bool
    decreases depth,
{
    if depth == 0 {
        m == inner
    } else {
        exists|number: u32, mid: MessageView<'a>| #[trigger]
            holds_message(m, number, mid) && holds_at_depth(mid, inner, (depth - 1) as nat)
    }
}

/// Where an extension of the pool extends the message under a number, a
/// first one does.
pub proof fn lemma_first_extension<'a>(desc: MessageDescriptorRef<'a>, number: u32, i: int)
    requires
        desc.extends_at(i, number),
    ensures
        desc.extension_index(number) matches Some(first) && desc.extends_at(first, number),
    decreases i,
{
    if exists|j: int| 0 <= j < i && desc.extends_at(j, number) {
        let j = choose|j: int| 0 <= j < i && desc.extends_at(j, number);
        lemma_first_extension(desc, number, j);
    } else {
        assert(desc.extends_at(i, number) && forall|j: int| 0 <= j < i ==> !desc.extends_at(j, number));
    }
}

/// The item that the store yields under a number stands under that number,
/// and a value is yielded with the field or the extension that the type
/// declares under the number.
pub proof fn lemma_item_number<'a>(m: MessageView<'a>, number: u32)
    requires
        item_at(m.fields, m.desc, number) is Some,
    ensures
        item_at(m.fields, m.desc, number)->Some_0.number() == number,
        item_at(m.fields, m.desc, number) matches Some(ItemView::Field(v, field)) ==> decoded(
            m.fields,
            number,
        ) == Some(v) && m.desc.field_index(number) is Some && field == FieldDescriptorRef::at(
            m.desc,
            m.desc.field_index(number)->Some_0 as usize,
        ) && field.number_spec() == number,
        item_at(m.fields, m.desc, number) matches Some(ItemView::Extension(v, extension)) ==> decoded(
            m.fields,
            number,
        ) == Some(v) && m.desc.field_index(number) is None && m.desc.extension_index(number)
            is Some && extension == ExtensionDescriptorRef::at(
            m.desc.pool(),
            m.desc.extension_index(number)->Some_0 as usize,
        ) && extension.number_spec() == number,
{
    broadcast use {FieldDescriptorRef::lemma_at_parts, ExtensionDescriptorRef::lemma_at_parts};

    crate::json::round_trip::lemma_field_count_fits(m.desc);
    m.desc.pool().lemma_counts_fit();
    if m.desc.field_index(number) is None && m.desc.extension_index(number) is Some {
        let w = choose|w: int| m.desc.extends_at(w, number);
        lemma_first_extension(m.desc, number, w);
    }
}

/// A value that cannot be written makes the member of its number fail.
pub proof fn lemma_held_fails_member<'a>(m: MessageView<'a>, number: u32, options: SerializeOptions)
    requires
        match item_at(m.fields, m.desc, number) {
            Some(ItemView::Field(_, field)) => json_of_held(m, field, options) is Err,
            Some(ItemView::Extension(_, extension)) => json_of_held(m, extension, options) is Err,
            _ => false,
        },
    ensures
        member_fails(m, number, options),
{
    lemma_item_number(m, number);
    match item_at(m.fields, m.desc, number) {
        Some(ItemView::Field(v, field)) => {
            assert(json_of_item(m, ItemView::Field(v, field), options) is Err);
            assert(json_of_declared(m, number, options) is Err);
        },
        Some(ItemView::Extension(v, extension)) => {
            assert(json_of_item(m, ItemView::Extension(v, extension), options) is Err);
            assert(json_of_declared(m, number, options) is Err);
        },
        _ => {},
    }
}

/// A message that cannot be written makes the message fail that holds it in
/// a field.
pub proof fn lemma_held_error_fails<'a>(
    m: MessageView<'a>,
    number: u32,
    inner: MessageView<'a>,
    options: SerializeOptions,
)
    requires
        holds_message(m, number, inner),
        json_of_message(inner, options) is Err,
    ensures
        json_of_message(m, options) is Err,
{
    let v = m.fields[number]->Value_0;
    lemma_item_number(m, number);
    match item_at(m.fields, m.desc, number) {
        Some(ItemView::Field(_, field)) => {
            lemma_inner_error_fails_value(
                v,
                field.kind_spec(),
                field.is_list_spec(),
                field.is_map_spec(),
                inner,
                options,
            );
            assert(json_of_held(m, field, options) is Err);
        },
        Some(ItemView::Extension(_, extension)) => {
            lemma_inner_error_fails_value(
                v,
                extension.kind_spec(),
                extension.is_list_spec(),
                extension.is_map_spec(),
                inner,
                options,
            );
            assert(json_of_held(m, extension, options) is Err);
        },
        _ => {},
    }
    lemma_held_fails_member(m, number, options);
    law_member_error_fails_message(m, number, options);
}

/// A message that cannot be written makes every message fail that holds it,
/// at any depth.
pub proof fn law_error_at_depth_fails<'a>(
    m: MessageView<'a>,
    inner: MessageView<'a>,
    depth: nat,
    options: SerializeOptions,
)
    requires
        holds_at_depth(m, inner, depth),
        json_of_message(inner, options) is Err,
    ensures
        json_of_message(m, options) is Err,
    decreases depth,
{
    if depth > 0 {
        let (number, mid) = choose|number: u32, mid: MessageView<'a>| #[trigger]
            holds_message(m, number, mid) && holds_at_depth(mid, inner, (depth - 1) as nat);
        law_error_at_depth_fails(mid, inner, (depth - 1) as nat, options);
        lemma_held_error_fails(m, number, mid, options);
    }
}

/// A duration outside the range of the mapping, and a timestamp outside
/// the years 0001 to 9999, are not written.
pub proof fn law_out_of_range_fails<'a>(m: MessageView<'a>, options: SerializeOptions)
    requires
        held_i64(m.fields, 1) is Some,
        held_i32(m.fields, 2) is Some,
    ensures
        m.desc.full_name_spec() == "google.protobuf.Duration"@ && !duration_in_range(
            Duration { seconds: held_i64(m.fields, 1)->Some_0, nanos: held_i32(m.fields, 2)->Some_0 },
        ) ==> json_of_message(m, options) == Err::<JsonView, SerializeError>(
            SerializeError::DurationOutOfRange,
        ),
        m.desc.full_name_spec() == "google.protobuf.Timestamp"@ && !timestamp_in_range(
            Timestamp { seconds: held_i64(m.fields, 1)->Some_0, nanos: held_i32(m.fields, 2)->Some_0 },
        ) ==> json_of_message(m, options) == Err::<JsonView, SerializeError>(
            SerializeError::TimestampOutOfRange,
        ),
{
    reveal_strlit("google.protobuf.Duration");
    reveal_strlit("google.protobuf.Timestamp");
    let name = m.desc.full_name_spec();
    if name == "google.protobuf.Duration"@ {
        assert(name.len() == 24);
        assert(well_known_type(name));
        assert(json_of_message(m, options) == json_of_well_known(m, options));
        assert(json_of_well_known(m, options) == json_of_duration(m));
    }
    if name == "google.protobuf.Timestamp"@ {
        assert(name.len() == 25);
        assert(name[16] == 'T');
        assert(well_known_type(name));
        assert(json_of_message(m, options) == json_of_well_known(m, options));
        assert(json_of_well_known(m, options) == json_of_timestamp(m));
    }
}

/// A duration or a timestamp out of range makes every message fail that
/// holds it, at any depth.
pub proof fn law_out_of_range_at_depth_fails<'a>(
    m: MessageView<'a>,
    inner: MessageView<'a>,
    depth: nat,
    options: SerializeOptions,
)
    requires
        holds_at_depth(m, inner, depth),
        held_i64(inner.fields, 1) matches Some(seconds) && held_i32(inner.fields, 2) matches Some(nanos)
            && ((inner.desc.full_name_spec() == "google.protobuf.Duration"@ && !duration_in_range(
            Duration { seconds, nanos },
        )) || (inner.desc.full_name_spec() == "google.protobuf.Timestamp"@ && !timestamp_in_range(
            Timestamp { seconds, nanos },
        ))),
    ensures
        json_of_message(m, options) is Err,
{
    law_out_of_range_fails(inner, options);
    law_error_at_depth_fails(m, inner, depth, options);
}

/// An enum value for which the enum declares no name is written as its
/// number where numbers are asked for, and is not written by name; but
/// for a value of `NullValue`, which is written as `null`.
pub proof fn law_unnamed_enum_value<'a>(e: EnumDescriptorRef<'a>, n: i32, options: SerializeOptions)
    requires
        e.value_index(n) is None,
        e.data().full_name@ != "google.protobuf.NullValue"@,
    ensures
        options.uses_enum_numbers() ==> json_of_scalar(
            ValueView::EnumNumber(n),
            KindRef::Enum(e),
            options,
        ) == Ok::<JsonView, SerializeError>(JsonView::Number(number_of_int(n as i64))),
        !options.uses_enum_numbers() ==> json_of_scalar(
            ValueView::EnumNumber(n),
            KindRef::Enum(e),
            options,
        ) == Err::<JsonView, SerializeError>(SerializeError::UnknownEnumValue(n)),
{
    assert(json_of_scalar(ValueView::EnumNumber(n), KindRef::Enum(e), options) == json_of_enum(
        e,
        n,
        options,
    ));
}

/// A message that holds, in a singular enum field that is written, a number
/// for which the enum declares no name is not written by name.
pub proof fn law_unnamed_enum_fails_message<'a>(
    m: MessageView<'a>,
    number: u32,
    n: i32,
    options: SerializeOptions,
)
    requires
        !well_known_type(m.desc.full_name_spec()),
        !options.uses_enum_numbers(),
        decoded(m.fields, number) == Some(ValueView::<'a>::EnumNumber(n)),
        item_at(m.fields, m.desc, number) matches Some(ItemView::Field(_, field)) && !field.is_list_spec()
            && !field.is_map_spec() && (field.kind_spec() matches KindRef::Enum(e) && e.value_index(n)
            is None && e.data().full_name@ != "google.protobuf.NullValue"@),
    ensures
        json_of_message(m, options) is Err,
{
    let field = item_at(m.fields, m.desc, number)->Some_0->Field_1;
    let e = field.kind_spec()->Enum_0;
    law_unnamed_enum_value(e, n, options);
    lemma_item_number(m, number);
    assert(json_of_value(ValueView::EnumNumber(n), field.kind_spec(), options) is Err);
    assert(json_of_field_value(ValueView::EnumNumber(n), field.kind_spec(), false, false, options)
        is Err);
    assert(json_of_held(m, field, options) is Err);
    lemma_held_fails_member(m, number, options);
    law_member_error_fails_message(m, number, options);
}

/// Where fields that are not set are written too, the member of a declared
/// number is among the members of the message.
pub proof fn lemma_declared_is_written<'a>(
    m: MessageView<'a>,
    number: u32,
    n: nat,
    options: SerializeOptions,
)
    requires
        number < n,
        json_of_numbers(m, n, options) is Ok,
        json_of_declared(m, number, options) matches Ok(Some(_)),
    ensures
        json_of_numbers(m, n, options)->Ok_0.contains(json_of_declared(m, number, options)->Ok_0->Some_0),
    decreases n,
{
    let member = json_of_declared(m, number, options)->Ok_0->Some_0;
    let front = json_of_numbers(m, (n - 1) as nat, options)->Ok_0;
    let all = json_of_numbers(m, n, options)->Ok_0;
    if n - 1 == number {
        assert(all == front.push(member));
        assert(all[front.len() as int] == member);
    } else {
        lemma_declared_is_written(m, number, (n - 1) as nat, options);
        let p = choose|p: int| 0 <= p < front.len() && front[p] == member;
        assert(all[p] == member);
    }
}

/// Where fields that are not set are written too, a singular `int32` field
/// that is left at zero is written as the number 0 under its name.
pub proof fn law_default_is_written<'a>(m: MessageView<'a>, number: u32, options: SerializeOptions)
    requires
        plainly_written(m),
        !options.skips_default_fields(),
        m.desc.field_index(number) matches Some(i) && {
            let field = FieldDescriptorRef::at(m.desc, i as usize);
            &&& field.number_spec() == number
            &&& !field.is_list_spec()
            &&& !field.is_map_spec()
            &&& field.kind_spec() is Int32
            &&& get_spec(m.fields, field) == ValueView::<'a>::I32(0)
        },
        json_of_message(m, options) is Ok,
    ensures
        json_of_message(m, options)->Ok_0 is Object,
        json_of_message(m, options)->Ok_0->Object_0.contains(
            (
                member_name(
                    FieldDescriptorRef::at(m.desc, m.desc.field_index(number)->Some_0 as usize),
                    options,
                ),
                JsonView::Number(number_of_int(0)),
            ),
        ),
{
    let field = FieldDescriptorRef::at(m.desc, m.desc.field_index(number)->Some_0 as usize);
    let zero = ValueView::<'a>::I32(0);
    assert(json_of_scalar(zero, field.kind_spec(), options) == Ok::<JsonView, SerializeError>(
        JsonView::Number(number_of_int(0)),
    ));
    assert(json_of_value(zero, field.kind_spec(), options) == json_of_scalar(
        zero,
        field.kind_spec(),
        options,
    ));
    assert(json_of_field_value(zero, field.kind_spec(), false, false, options) == json_of_value(
        zero,
        field.kind_spec(),
        options,
    ));
    assert(json_of_held(m, field, options) == Ok::<JsonView, SerializeError>(
        JsonView::Number(number_of_int(0)),
    ));
    assert(json_of_members(m, options) == json_of_numbers(m, 0x1_0000_0000, options));
    lemma_declared_is_written(m, number, 0x1_0000_0000, options);
}

/// The name under which the item is written, where it is written.
pub open spec fn written_name<'a>(item: ItemView<'a>, options: SerializeOptions) -> Option<Seq<char>> {
    match item {
        ItemView::Field(_, field) => Some(member_name(field, options)),
        ItemView::Extension(_, extension) => Some(extension.data().json_name@),
        ItemView::Unknown(_, _) => None,
    }
}

/// Every member that is written for the first items of the walk carries the
/// name of one of those items.
pub proof fn lemma_members_are_items<'a>(m: MessageView<'a>, n: nat, options: SerializeOptions, p: int)
    requires
        n <= walk_of(m.fields, m.desc).len(),
        json_of_walk(m, n, options) is Ok,
        0 <= p < json_of_walk(m, n, options)->Ok_0.len(),
    ensures
        exists|q: int|
            0 <= q < n && written_name(#[trigger] walk_of(m.fields, m.desc)[q], options) == Some(
                json_of_walk(m, n, options)->Ok_0[p].0,
            ),
    decreases n,
{
    let walk = walk_of(m.fields, m.desc);
    if n > 0 {
        let front = json_of_walk(m, (n - 1) as nat, options)->Ok_0;
        if p < front.len() {
            lemma_members_are_items(m, (n - 1) as nat, options, p);
            let q = choose|q: int|
                0 <= q < n - 1 && written_name(#[trigger] walk[q], options) == Some(front[p].0);
            assert(written_name(walk[q], options) == Some(json_of_walk(m, n, options)->Ok_0[p].0));
        } else {
            let all = json_of_walk(m, n, options)->Ok_0;
            match json_of_item(m, walk[n - 1], options) {
                Ok(Some(member)) => {
                    assert(all == front.push(member));
                    assert(all[p] == member);
                },
                _ => {
                    assert(all == front);
                },
            }
            assert(written_name(walk[n - 1], options) == Some(all[p].0));
        }
    }
}

/// Where fields that are not set are skipped, no member of the message
/// carries the name of a field that is not set, as long as nothing else
/// that the message holds is written under that name.
pub proof fn law_unset_is_skipped<'a>(
    m: MessageView<'a>,
    number: u32,
    name: Seq<char>,
    options: SerializeOptions,
)
    requires
        plainly_written(m),
        options.skips_default_fields(),
        item_at(m.fields, m.desc, number) is None,
        forall|k: u32|
            k != number && #[trigger] item_at(m.fields, m.desc, k) is Some ==> written_name(
                item_at(m.fields, m.desc, k)->Some_0,
                options,
            ) != Some(name),
        json_of_message(m, options) is Ok,
    ensures
        json_of_message(m, options)->Ok_0 is Object,
        forall|p: int|
            0 <= p < json_of_message(m, options)->Ok_0->Object_0.len() ==> (
            #[trigger] json_of_message(m, options)->Ok_0->Object_0[p]).0 != name,
{
    let walk = walk_of(m.fields, m.desc);
    assert(json_of_members(m, options) == json_of_walk(m, walk.len(), options));
    let members = json_of_walk(m, walk.len(), options)->Ok_0;
    assert(json_of_message(m, options)->Ok_0 == JsonView::Object(members));
    assert forall|p: int| 0 <= p < members.len() implies (#[trigger] members[p]).0 != name by {
        lemma_members_are_items(m, walk.len(), options, p);
        let q = choose|q: int|
            0 <= q < walk.len() && written_name(#[trigger] walk[q], options) == Some(members[p].0);
        lemma_walk_items(m, 0x1_0000_0000, q);
        let k = choose|k: u32| #[trigger] item_at(m.fields, m.desc, k) == Some(walk[q]);
        assert(k != number);
    }
}

} // verus!
