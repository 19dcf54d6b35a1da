//! A message is read back from its binary form as it was.

use crate::descriptor::{ExtensionDescriptorRef, FieldDescriptorRef, KindRef, MessageDescriptorRef};
use crate::fields::{
    all_declared, decoded, get_spec, item_at, oneof_siblings, oneofs_exclusive, set_spec, valid_for,
    walk_below, walk_of, FieldDescriptorLike, ItemView,
};
use crate::json::round_trip::{
    held_below, lemma_held_more, lemma_next_item, lemma_no_item, lemma_write_adds, part_of,
};
use crate::json::walk_laws::lemma_item_number;
use crate::value::{EntryView, MessageView, ValueView};
use crate::wire::decode::{
    field_of_wire, fields_of_wire, key_of_value, message_of_wire, packed_of_wire, raw_at,
    scalar_of_raw, single_of_raw, stored, value_of_raw, Raw,
};
use crate::wire::encode::{
    run_bytes, value_of_key, wire_of_entries, wire_of_items, wire_of_message, wire_of_number,
    wire_of_packed, wire_of_scalar, wire_of_single, wire_of_value, wire_of_walk, wire_type_of,
};
use crate::wire::laws::{law_scalar_bytes_read_back, lemma_run_raw, read_back};
use crate::wire::{law_varint_reads_back, tag_bytes, varint_at, varint_bytes, VARINT_WIDTH};
use vstd::prelude::*;

verus! {

/// The single value of a field is one that is read back: a value that fits
/// its kind, where the kind is no message; else a message of the kind's type
/// that is read back.
pub open spec fn single_kept<'a>(v: ValueView<'a>, kind: KindRef<'a>) -> bool
    decreases v, 0nat,
{
    match kind {
        KindRef::Message(desc) => v matches ValueView::Message(m) && m.desc == desc && wire_kept(m),
        _ => wire_of_scalar(v, kind) is Some,
    }
}

/// What the message holds under `number` is read back: a value that counts
/// as set, of a field or an extension that holds single values and is no
/// group.
pub open spec fn entry_kept<'a>(m: MessageView<'a>, number: u32) -> bool
    decreases m, 0nat,
{
    m.fields.contains_key(number) && m.fields[number] is Value && match item_at(
        m.fields,
        m.desc,
        number,
    ) {
        Some(ItemView::Field(_, field)) => !field.is_group_spec() && value_kept(
            m.fields[number]->Value_0,
            field.kind_spec(),
            field.is_list_spec(),
            field.is_map_spec(),
            field.is_packed_spec(),
        ),
        Some(ItemView::Extension(_, extension)) => !extension.is_group_spec() && value_kept(
            m.fields[number]->Value_0,
            extension.kind_spec(),
            extension.is_list_spec(),
            extension.is_map_spec(),
            extension.is_packed_spec(),
        ),
        _ => false,
    }
}

/// The value of a field is one that is read back: a single value that is;
/// a list, with at least one item, of single values that are; or a map,
/// with at least one entry, of such values under keys that fit.
pub open spec fn value_kept<'a>(
    v: ValueView<'a>,
    kind: KindRef<'a>,
    is_list: bool,
    is_map: bool,
    is_packed: bool,
) -> bool
    decreases v, 1nat,
{
    if is_list {
        &&& v matches ValueView::List(items)
        &&& items.len() >= 1
        &&& forall|i: int| 0 <= i < items.len() ==> single_kept(#[trigger] items[i], kind)
    } else if is_map {
        &&& kind matches KindRef::Message(entry)
        &&& plain_entry(entry)
        &&& v matches ValueView::Entries(entries)
        &&& entries.len() >= 1
        &&& crate::value::valid_map_entries(entries, entry)
        &&& forall|i: int|
            0 <= i < entries.len() ==> wire_of_scalar(
                value_of_key((#[trigger] entries[i]).0),
                entry.map_key_kind_spec(),
            ) is Some && single_kept(entries[i].1, entry.map_value_kind_spec())
    } else {
        single_kept(v, kind)
    }
}

/// The type of the entries of a map holds its key and its value in two
/// plain fields: outside any oneof group, and no groups.
pub open spec fn plain_entry<'a>(entry: MessageDescriptorRef<'a>) -> bool {
    &&& entry.wf()
    &&& entry.data().is_map_entry
    &&& entry.data().fields@[0].oneof is None
    &&& entry.data().fields@[1].oneof is None
    &&& !entry.data().fields@[0].is_group
    &&& !entry.data().fields@[1].is_group
}

/// The message is one that is read back from its binary form: its oneof
/// groups are exclusive, and it holds, under numbers from 1 on, values that
/// are read back.
pub open spec fn wire_kept<'a>(m: MessageView<'a>) -> bool
    decreases m, 1nat,
{
    &&& m.desc.wf()
    &&& oneofs_exclusive(m.fields, m.desc)
    &&& forall|k: u32| #[trigger] m.fields.contains_key(k) ==> k >= 1 && entry_kept(m, k)
}

/// The bytes that are written for what the message holds under the numbers
/// below `n`.
pub open spec fn bytes_below<'a>(m: MessageView<'a>, n: nat) -> Seq<u8>
    decreases n,
{
    if n == 0 {
        Seq::empty()
    } else {
        let front = bytes_below(m, (n - 1) as nat);
        if item_at(m.fields, m.desc, (n - 1) as u32) is Some && wire_of_number(m, (n - 1) as u32)
            is Some {
            front + wire_of_number(m, (n - 1) as u32)->Some_0
        } else {
            front
        }
    }
}

/// The items of the walk from those below `n` on, written behind the
/// bytes of those below `n`, are all that is written.
pub open spec fn written_from<'a>(m: MessageView<'a>, n: nat) -> bool {
    &&& walk_below(m.fields, m.desc, n).len() <= walk_of(m.fields, m.desc).len()
    &&& wire_of_walk(
        m,
        (walk_of(m.fields, m.desc).len() - walk_below(m.fields, m.desc, n).len()) as nat,
        bytes_below(m, n),
    ) == wire_of_walk(m, walk_of(m.fields, m.desc).len(), Seq::empty())
}

/// One number more, under which the store yields an item: the item is the
/// next of the walk, and its bytes are the next that are written.
#[verifier::spinoff_prover]
proof fn lemma_walk_from_item<'a>(m: MessageView<'a>, n: nat)
    requires
        1 <= n <= 0x1_0000_0000,
        wire_of_walk(m, walk_of(m.fields, m.desc).len(), Seq::empty()) is Some,
        item_at(m.fields, m.desc, (n - 1) as u32) is Some,
        written_from(m, (n - 1) as nat),
    ensures
        written_from(m, n),
        wire_of_number(m, (n - 1) as u32) is Some,
{
    let walk = walk_of(m.fields, m.desc);
    let k = (n - 1) as u32;
    let before = walk_below(m.fields, m.desc, (n - 1) as nat).len();
    let left = (walk.len() - before) as nat;
    let acc = bytes_below(m, (n - 1) as nat);
    lemma_next_item(m, n);
    lemma_item_number(m, k);
    assert(walk[walk.len() - left].number() == k);
    assert(wire_of_walk(m, left, acc) is Some);
    assert(wire_of_number(m, k) is Some);
    assert(wire_of_walk(m, left, acc) == wire_of_walk(
        m,
        (left - 1) as nat,
        acc + wire_of_number(m, k)->Some_0,
    ));
}

/// Writing the items of the walk from those below `n` on, behind the bytes
/// of those below `n`, is writing them all.
proof fn lemma_walk_from<'a>(m: MessageView<'a>, n: nat)
    requires
        n <= 0x1_0000_0000,
        wire_of_walk(m, walk_of(m.fields, m.desc).len(), Seq::empty()) is Some,
    ensures
        written_from(m, n),
        n >= 1 && item_at(m.fields, m.desc, (n - 1) as u32) is Some ==> wire_of_number(
            m,
            (n - 1) as u32,
        ) is Some,
    decreases n,
{
    if n > 0 {
        lemma_walk_from(m, (n - 1) as nat);
        if item_at(m.fields, m.desc, (n - 1) as u32) is Some {
            lemma_walk_from_item(m, n);
        } else {
            lemma_no_item(m, n);
        }
    }
}

/// The binary form of a message is the bytes of what it holds under all
/// numbers, and those below a number stand at its front.
proof fn lemma_bytes_of_message<'a>(m: MessageView<'a>)
    requires
        wire_of_message(m) is Some,
    ensures
        wire_of_message(m) == Some(bytes_below(m, 0x1_0000_0000)),
{
    lemma_walk_from(m, 0x1_0000_0000);
    crate::json::round_trip::lemma_walk_grows(m, 0x1_0000_0000, 0x1_0000_0000);
}

/// The bytes below a number stand at the front of the bytes below a larger
/// one.
proof fn lemma_bytes_grow<'a>(m: MessageView<'a>, n: nat, to: nat)
    requires
        n <= to,
    ensures
        bytes_below(m, n).len() <= bytes_below(m, to).len(),
        bytes_below(m, to).subrange(0, bytes_below(m, n).len() as int) == bytes_below(m, n),
    decreases to - n,
{
    let short = bytes_below(m, n);
    if n < to {
        lemma_bytes_grow(m, n, (to - 1) as nat);
        let front = bytes_below(m, (to - 1) as nat);
        assert(bytes_below(m, to).subrange(0, short.len() as int) =~= front.subrange(
            0,
            short.len() as int,
        ));
    } else {
        assert(short.subrange(0, short.len() as int) =~= short);
    }
}

/// The tag of a field is read back as the number and the wire type.
proof fn lemma_tag_read(number: u32, wire_type: u64, before: Seq<u8>, behind: Seq<u8>)
    requires
        wire_type < 8,
    ensures
        varint_at(
            before + tag_bytes(number, wire_type) + behind,
            before.len() as int,
            VARINT_WIDTH as nat,
        ) matches Some((tag, at)) && tag / 8 == number && tag % 8 == wire_type && at == before.len()
            + tag_bytes(number, wire_type).len() && at > before.len(),
{
    let tag = (number * 8 + wire_type) as u64;
    law_varint_reads_back(tag, before, behind, VARINT_WIDTH as nat);
    assert(varint_bytes(tag).len() >= 1);
}

/// A single value that is kept fits its kind.
proof fn lemma_kept_is_valid<'a>(v: ValueView<'a>, kind: KindRef<'a>)
    requires
        single_kept(v, kind),
    ensures
        crate::value::valid_for_kind(v, kind),
        wire_type_of(kind) < 8,
{
}

/// The bytes of a single value that is kept are read back as the value.
proof fn lemma_single_read<'a>(
    v: ValueView<'a>,
    kind: KindRef<'a>,
    front: Seq<u8>,
    behind: Seq<u8>,
    pos: int,
)
    requires
        single_kept(v, kind),
        wire_of_single(v, kind) is Some,
        0 <= pos < front.len(),
        (front + wire_of_single(v, kind)->Some_0 + behind).len() <= usize::MAX,
    ensures
        raw_at(
            front + wire_of_single(v, kind)->Some_0 + behind,
            front.len() as int,
            wire_type_of(kind),
        ) matches Some((raw, next)) && next == front.len() + wire_of_single(v, kind)->Some_0.len()
            && single_of_raw(front + wire_of_single(v, kind)->Some_0 + behind, pos, raw, kind)
            == Some(v),
    decreases v, 0nat, 0nat,
{
    let single = wire_of_single(v, kind)->Some_0;
    let all = front + single + behind;
    match kind {
        KindRef::Message(desc) => {
            let m = v->Message_0;
            let nested = wire_of_message(m)->Some_0;
            assert(single == run_bytes(nested));
            lemma_run_raw(nested, front, behind);
            law_wire_reads_back(m);
            let raw = raw_at(all, front.len() as int, 2)->Some_0.0;
            assert(all.subrange(raw->Run_0 as int, raw->Run_1 as int) == nested);
            assert(raw->Run_0 >= front.len());
            assert(message_of_wire(nested, desc) == Some(m));
            assert(fields_of_wire(nested, 0, desc, Map::empty()) == Some(m.fields));
            assert(MessageView { desc, fields: m.fields } == m);
        },
        _ => {
            law_scalar_bytes_read_back(v, kind, front, behind);
            assert(read_back(v, kind, front, behind));
        },
    }
}

/// The kind of the field or extension under which the message holds what
/// it holds under `k`.
pub open spec fn entry_kind<'a>(m: MessageView<'a>, k: u32) -> KindRef<'a> {
    match item_at(m.fields, m.desc, k) {
        Some(ItemView::Field(_, field)) => field.kind_spec(),
        Some(ItemView::Extension(_, extension)) => extension.kind_spec(),
        _ => KindRef::Bool,
    }
}

/// What the message holds under `k` is the list of a repeated field or
/// extension.
pub open spec fn entry_is_list<'a>(m: MessageView<'a>, k: u32) -> bool {
    match item_at(m.fields, m.desc, k) {
        Some(ItemView::Field(_, field)) => field.is_list_spec(),
        Some(ItemView::Extension(_, extension)) => extension.is_list_spec(),
        _ => false,
    }
}

/// What the message holds under `k` is the map of a map field or
/// extension.
pub open spec fn entry_is_map<'a>(m: MessageView<'a>, k: u32) -> bool {
    match item_at(m.fields, m.desc, k) {
        Some(ItemView::Field(_, field)) => field.is_map_spec(),
        Some(ItemView::Extension(_, extension)) => extension.is_map_spec(),
        _ => false,
    }
}

/// What the message holds under `k` is a list whose items are written in
/// one run.
pub open spec fn entry_is_packed<'a>(m: MessageView<'a>, k: u32) -> bool {
    entry_is_list(m, k) && entry_kind(m, k).packable() && match item_at(m.fields, m.desc, k) {
        Some(ItemView::Field(_, field)) => field.is_packed_spec(),
        Some(ItemView::Extension(_, extension)) => extension.is_packed_spec(),
        _ => false,
    }
}

/// The store with `v` written to the field or extension numbered `k` of the
/// message, where that may hold `v`.
pub open spec fn entry_stored<'a>(
    m: MessageView<'a>,
    k: u32,
    state: Map<u32, EntryView<'a>>,
    v: Option<ValueView<'a>>,
) -> Option<Map<u32, EntryView<'a>>> {
    match item_at(m.fields, m.desc, k) {
        Some(ItemView::Field(_, field)) => stored(state, field, v),
        Some(ItemView::Extension(_, extension)) => stored(state, extension, v),
        _ => None,
    }
}

/// What the store holds for the field or extension numbered `k` of the
/// message, or its default.
pub open spec fn entry_current<'a>(m: MessageView<'a>, k: u32, state: Map<u32, EntryView<'a>>) -> ValueView<
    'a,
> {
    match item_at(m.fields, m.desc, k) {
        Some(ItemView::Field(_, field)) => get_spec(state, field),
        Some(ItemView::Extension(_, extension)) => get_spec(state, extension),
        _ => ValueView::Bool(false),
    }
}

/// At `pos` stands a tag that holds the number `k`, and behind it what a
/// tag of its wire type is followed by.
pub open spec fn tagged_at(all: Seq<u8>, pos: int, k: u32) -> bool {
    match varint_at(all, pos, VARINT_WIDTH as nat) {
        Some((tag, at)) => tag / 8 == k && pos < at && match raw_at(all, at, tag % 8) {
            Some((_, next)) => at <= next <= all.len(),
            None => false,
        },
        None => false,
    }
}

/// One field is read: behind a tag that holds the number `k`, what stands
/// there is read as a value of the field or extension of that number, written
/// to it, and reading goes on behind it.
proof fn lemma_one_field<'a>(
    m: MessageView<'a>,
    k: u32,
    all: Seq<u8>,
    pos: int,
    state: Map<u32, EntryView<'a>>,
)
    requires
        0 <= pos < all.len(),
        k >= 1,
        entry_kept(m, k),
        tagged_at(all, pos, k),
    ensures
        ({
            let tag = varint_at(all, pos, VARINT_WIDTH as nat)->Some_0.0;
            let at = varint_at(all, pos, VARINT_WIDTH as nat)->Some_0.1;
            let raw = raw_at(all, at, tag % 8)->Some_0.0;
            let next = raw_at(all, at, tag % 8)->Some_0.1;
            fields_of_wire(all, pos, m.desc, state) == match entry_stored(
                m,
                k,
                state,
                value_of_raw(
                    all,
                    pos,
                    raw,
                    entry_kind(m, k),
                    entry_is_list(m, k),
                    entry_is_map(m, k),
                    entry_current(m, k, state),
                ),
            ) {
                Some(after) => fields_of_wire(all, next, m.desc, after),
                None => None,
            }
        }),
{
    lemma_item_number(m, k);
    let tag = varint_at(all, pos, VARINT_WIDTH as nat)->Some_0.0;
    let at = varint_at(all, pos, VARINT_WIDTH as nat)->Some_0.1;
    let raw = raw_at(all, at, tag % 8)->Some_0.0;
    let next = raw_at(all, at, tag % 8)->Some_0.1;
    assert(field_of_wire(all, pos, next, raw, k, m.desc, state) == entry_stored(
        m,
        k,
        state,
        value_of_raw(
            all,
            pos,
            raw,
            entry_kind(m, k),
            entry_is_list(m, k),
            entry_is_map(m, k),
            entry_current(m, k, state),
        ),
    ));
}

/// At `pos` stand the tag of the field numbered `k` and, behind it, bytes
/// that are read as the single value `v` of `kind`; they end at `next`.
pub open spec fn reads_field<'a>(
    all: Seq<u8>,
    pos: int,
    k: u32,
    kind: KindRef<'a>,
    v: ValueView<'a>,
    next: int,
) -> bool {
    match varint_at(all, pos, VARINT_WIDTH as nat) {
        Some((tag, at)) => tag / 8 == k && tag % 8 == wire_type_of(kind) && pos < at && match raw_at(
            all,
            at,
            tag % 8,
        ) {
            Some((raw, end)) => at <= end && end == next && single_of_raw(all, pos, raw, kind)
                == Some(v),
            None => false,
        },
        None => false,
    }
}

/// The bytes of a value that is no message, behind its tag, are read as
/// the tag and the value.
proof fn lemma_scalar_field_read<'a>(
    k: u32,
    v: ValueView<'a>,
    kind: KindRef<'a>,
    before: Seq<u8>,
    behind: Seq<u8>,
)
    requires
        !(kind is Message),
        wire_of_scalar(v, kind) is Some,
        (before + (tag_bytes(k, wire_type_of(kind)) + wire_of_scalar(v, kind)->Some_0) + behind).len()
            <= usize::MAX,
    ensures
        reads_field(
            before + (tag_bytes(k, wire_type_of(kind)) + wire_of_scalar(v, kind)->Some_0) + behind,
            before.len() as int,
            k,
            kind,
            v,
            (before.len() + (tag_bytes(k, wire_type_of(kind)) + wire_of_scalar(
                v,
                kind,
            )->Some_0).len()) as int,
        ),
{
    let single = wire_of_scalar(v, kind)->Some_0;
    let tag = tag_bytes(k, wire_type_of(kind));
    let all = before + (tag + single) + behind;
    assert(all =~= before + tag + (single + behind));
    lemma_tag_read(k, wire_type_of(kind), before, single + behind);
    assert(all =~= (before + tag) + single + behind);
    law_scalar_bytes_read_back(v, kind, before + tag, behind);
    assert(read_back(v, kind, before + tag, behind));
}

/// The bytes of a single value behind its tag are read as the tag and the
/// value.
proof fn lemma_field_bytes_read<'a>(
    k: u32,
    v: ValueView<'a>,
    kind: KindRef<'a>,
    is_packed: bool,
    before: Seq<u8>,
    behind: Seq<u8>,
)
    requires
        single_kept(v, kind),
        wire_of_value(v, k, kind, false, false, is_packed) is Some,
        (before + wire_of_value(v, k, kind, false, false, is_packed)->Some_0 + behind).len()
            <= usize::MAX,
    ensures
        reads_field(
            before + wire_of_value(v, k, kind, false, false, is_packed)->Some_0 + behind,
            before.len() as int,
            k,
            kind,
            v,
            (before.len() + wire_of_value(v, k, kind, false, false, is_packed)->Some_0.len()) as int,
        ),
    decreases v, 1nat, 0nat,
{
    let single = wire_of_single(v, kind)->Some_0;
    let tag = tag_bytes(k, wire_type_of(kind));
    let written = wire_of_value(v, k, kind, false, false, is_packed)->Some_0;
    assert(written == tag + single);
    let all = before + written + behind;
    lemma_kept_is_valid(v, kind);
    assert(all =~= before + tag + (single + behind));
    lemma_tag_read(k, wire_type_of(kind), before, single + behind);
    assert(all =~= (before + tag) + single + behind);
    lemma_single_read(v, kind, before + tag, behind, before.len() as int);
}

/// What the message holds under a number can be written, where the
/// message can.
proof fn lemma_number_written<'a>(m: MessageView<'a>, k: u32)
    requires
        item_at(m.fields, m.desc, k) is Some,
        wire_of_message(m) is Some,
    ensures
        wire_of_number(m, k) is Some,
{
    lemma_walk_from(m, (k + 1) as nat);
}

/// The bytes below a number and the rest are all the bytes.
proof fn lemma_bytes_split<'a>(m: MessageView<'a>, n: nat)
    requires
        n <= 0x1_0000_0000,
    ensures
        bytes_below(m, n).len() <= bytes_below(m, 0x1_0000_0000).len(),
        bytes_below(m, 0x1_0000_0000) == bytes_below(m, n) + bytes_below(m, 0x1_0000_0000).subrange(
            bytes_below(m, n).len() as int,
            bytes_below(m, 0x1_0000_0000).len() as int,
        ),
{
    let all = bytes_below(m, 0x1_0000_0000);
    lemma_bytes_grow(m, n, 0x1_0000_0000);
    let more = bytes_below(m, n);
    let behind = all.subrange(more.len() as int, all.len() as int);
    assert(all =~= all.subrange(0, more.len() as int) + behind);
}

/// The bytes of the message: those below a number that it holds, those of
/// what it holds under the number, and the rest.
proof fn lemma_entry_bytes<'a>(m: MessageView<'a>, k: u32)
    requires
        item_at(m.fields, m.desc, k) is Some,
        wire_of_message(m) is Some,
    ensures
        wire_of_number(m, k) is Some,
        bytes_below(m, (k + 1) as nat) == bytes_below(m, k as nat) + wire_of_number(m, k)->Some_0,
        bytes_below(m, (k + 1) as nat).len() <= bytes_below(m, 0x1_0000_0000).len(),
        bytes_below(m, 0x1_0000_0000) == bytes_below(m, k as nat) + wire_of_number(m, k)->Some_0
            + bytes_below(m, 0x1_0000_0000).subrange(
            bytes_below(m, (k + 1) as nat).len() as int,
            bytes_below(m, 0x1_0000_0000).len() as int,
        ),
{
    lemma_number_written(m, k);
    lemma_bytes_split(m, (k + 1) as nat);
}

/// Every entry of a message that is kept is a value.
proof fn lemma_all_values<'a>(m: MessageView<'a>)
    requires
        wire_kept(m),
    ensures
        forall|n: u32| m.fields.contains_key(n) ==> (#[trigger] m.fields[n]) is Value,
{
    assert forall|n: u32| m.fields.contains_key(n) implies (#[trigger] m.fields[n]) is Value by {
        assert(entry_kept(m, n));
    }
}

/// A write of the single value that the message holds under a number, into
/// a part of what the message holds that lacks the number, adds the value.
proof fn lemma_single_stored<'a>(m: MessageView<'a>, k: u32, state: Map<u32, EntryView<'a>>)
    requires
        wire_kept(m),
        m.fields.contains_key(k),
        !entry_is_list(m, k),
        !entry_is_map(m, k),
        part_of(state, m),
        !state.contains_key(k),
    ensures
        entry_stored(m, k, state, Some(m.fields[k]->Value_0)) == Some(state.insert(k, m.fields[k])),
{
    broadcast use {FieldDescriptorRef::lemma_at_parts, ExtensionDescriptorRef::lemma_at_parts};

    assert(entry_kept(m, k));
    lemma_item_number(m, k);
    lemma_all_values(m);
    match item_at(m.fields, m.desc, k) {
        Some(ItemView::Field(v, field)) => {
            let i = m.desc.field_index(k)->Some_0;
            crate::json::round_trip::lemma_field_count_fits(m.desc);
            lemma_kept_is_valid(v, field.kind_spec());
            assert(m.desc.data().fields@[i].number == k);
            lemma_write_adds(m, i as nat, state);
            assert(m.fields[k] == EntryView::Value(v));
        },
        Some(ItemView::Extension(v, extension)) => {
            lemma_kept_is_valid(v, extension.kind_spec());
            assert(oneof_siblings(extension) =~= Set::empty());
            assert(state.remove_keys(Set::empty()) =~= state);
            assert(set_spec(state, extension, v) =~= state.insert(k, m.fields[k]));
        },
        _ => {},
    }
}

/// The bytes of the single value that the message holds under a number are
/// read as the tag and the value.
proof fn lemma_single_reads<'a>(m: MessageView<'a>, k: u32)
    requires
        wire_kept(m),
        m.fields.contains_key(k),
        !entry_is_list(m, k),
        !entry_is_map(m, k),
        wire_of_message(m) is Some,
        bytes_below(m, 0x1_0000_0000).len() <= usize::MAX,
    ensures
        reads_field(
            bytes_below(m, 0x1_0000_0000),
            bytes_below(m, k as nat).len() as int,
            k,
            entry_kind(m, k),
            m.fields[k]->Value_0,
            bytes_below(m, (k + 1) as nat).len() as int,
        ),
        bytes_below(m, k as nat).len() < bytes_below(m, (k + 1) as nat).len(),
        bytes_below(m, (k + 1) as nat).len() <= bytes_below(m, 0x1_0000_0000).len(),
    decreases m, 0nat, 0nat,
{
    let all = bytes_below(m, 0x1_0000_0000);
    let before = bytes_below(m, k as nat);
    let more = bytes_below(m, (k + 1) as nat);
    assert(entry_kept(m, k));
    lemma_item_number(m, k);
    lemma_entry_bytes(m, k);
    let behind = all.subrange(more.len() as int, all.len() as int);
    let v = m.fields[k]->Value_0;
    match item_at(m.fields, m.desc, k) {
        Some(ItemView::Field(_, field)) => {
            lemma_field_bytes_read(k, v, field.kind_spec(), field.is_packed_spec(), before, behind);
        },
        Some(ItemView::Extension(_, extension)) => {
            lemma_field_bytes_read(
                k,
                v,
                extension.kind_spec(),
                extension.is_packed_spec(),
                before,
                behind,
            );
        },
        _ => {},
    }
}

/// What was written for the single value that the message holds under a
/// number is read, into what it holds below the number, as what it holds up
/// to the number.
proof fn lemma_single_entry_read<'a>(m: MessageView<'a>, k: u32)
    requires
        wire_kept(m),
        m.fields.contains_key(k),
        !entry_is_list(m, k),
        !entry_is_map(m, k),
        wire_of_message(m) is Some,
        bytes_below(m, 0x1_0000_0000).len() <= usize::MAX,
    ensures
        fields_of_wire(
            bytes_below(m, 0x1_0000_0000),
            bytes_below(m, k as nat).len() as int,
            m.desc,
            held_below(m, k as nat),
        ) == fields_of_wire(
            bytes_below(m, 0x1_0000_0000),
            bytes_below(m, (k + 1) as nat).len() as int,
            m.desc,
            held_below(m, (k + 1) as nat),
        ),
    decreases m, 1nat, 0nat,
{
    let all = bytes_below(m, 0x1_0000_0000);
    let pos = bytes_below(m, k as nat).len() as int;
    let state = held_below(m, k as nat);
    assert(entry_kept(m, k));
    lemma_held_more(m, (k + 1) as nat);
    lemma_single_stored(m, k, state);
    lemma_single_reads(m, k);
    lemma_one_field(m, k, all, pos, state);
    let tag = varint_at(all, pos, VARINT_WIDTH as nat)->Some_0.0;
    let at = varint_at(all, pos, VARINT_WIDTH as nat)->Some_0.1;
    let raw = raw_at(all, at, tag % 8)->Some_0.0;
    assert(value_of_raw(all, pos, raw, entry_kind(m, k), false, false, entry_current(m, k, state))
        == single_of_raw(all, pos, raw, entry_kind(m, k)));
}

/// The bytes of the first `n` items of a list, each behind the tag of the
/// field.
pub open spec fn items_bytes<'a>(v: ValueView<'a>, k: u32, kind: KindRef<'a>, n: nat) -> Seq<u8>
    decreases n,
{
    if n == 0 {
        Seq::empty()
    } else if !(v is List) || n > v->List_0.len() || wire_of_single(v->List_0[n - 1], kind) is None {
        items_bytes(v, k, kind, (n - 1) as nat)
    } else {
        items_bytes(v, k, kind, (n - 1) as nat) + (tag_bytes(k, wire_type_of(kind)) + wire_of_single(
            v->List_0[n - 1],
            kind,
        )->Some_0)
    }
}

/// Writing the items of a list from the `n`th on, behind the bytes of those
/// before, is writing them all; and each of them can be written.
proof fn lemma_items_from<'a>(v: ValueView<'a>, k: u32, kind: KindRef<'a>, n: nat)
    requires
        v is List,
        n <= v->List_0.len(),
        wire_of_items(v, k, kind, v->List_0.len(), Seq::empty()) is Some,
    ensures
        wire_of_items(v, k, kind, (v->List_0.len() - n) as nat, items_bytes(v, k, kind, n))
            == wire_of_items(v, k, kind, v->List_0.len(), Seq::empty()),
        n >= 1 ==> wire_of_single(v->List_0[n - 1], kind) is Some,
    decreases n,
{
    if n > 0 {
        lemma_items_from(v, k, kind, (n - 1) as nat);
        let left = (v->List_0.len() - (n - 1)) as nat;
        let acc = items_bytes(v, k, kind, (n - 1) as nat);
        assert(wire_of_items(v, k, kind, left, acc) is Some);
        assert(v->List_0[v->List_0.len() - left] == v->List_0[n - 1]);
        let single = wire_of_single(v->List_0[n - 1], kind);
        assert(single is Some);
        assert(acc + tag_bytes(k, wire_type_of(kind)) + single->Some_0 =~= acc + (tag_bytes(
            k,
            wire_type_of(kind),
        ) + single->Some_0));
    }
}

/// The bytes of the first items of a list stand at the front of the bytes
/// of more of them.
proof fn lemma_items_grow<'a>(v: ValueView<'a>, k: u32, kind: KindRef<'a>, n: nat, to: nat)
    requires
        n <= to,
    ensures
        items_bytes(v, k, kind, n).len() <= items_bytes(v, k, kind, to).len(),
        items_bytes(v, k, kind, to).subrange(0, items_bytes(v, k, kind, n).len() as int)
            == items_bytes(v, k, kind, n),
    decreases to - n,
{
    let short = items_bytes(v, k, kind, n);
    if n < to {
        lemma_items_grow(v, k, kind, n, (to - 1) as nat);
        let front = items_bytes(v, k, kind, (to - 1) as nat);
        assert(items_bytes(v, k, kind, to).subrange(0, short.len() as int) =~= front.subrange(
            0,
            short.len() as int,
        ));
    } else {
        assert(short.subrange(0, short.len() as int) =~= short);
    }
}

/// What the store of the message holds once the first `i` items of the list
/// under `k` are read: what the message holds below `k`, and the list of
/// those items.
pub open spec fn listed_below<'a>(m: MessageView<'a>, k: u32, i: nat) -> Map<u32, EntryView<'a>> {
    if i == 0 {
        held_below(m, k as nat)
    } else {
        held_below(m, k as nat).insert(
            k,
            EntryView::Value(ValueView::List(m.fields[k]->Value_0->List_0.subrange(0, i as int))),
        )
    }
}

/// A repeated field belongs to no oneof group, so that a write to it lets
/// the rest of the store stand.
proof fn lemma_list_stored<'a>(
    m: MessageView<'a>,
    k: u32,
    state: Map<u32, EntryView<'a>>,
    items: Seq<ValueView<'a>>,
)
    requires
        wire_kept(m),
        m.fields.contains_key(k),
        entry_is_list(m, k),
        forall|i: int| 0 <= i < items.len() ==> single_kept(#[trigger] items[i], entry_kind(m, k)),
    ensures
        entry_stored(m, k, state, Some(ValueView::List(items))) == Some(
            state.insert(k, EntryView::Value(ValueView::List(items))),
        ),
{
    broadcast use {FieldDescriptorRef::lemma_at_parts, ExtensionDescriptorRef::lemma_at_parts};

    assert(entry_kept(m, k));
    lemma_item_number(m, k);
    let v = ValueView::List(items);
    assert forall|i: int| 0 <= i < items.len() implies crate::value::valid_for_kind(
        #[trigger] items[i],
        entry_kind(m, k),
    ) by {
        lemma_kept_is_valid(items[i], entry_kind(m, k));
    }
    match item_at(m.fields, m.desc, k) {
        Some(ItemView::Field(_, field)) => {
            let i = m.desc.field_index(k)->Some_0;
            crate::json::round_trip::lemma_field_count_fits(m.desc);
            assert(crate::descriptor::message_wf(
                m.desc.data(),
                m.desc.pool().messages().len() as int,
                m.desc.pool().enums().len() as int,
            ));
            assert(crate::descriptor::field_wf(
                m.desc.data().fields@[i],
                m.desc.pool().messages().len() as int,
                m.desc.pool().enums().len() as int,
            ));
            assert(field.oneof() is None);
            assert(oneof_siblings(field) =~= Set::empty());
            assert(state.remove_keys(Set::empty()) =~= state);
            assert(set_spec(state, field, v) =~= state.insert(k, EntryView::Value(v)));
        },
        Some(ItemView::Extension(_, extension)) => {
            assert(oneof_siblings(extension) =~= Set::empty());
            assert(state.remove_keys(Set::empty()) =~= state);
            assert(set_spec(state, extension, v) =~= state.insert(k, EntryView::Value(v)));
        },
        _ => {},
    }
}

/// Bytes that begin with `base` and `whole`, of which `upto` is the front:
/// they are `base`, `upto`, and the rest.
proof fn lemma_prefix_split(all: Seq<u8>, base: Seq<u8>, whole: Seq<u8>, upto: Seq<u8>)
    requires
        (base + whole).len() <= all.len(),
        all.subrange(0, (base + whole).len() as int) == base + whole,
        upto.len() <= whole.len(),
        whole.subrange(0, upto.len() as int) == upto,
    ensures
        (base + upto).len() <= all.len(),
        all == (base + upto) + all.subrange((base + upto).len() as int, all.len() as int),
{
    let head = base + upto;
    let rest = all.subrange(head.len() as int, all.len() as int);
    assert forall|j: int| 0 <= j < head.len() implies all[j] == head[j] by {
        assert(all.subrange(0, (base + whole).len() as int)[j] == all[j]);
        if j >= base.len() {
            assert(whole.subrange(0, upto.len() as int)[j - base.len()] == whole[j - base.len()]);
        }
    }
    assert(all =~= head + rest);
}

/// What is written for a list whose items stand each behind its own tag:
/// the bytes of its items.
proof fn lemma_list_bytes<'a>(m: MessageView<'a>, k: u32)
    requires
        wire_kept(m),
        m.fields.contains_key(k),
        entry_is_list(m, k),
        !entry_is_packed(m, k),
        wire_of_message(m) is Some,
    ensures
        wire_of_items(
            m.fields[k]->Value_0,
            k,
            entry_kind(m, k),
            m.fields[k]->Value_0->List_0.len(),
            Seq::empty(),
        ) is Some,
        bytes_below(m, (k + 1) as nat) == bytes_below(m, k as nat) + items_bytes(
            m.fields[k]->Value_0,
            k,
            entry_kind(m, k),
            m.fields[k]->Value_0->List_0.len(),
        ),
{
    let v = m.fields[k]->Value_0;
    let kind = entry_kind(m, k);
    let items = v->List_0;
    assert(entry_kept(m, k));
    lemma_item_number(m, k);
    lemma_entry_bytes(m, k);
    assert(wire_of_number(m, k) == wire_of_items(v, k, kind, items.len(), Seq::empty()));
    lemma_items_from(v, k, kind, items.len());
}

/// Bytes that begin with `base` and, behind it, the bytes of the items of a
/// list: `base` with the bytes of the first items, those of the next item,
/// and the rest.
proof fn lemma_item_split<'a>(
    all: Seq<u8>,
    base: Seq<u8>,
    v: ValueView<'a>,
    k: u32,
    kind: KindRef<'a>,
    i: nat,
)
    requires
        v is List,
        i < v->List_0.len(),
        wire_of_items(v, k, kind, v->List_0.len(), Seq::empty()) is Some,
        (base + items_bytes(v, k, kind, v->List_0.len())).len() <= all.len(),
        all.subrange(0, (base + items_bytes(v, k, kind, v->List_0.len())).len() as int) == base
            + items_bytes(v, k, kind, v->List_0.len()),
    ensures
        wire_of_single(v->List_0[i as int], kind) is Some,
        ({
            let before = base + items_bytes(v, k, kind, i);
            let written = tag_bytes(k, wire_type_of(kind)) + wire_of_single(
                v->List_0[i as int],
                kind,
            )->Some_0;
            &&& before.len() + written.len() <= all.len()
            &&& before + written == base + items_bytes(v, k, kind, i + 1)
            &&& all == before + written + all.subrange(
                (before.len() + written.len()) as int,
                all.len() as int,
            )
        }),
{
    let items = v->List_0;
    lemma_items_from(v, k, kind, i + 1);
    lemma_items_grow(v, k, kind, i + 1, items.len());
    let whole = items_bytes(v, k, kind, items.len());
    let upto = items_bytes(v, k, kind, i + 1);
    let written = tag_bytes(k, wire_type_of(kind)) + wire_of_single(items[i as int], kind)->Some_0;
    assert(upto == items_bytes(v, k, kind, i) + written);
    let before = base + items_bytes(v, k, kind, i);
    let head = base + upto;
    assert(before + written =~= head);
    lemma_prefix_split(all, base, whole, upto);
}

/// The bytes of the message: those below the number of a list, those of the
/// first items of the list, those of the next item, and the rest.
proof fn lemma_item_bytes<'a>(m: MessageView<'a>, k: u32, i: nat)
    requires
        wire_kept(m),
        m.fields.contains_key(k),
        entry_is_list(m, k),
        !entry_is_packed(m, k),
        wire_of_message(m) is Some,
        i < m.fields[k]->Value_0->List_0.len(),
    ensures
        wire_of_single(m.fields[k]->Value_0->List_0[i as int], entry_kind(m, k)) is Some,
        bytes_below(m, (k + 1) as nat) == bytes_below(m, k as nat) + items_bytes(
            m.fields[k]->Value_0,
            k,
            entry_kind(m, k),
            m.fields[k]->Value_0->List_0.len(),
        ),
        ({
            let v = m.fields[k]->Value_0;
            let kind = entry_kind(m, k);
            let all = bytes_below(m, 0x1_0000_0000);
            let before = bytes_below(m, k as nat) + items_bytes(v, k, kind, i);
            let written = tag_bytes(k, wire_type_of(kind)) + wire_of_single(
                v->List_0[i as int],
                kind,
            )->Some_0;
            &&& before.len() + written.len() <= all.len()
            &&& before + written == bytes_below(m, k as nat) + items_bytes(v, k, kind, i + 1)
            &&& all == before + written + all.subrange(
                (before.len() + written.len()) as int,
                all.len() as int,
            )
        }),
{
    assert(entry_kept(m, k));
    lemma_list_bytes(m, k);
    lemma_bytes_split(m, (k + 1) as nat);
    lemma_bytes_grow(m, (k + 1) as nat, 0x1_0000_0000);
    lemma_item_split(
        bytes_below(m, 0x1_0000_0000),
        bytes_below(m, k as nat),
        m.fields[k]->Value_0,
        k,
        entry_kind(m, k),
        i,
    );
}

/// The next item of a list is read into the store that holds the items
/// before it.
proof fn lemma_item_read<'a>(m: MessageView<'a>, k: u32, i: nat)
    requires
        wire_kept(m),
        m.fields.contains_key(k),
        entry_is_list(m, k),
        !entry_is_packed(m, k),
        wire_of_message(m) is Some,
        bytes_below(m, 0x1_0000_0000).len() <= usize::MAX,
        i < m.fields[k]->Value_0->List_0.len(),
    ensures
        fields_of_wire(
            bytes_below(m, 0x1_0000_0000),
            (bytes_below(m, k as nat) + items_bytes(m.fields[k]->Value_0, k, entry_kind(m, k), i)).len() as int,
            m.desc,
            listed_below(m, k, i),
        ) == fields_of_wire(
            bytes_below(m, 0x1_0000_0000),
            (bytes_below(m, k as nat) + items_bytes(
                m.fields[k]->Value_0,
                k,
                entry_kind(m, k),
                i + 1,
            )).len() as int,
            m.desc,
            listed_below(m, k, i + 1),
        ),
    decreases m, 1nat, 0nat,
{
    let v = m.fields[k]->Value_0;
    let kind = entry_kind(m, k);
    let items = v->List_0;
    let all = bytes_below(m, 0x1_0000_0000);
    let before = bytes_below(m, k as nat) + items_bytes(v, k, kind, i);
    let pos = before.len() as int;
    let state = listed_below(m, k, i);
    assert(entry_kept(m, k));
    lemma_item_number(m, k);
    lemma_item_bytes(m, k, i);
    let written = tag_bytes(k, wire_type_of(kind)) + wire_of_single(items[i as int], kind)->Some_0;
    let behind = all.subrange((before.len() + written.len()) as int, all.len() as int);
    assert(single_kept(items[i as int], kind));
    assert(wire_of_value(items[i as int], k, kind, false, false, false) == Some(written));
    lemma_field_bytes_read(k, items[i as int], kind, false, before, behind);
    assert(reads_field(all, pos, k, kind, items[i as int], pos + written.len()));
    lemma_held_more(m, (k + 1) as nat);
    let prefix = items.subrange(0, i as int);
    let more = items.subrange(0, (i + 1) as int);
    assert(more =~= prefix.push(items[i as int]));
    assert(entry_current(m, k, state) == ValueView::List(prefix)) by {
        if i == 0 {
            assert(prefix =~= Seq::<ValueView<'a>>::empty());
        }
    }
    lemma_list_stored(m, k, state, more);
    assert(state.insert(k, EntryView::Value(ValueView::List(more))) =~= listed_below(m, k, i + 1));
    lemma_one_field(m, k, all, pos, state);
    let tag = varint_at(all, pos, VARINT_WIDTH as nat)->Some_0.0;
    let at = varint_at(all, pos, VARINT_WIDTH as nat)->Some_0.1;
    let raw = raw_at(all, at, tag % 8)->Some_0.0;
    lemma_kept_is_valid(items[i as int], kind);
    assert(!entry_is_map(m, k));
    assert(!(raw is Run && kind.packable()));
    assert(value_of_raw(all, pos, raw, kind, true, false, ValueView::List(prefix)) == Some(
        ValueView::List(more),
    ));
}

/// The items of a list are read, one after the other, into the store that
/// holds what the message holds below the number of the list.
proof fn lemma_items_read<'a>(m: MessageView<'a>, k: u32, i: nat)
    requires
        wire_kept(m),
        m.fields.contains_key(k),
        entry_is_list(m, k),
        !entry_is_packed(m, k),
        wire_of_message(m) is Some,
        bytes_below(m, 0x1_0000_0000).len() <= usize::MAX,
        i <= m.fields[k]->Value_0->List_0.len(),
    ensures
        fields_of_wire(
            bytes_below(m, 0x1_0000_0000),
            bytes_below(m, k as nat).len() as int,
            m.desc,
            held_below(m, k as nat),
        ) == fields_of_wire(
            bytes_below(m, 0x1_0000_0000),
            (bytes_below(m, k as nat) + items_bytes(m.fields[k]->Value_0, k, entry_kind(m, k), i)).len() as int,
            m.desc,
            listed_below(m, k, i),
        ),
    decreases m, 2nat, i,
{
    if i > 0 {
        lemma_items_read(m, k, (i - 1) as nat);
        lemma_item_read(m, k, (i - 1) as nat);
    }
}

/// What was written for the list that the message holds under a number is
/// read, into what it holds below the number, as what it holds up to the
/// number.
proof fn lemma_list_entry_read<'a>(m: MessageView<'a>, k: u32)
    requires
        wire_kept(m),
        m.fields.contains_key(k),
        entry_is_list(m, k),
        !entry_is_packed(m, k),
        wire_of_message(m) is Some,
        bytes_below(m, 0x1_0000_0000).len() <= usize::MAX,
    ensures
        fields_of_wire(
            bytes_below(m, 0x1_0000_0000),
            bytes_below(m, k as nat).len() as int,
            m.desc,
            held_below(m, k as nat),
        ) == fields_of_wire(
            bytes_below(m, 0x1_0000_0000),
            bytes_below(m, (k + 1) as nat).len() as int,
            m.desc,
            held_below(m, (k + 1) as nat),
        ),
    decreases m, 3nat, 0nat,
{
    let items = m.fields[k]->Value_0->List_0;
    assert(entry_kept(m, k));
    lemma_item_number(m, k);
    lemma_items_read(m, k, items.len());
    lemma_item_bytes(m, k, 0);
    lemma_held_more(m, (k + 1) as nat);
    assert(items.subrange(0, items.len() as int) =~= items);
    assert(listed_below(m, k, items.len()) =~= held_below(m, (k + 1) as nat));
}

/// The bytes of the first `n` numbers of a list, one directly behind the
/// other.
pub open spec fn packed_bytes<'a>(items: Seq<ValueView<'a>>, kind: KindRef<'a>, n: nat) -> Seq<u8>
    decreases n,
{
    if n == 0 {
        Seq::empty()
    } else if n > items.len() || wire_of_scalar(items[n - 1], kind) is None {
        packed_bytes(items, kind, (n - 1) as nat)
    } else {
        packed_bytes(items, kind, (n - 1) as nat) + wire_of_scalar(items[n - 1], kind)->Some_0
    }
}

/// Writing the numbers of a list from the `n`th on, behind the bytes of
/// those before, is writing them all.
proof fn lemma_packed_from<'a>(items: Seq<ValueView<'a>>, kind: KindRef<'a>, n: nat)
    requires
        n <= items.len(),
        wire_of_packed(items, kind, items.len(), Seq::empty()) is Some,
    ensures
        wire_of_packed(items, kind, (items.len() - n) as nat, packed_bytes(items, kind, n))
            == wire_of_packed(items, kind, items.len(), Seq::empty()),
        n >= 1 ==> wire_of_scalar(items[n - 1], kind) is Some,
    decreases n,
{
    if n > 0 {
        lemma_packed_from(items, kind, (n - 1) as nat);
        let left = (items.len() - (n - 1)) as nat;
        let acc = packed_bytes(items, kind, (n - 1) as nat);
        assert(wire_of_packed(items, kind, left, acc) is Some);
        assert(items[items.len() - left] == items[n - 1]);
    }
}

/// The bytes of the first numbers of a list stand at the front of the bytes
/// of more of them.
proof fn lemma_packed_grow<'a>(items: Seq<ValueView<'a>>, kind: KindRef<'a>, n: nat, to: nat)
    requires
        n <= to,
    ensures
        packed_bytes(items, kind, n).len() <= packed_bytes(items, kind, to).len(),
        packed_bytes(items, kind, to).subrange(0, packed_bytes(items, kind, n).len() as int)
            == packed_bytes(items, kind, n),
    decreases to - n,
{
    let short = packed_bytes(items, kind, n);
    if n < to {
        lemma_packed_grow(items, kind, n, (to - 1) as nat);
        let front = packed_bytes(items, kind, (to - 1) as nat);
        assert(packed_bytes(items, kind, to).subrange(0, short.len() as int) =~= front.subrange(
            0,
            short.len() as int,
        ));
    } else {
        assert(short.subrange(0, short.len() as int) =~= short);
    }
}

/// The bytes of a number are at least one.
proof fn lemma_scalar_is_not_empty<'a>(v: ValueView<'a>, kind: KindRef<'a>)
    requires
        kind.packable(),
        wire_of_scalar(v, kind) is Some,
    ensures
        wire_of_scalar(v, kind)->Some_0.len() >= 1,
{
    assert(forall|x: u64| #[trigger] varint_bytes(x).len() >= 1);
}

/// The next number of a packed list is read behind those before it.
proof fn lemma_packed_item_read<'a>(items: Seq<ValueView<'a>>, kind: KindRef<'a>, i: nat)
    requires
        kind.packable(),
        i < items.len(),
        wire_of_packed(items, kind, items.len(), Seq::empty()) is Some,
        packed_bytes(items, kind, items.len()).len() <= usize::MAX,
    ensures
        packed_of_wire(
            packed_bytes(items, kind, items.len()),
            packed_bytes(items, kind, i).len() as int,
            kind,
            items.subrange(0, i as int),
        ) == packed_of_wire(
            packed_bytes(items, kind, items.len()),
            packed_bytes(items, kind, i + 1).len() as int,
            kind,
            items.subrange(0, (i + 1) as int),
        ),
{
    let all = packed_bytes(items, kind, items.len());
    let before = packed_bytes(items, kind, i);
    let upto = packed_bytes(items, kind, i + 1);
    lemma_packed_from(items, kind, i + 1);
    lemma_packed_grow(items, kind, i + 1, items.len());
    let bytes = wire_of_scalar(items[i as int], kind)->Some_0;
    assert(upto == before + bytes);
    let behind = all.subrange(upto.len() as int, all.len() as int);
    assert(all =~= before + bytes + behind);
    lemma_scalar_is_not_empty(items[i as int], kind);
    law_scalar_bytes_read_back(items[i as int], kind, before, behind);
    assert(read_back(items[i as int], kind, before, behind));
    assert(items.subrange(0, (i + 1) as int) =~= items.subrange(0, i as int).push(items[i as int]));
}

/// The numbers of a packed list are read back from their bytes.
proof fn lemma_packed_read<'a>(items: Seq<ValueView<'a>>, kind: KindRef<'a>, i: nat)
    requires
        kind.packable(),
        i <= items.len(),
        wire_of_packed(items, kind, items.len(), Seq::empty()) is Some,
        packed_bytes(items, kind, items.len()).len() <= usize::MAX,
    ensures
        packed_of_wire(packed_bytes(items, kind, items.len()), 0, kind, Seq::empty())
            == packed_of_wire(
            packed_bytes(items, kind, items.len()),
            packed_bytes(items, kind, i).len() as int,
            kind,
            items.subrange(0, i as int),
        ),
    decreases i,
{
    if i > 0 {
        lemma_packed_read(items, kind, (i - 1) as nat);
        lemma_packed_item_read(items, kind, (i - 1) as nat);
    } else {
        assert(items.subrange(0, 0) =~= Seq::<ValueView<'a>>::empty());
    }
}

/// At `pos` stand the tag of the field numbered `k` and, behind it, a run
/// that holds `payload` and ends at `next`.
pub open spec fn reads_run(all: Seq<u8>, pos: int, k: u32, payload: Seq<u8>, next: int) -> bool {
    match varint_at(all, pos, VARINT_WIDTH as nat) {
        Some((tag, at)) => tag / 8 == k && tag % 8 == 2 && pos < at && match raw_at(all, at, 2) {
            Some((Raw::Run(start, end), after)) => at <= after && after == next && next <= all.len()
                && at <= start && start <= end && end <= all.len() && all.subrange(
                start as int,
                end as int,
            ) == payload,
            _ => false,
        },
        None => false,
    }
}

/// A run behind its tag is read as the tag and the run.
proof fn lemma_run_read(k: u32, payload: Seq<u8>, before: Seq<u8>, behind: Seq<u8>)
    requires
        (before + (tag_bytes(k, 2) + run_bytes(payload)) + behind).len() <= usize::MAX,
    ensures
        reads_run(
            before + (tag_bytes(k, 2) + run_bytes(payload)) + behind,
            before.len() as int,
            k,
            payload,
            (before.len() + (tag_bytes(k, 2) + run_bytes(payload)).len()) as int,
        ),
{
    let tag = tag_bytes(k, 2);
    let all = before + (tag + run_bytes(payload)) + behind;
    assert(all =~= before + tag + (run_bytes(payload) + behind));
    lemma_tag_read(k, 2, before, run_bytes(payload) + behind);
    assert(all =~= (before + tag) + run_bytes(payload) + behind);
    lemma_run_raw(payload, before + tag, behind);
}

/// The numbers of a packed list are read back from the run that holds
/// them.
proof fn lemma_packed_whole_read<'a>(items: Seq<ValueView<'a>>, kind: KindRef<'a>)
    requires
        kind.packable(),
        wire_of_packed(items, kind, items.len(), Seq::empty()) is Some,
        wire_of_packed(items, kind, items.len(), Seq::empty())->Some_0.len() <= usize::MAX,
    ensures
        packed_of_wire(
            wire_of_packed(items, kind, items.len(), Seq::empty())->Some_0,
            0,
            kind,
            Seq::empty(),
        ) == Some(items),
{
    let payload = wire_of_packed(items, kind, items.len(), Seq::empty())->Some_0;
    lemma_packed_from(items, kind, items.len());
    assert(payload == packed_bytes(items, kind, items.len()));
    lemma_packed_read(items, kind, items.len());
    assert(items.subrange(0, items.len() as int) =~= items);
    assert(packed_of_wire(payload, payload.len() as int, kind, items) == Some(items));
}

/// What was written for the packed list that the message holds under a
/// number is read, into what it holds below the number, as what it holds up
/// to the number.
proof fn lemma_packed_entry_read<'a>(m: MessageView<'a>, k: u32)
    requires
        wire_kept(m),
        m.fields.contains_key(k),
        entry_is_packed(m, k),
        wire_of_message(m) is Some,
        bytes_below(m, 0x1_0000_0000).len() <= usize::MAX,
    ensures
        fields_of_wire(
            bytes_below(m, 0x1_0000_0000),
            bytes_below(m, k as nat).len() as int,
            m.desc,
            held_below(m, k as nat),
        ) == fields_of_wire(
            bytes_below(m, 0x1_0000_0000),
            bytes_below(m, (k + 1) as nat).len() as int,
            m.desc,
            held_below(m, (k + 1) as nat),
        ),
{
    let all = bytes_below(m, 0x1_0000_0000);
    let before = bytes_below(m, k as nat);
    let more = bytes_below(m, (k + 1) as nat);
    let pos = before.len() as int;
    let state = held_below(m, k as nat);
    let v = m.fields[k]->Value_0;
    let items = v->List_0;
    let kind = entry_kind(m, k);
    assert(entry_kept(m, k));
    lemma_item_number(m, k);
    lemma_entry_bytes(m, k);
    lemma_held_more(m, (k + 1) as nat);
    let behind = all.subrange(more.len() as int, all.len() as int);
    assert(wire_of_number(m, k) == wire_of_value(v, k, kind, true, false, true));
    let payload = wire_of_packed(items, kind, items.len(), Seq::empty())->Some_0;
    assert(wire_of_number(m, k)->Some_0 == tag_bytes(k, 2) + run_bytes(payload));
    lemma_run_read(k, payload, before, behind);
    assert(reads_run(all, pos, k, payload, more.len() as int));
    lemma_packed_whole_read(items, kind);
    lemma_list_stored(m, k, state, items);
    assert(entry_current(m, k, state) == ValueView::<'a>::List(Seq::empty()));
    lemma_one_field(m, k, all, pos, state);
    let tag = varint_at(all, pos, VARINT_WIDTH as nat)->Some_0.0;
    let at = varint_at(all, pos, VARINT_WIDTH as nat)->Some_0.1;
    let raw = raw_at(all, at, tag % 8)->Some_0.0;
    assert(value_of_raw(all, pos, raw, kind, true, false, ValueView::<'a>::List(Seq::empty()))
        == Some(v));
}

/// What is held in the run of one entry of a map: the key as field 1 and the
/// value as field 2.
pub open spec fn body_bytes<'a>(
    entry: MessageDescriptorRef<'a>,
    key: ValueView<'a>,
    value: ValueView<'a>,
) -> Seq<u8> {
    tag_bytes(1, wire_type_of(entry.map_key_kind_spec())) + wire_of_scalar(
        key,
        entry.map_key_kind_spec(),
    )->Some_0 + tag_bytes(2, wire_type_of(entry.map_value_kind_spec())) + wire_of_single(
        value,
        entry.map_value_kind_spec(),
    )->Some_0
}

/// The bytes of the first `n` entries of a map, each a run behind the tag of
/// the field.
pub open spec fn entries_bytes<'a>(v: ValueView<'a>, k: u32, entry: MessageDescriptorRef<'a>, n: nat) -> Seq<
    u8,
>
    decreases n,
{
    if n == 0 {
        Seq::empty()
    } else if !(v is Entries) || n > v->Entries_0.len() {
        entries_bytes(v, k, entry, (n - 1) as nat)
    } else {
        entries_bytes(v, k, entry, (n - 1) as nat) + (tag_bytes(k, 2) + run_bytes(
            body_bytes(entry, value_of_key(v->Entries_0[n - 1].0), v->Entries_0[n - 1].1),
        ))
    }
}

/// Writing the entries of a map from the `n`th on, behind the bytes of those
/// before, is writing them all; and each of them can be written.
proof fn lemma_entries_from<'a>(v: ValueView<'a>, k: u32, entry: MessageDescriptorRef<'a>, n: nat)
    requires
        v is Entries,
        n <= v->Entries_0.len(),
        wire_of_entries(v, k, entry, v->Entries_0.len(), Seq::empty()) is Some,
    ensures
        wire_of_entries(v, k, entry, (v->Entries_0.len() - n) as nat, entries_bytes(v, k, entry, n))
            == wire_of_entries(v, k, entry, v->Entries_0.len(), Seq::empty()),
        n >= 1 ==> wire_of_scalar(value_of_key(v->Entries_0[n - 1].0), entry.map_key_kind_spec())
            is Some && wire_of_single(v->Entries_0[n - 1].1, entry.map_value_kind_spec()) is Some,
    decreases n,
{
    if n > 0 {
        lemma_entries_from(v, k, entry, (n - 1) as nat);
        let entries = v->Entries_0;
        let left = (entries.len() - (n - 1)) as nat;
        let acc = entries_bytes(v, k, entry, (n - 1) as nat);
        assert(wire_of_entries(v, k, entry, left, acc) is Some);
        assert(entries[entries.len() - left] == entries[n - 1]);
        let body = body_bytes(entry, value_of_key(entries[n - 1].0), entries[n - 1].1);
        assert(acc + tag_bytes(k, 2) + run_bytes(body) =~= acc + (tag_bytes(k, 2) + run_bytes(body)));
    }
}

/// The bytes of the first entries of a map stand at the front of the bytes
/// of more of them.
proof fn lemma_entries_grow<'a>(
    v: ValueView<'a>,
    k: u32,
    entry: MessageDescriptorRef<'a>,
    n: nat,
    to: nat,
)
    requires
        n <= to,
    ensures
        entries_bytes(v, k, entry, n).len() <= entries_bytes(v, k, entry, to).len(),
        entries_bytes(v, k, entry, to).subrange(0, entries_bytes(v, k, entry, n).len() as int)
            == entries_bytes(v, k, entry, n),
    decreases to - n,
{
    let short = entries_bytes(v, k, entry, n);
    if n < to {
        lemma_entries_grow(v, k, entry, n, (to - 1) as nat);
        let front = entries_bytes(v, k, entry, (to - 1) as nat);
        assert(entries_bytes(v, k, entry, to).subrange(0, short.len() as int) =~= front.subrange(
            0,
            short.len() as int,
        ));
    } else {
        assert(short.subrange(0, short.len() as int) =~= short);
    }
}

/// One of the two fields of an entry is read: where its tag and its value
/// stand at `pos`, reading goes on behind them with the value in the store.
proof fn lemma_plain_step<'a>(
    entry: MessageDescriptorRef<'a>,
    index: int,
    all: Seq<u8>,
    pos: int,
    next: int,
    state: Map<u32, EntryView<'a>>,
    v: ValueView<'a>,
)
    requires
        plain_entry(entry),
        index == 0 || index == 1,
        0 <= pos < all.len(),
        next <= all.len(),
        reads_field(
            all,
            pos,
            (index + 1) as u32,
            FieldDescriptorRef::at(entry, index as usize).kind_spec(),
            v,
            next,
        ),
        crate::value::valid_for_kind(v, FieldDescriptorRef::at(entry, index as usize).kind_spec()),
    ensures
        fields_of_wire(all, pos, entry, state) == fields_of_wire(
            all,
            next,
            entry,
            state.insert((index + 1) as u32, EntryView::Value(v)),
        ),
{
    broadcast use {FieldDescriptorRef::lemma_at_parts, crate::descriptor::OneofDescriptorRef::lemma_of};

    let number = (index + 1) as u32;
    let fields = entry.data().fields@;
    assert(crate::descriptor::message_wf(
        entry.data(),
        entry.pool().messages().len() as int,
        entry.pool().enums().len() as int,
    ));
    assert(fields[index].number == number);
    let found = entry.field_index(number)->Some_0;
    assert(found == index) by {
        if found != index {
            if found < index {
                assert(fields[found].number != fields[index].number);
            } else {
                assert(fields[index].number != fields[found].number);
            }
        }
    }
    let field = FieldDescriptorRef::at(entry, index as usize);
    assert(field.data() == fields[index]);
    assert(field.oneof() is None);
    assert(oneof_siblings(field) =~= Set::empty());
    assert(state.remove_keys(Set::empty()) =~= state);
    assert(set_spec(state, field, v) =~= state.insert(number, EntryView::Value(v)));
    let tag = varint_at(all, pos, VARINT_WIDTH as nat)->Some_0.0;
    let at = varint_at(all, pos, VARINT_WIDTH as nat)->Some_0.1;
    let raw = raw_at(all, at, tag % 8)->Some_0.0;
    assert(value_of_raw(all, pos, raw, field.kind_spec(), false, false, get_spec(state, field))
        == single_of_raw(all, pos, raw, field.kind_spec()));
    assert(field_of_wire(all, pos, next, raw, number, entry, state) == Some(
        state.insert(number, EntryView::Value(v)),
    ));
}

/// What the run of an entry holds is read as the key under 1 and the value
/// under 2.
proof fn lemma_body_read<'a>(entry: MessageDescriptorRef<'a>, key: ValueView<'a>, value: ValueView<'a>)
    requires
        plain_entry(entry),
        !(entry.map_key_kind_spec() is Message),
        wire_of_scalar(key, entry.map_key_kind_spec()) is Some,
        single_kept(value, entry.map_value_kind_spec()),
        wire_of_single(value, entry.map_value_kind_spec()) is Some,
        body_bytes(entry, key, value).len() <= usize::MAX,
    ensures
        fields_of_wire(body_bytes(entry, key, value), 0, entry, Map::empty()) == Some(
            Map::<u32, EntryView<'a>>::empty().insert(1, EntryView::Value(key)).insert(
                2,
                EntryView::Value(value),
            ),
        ),
    decreases value, 2nat, 0nat,
{
    broadcast use FieldDescriptorRef::lemma_at_parts;

    let key_kind = entry.map_key_kind_spec();
    let value_kind = entry.map_value_kind_spec();
    let first = tag_bytes(1, wire_type_of(key_kind)) + wire_of_scalar(key, key_kind)->Some_0;
    let second = tag_bytes(2, wire_type_of(value_kind)) + wire_of_single(value, value_kind)->Some_0;
    let body = body_bytes(entry, key, value);
    assert(body =~= first + second);
    let kf = FieldDescriptorRef::at(entry, 0);
    let vf = FieldDescriptorRef::at(entry, 1);
    assert(crate::descriptor::message_wf(
        entry.data(),
        entry.pool().messages().len() as int,
        entry.pool().enums().len() as int,
    ));
    assert(kf.kind_spec() == key_kind && vf.kind_spec() == value_kind);
    assert(wire_of_value(value, 2, value_kind, false, false, false) == Some(second));
    assert(body =~= Seq::<u8>::empty() + first + second);
    lemma_scalar_field_read(1, key, key_kind, Seq::empty(), second);
    assert(body =~= first + second + Seq::<u8>::empty());
    lemma_field_bytes_read(2, value, value_kind, false, first, Seq::empty());
    assert(single_kept(key, key_kind));
    lemma_kept_is_valid(key, key_kind);
    lemma_kept_is_valid(value, value_kind);
    assert(first.len() >= 1 && second.len() >= 1) by {
        assert(forall|number: u32, wire_type: u64| #[trigger] tag_bytes(number, wire_type).len() > 0);
    }
    let empty = Map::<u32, EntryView<'a>>::empty();
    let keyed = empty.insert(1, EntryView::Value(key));
    let both = keyed.insert(2, EntryView::Value(value));
    lemma_plain_step(entry, 0, body, 0, first.len() as int, empty, key);
    lemma_plain_step(entry, 1, body, first.len() as int, body.len() as int, keyed, value);
    assert(fields_of_wire(body, body.len() as int, entry, both) == Some(both));
}

/// What the store of the message holds once the first `i` entries of the map
/// under `k` are read: what the message holds below `k`, and the map of
/// those entries.
pub open spec fn mapped_below<'a>(m: MessageView<'a>, k: u32, i: nat) -> Map<u32, EntryView<'a>> {
    if i == 0 {
        held_below(m, k as nat)
    } else {
        held_below(m, k as nat).insert(
            k,
            EntryView::Value(
                ValueView::Entries(m.fields[k]->Value_0->Entries_0.subrange(0, i as int)),
            ),
        )
    }
}

/// A map field belongs to no oneof group, so that a write of the first
/// entries of its map lets the rest of the store stand.
proof fn lemma_map_stored<'a>(m: MessageView<'a>, k: u32, state: Map<u32, EntryView<'a>>, i: nat)
    requires
        wire_kept(m),
        m.fields.contains_key(k),
        entry_is_map(m, k),
        1 <= i <= m.fields[k]->Value_0->Entries_0.len(),
    ensures
        entry_stored(
            m,
            k,
            state,
            Some(ValueView::Entries(m.fields[k]->Value_0->Entries_0.subrange(0, i as int))),
        ) == Some(
            state.insert(
                k,
                EntryView::Value(
                    ValueView::Entries(m.fields[k]->Value_0->Entries_0.subrange(0, i as int)),
                ),
            ),
        ),
{
    broadcast use {FieldDescriptorRef::lemma_at_parts, ExtensionDescriptorRef::lemma_at_parts};

    assert(entry_kept(m, k));
    lemma_item_number(m, k);
    let entries = m.fields[k]->Value_0->Entries_0;
    let front = entries.subrange(0, i as int);
    let v = ValueView::Entries(front);
    let entry = entry_kind(m, k)->Message_0;
    assert(crate::value::valid_map_entries(front, entry)) by {
        assert forall|a: int| 0 <= a < front.len() implies crate::value::valid_key_for_kind(
            (#[trigger] front[a]).0,
            entry.map_key_kind_spec(),
        ) && crate::value::valid_for_kind(front[a].1, entry.map_value_kind_spec()) by {
            assert(front[a] == entries[a]);
        }
        assert forall|a: int, b: int| 0 <= a < b < front.len() implies (#[trigger] front[a]).0 != (
        #[trigger] front[b]).0 by {
            assert(front[a] == entries[a] && front[b] == entries[b]);
        }
    }
    match item_at(m.fields, m.desc, k) {
        Some(ItemView::Field(_, field)) => {
            let index = m.desc.field_index(k)->Some_0;
            crate::json::round_trip::lemma_field_count_fits(m.desc);
            assert(crate::descriptor::message_wf(
                m.desc.data(),
                m.desc.pool().messages().len() as int,
                m.desc.pool().enums().len() as int,
            ));
            assert(crate::descriptor::field_wf(
                m.desc.data().fields@[index],
                m.desc.pool().messages().len() as int,
                m.desc.pool().enums().len() as int,
            ));
            assert(field.oneof() is None);
            assert(oneof_siblings(field) =~= Set::empty());
            assert(state.remove_keys(Set::empty()) =~= state);
            assert(set_spec(state, field, v) =~= state.insert(k, EntryView::Value(v)));
        },
        Some(ItemView::Extension(_, extension)) => {
            assert(oneof_siblings(extension) =~= Set::empty());
            assert(state.remove_keys(Set::empty()) =~= state);
            assert(set_spec(state, extension, v) =~= state.insert(k, EntryView::Value(v)));
        },
        _ => {},
    }
}

/// What is written for a map: the bytes of its entries.
proof fn lemma_map_bytes<'a>(m: MessageView<'a>, k: u32)
    requires
        wire_kept(m),
        m.fields.contains_key(k),
        entry_is_map(m, k),
        wire_of_message(m) is Some,
    ensures
        wire_of_entries(
            m.fields[k]->Value_0,
            k,
            entry_kind(m, k)->Message_0,
            m.fields[k]->Value_0->Entries_0.len(),
            Seq::empty(),
        ) is Some,
        bytes_below(m, (k + 1) as nat) == bytes_below(m, k as nat) + entries_bytes(
            m.fields[k]->Value_0,
            k,
            entry_kind(m, k)->Message_0,
            m.fields[k]->Value_0->Entries_0.len(),
        ),
{
    let v = m.fields[k]->Value_0;
    let entry = entry_kind(m, k)->Message_0;
    let entries = v->Entries_0;
    assert(entry_kept(m, k));
    lemma_item_number(m, k);
    lemma_entry_bytes(m, k);
    assert(wire_of_number(m, k) == wire_of_entries(v, k, entry, entries.len(), Seq::empty()));
    lemma_entries_from(v, k, entry, entries.len());
}

/// Bytes that begin with `base` and, behind it, the bytes of the entries of
/// a map: `base` with the bytes of the first entries, the run of the next
/// entry behind its tag, and the rest.
proof fn lemma_map_split<'a>(
    all: Seq<u8>,
    base: Seq<u8>,
    v: ValueView<'a>,
    k: u32,
    entry: MessageDescriptorRef<'a>,
    i: nat,
)
    requires
        v is Entries,
        i < v->Entries_0.len(),
        (base + entries_bytes(v, k, entry, v->Entries_0.len())).len() <= all.len(),
        all.subrange(0, (base + entries_bytes(v, k, entry, v->Entries_0.len())).len() as int) == base
            + entries_bytes(v, k, entry, v->Entries_0.len()),
    ensures
        ({
            let before = base + entries_bytes(v, k, entry, i);
            let written = tag_bytes(k, 2) + run_bytes(
                body_bytes(entry, value_of_key(v->Entries_0[i as int].0), v->Entries_0[i as int].1),
            );
            &&& before.len() + written.len() <= all.len()
            &&& before + written == base + entries_bytes(v, k, entry, i + 1)
            &&& all == before + written + all.subrange(
                (before.len() + written.len()) as int,
                all.len() as int,
            )
        }),
{
    let entries = v->Entries_0;
    lemma_entries_grow(v, k, entry, i + 1, entries.len());
    let whole = entries_bytes(v, k, entry, entries.len());
    let upto = entries_bytes(v, k, entry, i + 1);
    let written = tag_bytes(k, 2) + run_bytes(
        body_bytes(entry, value_of_key(entries[i as int].0), entries[i as int].1),
    );
    assert(upto == entries_bytes(v, k, entry, i) + written);
    let before = base + entries_bytes(v, k, entry, i);
    let head = base + upto;
    assert(before + written =~= head);
    lemma_prefix_split(all, base, whole, upto);
}

/// The run of an entry of a map is read as the entry, behind those read
/// before it.
proof fn lemma_entry_value_read<'a>(
    all: Seq<u8>,
    pos: int,
    raw: Raw,
    entry: MessageDescriptorRef<'a>,
    key: crate::value::MapKeyView,
    value: ValueView<'a>,
    front: Seq<(crate::value::MapKeyView, ValueView<'a>)>,
)
    requires
        plain_entry(entry),
        !(entry.map_key_kind_spec() is Message),
        wire_of_scalar(value_of_key(key), entry.map_key_kind_spec()) is Some,
        single_kept(value, entry.map_value_kind_spec()),
        wire_of_single(value, entry.map_value_kind_spec()) is Some,
        body_bytes(entry, value_of_key(key), value).len() <= usize::MAX,
        raw matches Raw::Run(start, end) && pos < start && start <= end && end <= all.len()
            && all.subrange(start as int, end as int) == body_bytes(entry, value_of_key(key), value),
    ensures
        value_of_raw(
            all,
            pos,
            raw,
            KindRef::Message(entry),
            false,
            true,
            ValueView::Entries(front),
        ) == Some(ValueView::Entries(front.push((key, value)))),
    decreases value, 3nat, 0nat,
{
    broadcast use FieldDescriptorRef::lemma_at_parts;

    let kv = value_of_key::<'a>(key);
    lemma_body_read(entry, kv, value);
    let fields = Map::<u32, EntryView<'a>>::empty().insert(1, EntryView::Value(kv)).insert(
        2,
        EntryView::Value(value),
    );
    assert(crate::descriptor::message_wf(
        entry.data(),
        entry.pool().messages().len() as int,
        entry.pool().enums().len() as int,
    ));
    let data = entry.data().fields@;
    let i = entry.field_index(1)->Some_0;
    let j = entry.field_index(2)->Some_0;
    assert(data[0].number == 1 && data[1].number == 2);
    assert(i == 0) by {
        if i != 0 {
            assert(data[0].number != data[i].number);
        }
    }
    assert(j == 1) by {
        if j != 1 {
            if j < 1 {
                assert(data[j].number != data[1].number);
            } else {
                assert(data[1].number != data[j].number);
            }
        }
    }
    assert(get_spec(fields, FieldDescriptorRef::at(entry, 0)) == kv);
    assert(get_spec(fields, FieldDescriptorRef::at(entry, 1)) == value);
    assert(key_of_value(kv) == Some(key));
}

/// The bytes of the message hold, behind those of the first entries of a
/// map, the run of the next entry behind its tag.
proof fn lemma_map_item_reads<'a>(m: MessageView<'a>, k: u32, i: nat)
    requires
        wire_kept(m),
        m.fields.contains_key(k),
        entry_is_map(m, k),
        wire_of_message(m) is Some,
        bytes_below(m, 0x1_0000_0000).len() <= usize::MAX,
        i < m.fields[k]->Value_0->Entries_0.len(),
    ensures
        ({
            let v = m.fields[k]->Value_0;
            let entry = entry_kind(m, k)->Message_0;
            let body = body_bytes(
                entry,
                value_of_key(v->Entries_0[i as int].0),
                v->Entries_0[i as int].1,
            );
            &&& body.len() <= usize::MAX
            &&& wire_of_single(v->Entries_0[i as int].1, entry.map_value_kind_spec()) is Some
            &&& reads_run(
                bytes_below(m, 0x1_0000_0000),
                (bytes_below(m, k as nat) + entries_bytes(v, k, entry, i)).len() as int,
                k,
                body,
                (bytes_below(m, k as nat) + entries_bytes(v, k, entry, i + 1)).len() as int,
            )
        }),
{
    let v = m.fields[k]->Value_0;
    let entry = entry_kind(m, k)->Message_0;
    let entries = v->Entries_0;
    let all = bytes_below(m, 0x1_0000_0000);
    let before = bytes_below(m, k as nat) + entries_bytes(v, k, entry, i);
    assert(entry_kept(m, k));
    lemma_map_bytes(m, k);
    lemma_entries_from(v, k, entry, i + 1);
    lemma_bytes_split(m, (k + 1) as nat);
    lemma_bytes_grow(m, (k + 1) as nat, 0x1_0000_0000);
    lemma_map_split(all, bytes_below(m, k as nat), v, k, entry, i);
    let body = body_bytes(entry, value_of_key(entries[i as int].0), entries[i as int].1);
    let written = tag_bytes(k, 2) + run_bytes(body);
    let behind = all.subrange((before.len() + written.len()) as int, all.len() as int);
    lemma_run_read(k, body, before, behind);
}

/// The next entry of a map is read into the store that holds the entries
/// before it.
proof fn lemma_map_item_read<'a>(m: MessageView<'a>, k: u32, i: nat)
    requires
        wire_kept(m),
        m.fields.contains_key(k),
        entry_is_map(m, k),
        wire_of_message(m) is Some,
        bytes_below(m, 0x1_0000_0000).len() <= usize::MAX,
        i < m.fields[k]->Value_0->Entries_0.len(),
    ensures
        fields_of_wire(
            bytes_below(m, 0x1_0000_0000),
            (bytes_below(m, k as nat) + entries_bytes(
                m.fields[k]->Value_0,
                k,
                entry_kind(m, k)->Message_0,
                i,
            )).len() as int,
            m.desc,
            mapped_below(m, k, i),
        ) == fields_of_wire(
            bytes_below(m, 0x1_0000_0000),
            (bytes_below(m, k as nat) + entries_bytes(
                m.fields[k]->Value_0,
                k,
                entry_kind(m, k)->Message_0,
                i + 1,
            )).len() as int,
            m.desc,
            mapped_below(m, k, i + 1),
        ),
    decreases m, 1nat, 0nat,
{
    let v = m.fields[k]->Value_0;
    let entry = entry_kind(m, k)->Message_0;
    let entries = v->Entries_0;
    let all = bytes_below(m, 0x1_0000_0000);
    let pos = (bytes_below(m, k as nat) + entries_bytes(v, k, entry, i)).len() as int;
    let state = mapped_below(m, k, i);
    let key = entries[i as int].0;
    let value = entries[i as int].1;
    assert(entry_kept(m, k));
    lemma_map_item_reads(m, k, i);
    let front = entries.subrange(0, i as int);
    let more = entries.subrange(0, (i + 1) as int);
    assert(more =~= front.push((key, value)));
    assert(entry_current(m, k, state) == ValueView::Entries(front)) by {
        lemma_item_number(m, k);
        lemma_held_more(m, (k + 1) as nat);
        if i == 0 {
            assert(front =~= Seq::<(crate::value::MapKeyView, ValueView<'a>)>::empty());
        }
    }
    lemma_map_stored(m, k, state, i + 1);
    assert(state.insert(k, EntryView::Value(ValueView::Entries(more))) =~= mapped_below(m, k, i + 1));
    lemma_one_field(m, k, all, pos, state);
    let tag = varint_at(all, pos, VARINT_WIDTH as nat)->Some_0.0;
    let at = varint_at(all, pos, VARINT_WIDTH as nat)->Some_0.1;
    let raw = raw_at(all, at, tag % 8)->Some_0.0;
    assert(crate::value::valid_key_for_kind(key, entry.map_key_kind_spec()));
    assert(!entry_is_list(m, k) && entry_kind(m, k) == KindRef::Message(entry)) by {
        lemma_item_number(m, k);
    }
    lemma_entry_value_read(all, pos, raw, entry, key, value, front);
}

/// The entries of a map are read, one after the other, into the store that
/// holds what the message holds below the number of the map.
proof fn lemma_map_items_read<'a>(m: MessageView<'a>, k: u32, i: nat)
    requires
        wire_kept(m),
        m.fields.contains_key(k),
        entry_is_map(m, k),
        wire_of_message(m) is Some,
        bytes_below(m, 0x1_0000_0000).len() <= usize::MAX,
        i <= m.fields[k]->Value_0->Entries_0.len(),
    ensures
        fields_of_wire(
            bytes_below(m, 0x1_0000_0000),
            bytes_below(m, k as nat).len() as int,
            m.desc,
            held_below(m, k as nat),
        ) == fields_of_wire(
            bytes_below(m, 0x1_0000_0000),
            (bytes_below(m, k as nat) + entries_bytes(
                m.fields[k]->Value_0,
                k,
                entry_kind(m, k)->Message_0,
                i,
            )).len() as int,
            m.desc,
            mapped_below(m, k, i),
        ),
    decreases m, 2nat, i,
{
    if i > 0 {
        lemma_map_items_read(m, k, (i - 1) as nat);
        lemma_map_item_read(m, k, (i - 1) as nat);
    }
}

/// What was written for the map that the message holds under a number is
/// read, into what it holds below the number, as what it holds up to the
/// number.
proof fn lemma_map_entry_read<'a>(m: MessageView<'a>, k: u32)
    requires
        wire_kept(m),
        m.fields.contains_key(k),
        entry_is_map(m, k),
        wire_of_message(m) is Some,
        bytes_below(m, 0x1_0000_0000).len() <= usize::MAX,
    ensures
        fields_of_wire(
            bytes_below(m, 0x1_0000_0000),
            bytes_below(m, k as nat).len() as int,
            m.desc,
            held_below(m, k as nat),
        ) == fields_of_wire(
            bytes_below(m, 0x1_0000_0000),
            bytes_below(m, (k + 1) as nat).len() as int,
            m.desc,
            held_below(m, (k + 1) as nat),
        ),
    decreases m, 3nat, 0nat,
{
    let entries = m.fields[k]->Value_0->Entries_0;
    assert(entry_kept(m, k));
    lemma_item_number(m, k);
    lemma_map_items_read(m, k, entries.len());
    lemma_map_bytes(m, k);
    lemma_held_more(m, (k + 1) as nat);
    assert(entries.subrange(0, entries.len() as int) =~= entries);
    assert(mapped_below(m, k, entries.len()) =~= held_below(m, (k + 1) as nat));
}

/// What was written for what the message holds under a number is read, into
/// what it holds below the number, as what it holds up to the number.
proof fn lemma_entry_read<'a>(m: MessageView<'a>, k: u32)
    requires
        wire_kept(m),
        m.fields.contains_key(k),
        wire_of_message(m) is Some,
        bytes_below(m, 0x1_0000_0000).len() <= usize::MAX,
    ensures
        fields_of_wire(
            bytes_below(m, 0x1_0000_0000),
            bytes_below(m, k as nat).len() as int,
            m.desc,
            held_below(m, k as nat),
        ) == fields_of_wire(
            bytes_below(m, 0x1_0000_0000),
            bytes_below(m, (k + 1) as nat).len() as int,
            m.desc,
            held_below(m, (k + 1) as nat),
        ),
    decreases m, 4nat, 0nat,
{
    if entry_is_packed(m, k) {
        lemma_packed_entry_read(m, k);
    } else if entry_is_list(m, k) {
        lemma_list_entry_read(m, k);
    } else if entry_is_map(m, k) {
        lemma_map_entry_read(m, k);
    } else {
        lemma_single_entry_read(m, k);
    }
}

/// What was written for what the message holds below a number is read as
/// what it holds below the number.
proof fn lemma_read_below<'a>(m: MessageView<'a>, n: nat)
    requires
        wire_kept(m),
        wire_of_message(m) is Some,
        bytes_below(m, 0x1_0000_0000).len() <= usize::MAX,
        n <= 0x1_0000_0000,
    ensures
        fields_of_wire(bytes_below(m, 0x1_0000_0000), 0, m.desc, Map::empty()) == fields_of_wire(
            bytes_below(m, 0x1_0000_0000),
            bytes_below(m, n).len() as int,
            m.desc,
            held_below(m, n),
        ),
    decreases m, 5nat, n,
{
    if n == 0 {
        assert(held_below(m, 0) =~= Map::empty());
    } else {
        let k = (n - 1) as u32;
        lemma_read_below(m, (n - 1) as nat);
        lemma_held_more(m, n);
        if m.fields.contains_key(k) {
            lemma_entry_read(m, k);
        }
    }
}

/// A message that is kept is read back as it was from its binary form,
/// where that is short enough to be held.
pub proof fn law_wire_reads_back<'a>(m: MessageView<'a>)
    requires
        wire_kept(m),
    ensures
        wire_of_message(m) matches Some(bytes) ==> (bytes.len() <= usize::MAX ==> message_of_wire(
            bytes,
            m.desc,
        ) == Some(m)),
    decreases m, 6nat, 0nat,
{
    if wire_of_message(m) is Some && wire_of_message(m)->Some_0.len() <= usize::MAX {
        let all = bytes_below(m, 0x1_0000_0000);
        lemma_bytes_of_message(m);
        lemma_read_below(m, 0x1_0000_0000);
        assert(held_below(m, 0x1_0000_0000) =~= m.fields);
        assert(fields_of_wire(all, all.len() as int, m.desc, m.fields) == Some(m.fields));
    }
}

} // verus!
