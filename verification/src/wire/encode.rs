//! From a message to its binary form.

use crate::descriptor::{ExtensionDescriptorRef, FieldDescriptorRef, KindRef, MessageDescriptorRef};
use crate::fields::{
    all_declared, decoded, is_walk, item_at, item_views, walk_of, FieldDescriptorLike, ItemView,
    ValueAndDescriptor,
};
use crate::message::DynamicMessage;
use crate::text::str_eq;
use crate::unknown::{unknown_views, UnknownField};
use crate::value::{MapEntry, MapKey, MapKeyView, MessageView, Value, ValueView};
use crate::wire::{
    as_unsigned, as_unsigned32, fixed32_bytes, fixed64_bytes, push_all, push_fixed32, push_fixed64,
    push_tag, push_varint, tag_bytes, unsigned32_of, unsigned_of, varint_bytes, zigzag, zigzag_of,
    WIRE_FIXED32, WIRE_FIXED64, WIRE_RUN, WIRE_VARINT,
};
use vstd::prelude::*;
use vstd::utf8::*;

verus! {

/// The wire type that values of `kind` are written with.
pub open spec fn wire_type_of<'a>(kind: KindRef<'a>) -> u64 {
    match kind {
        KindRef::Double | KindRef::Fixed64 | KindRef::Sfixed64 => WIRE_FIXED64,
        KindRef::Float | KindRef::Fixed32 | KindRef::Sfixed32 => WIRE_FIXED32,
        KindRef::String | KindRef::Bytes | KindRef::Message(_) => WIRE_RUN,
        _ => WIRE_VARINT,
    }
}

/// A run of bytes with its length in front.
pub open spec fn run_bytes(bytes: Seq<u8>) -> Seq<u8> {
    varint_bytes(bytes.len() as u64) + bytes
}

/// The value that a map key stands for in the entry of a map.
pub open spec fn value_of_key<'a>(key: MapKeyView) -> ValueView<'a> {
    match key {
        MapKeyView::Bool(b) => ValueView::Bool(b),
        MapKeyView::I32(n) => ValueView::I32(n),
        MapKeyView::I64(n) => ValueView::I64(n),
        MapKeyView::U32(n) => ValueView::U32(n),
        MapKeyView::U64(n) => ValueView::U64(n),
        MapKeyView::String(s) => ValueView::String(s),
    }
}

/// The bytes of a value that is no message, behind its tag; `None` for a
/// value that does not fit the kind.
pub open spec fn wire_of_scalar<'a>(v: ValueView<'a>, kind: KindRef<'a>) -> Option<Seq<u8>> {
    match kind {
        KindRef::Int32 => match v {
            ValueView::I32(n) => Some(varint_bytes(as_unsigned(n as i64))),
            _ => None,
        },
        KindRef::Enum(_) => match v {
            ValueView::EnumNumber(n) => Some(varint_bytes(as_unsigned(n as i64))),
            _ => None,
        },
        KindRef::Int64 => match v {
            ValueView::I64(n) => Some(varint_bytes(as_unsigned(n))),
            _ => None,
        },
        KindRef::Uint32 => match v {
            ValueView::U32(n) => Some(varint_bytes(n as u64)),
            _ => None,
        },
        KindRef::Uint64 => match v {
            ValueView::U64(n) => Some(varint_bytes(n)),
            _ => None,
        },
        KindRef::Sint32 => match v {
            ValueView::I32(n) => Some(varint_bytes(zigzag(n as i64))),
            _ => None,
        },
        KindRef::Sint64 => match v {
            ValueView::I64(n) => Some(varint_bytes(zigzag(n))),
            _ => None,
        },
        KindRef::Bool => match v {
            ValueView::Bool(b) => Some(varint_bytes(if b { 1 } else { 0 })),
            _ => None,
        },
        KindRef::Fixed64 => match v {
            ValueView::U64(n) => Some(fixed64_bytes(n)),
            _ => None,
        },
        KindRef::Sfixed64 => match v {
            ValueView::I64(n) => Some(fixed64_bytes(as_unsigned(n))),
            _ => None,
        },
        KindRef::Double => match v {
            ValueView::F64(bits) => Some(fixed64_bytes(bits)),
            _ => None,
        },
        KindRef::Fixed32 => match v {
            ValueView::U32(n) => Some(fixed32_bytes(n)),
            _ => None,
        },
        KindRef::Sfixed32 => match v {
            ValueView::I32(n) => Some(fixed32_bytes(as_unsigned32(n))),
            _ => None,
        },
        KindRef::Float => match v {
            ValueView::F32(bits) => Some(fixed32_bytes(bits)),
            _ => None,
        },
        KindRef::String => match v {
            ValueView::String(s) => Some(run_bytes(encode_utf8(s))),
            _ => None,
        },
        KindRef::Bytes => match v {
            ValueView::Bytes(b) => Some(run_bytes(b)),
            _ => None,
        },
        KindRef::Message(_) => None,
    }
}

/// The bytes of a single value, behind its tag: a message as a run of its
/// own bytes.
pub open spec fn wire_of_single<'a>(v: ValueView<'a>, kind: KindRef<'a>) -> Option<Seq<u8>>
    decreases v, 0nat,
{
    match kind {
        KindRef::Message(m) => match v {
            ValueView::Message(mv) => if mv.desc.full_name_spec() == m.full_name_spec() {
                match wire_of_message(mv) {
                    Some(bytes) => Some(run_bytes(bytes)),
                    None => None,
                }
            } else {
                None
            },
            _ => None,
        },
        _ => wire_of_scalar(v, kind),
    }
}

/// `acc`, and behind it the last `left` items of the list `v`, each behind
/// the tag of the field.
pub open spec fn wire_of_items<'a>(
    v: ValueView<'a>,
    number: u32,
    kind: KindRef<'a>,
    left: nat,
    acc: Seq<u8>,
) -> Option<Seq<u8>>
    decreases v, left,
{
    match v {
        ValueView::List(items) => if left == 0 {
            Some(acc)
        } else if left > items.len() {
            None
        } else {
            match wire_of_single(items[items.len() - left], kind) {
                Some(bytes) => wire_of_items(
                    v,
                    number,
                    kind,
                    (left - 1) as nat,
                    acc + tag_bytes(number, wire_type_of(kind)) + bytes,
                ),
                None => None,
            }
        },
        _ => None,
    }
}

/// `acc`, and behind it the last `left` items of a list of numbers, one
/// directly behind the other.
pub open spec fn wire_of_packed<'a>(
    items: Seq<ValueView<'a>>,
    kind: KindRef<'a>,
    left: nat,
    acc: Seq<u8>,
) -> Option<Seq<u8>>
    decreases left,
{
    if left == 0 {
        Some(acc)
    } else if left > items.len() {
        None
    } else {
        match wire_of_scalar(items[items.len() - left], kind) {
            Some(bytes) => wire_of_packed(items, kind, (left - 1) as nat, acc + bytes),
            None => None,
        }
    }
}

/// `acc`, and behind it the last `left` entries of the map `v`: each a run
/// behind the tag of the field, holding the key as field 1 and the value as
/// field 2.
pub open spec fn wire_of_entries<'a>(
    v: ValueView<'a>,
    number: u32,
    entry: MessageDescriptorRef<'a>,
    left: nat,
    acc: Seq<u8>,
) -> Option<Seq<u8>>
    decreases v, left,
{
    match v {
        ValueView::Entries(entries) => if left == 0 {
            Some(acc)
        } else if left > entries.len() {
            None
        } else {
            let at = entries.len() - left;
            match wire_of_scalar(value_of_key(entries[at].0), entry.map_key_kind_spec()) {
                Some(key) => match wire_of_single(entries[at].1, entry.map_value_kind_spec()) {
                    Some(value) => wire_of_entries(
                        v,
                        number,
                        entry,
                        (left - 1) as nat,
                        acc + tag_bytes(number, WIRE_RUN) + run_bytes(
                            tag_bytes(1, wire_type_of(entry.map_key_kind_spec())) + key + tag_bytes(
                                2,
                                wire_type_of(entry.map_value_kind_spec()),
                            ) + value,
                        ),
                    ),
                    None => None,
                },
                None => None,
            }
        },
        _ => None,
    }
}

/// The number of items or entries that a value holds.
pub open spec fn size_of<'a>(v: ValueView<'a>) -> nat {
    match v {
        ValueView::List(items) => items.len(),
        ValueView::Entries(entries) => entries.len(),
        _ => 0,
    }
}

/// The bytes of what a field numbered `number` holds: the items of a list
/// packed into one run where the field asks for it and the kind allows it,
/// else each behind its own tag; the entries of a map each as a run; a single
/// value behind its tag. `None` where the value does not fit the field.
pub open spec fn wire_of_value<'a>(
    v: ValueView<'a>,
    number: u32,
    kind: KindRef<'a>,
    is_list: bool,
    is_map: bool,
    is_packed: bool,
) -> Option<Seq<u8>>
    decreases v, size_of(v) + 1,
{
    if is_list {
        match v {
            ValueView::List(items) => if is_packed && kind.packable() {
                match wire_of_packed(items, kind, items.len(), Seq::empty()) {
                    Some(bytes) => if items.len() == 0 {
                        Some(Seq::empty())
                    } else {
                        Some(tag_bytes(number, WIRE_RUN) + run_bytes(bytes))
                    },
                    None => None,
                }
            } else {
                wire_of_items(v, number, kind, items.len(), Seq::empty())
            },
            _ => None,
        }
    } else if is_map {
        match (v, kind) {
            (ValueView::Entries(entries), KindRef::Message(entry)) => if entry.data().is_map_entry {
                wire_of_entries(v, number, entry, entries.len(), Seq::empty())
            } else {
                None
            },
            _ => None,
        }
    } else {
        match wire_of_single(v, kind) {
            Some(bytes) => Some(tag_bytes(number, wire_type_of(kind)) + bytes),
            None => None,
        }
    }
}

/// The first `n` of the undecoded entries, one behind the other.
pub open spec fn wire_of_unknown(entries: Seq<Seq<u8>>, n: nat) -> Seq<u8>
    decreases n,
{
    if n == 0 || n > entries.len() {
        Seq::empty()
    } else {
        wire_of_unknown(entries, (n - 1) as nat) + entries[n - 1]
    }
}

/// The bytes of the item that the message's store yields under `number`:
/// undecoded entries as they are, a value as its field or extension has it
/// written. `None` for a group.
pub open spec fn wire_of_number<'a>(m: MessageView<'a>, number: u32) -> Option<Seq<u8>>
    decreases m, 0nat,
{
    match item_at(m.fields, m.desc, number) {
        Some(ItemView::Unknown(_, entries)) => Some(wire_of_unknown(entries, entries.len())),
        Some(ItemView::Field(_, field)) => if decoded(m.fields, number) is Some
            && !field.is_group_spec() {
            wire_of_value(
                m.fields[number]->Value_0,
                number,
                field.kind_spec(),
                field.is_list_spec(),
                field.is_map_spec(),
                field.is_packed_spec(),
            )
        } else {
            None
        },
        Some(ItemView::Extension(_, extension)) => if decoded(m.fields, number) is Some
            && !extension.is_group_spec() {
            wire_of_value(
                m.fields[number]->Value_0,
                number,
                extension.kind_spec(),
                extension.is_list_spec(),
                extension.is_map_spec(),
                extension.is_packed_spec(),
            )
        } else {
            None
        },
        None => Some(Seq::empty()),
    }
}

/// `acc`, and behind it the bytes of the last `left` items of the walk over
/// the message's store.
pub open spec fn wire_of_walk<'a>(m: MessageView<'a>, left: nat, acc: Seq<u8>) -> Option<Seq<u8>>
    decreases m, left + 1,
{
    let items = walk_of(m.fields, m.desc);
    if left == 0 {
        Some(acc)
    } else if left > items.len() {
        None
    } else {
        match wire_of_number(m, items[items.len() - left].number()) {
            Some(bytes) => wire_of_walk(m, (left - 1) as nat, acc + bytes),
            None => None,
        }
    }
}

/// The binary form of a message: what its store yields, in ascending order
/// of the field numbers. `None` where the store holds a value under a number
/// that the message's type does not declare, a value that does not fit its
/// field, or a group.
pub open spec fn wire_of_message<'a>(m: MessageView<'a>) -> Option<Seq<u8>>
    decreases m, walk_of(m.fields, m.desc).len() + 2,
{
    if all_declared(m.fields, m.desc) {
        wire_of_walk(m, walk_of(m.fields, m.desc).len(), Seq::empty())
    } else {
        None
    }
}

/// What `encode` left in `out`: the bytes that were there and behind them
/// `bytes`, where there are any to write.
pub open spec fn appended(ok: bool, before: Seq<u8>, after: Seq<u8>, bytes: Option<Seq<u8>>) -> bool {
    match bytes {
        Some(b) => ok && after == before + b,
        None => !ok,
    }
}

/// Appends a run: its length, then its bytes.
fn push_run(out: &mut Vec<u8>, bytes: &[u8])
    ensures
        final(out)@ == old(out)@ + run_bytes(bytes@),
{
    let n: usize = bytes.len();
    push_varint(out, n as u64);
    push_all(out, bytes);
    assert(out@ =~= old(out)@ + run_bytes(bytes@));
}

/// The wire type that values of `kind` are written with.
pub(crate) fn wire_type<'a>(kind: &KindRef<'a>) -> (r: u64)
    ensures
        r == wire_type_of(*kind),
        r < 8,
{
    match kind {
        KindRef::Double | KindRef::Fixed64 | KindRef::Sfixed64 => WIRE_FIXED64,
        KindRef::Float | KindRef::Fixed32 | KindRef::Sfixed32 => WIRE_FIXED32,
        KindRef::String | KindRef::Bytes | KindRef::Message(_) => WIRE_RUN,
        _ => WIRE_VARINT,
    }
}

/// Appends the bytes of a value that is no message.
fn encode_scalar<'a>(out: &mut Vec<u8>, value: &Value<'a>, kind: &KindRef<'a>) -> (ok: bool)
    ensures
        appended(ok, old(out)@, final(out)@, wire_of_scalar(value@, *kind)),
{
    match (kind, value) {
        (KindRef::Int32, Value::I32(n)) => {
            push_varint(out, unsigned_of(*n as i64));
            true
        },
        (KindRef::Enum(_), Value::EnumNumber(n)) => {
            push_varint(out, unsigned_of(*n as i64));
            true
        },
        (KindRef::Int64, Value::I64(n)) => {
            push_varint(out, unsigned_of(*n));
            true
        },
        (KindRef::Uint32, Value::U32(n)) => {
            push_varint(out, *n as u64);
            true
        },
        (KindRef::Uint64, Value::U64(n)) => {
            push_varint(out, *n);
            true
        },
        (KindRef::Sint32, Value::I32(n)) => {
            push_varint(out, zigzag_of(*n as i64));
            true
        },
        (KindRef::Sint64, Value::I64(n)) => {
            push_varint(out, zigzag_of(*n));
            true
        },
        (KindRef::Bool, Value::Bool(b)) => {
            push_varint(out, if *b { 1 } else { 0 });
            true
        },
        (KindRef::Fixed64, Value::U64(n)) => {
            push_fixed64(out, *n);
            true
        },
        (KindRef::Sfixed64, Value::I64(n)) => {
            push_fixed64(out, unsigned_of(*n));
            true
        },
        (KindRef::Double, Value::F64(bits)) => {
            push_fixed64(out, *bits);
            true
        },
        (KindRef::Fixed32, Value::U32(n)) => {
            push_fixed32(out, *n);
            true
        },
        (KindRef::Sfixed32, Value::I32(n)) => {
            push_fixed32(out, unsigned32_of(*n));
            true
        },
        (KindRef::Float, Value::F32(bits)) => {
            push_fixed32(out, *bits);
            true
        },
        (KindRef::String, Value::String(s)) => {
            push_run(out, s.as_str().as_bytes());
            true
        },
        (KindRef::Bytes, Value::Bytes(b)) => {
            push_run(out, b.as_slice());
            true
        },
        _ => false,
    }
}

/// Appends the bytes of a single value.
fn encode_single<'a>(out: &mut Vec<u8>, value: &Value<'a>, kind: &KindRef<'a>) -> (ok: bool)
    ensures
        appended(ok, old(out)@, final(out)@, wire_of_single(value@, *kind)),
    decreases value@, 0nat,
{
    match kind {
        KindRef::Message(m) => match value {
            Value::Message(message) => {
                assert(message@.desc == message.desc);
                if str_eq(message.desc.full_name(), m.full_name()) {
                    match encode_message(message) {
                        Some(bytes) => {
                            push_run(out, bytes.as_slice());
                            true
                        },
                        None => false,
                    }
                } else {
                    false
                }
            },
            _ => false,
        },
        _ => encode_scalar(out, value, kind),
    }
}

/// The items of a list, each behind the tag of the field.
fn encode_items<'a>(value: &Value<'a>, number: u32, kind: &KindRef<'a>) -> (r: Option<Vec<u8>>)
    requires
        value is List,
    ensures
        match wire_of_items(value@, number, *kind, size_of(value@), Seq::empty()) {
            Some(b) => r matches Some(v) && v@ == b,
            None => r is None,
        },
    decreases value@, size_of(value@),
{
    let mut out: Vec<u8> = Vec::new();
    let wt: u64 = wire_type(kind);
    match value {
        Value::List(items) => {
            let ghost views = value@->List_0;
            assert(views.len() == items@.len());
            let mut i: usize = 0;
            while i < items.len()
                invariant
                    value is List,
                    *value == Value::List(*items),
                    value@ == ValueView::List(views),
                    views.len() == items@.len(),
                    forall|k: int| 0 <= k < items@.len() ==> views[k] == (#[trigger] items@[k])@,
                    i <= items@.len(),
                    wt == wire_type_of(*kind),
                    wt < 8,
                    wire_of_items(value@, number, *kind, (items@.len() - i) as nat, out@)
                        == wire_of_items(value@, number, *kind, items@.len() as nat, Seq::empty()),
                decreases items@.len() - i,
            {
                push_tag(&mut out, number, wt);
                assert(views[i as int] == items@[i as int]@);
                if !encode_single(&mut out, &items[i], kind) {
                    return None;
                }
                i += 1;
            }
            Some(out)
        },
        _ => None,
    }
}

/// The items of a list of numbers, one directly behind the other.
fn encode_packed<'a>(items: &Vec<Value<'a>>, kind: &KindRef<'a>) -> (r: Option<Vec<u8>>)
    ensures
        match wire_of_packed(
            crate::value::value_views(items@),
            *kind,
            items@.len() as nat,
            Seq::empty(),
        ) {
            Some(b) => r matches Some(v) && v@ == b,
            None => r is None,
        },
{
    let mut out: Vec<u8> = Vec::new();
    let ghost views = crate::value::value_views(items@);
    let mut i: usize = 0;
    while i < items.len()
        invariant
            views == crate::value::value_views(items@),
            i <= items@.len(),
            wire_of_packed(views, *kind, (items@.len() - i) as nat, out@) == wire_of_packed(
                views,
                *kind,
                items@.len() as nat,
                Seq::empty(),
            ),
        decreases items@.len() - i,
    {
        assert(views[i as int] == items@[i as int]@);
        if !encode_scalar(&mut out, &items[i], kind) {
            return None;
        }
        i += 1;
    }
    Some(out)
}

/// The value that a map key stands for in the entry of a map.
fn key_value<'a>(key: &MapKey) -> (r: Value<'a>)
    ensures
        r@ == value_of_key::<'a>(key@),
{
    match key {
        MapKey::Bool(b) => Value::Bool(*b),
        MapKey::I32(n) => Value::I32(*n),
        MapKey::I64(n) => Value::I64(*n),
        MapKey::U32(n) => Value::U32(*n),
        MapKey::U64(n) => Value::U64(*n),
        MapKey::String(s) => Value::String(s.clone()),
    }
}

/// The entries of a map, each a run behind the tag of the field.
fn encode_entries<'a>(value: &Value<'a>, number: u32, entry: MessageDescriptorRef<'a>) -> (r: Option<
    Vec<u8>,
>)
    requires
        value is Entries,
        entry.data().is_map_entry,
    ensures
        match wire_of_entries(value@, number, entry, size_of(value@), Seq::empty()) {
            Some(b) => r matches Some(v) && v@ == b,
            None => r is None,
        },
    decreases value@, size_of(value@),
{
    let mut out: Vec<u8> = Vec::new();
    let key_kind = entry.map_entry_key_kind();
    let value_kind = entry.map_entry_value_kind();
    let key_type: u64 = wire_type(&key_kind);
    let value_type: u64 = wire_type(&value_kind);
    match value {
        Value::Entries(entries) => {
            let ghost views = value@->Entries_0;
            assert(views.len() == entries@.len());
            let mut i: usize = 0;
            while i < entries.len()
                invariant
                    *value == Value::Entries(*entries),
                    value@ == ValueView::Entries(views),
                    views.len() == entries@.len(),
                    forall|k: int|
                        0 <= k < entries@.len() ==> views[k] == ((#[trigger] entries@[k]).key@, entries@[k].value@),
                    i <= entries@.len(),
                    key_kind == entry.map_key_kind_spec(),
                    value_kind == entry.map_value_kind_spec(),
                    key_type == wire_type_of(key_kind),
                    value_type == wire_type_of(value_kind),
                    key_type < 8,
                    value_type < 8,
                    wire_of_entries(value@, number, entry, (entries@.len() - i) as nat, out@)
                        == wire_of_entries(
                        value@,
                        number,
                        entry,
                        entries@.len() as nat,
                        Seq::empty(),
                    ),
                decreases entries@.len() - i,
            {
                let mut body: Vec<u8> = Vec::new();
                push_tag(&mut body, 1, key_type);
                assert(views[i as int] == (entries@[i as int].key@, entries@[i as int].value@));
                let key = key_value(&entries[i].key);
                if !encode_scalar(&mut body, &key, &key_kind) {
                    return None;
                }
                push_tag(&mut body, 2, value_type);
                if !encode_single(&mut body, &entries[i].value, &value_kind) {
                    return None;
                }
                push_tag(&mut out, number, WIRE_RUN);
                push_run(&mut out, body.as_slice());
                i += 1;
            }
            Some(out)
        },
        _ => None,
    }
}

/// Appends the bytes of what a list field holds.
fn encode_list<'a>(
    out: &mut Vec<u8>,
    value: &Value<'a>,
    number: u32,
    kind: &KindRef<'a>,
    is_packed: bool,
) -> (ok: bool)
    ensures
        appended(ok, old(out)@, final(out)@, wire_of_value(value@, number, *kind, true, false, is_packed)),
    decreases value@, size_of(value@) + 1,
{
    match value {
        Value::List(items) => {
            assert(value@->List_0 =~= crate::value::value_views(items@));
            if is_packed && is_packable(kind) {
                match encode_packed(items, kind) {
                    Some(bytes) => {
                        if items.len() > 0 {
                            push_tag(out, number, WIRE_RUN);
                            push_run(out, bytes.as_slice());
                            assert(out@ =~= old(out)@ + (tag_bytes(number, WIRE_RUN) + run_bytes(
                                bytes@,
                            )));
                        } else {
                            assert(out@ =~= old(out)@ + Seq::<u8>::empty());
                        }
                        true
                    },
                    None => false,
                }
            } else {
                match encode_items(value, number, kind) {
                    Some(bytes) => {
                        push_all(out, bytes.as_slice());
                        true
                    },
                    None => false,
                }
            }
        },
        _ => false,
    }
}

/// Appends the bytes of what a map field holds.
fn encode_map<'a>(out: &mut Vec<u8>, value: &Value<'a>, number: u32, kind: &KindRef<'a>) -> (ok: bool)
    ensures
        forall|is_packed: bool|
            appended(
                ok,
                old(out)@,
                final(out)@,
                #[trigger] wire_of_value(value@, number, *kind, false, true, is_packed),
            ),
    decreases value@, size_of(value@) + 1,
{
    match (value, kind) {
        (Value::Entries(entries), KindRef::Message(entry)) => {
            assert(value@->Entries_0.len() == entries@.len());
            if entry.is_map_entry() {
                match encode_entries(value, number, *entry) {
                    Some(bytes) => {
                        push_all(out, bytes.as_slice());
                        true
                    },
                    None => false,
                }
            } else {
                false
            }
        },
        _ => false,
    }
}

/// Appends the bytes of what a field numbered `number` holds.
fn encode_value<'a>(
    out: &mut Vec<u8>,
    value: &Value<'a>,
    number: u32,
    kind: &KindRef<'a>,
    is_list: bool,
    is_map: bool,
    is_packed: bool,
) -> (ok: bool)
    ensures
        appended(
            ok,
            old(out)@,
            final(out)@,
            wire_of_value(value@, number, *kind, is_list, is_map, is_packed),
        ),
    decreases value@, size_of(value@) + 2,
{
    if is_list {
        encode_list(out, value, number, kind, is_packed)
    } else if is_map {
        encode_map(out, value, number, kind)
    } else {
        let wt: u64 = wire_type(kind);
        push_tag(out, number, wt);
        let ok = encode_single(out, value, kind);
        proof {
            if ok {
                let bytes = wire_of_single(value@, *kind)->Some_0;
                assert(out@ =~= old(out)@ + (tag_bytes(number, wire_type_of(*kind)) + bytes));
            }
        }
        ok
    }
}

/// Whether values of the kind are packed on the wire when repeated.
pub(crate) fn is_packable<'a>(kind: &KindRef<'a>) -> (r: bool)
    ensures
        r == kind.packable(),
{
    match kind {
        KindRef::String | KindRef::Bytes | KindRef::Message(_) => false,
        _ => true,
    }
}

/// Appends the undecoded entries as they are.
fn encode_unknown(out: &mut Vec<u8>, entries: &[UnknownField])
    ensures
        final(out)@ == old(out)@ + wire_of_unknown(unknown_views(entries@), entries@.len() as nat),
{
    let ghost views = unknown_views(entries@);
    let mut i: usize = 0;
    while i < entries.len()
        invariant
            views == unknown_views(entries@),
            views.len() == entries@.len(),
            i <= entries@.len(),
            out@ == old(out)@ + wire_of_unknown(views, i as nat),
        decreases entries@.len() - i,
    {
        assert(views[i as int] == entries@[i as int]@);
        push_all(out, entries[i].bytes.as_slice());
        i += 1;
        assert(out@ =~= old(out)@ + wire_of_unknown(views, i as nat));
    }
}

/// Appends the bytes of one item of the walk over the message's store.
fn encode_item<'s, 'a>(
    out: &mut Vec<u8>,
    message: &DynamicMessage<'a>,
    item: &ValueAndDescriptor<'s, 'a>,
) -> (ok: bool)
    requires
        item_at(message@.fields, message@.desc, item@.number()) == Some(item@),
    ensures
        appended(ok, old(out)@, final(out)@, wire_of_number(message@, item@.number())),
    decreases message@, 0nat,
{
    assert(message@.fields == message.fields@ && message@.desc == message.desc);
    match item {
        ValueAndDescriptor::Unknown(_, entries) => {
            encode_unknown(out, entries);
            true
        },
        ValueAndDescriptor::Field(value, field) => {
            assert(value@ == message@.fields[item@.number()]->Value_0);
            if field.is_group() {
                false
            } else {
                encode_value(
                    out,
                    value,
                    field.number(),
                    &field.kind(),
                    field.is_list(),
                    field.is_map(),
                    field.is_packed(),
                )
            }
        },
        ValueAndDescriptor::Extension(value, extension) => {
            assert(value@ == message@.fields[item@.number()]->Value_0);
            if extension.is_group() {
                false
            } else {
                encode_value(
                    out,
                    value,
                    extension.number(),
                    &extension.kind(),
                    extension.is_list(),
                    extension.is_map(),
                    extension.is_packed(),
                )
            }
        },
    }
}

/// The binary form of the message.
pub fn encode_message<'a>(message: &DynamicMessage<'a>) -> (r: Option<Vec<u8>>)
    ensures
        match wire_of_message(message@) {
            Some(b) => r matches Some(v) && v@ == b,
            None => r is None,
        },
    decreases message@, walk_of(message@.fields, message@.desc).len() + 2,
{
    assert(message@.fields == message.fields@ && message@.desc == message.desc);
    let items = match message.fields.try_iter(message.desc) {
        Some(items) => items,
        None => {
            return None;
        },
    };
    let mut out: Vec<u8> = Vec::new();
    let ghost walk = walk_of(message@.fields, message@.desc);
    let mut i: usize = 0;
    while i < items.len()
        invariant
            walk == walk_of(message@.fields, message@.desc),
            item_views(items@) == walk,
            is_walk(walk, message@.fields, message@.desc),
            i <= items@.len(),
            wire_of_walk(message@, (items@.len() - i) as nat, out@) == wire_of_walk(
                message@,
                walk.len(),
                Seq::empty(),
            ),
        decreases items@.len() - i,
    {
        assert(walk[i as int] == items@[i as int]@);
        if !encode_item(&mut out, message, &items[i]) {
            return None;
        }
        i += 1;
    }
    Some(out)
}

} // verus!
