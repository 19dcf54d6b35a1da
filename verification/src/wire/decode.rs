//! From the binary form to a message.

use crate::descriptor::{ExtensionDescriptorRef, FieldDescriptorRef, KindRef, MessageDescriptorRef};
use crate::fields::{
    add_unknown_spec, decoded, get_spec, set_spec, valid_for, DynamicMessageFieldSet,
    FieldDescriptorLike,
};
use crate::message::DynamicMessage;
use crate::unknown::UnknownField;
use crate::value::{EntryView, MapEntry, MapKey, MapKeyView, MessageView, Value, ValueView};
use crate::wire::encode::wire_type_of;
use crate::wire::{
    as_signed, as_signed32, fixed32_at, fixed64_at, read_fixed32, read_fixed64, read_varint,
    signed32_of, signed_of, text_of_utf8, unzigzag, unzigzag_of, varint_at, VARINT_WIDTH,
    WIRE_FIXED32, WIRE_FIXED64, WIRE_RUN, WIRE_VARINT,
};
use vstd::prelude::*;
use vstd::slice::{slice_subrange, slice_to_vec};
use vstd::utf8::*;

verus! {

/// What stands behind a tag, by its wire type alone: a number, or the run of
/// bytes from the first position up to the second.
pub enum Raw {
    Varint(u64),
    Fixed64(u64),
    Fixed32(u32),
    Run(usize, usize),
}

/// What stands at `pos` for a tag of the wire type, and the position behind
/// it; `None` where the bytes end early or the wire type is none of the
/// four.
pub open spec fn raw_at(bytes: Seq<u8>, pos: int, wire_type: u64) -> Option<(Raw, int)> {
    if wire_type == WIRE_VARINT {
        match varint_at(bytes, pos, VARINT_WIDTH as nat) {
            Some((v, next)) => Some((Raw::Varint(v), next)),
            None => None,
        }
    } else if wire_type == WIRE_FIXED64 {
        if 0 <= pos && pos + 8 <= bytes.len() {
            Some((Raw::Fixed64(fixed64_at(bytes, pos)), pos + 8))
        } else {
            None
        }
    } else if wire_type == WIRE_FIXED32 {
        if 0 <= pos && pos + 4 <= bytes.len() {
            Some((Raw::Fixed32(fixed32_at(bytes, pos)), pos + 4))
        } else {
            None
        }
    } else if wire_type == WIRE_RUN {
        match varint_at(bytes, pos, VARINT_WIDTH as nat) {
            Some((n, start)) => if start + n <= bytes.len() {
                Some((Raw::Run(start as usize, (start + n) as usize), start + n))
            } else {
                None
            },
            None => None,
        }
    } else {
        None
    }
}

/// The number fits 32 bits with a sign.
pub open spec fn fits_i32(n: i64) -> bool {
    -0x8000_0000 <= n <= 0x7fff_ffff
}

/// The value of a kind that is no message, read from what stands behind its
/// tag; `None` where the wire type is not that of the kind, a number does not
/// fit the kind, or a text is no valid UTF-8.
pub open spec fn scalar_of_raw<'a>(bytes: Seq<u8>, raw: Raw, kind: KindRef<'a>) -> Option<
    ValueView<'a>,
> {
    match raw {
        Raw::Varint(v) => match kind {
            KindRef::Int32 => if fits_i32(as_signed(v)) {
                Some(ValueView::I32(as_signed(v) as i32))
            } else {
                None
            },
            KindRef::Enum(_) => if fits_i32(as_signed(v)) {
                Some(ValueView::EnumNumber(as_signed(v) as i32))
            } else {
                None
            },
            KindRef::Int64 => Some(ValueView::I64(as_signed(v))),
            KindRef::Uint32 => if v <= 0xffff_ffff {
                Some(ValueView::U32(v as u32))
            } else {
                None
            },
            KindRef::Uint64 => Some(ValueView::U64(v)),
            KindRef::Sint32 => if fits_i32(unzigzag(v)) {
                Some(ValueView::I32(unzigzag(v) as i32))
            } else {
                None
            },
            KindRef::Sint64 => Some(ValueView::I64(unzigzag(v))),
            KindRef::Bool => Some(ValueView::Bool(v != 0)),
            _ => None,
        },
        Raw::Fixed64(v) => match kind {
            KindRef::Fixed64 => Some(ValueView::U64(v)),
            KindRef::Sfixed64 => Some(ValueView::I64(as_signed(v))),
            KindRef::Double => Some(ValueView::F64(v)),
            _ => None,
        },
        Raw::Fixed32(v) => match kind {
            KindRef::Fixed32 => Some(ValueView::U32(v)),
            KindRef::Sfixed32 => Some(ValueView::I32(as_signed32(v))),
            KindRef::Float => Some(ValueView::F32(v)),
            _ => None,
        },
        Raw::Run(start, end) => if start <= end <= bytes.len() {
            match kind {
                KindRef::String => if valid_utf8(bytes.subrange(start as int, end as int)) {
                    Some(ValueView::String(decode_utf8(bytes.subrange(start as int, end as int))))
                } else {
                    None
                },
                KindRef::Bytes => Some(ValueView::Bytes(bytes.subrange(start as int, end as int))),
                _ => None,
            }
        } else {
            None
        },
    }
}

/// `acc`, and behind it the numbers of `kind` that stand one directly behind
/// the other from `pos` to the end of the bytes.
pub open spec fn packed_of_wire<'a>(
    bytes: Seq<u8>,
    pos: int,
    kind: KindRef<'a>,
    acc: Seq<ValueView<'a>>,
) -> Option<Seq<ValueView<'a>>>
    decreases bytes.len() - pos,
{
    if pos < 0 || pos > bytes.len() {
        None
    } else if pos == bytes.len() {
        Some(acc)
    } else {
        match raw_at(bytes, pos, wire_type_of(kind)) {
            Some((raw, next)) => if pos < next && next <= bytes.len() {
                match scalar_of_raw(bytes, raw, kind) {
                    Some(v) => packed_of_wire(bytes, next, kind, acc.push(v)),
                    None => None,
                }
            } else {
                None
            },
            None => None,
        }
    }
}

/// The map key that a value stands for in the entry of a map.
pub open spec fn key_of_value<'a>(v: ValueView<'a>) -> Option<MapKeyView> {
    match v {
        ValueView::Bool(b) => Some(MapKeyView::Bool(b)),
        ValueView::I32(n) => Some(MapKeyView::I32(n)),
        ValueView::I64(n) => Some(MapKeyView::I64(n)),
        ValueView::U32(n) => Some(MapKeyView::U32(n)),
        ValueView::U64(n) => Some(MapKeyView::U64(n)),
        ValueView::String(s) => Some(MapKeyView::String(s)),
        _ => None,
    }
}

/// The single value of `kind` read from what stands behind a tag at `pos`: a
/// message from the fields that its run holds.
pub open spec fn single_of_raw<'a>(bytes: Seq<u8>, pos: int, raw: Raw, kind: KindRef<'a>) -> Option<
    ValueView<'a>,
>
    decreases bytes.len() - pos, 0nat,
{
    match kind {
        KindRef::Message(m) => match raw {
            Raw::Run(start, end) => if pos < start && start <= end && end <= bytes.len() {
                match fields_of_wire(
                    bytes.subrange(start as int, end as int),
                    0,
                    m,
                    Map::empty(),
                ) {
                    Some(fields) => Some(ValueView::Message(MessageView { desc: m, fields })),
                    None => None,
                }
            } else {
                None
            },
            _ => None,
        },
        _ => scalar_of_raw(bytes, raw, kind),
    }
}

/// What a field holds once the value behind a tag at `pos` is read, where it
/// held `current` before: a list has the value added behind its items, or the
/// numbers of a packed run; a map has the entry added that the run holds, its
/// key as field 1 and its value as field 2; a single value is replaced.
pub open spec fn value_of_raw<'a>(
    bytes: Seq<u8>,
    pos: int,
    raw: Raw,
    kind: KindRef<'a>,
    is_list: bool,
    is_map: bool,
    current: ValueView<'a>,
) -> Option<ValueView<'a>>
    decreases bytes.len() - pos, 1nat,
{
    if is_list {
        match current {
            ValueView::List(items) => if raw is Run && kind.packable() {
                if raw->Run_0 <= raw->Run_1 <= bytes.len() {
                    match packed_of_wire(
                        bytes.subrange(raw->Run_0 as int, raw->Run_1 as int),
                        0,
                        kind,
                        items,
                    ) {
                        Some(all) => Some(ValueView::List(all)),
                        None => None,
                    }
                } else {
                    None
                }
            } else {
                match single_of_raw(bytes, pos, raw, kind) {
                    Some(v) => Some(ValueView::List(items.push(v))),
                    None => None,
                }
            },
            _ => None,
        }
    } else if is_map {
        match (current, kind, raw) {
            (ValueView::Entries(entries), KindRef::Message(entry), Raw::Run(start, end)) => if pos
                < start && start <= end && end <= bytes.len() {
                match fields_of_wire(
                    bytes.subrange(start as int, end as int),
                    0,
                    entry,
                    Map::empty(),
                ) {
                    Some(fields) => match (entry.field_index(1), entry.field_index(2)) {
                        (Some(i), Some(j)) => match key_of_value(
                            get_spec(fields, FieldDescriptorRef::at(entry, i as usize)),
                        ) {
                            Some(key) => Some(
                                ValueView::Entries(
                                    entries.push(
                                        (
                                            key,
                                            get_spec(fields, FieldDescriptorRef::at(entry, j as usize)),
                                        ),
                                    ),
                                ),
                            ),
                            None => None,
                        },
                        _ => None,
                    },
                    None => None,
                }
            } else {
                None
            },
            _ => None,
        }
    } else {
        single_of_raw(bytes, pos, raw, kind)
    }
}

/// The store with `v` written to the field, where there is a value and the
/// field may hold it.
pub open spec fn stored<'a, D: FieldDescriptorLike<'a>>(
    state: Map<u32, EntryView<'a>>,
    desc: D,
    v: Option<ValueView<'a>>,
) -> Option<Map<u32, EntryView<'a>>> {
    match v {
        Some(v) => if valid_for(desc, v) {
            Some(set_spec(state, desc, v))
        } else {
            None
        },
        None => None,
    }
}

/// The store once the field behind the tag at `pos` is read, which ends at
/// `next`: the value goes to the field of that number or, where the message
/// declares none, to its extension of that number; where it declares neither,
/// the bytes from the tag on are kept as an undecoded entry. `None` for a
/// group, and for a value that the field may not hold.
pub open spec fn field_of_wire<'a>(
    bytes: Seq<u8>,
    pos: int,
    next: int,
    raw: Raw,
    number: u32,
    desc: MessageDescriptorRef<'a>,
    state: Map<u32, EntryView<'a>>,
) -> Option<Map<u32, EntryView<'a>>>
    decreases bytes.len() - pos, 2nat,
{
    match desc.field_index(number) {
        Some(i) => {
            let field = FieldDescriptorRef::at(desc, i as usize);
            if field.is_group_spec() {
                None
            } else {
                stored(
                    state,
                    field,
                    value_of_raw(
                        bytes,
                        pos,
                        raw,
                        field.kind_spec(),
                        field.is_list_spec(),
                        field.is_map_spec(),
                        get_spec(state, field),
                    ),
                )
            }
        },
        None => match desc.extension_index(number) {
            Some(j) => {
                let extension = ExtensionDescriptorRef::at(desc.pool(), j as usize);
                if extension.is_group_spec() {
                    None
                } else {
                    stored(
                        state,
                        extension,
                        value_of_raw(
                            bytes,
                            pos,
                            raw,
                            extension.kind_spec(),
                            extension.is_list_spec(),
                            extension.is_map_spec(),
                            get_spec(state, extension),
                        ),
                    )
                }
            },
            None => if decoded(state, number) is Some || !(0 <= pos <= next <= bytes.len()) {
                None
            } else {
                Some(add_unknown_spec(state, number, bytes.subrange(pos, next)))
            },
        },
    }
}

/// The store once the fields from `pos` to the end of the bytes are read
/// into `state`, one after the other. `None` where a tag or what stands
/// behind it is cut short, a tag holds no field number, or a field cannot be
/// read.
pub open spec fn fields_of_wire<'a>(
    bytes: Seq<u8>,
    pos: int,
    desc: MessageDescriptorRef<'a>,
    state: Map<u32, EntryView<'a>>,
) -> Option<Map<u32, EntryView<'a>>>
    decreases bytes.len() - pos, 3nat,
{
    if pos < 0 || pos > bytes.len() {
        None
    } else if pos == bytes.len() {
        Some(state)
    } else {
        match varint_at(bytes, pos, VARINT_WIDTH as nat) {
            Some((tag, at)) => if tag / 8 == 0 || tag / 8 > 0xffff_ffff {
                None
            } else {
                match raw_at(bytes, at, tag % 8) {
                    Some((raw, next)) => if pos < at && at <= next && next <= bytes.len() {
                        match field_of_wire(bytes, pos, next, raw, (tag / 8) as u32, desc, state) {
                            Some(after) => fields_of_wire(bytes, next, desc, after),
                            None => None,
                        }
                    } else {
                        None
                    },
                    None => None,
                }
            },
            None => None,
        }
    }
}

/// The message of type `desc` that the bytes are the binary form of.
pub open spec fn message_of_wire<'a>(bytes: Seq<u8>, desc: MessageDescriptorRef<'a>) -> Option<
    MessageView<'a>,
> {
    match fields_of_wire(bytes, 0, desc, Map::empty()) {
        Some(fields) => Some(MessageView { desc, fields }),
        None => None,
    }
}

/// Reads what stands at `pos` for a tag of the wire type.
pub fn read_raw(bytes: &[u8], pos: usize, wire_type: u64) -> (r: Option<(Raw, usize)>)
    ensures
        match r {
            Some((raw, next)) => raw_at(bytes@, pos as int, wire_type) == Some((raw, next as int))
                && pos < next <= bytes@.len() && (raw matches Raw::Run(start, end) ==> pos < start
                <= end && end == next),
            None => raw_at(bytes@, pos as int, wire_type) is None,
        },
{
    let len: usize = bytes.len();
    if wire_type == WIRE_VARINT {
        match read_varint(bytes, pos, VARINT_WIDTH) {
            Some((v, next)) => Some((Raw::Varint(v), next)),
            None => None,
        }
    } else if wire_type == WIRE_FIXED64 {
        if pos <= len && len - pos >= 8 {
            Some((Raw::Fixed64(read_fixed64(bytes, pos)), pos + 8))
        } else {
            None
        }
    } else if wire_type == WIRE_FIXED32 {
        if pos <= len && len - pos >= 4 {
            Some((Raw::Fixed32(read_fixed32(bytes, pos)), pos + 4))
        } else {
            None
        }
    } else if wire_type == WIRE_RUN {
        match read_varint(bytes, pos, VARINT_WIDTH) {
            Some((n, start)) => {
                if n <= (len - start) as u64 {
                    let end: usize = start + (n as usize);
                    Some((Raw::Run(start, end), end))
                } else {
                    None
                }
            },
            None => None,
        }
    } else {
        None
    }
}

/// Whether the number fits 32 bits with a sign.
fn is_i32(n: i64) -> (r: bool)
    ensures
        r == fits_i32(n),
{
    -0x8000_0000 <= n && n <= 0x7fff_ffff
}

/// Reads a number of variable width as a value of `kind`.
fn read_number<'a>(v: u64, kind: &KindRef<'a>) -> (r: Option<Value<'a>>)
    ensures
        forall|bytes: Seq<u8>|
            match #[trigger] scalar_of_raw(bytes, Raw::Varint(v), *kind) {
                Some(view) => r matches Some(value) && value@ == view,
                None => r is None,
            },
{
    match kind {
        KindRef::Int32 => {
            let n: i64 = signed_of(v);
            if is_i32(n) {
                Some(Value::I32(n as i32))
            } else {
                None
            }
        },
        KindRef::Enum(_) => {
            let n: i64 = signed_of(v);
            if is_i32(n) {
                Some(Value::EnumNumber(n as i32))
            } else {
                None
            }
        },
        KindRef::Int64 => Some(Value::I64(signed_of(v))),
        KindRef::Uint32 => if v <= 0xffff_ffff {
            Some(Value::U32(v as u32))
        } else {
            None
        },
        KindRef::Uint64 => Some(Value::U64(v)),
        KindRef::Sint32 => {
            let n: i64 = unzigzag_of(v);
            if is_i32(n) {
                Some(Value::I32(n as i32))
            } else {
                None
            }
        },
        KindRef::Sint64 => Some(Value::I64(unzigzag_of(v))),
        KindRef::Bool => Some(Value::Bool(v != 0)),
        _ => None,
    }
}

/// Reads a value of a kind that is no message from what stands behind its
/// tag.
pub fn read_scalar<'a>(bytes: &[u8], raw: &Raw, kind: &KindRef<'a>) -> (r: Option<Value<'a>>)
    ensures
        match scalar_of_raw(bytes@, *raw, *kind) {
            Some(view) => r matches Some(value) && value@ == view,
            None => r is None,
        },
{
    match raw {
        Raw::Varint(v) => read_number(*v, kind),
        Raw::Fixed64(v) => match kind {
            KindRef::Fixed64 => Some(Value::U64(*v)),
            KindRef::Sfixed64 => Some(Value::I64(signed_of(*v))),
            KindRef::Double => Some(Value::F64(*v)),
            _ => None,
        },
        Raw::Fixed32(v) => match kind {
            KindRef::Fixed32 => Some(Value::U32(*v)),
            KindRef::Sfixed32 => Some(Value::I32(signed32_of(*v))),
            KindRef::Float => Some(Value::F32(*v)),
            _ => None,
        },
        Raw::Run(start, end) => {
            if *start <= *end && *end <= bytes.len() {
                match kind {
                    KindRef::String => match text_of_utf8(
                        slice_to_vec(slice_subrange(bytes, *start, *end)),
                    ) {
                        Some(s) => Some(Value::String(s)),
                        None => None,
                    },
                    KindRef::Bytes => Some(
                        Value::Bytes(slice_to_vec(slice_subrange(bytes, *start, *end))),
                    ),
                    _ => None,
                }
            } else {
                None
            }
        },
    }
}

/// Reads the numbers of `kind` that stand one directly behind the other, and
/// adds them behind `items`.
fn read_packed<'a>(bytes: &[u8], kind: &KindRef<'a>, items: Vec<Value<'a>>) -> (r: Option<
    Vec<Value<'a>>,
>)
    ensures
        match packed_of_wire(bytes@, 0, *kind, crate::value::value_views(items@)) {
            Some(views) => r matches Some(all) && crate::value::value_views(all@) == views,
            None => r is None,
        },
{
    let mut out = items;
    let mut pos: usize = 0;
    let wt: u64 = crate::wire::encode::wire_type(kind);
    while pos < bytes.len()
        invariant
            pos <= bytes@.len(),
            wt == wire_type_of(*kind),
            packed_of_wire(bytes@, pos as int, *kind, crate::value::value_views(out@))
                == packed_of_wire(bytes@, 0, *kind, crate::value::value_views(items@)),
        decreases bytes@.len() - pos,
    {
        match read_raw(bytes, pos, wt) {
            Some((raw, next)) => match read_scalar(bytes, &raw, kind) {
                Some(value) => {
                    let ghost before = crate::value::value_views(out@);
                    out.push(value);
                    assert(crate::value::value_views(out@) =~= before.push(value@));
                    pos = next;
                },
                None => {
                    return None;
                },
            },
            None => {
                return None;
            },
        }
    }
    Some(out)
}

/// The map key that a value stands for in the entry of a map.
fn value_key<'a>(value: Value<'a>) -> (r: Option<MapKey>)
    ensures
        match key_of_value(value@) {
            Some(view) => r matches Some(key) && key@ == view,
            None => r is None,
        },
{
    match value {
        Value::Bool(b) => Some(MapKey::Bool(b)),
        Value::I32(n) => Some(MapKey::I32(n)),
        Value::I64(n) => Some(MapKey::I64(n)),
        Value::U32(n) => Some(MapKey::U32(n)),
        Value::U64(n) => Some(MapKey::U64(n)),
        Value::String(s) => Some(MapKey::String(s)),
        _ => None,
    }
}

/// The value of the field as the store has it: the decoded value that it
/// holds, or the field's default.
fn held<'a, D: FieldDescriptorLike<'a>>(fields: &DynamicMessageFieldSet<'a>, desc: D) -> (r: Value<'a>)
    ensures
        r@ == get_spec(fields@, desc),
{
    match fields.get_value(desc.number()) {
        Some(value) => value.clone(),
        None => desc.default_value(),
    }
}

/// Reads a single value of `kind` from what stands behind a tag at `pos`.
fn read_single<'a>(bytes: &[u8], pos: usize, raw: &Raw, kind: &KindRef<'a>) -> (r: Option<Value<'a>>)
    ensures
        match single_of_raw(bytes@, pos as int, *raw, *kind) {
            Some(view) => r matches Some(value) && value@ == view,
            None => r is None,
        },
    decreases bytes@.len() - pos, 0nat,
{
    match kind {
        KindRef::Message(m) => match raw {
            Raw::Run(start, end) => {
                if pos < *start && *start <= *end && *end <= bytes.len() {
                    match decode_fields(slice_subrange(bytes, *start, *end), *m) {
                        Some(message) => Some(Value::Message(message)),
                        None => None,
                    }
                } else {
                    None
                }
            },
            _ => None,
        },
        _ => read_scalar(bytes, raw, kind),
    }
}

/// Reads the entry of a map from the run that holds it, and adds it behind
/// `entries`.
fn read_entry<'a>(
    bytes: &[u8],
    pos: usize,
    raw: &Raw,
    entry: MessageDescriptorRef<'a>,
    entries: Vec<MapEntry<'a>>,
) -> (r: Option<Value<'a>>)
    ensures
        match value_of_raw(
            bytes@,
            pos as int,
            *raw,
            KindRef::Message(entry),
            false,
            true,
            ValueView::Entries(crate::value::entry_views(entries@)),
        ) {
            Some(view) => r matches Some(value) && value@ == view,
            None => r is None,
        },
    decreases bytes@.len() - pos, 0nat,
{
    broadcast use {FieldDescriptorRef::lemma_at, FieldDescriptorRef::lemma_at_parts};

    match raw {
        Raw::Run(start, end) => {
            if pos < *start && *start <= *end && *end <= bytes.len() {
                let message = match decode_fields(slice_subrange(bytes, *start, *end), entry) {
                    Some(message) => message,
                    None => {
                        return None;
                    },
                };
                assert(message@.fields == message.fields@);
                let key_field = match entry.get_field(1) {
                    Some(field) => field,
                    None => {
                        return None;
                    },
                };
                let value_field = match entry.get_field(2) {
                    Some(field) => field,
                    None => {
                        return None;
                    },
                };
                let key = match value_key(held(&message.fields, key_field)) {
                    Some(key) => key,
                    None => {
                        return None;
                    },
                };
                let value = held(&message.fields, value_field);
                let mut all = entries;
                let ghost before = crate::value::entry_views(all@);
                all.push(MapEntry { key, value });
                assert(crate::value::entry_views(all@) =~= before.push((key@, value@)));
                let out = Value::Entries(all);
                proof {
                    lemma_views(out);
                }
                Some(out)
            } else {
                None
            }
        },
        _ => None,
    }
}

/// What a list or a map holds is what its items or entries hold, in order.
proof fn lemma_views<'a>(v: Value<'a>)
    ensures
        v matches Value::List(items) ==> v@ == ValueView::List(crate::value::value_views(items@)),
        v matches Value::Entries(entries) ==> v@ == ValueView::Entries(
            crate::value::entry_views(entries@),
        ),
{
    match v {
        Value::List(items) => {
            assert(v@->List_0 =~= crate::value::value_views(items@));
        },
        Value::Entries(entries) => {
            assert(v@->Entries_0 =~= crate::value::entry_views(entries@));
        },
        _ => {},
    }
}

/// Reads the value behind a tag at `pos` into a list that held `items`.
fn read_item<'a>(bytes: &[u8], pos: usize, raw: &Raw, kind: &KindRef<'a>, items: Vec<Value<'a>>) -> (r:
    Option<Value<'a>>)
    ensures
        forall|is_map: bool|
            match #[trigger] value_of_raw(
                bytes@,
                pos as int,
                *raw,
                *kind,
                true,
                is_map,
                ValueView::List(crate::value::value_views(items@)),
            ) {
                Some(view) => r matches Some(value) && value@ == view,
                None => r is None,
            },
    decreases bytes@.len() - pos, 1nat,
{
    match raw {
        Raw::Run(start, end) if crate::wire::encode::is_packable(kind) => {
            if *start <= *end && *end <= bytes.len() {
                match read_packed(slice_subrange(bytes, *start, *end), kind, items) {
                    Some(all) => {
                        let out = Value::List(all);
                        proof {
                            lemma_views(out);
                        }
                        Some(out)
                    },
                    None => None,
                }
            } else {
                None
            }
        },
        _ => match read_single(bytes, pos, raw, kind) {
            Some(value) => {
                let mut all = items;
                let ghost before = crate::value::value_views(all@);
                all.push(value);
                assert(crate::value::value_views(all@) =~= before.push(value@));
                let out = Value::List(all);
                proof {
                    lemma_views(out);
                }
                Some(out)
            },
            None => None,
        },
    }
}

/// Reads the value behind a tag at `pos` into what the field held before.
fn read_value<'a>(
    bytes: &[u8],
    pos: usize,
    raw: &Raw,
    kind: &KindRef<'a>,
    is_list: bool,
    is_map: bool,
    current: Value<'a>,
) -> (r: Option<Value<'a>>)
    ensures
        match value_of_raw(bytes@, pos as int, *raw, *kind, is_list, is_map, current@) {
            Some(view) => r matches Some(value) && value@ == view,
            None => r is None,
        },
    decreases bytes@.len() - pos, 2nat,
{
    proof {
        lemma_views(current);
    }
    if is_list {
        match current {
            Value::List(items) => read_item(bytes, pos, raw, kind, items),
            _ => None,
        }
    } else if is_map {
        match (current, kind) {
            (Value::Entries(entries), KindRef::Message(entry)) => read_entry(
                bytes,
                pos,
                raw,
                *entry,
                entries,
            ),
            _ => None,
        }
    } else {
        read_single(bytes, pos, raw, kind)
    }
}

/// Writes the value to the field, where there is a value and the field may
/// hold it.
fn store<'a, D: FieldDescriptorLike<'a>>(
    fields: &mut DynamicMessageFieldSet<'a>,
    desc: D,
    value: Option<Value<'a>>,
) -> (ok: bool)
    ensures
        match stored(
            old(fields)@,
            desc,
            match value {
                Some(v) => Some(v@),
                None => None,
            },
        ) {
            Some(after) => ok && final(fields)@ == after,
            None => !ok,
        },
{
    match value {
        Some(v) => {
            if desc.is_valid(&v) {
                fields.set(desc, v);
                true
            } else {
                false
            }
        },
        None => false,
    }
}

/// Reads the field behind the tag at `pos`, which ends at `next`, into the
/// store.
fn decode_field<'a>(
    bytes: &[u8],
    pos: usize,
    next: usize,
    raw: &Raw,
    number: u32,
    desc: MessageDescriptorRef<'a>,
    fields: &mut DynamicMessageFieldSet<'a>,
) -> (ok: bool)
    requires
        pos <= next <= bytes@.len(),
    ensures
        match field_of_wire(bytes@, pos as int, next as int, *raw, number, desc, old(fields)@) {
            Some(after) => ok && final(fields)@ == after,
            None => !ok,
        },
    decreases bytes@.len() - pos, 3nat,
{
    broadcast use {
        FieldDescriptorRef::lemma_at,
        FieldDescriptorRef::lemma_at_parts,
        ExtensionDescriptorRef::lemma_at,
        ExtensionDescriptorRef::lemma_at_parts,
    };

    if let Some(field) = desc.get_field(number) {
        if field.is_group() {
            false
        } else {
            let current = held(fields, field);
            let value = read_value(
                bytes,
                pos,
                raw,
                &field.kind(),
                field.is_list(),
                field.is_map(),
                current,
            );
            store(fields, field, value)
        }
    } else if let Some(extension) = desc.get_extension(number) {
        if extension.is_group() {
            false
        } else {
            let current = held(fields, extension);
            let value = read_value(
                bytes,
                pos,
                raw,
                &extension.kind(),
                extension.is_list(),
                extension.is_map(),
                current,
            );
            store(fields, extension, value)
        }
    } else if fields.get_value(number).is_some() {
        false
    } else {
        fields.add_unknown(number, UnknownField::new(slice_to_vec(slice_subrange(bytes, pos, next))));
        true
    }
}

/// Reads the fields of a message of type `desc` from its binary form.
pub fn decode_fields<'a>(bytes: &[u8], desc: MessageDescriptorRef<'a>) -> (r: Option<
    DynamicMessage<'a>,
>)
    ensures
        match message_of_wire(bytes@, desc) {
            Some(view) => r matches Some(message) && message@ == view,
            None => r is None,
        },
    decreases bytes@.len(), 4nat,
{
    let mut message = DynamicMessage::new(desc);
    let mut pos: usize = 0;
    while pos < bytes.len()
        invariant
            pos <= bytes@.len(),
            message.desc == desc,
            fields_of_wire(bytes@, pos as int, desc, message.fields@) == fields_of_wire(
                bytes@,
                0,
                desc,
                Map::empty(),
            ),
        decreases bytes@.len() - pos,
    {
        let (tag, at) = match read_varint(bytes, pos, VARINT_WIDTH) {
            Some(read) => read,
            None => {
                return None;
            },
        };
        if tag / 8 == 0 || tag / 8 > 0xffff_ffff {
            return None;
        }
        let (raw, next) = match read_raw(bytes, at, tag % 8) {
            Some(read) => read,
            None => {
                return None;
            },
        };
        if !decode_field(bytes, pos, next, &raw, (tag / 8) as u32, desc, &mut message.fields) {
            return None;
        }
        pos = next;
    }
    assert(message@ == (MessageView { desc, fields: message.fields@ }));
    Some(message)
}

} // verus!
