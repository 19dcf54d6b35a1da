//! What is written for a value in the binary form is read back as the
//! value.

use crate::descriptor::KindRef;
use crate::value::ValueView;
use crate::wire::decode::{raw_at, scalar_of_raw, Raw};
use crate::wire::encode::{run_bytes, wire_of_scalar, wire_type_of};
use crate::wire::{
    fixed32_at, fixed32_bytes, fixed64_at, fixed64_bytes, law_fixed32_reads_back,
    law_fixed64_reads_back, law_varint_reads_back, varint_bytes, VARINT_WIDTH,
};
use vstd::prelude::*;
use vstd::utf8::*;

verus! {

/// A number of variable width is read back from its bytes as what stands
/// behind a tag.
proof fn lemma_varint_raw(x: u64, before: Seq<u8>, behind: Seq<u8>)
    ensures
        raw_at(before + varint_bytes(x) + behind, before.len() as int, 0) == Some(
            (Raw::Varint(x), (before.len() + varint_bytes(x).len()) as int),
        ),
{
    law_varint_reads_back(x, before, behind, VARINT_WIDTH as nat);
}

/// A number held in eight bytes is read back from them as what stands
/// behind a tag.
proof fn lemma_fixed64_raw(x: u64, before: Seq<u8>, behind: Seq<u8>)
    ensures
        raw_at(before + fixed64_bytes(x) + behind, before.len() as int, 1) == Some(
            (Raw::Fixed64(x), (before.len() + 8) as int),
        ),
{
    let bytes = fixed64_bytes(x);
    let all = before + bytes + behind;
    let pos = before.len() as int;
    law_fixed64_reads_back(x);
    assert(bytes.len() == 8);
    assert forall|i: int| 0 <= i < 8 implies all[pos + i] == bytes[i] by {}
    assert(fixed32_at(all, pos) == fixed32_at(bytes, 0));
    assert(fixed32_at(all, pos + 4) == fixed32_at(bytes, 4));
}

/// A number held in four bytes is read back from them as what stands behind
/// a tag.
proof fn lemma_fixed32_raw(x: u32, before: Seq<u8>, behind: Seq<u8>)
    ensures
        raw_at(before + fixed32_bytes(x) + behind, before.len() as int, 5) == Some(
            (Raw::Fixed32(x), (before.len() + 4) as int),
        ),
{
    let bytes = fixed32_bytes(x);
    let all = before + bytes + behind;
    let pos = before.len() as int;
    law_fixed32_reads_back(x);
    assert(bytes.len() == 4);
    assert forall|i: int| 0 <= i < 4 implies all[pos + i] == bytes[i] by {}
}

/// A run of bytes is read back from its length and its bytes as what stands
/// behind a tag.
pub proof fn lemma_run_raw(payload: Seq<u8>, before: Seq<u8>, behind: Seq<u8>)
    requires
        (before + run_bytes(payload) + behind).len() <= usize::MAX,
    ensures
        raw_at(before + run_bytes(payload) + behind, before.len() as int, 2) matches Some(
            (Raw::Run(start, end), next),
        ) && next == before.len() + run_bytes(payload).len() && end == next && before.len() <= start
            && start <= end && (before + run_bytes(payload) + behind).subrange(
            start as int,
            end as int,
        ) == payload,
{
    let size = payload.len() as u64;
    let head = varint_bytes(size);
    let all = before + run_bytes(payload) + behind;
    assert(all =~= before + head + (payload + behind));
    law_varint_reads_back(size, before, payload + behind, VARINT_WIDTH as nat);
    let start = before.len() + head.len();
    assert(all.subrange(start as int, (start + payload.len()) as int) =~= payload);
}

/// What is read at the end of `before`, behind which stand the bytes of the
/// value and then `behind`, is the value, and the bytes of the value are
/// passed.
pub open spec fn read_back<'a>(v: ValueView<'a>, kind: KindRef<'a>, before: Seq<u8>, behind: Seq<u8>) -> bool {
    let bytes = wire_of_scalar(v, kind)->Some_0;
    raw_at(before + bytes + behind, before.len() as int, wire_type_of(kind)) matches Some(
        (raw, next),
    ) && next == before.len() + bytes.len() && scalar_of_raw(before + bytes + behind, raw, kind)
        == Some(v)
}

/// The signed integers of variable width are read back.
#[verifier::spinoff_prover]
proof fn lemma_signed_read_back<'a>(v: ValueView<'a>, kind: KindRef<'a>, before: Seq<u8>, behind: Seq<u8>)
    requires
        kind is Int32 || kind is Int64 || kind is Enum,
        wire_of_scalar(v, kind) is Some,
        (before + wire_of_scalar(v, kind)->Some_0 + behind).len() <= usize::MAX,
    ensures
        read_back(v, kind, before, behind),
{
    match kind {
        KindRef::Int32 => {
            lemma_varint_raw(crate::wire::as_unsigned(v->I32_0 as i64), before, behind);
        },
        KindRef::Enum(_) => {
            lemma_varint_raw(crate::wire::as_unsigned(v->EnumNumber_0 as i64), before, behind);
        },
        KindRef::Int64 => {
            lemma_varint_raw(crate::wire::as_unsigned(v->I64_0), before, behind);
        },
        _ => {},
    }
}

/// The unsigned integers of variable width and the booleans are read back.
#[verifier::spinoff_prover]
proof fn lemma_unsigned_read_back<'a>(v: ValueView<'a>, kind: KindRef<'a>, before: Seq<u8>, behind: Seq<u8>)
    requires
        kind is Uint32 || kind is Uint64 || kind is Bool,
        wire_of_scalar(v, kind) is Some,
        (before + wire_of_scalar(v, kind)->Some_0 + behind).len() <= usize::MAX,
    ensures
        read_back(v, kind, before, behind),
{
    match kind {
        KindRef::Uint32 => {
            lemma_varint_raw(v->U32_0 as u64, before, behind);
        },
        KindRef::Uint64 => {
            lemma_varint_raw(v->U64_0, before, behind);
        },
        KindRef::Bool => {
            lemma_varint_raw(
                if v->Bool_0 {
                    1
                } else {
                    0
                },
                before,
                behind,
            );
        },
        _ => {},
    }
}

/// The integers that are written in zigzag are read back.
#[verifier::spinoff_prover]
proof fn lemma_zigzag_read_back<'a>(v: ValueView<'a>, kind: KindRef<'a>, before: Seq<u8>, behind: Seq<u8>)
    requires
        kind is Sint32 || kind is Sint64,
        wire_of_scalar(v, kind) is Some,
        (before + wire_of_scalar(v, kind)->Some_0 + behind).len() <= usize::MAX,
    ensures
        read_back(v, kind, before, behind),
{
    match kind {
        KindRef::Sint32 => {
            lemma_varint_raw(crate::wire::zigzag(v->I32_0 as i64), before, behind);
        },
        KindRef::Sint64 => {
            lemma_varint_raw(crate::wire::zigzag(v->I64_0), before, behind);
        },
        _ => {},
    }
}

/// The values that are held in eight bytes are read back.
#[verifier::spinoff_prover]
proof fn lemma_wide_read_back<'a>(v: ValueView<'a>, kind: KindRef<'a>, before: Seq<u8>, behind: Seq<u8>)
    requires
        kind is Fixed64 || kind is Sfixed64 || kind is Double,
        wire_of_scalar(v, kind) is Some,
        (before + wire_of_scalar(v, kind)->Some_0 + behind).len() <= usize::MAX,
    ensures
        read_back(v, kind, before, behind),
{
    match kind {
        KindRef::Fixed64 => {
            lemma_fixed64_raw(v->U64_0, before, behind);
        },
        KindRef::Sfixed64 => {
            lemma_fixed64_raw(crate::wire::as_unsigned(v->I64_0), before, behind);
        },
        KindRef::Double => {
            lemma_fixed64_raw(v->F64_0, before, behind);
        },
        _ => {},
    }
}

/// The values that are held in four bytes are read back.
#[verifier::spinoff_prover]
proof fn lemma_narrow_read_back<'a>(v: ValueView<'a>, kind: KindRef<'a>, before: Seq<u8>, behind: Seq<u8>)
    requires
        kind is Fixed32 || kind is Sfixed32 || kind is Float,
        wire_of_scalar(v, kind) is Some,
        (before + wire_of_scalar(v, kind)->Some_0 + behind).len() <= usize::MAX,
    ensures
        read_back(v, kind, before, behind),
{
    match kind {
        KindRef::Fixed32 => {
            lemma_fixed32_raw(v->U32_0, before, behind);
        },
        KindRef::Sfixed32 => {
            lemma_fixed32_raw(crate::wire::as_unsigned32(v->I32_0), before, behind);
        },
        KindRef::Float => {
            lemma_fixed32_raw(v->F32_0, before, behind);
        },
        _ => {},
    }
}

/// Texts and bytes are read back.
#[verifier::spinoff_prover]
proof fn lemma_runs_read_back<'a>(v: ValueView<'a>, kind: KindRef<'a>, before: Seq<u8>, behind: Seq<u8>)
    requires
        kind is String || kind is Bytes,
        wire_of_scalar(v, kind) is Some,
        (before + wire_of_scalar(v, kind)->Some_0 + behind).len() <= usize::MAX,
    ensures
        read_back(v, kind, before, behind),
{
    broadcast use {encode_utf8_valid_utf8, encode_utf8_decode_utf8};

    match kind {
        KindRef::String => {
            lemma_run_raw(encode_utf8(v->String_0), before, behind);
        },
        KindRef::Bytes => {
            lemma_run_raw(v->Bytes_0, before, behind);
        },
        _ => {},
    }
}

/// The bytes that are written for a value that is no message are read back
/// as the value, whatever stands before and behind them.
pub proof fn law_scalar_bytes_read_back<'a>(
    v: ValueView<'a>,
    kind: KindRef<'a>,
    before: Seq<u8>,
    behind: Seq<u8>,
)
    requires
        wire_of_scalar(v, kind) is Some,
        (before + wire_of_scalar(v, kind)->Some_0 + behind).len() <= usize::MAX,
    ensures
        read_back(v, kind, before, behind),
{
    if kind is Int32 || kind is Int64 || kind is Enum {
        lemma_signed_read_back(v, kind, before, behind);
    } else if kind is Uint32 || kind is Uint64 || kind is Bool {
        lemma_unsigned_read_back(v, kind, before, behind);
    } else if kind is Sint32 || kind is Sint64 {
        lemma_zigzag_read_back(v, kind, before, behind);
    } else if kind is Fixed64 || kind is Sfixed64 || kind is Double {
        lemma_wide_read_back(v, kind, before, behind);
    } else if kind is Fixed32 || kind is Sfixed32 || kind is Float {
        lemma_narrow_read_back(v, kind, before, behind);
    } else if kind is String || kind is Bytes {
        lemma_runs_read_back(v, kind, before, behind);
    }
}

} // verus!
