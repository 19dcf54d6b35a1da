//! The binary form of a message, as far as the payload of an
//! `google.protobuf.Any` needs it: numbers of variable and of fixed width,
//! runs of bytes with their length in front, and the fields of a message one
//! behind the other, each behind its tag.

use vstd::prelude::*;
use vstd::utf8::*;

pub mod decode;
pub mod encode;
pub mod laws;
pub mod round_trip;

verus! {

/// The wire type of a number of variable width.
pub const WIRE_VARINT: u64 = 0;

/// The wire type of a number held in eight bytes.
pub const WIRE_FIXED64: u64 = 1;

/// The wire type of a run of bytes with its length in front.
pub const WIRE_RUN: u64 = 2;

/// The wire type of a number held in four bytes.
pub const WIRE_FIXED32: u64 = 5;

/// The most bytes that a number of variable width takes.
pub const VARINT_WIDTH: u8 = 10;

/// `v` in variable width: seven bits to a byte, the low bits first, and the
/// top bit of every byte but the last set.
pub open spec fn varint_bytes(v: u64) -> Seq<u8>
    decreases v,
{
    if v < 128 {
        seq![v as u8]
    } else {
        seq![((v % 128) + 128) as u8] + varint_bytes(v / 128)
    }
}

/// The number of variable width that starts at `pos`, read from at most
/// `left` bytes, with the position behind it; `None` where the bytes end
/// early, the number takes more bytes, or it does not fit 64 bits.
pub open spec fn varint_at(bytes: Seq<u8>, pos: int, left: nat) -> Option<(u64, int)>
    decreases left,
{
    if left == 0 || pos < 0 || pos >= bytes.len() {
        None
    } else if bytes[pos] < 128 {
        Some((bytes[pos] as u64, pos + 1))
    } else {
        match varint_at(bytes, pos + 1, (left - 1) as nat) {
            Some((rest, next)) => if rest <= 0x01ff_ffff_ffff_ffff {
                Some(((rest * 128 + (bytes[pos] - 128)) as u64, next))
            } else {
                None
            },
            None => None,
        }
    }
}

/// `v` in four bytes, the low byte first.
pub open spec fn fixed32_bytes(v: u32) -> Seq<u8> {
    seq![
        (v % 256) as u8,
        (v / 256 % 256) as u8,
        (v / 65536 % 256) as u8,
        (v / 16777216) as u8,
    ]
}

/// `v` in eight bytes, the low byte first.
pub open spec fn fixed64_bytes(v: u64) -> Seq<u8> {
    fixed32_bytes((v % 0x1_0000_0000) as u32) + fixed32_bytes((v / 0x1_0000_0000) as u32)
}

/// The number that the four bytes from `pos` on hold, the low byte first.
pub open spec fn fixed32_at(bytes: Seq<u8>, pos: int) -> u32 {
    (bytes[pos] + 256 * bytes[pos + 1] + 65536 * bytes[pos + 2] + 16777216 * bytes[pos + 3]) as u32
}

/// The number that the eight bytes from `pos` on hold, the low byte first.
pub open spec fn fixed64_at(bytes: Seq<u8>, pos: int) -> u64 {
    (fixed32_at(bytes, pos) + 0x1_0000_0000 * fixed32_at(bytes, pos + 4)) as u64
}

/// The signed number that has the bits of `v`.
pub open spec fn as_signed(v: u64) -> i64 {
    if v < 0x8000_0000_0000_0000 {
        v as i64
    } else {
        (v - 0x1_0000_0000_0000_0000) as i64
    }
}

/// The unsigned number that has the bits of `n`.
pub open spec fn as_unsigned(n: i64) -> u64 {
    if n >= 0 {
        n as u64
    } else {
        (n + 0x1_0000_0000_0000_0000) as u64
    }
}

/// The signed number that has the bits of `v`.
pub open spec fn as_signed32(v: u32) -> i32 {
    if v < 0x8000_0000 {
        v as i32
    } else {
        (v - 0x1_0000_0000) as i32
    }
}

/// The unsigned number that has the bits of `n`.
pub open spec fn as_unsigned32(n: i32) -> u32 {
    if n >= 0 {
        n as u32
    } else {
        (n + 0x1_0000_0000) as u32
    }
}

/// The number that stands for `n` where small magnitudes are to take few
/// bytes: `0, -1, 1, -2, ..` become `0, 1, 2, 3, ..`.
pub open spec fn zigzag(n: i64) -> u64 {
    if n >= 0 {
        (2 * n) as u64
    } else {
        (-2 * n - 1) as u64
    }
}

/// The number that `v` stands for: the inverse of [`zigzag`].
pub open spec fn unzigzag(v: u64) -> i64 {
    if v % 2 == 0 {
        (v / 2) as i64
    } else {
        (-(v / 2) - 1) as i64
    }
}

/// The tag in front of a field: its number and its wire type, of variable
/// width.
pub open spec fn tag_bytes(number: u32, wire_type: u64) -> Seq<u8> {
    varint_bytes((number * 8 + wire_type) as u64)
}

/// `String::from_utf8`: the text that the bytes encode in UTF-8, or `None`
/// where they are no valid UTF-8.
#[verifier::external_body]
pub(crate) fn text_of_utf8(bytes: Vec<u8>) -> (r: Option<String>)
    ensures
        r is Some <==> valid_utf8(bytes@),
        r matches Some(s) ==> s@ == decode_utf8(bytes@),
{
    String::from_utf8(bytes).ok()
}

/// Zigzag and back gives the number again.
pub proof fn law_zigzag_reads_back(n: i64)
    ensures
        unzigzag(zigzag(n)) == n,
{
}

/// The bits of a signed number, read as signed again, give the number.
pub proof fn law_signed_reads_back(n: i64, m: i32)
    ensures
        as_signed(as_unsigned(n)) == n,
        as_signed32(as_unsigned32(m)) == m,
{
}

/// The bytes of a number of variable width are at most ten, and the number
/// is read back from them, whatever stands before and behind them.
pub proof fn law_varint_reads_back(v: u64, before: Seq<u8>, behind: Seq<u8>, left: nat)
    requires
        left >= VARINT_WIDTH,
    ensures
        varint_at(before + varint_bytes(v) + behind, before.len() as int, left) == Some(
            (v, (before.len() + varint_bytes(v).len()) as int),
        ),
{
    lemma_varint_reads_back(v, before, behind, left, 0xffff_ffff_ffff_ffff, VARINT_WIDTH as nat);
}

/// A number below `bound`, which takes at most `width` bytes, is read back
/// from those bytes.
proof fn lemma_varint_reads_back(
    v: u64,
    before: Seq<u8>,
    behind: Seq<u8>,
    left: nat,
    bound: int,
    width: nat,
)
    requires
        left >= width >= 1,
        v <= bound,
        width == 10 ==> bound == 0xffff_ffff_ffff_ffff,
        width == 9 ==> bound == 0x01ff_ffff_ffff_ffff,
        width == 8 ==> bound == 0x0003_ffff_ffff_ffff,
        width == 7 ==> bound == 0x0000_07ff_ffff_ffff,
        width == 6 ==> bound == 0x0000_000f_ffff_ffff,
        width == 5 ==> bound == 0x0000_0000_1fff_ffff,
        width == 4 ==> bound == 0x0000_0000_003f_ffff,
        width == 3 ==> bound == 0x0000_0000_0000_7fff,
        width == 2 ==> bound == 0x0000_0000_0000_00ff,
        width == 1 ==> bound == 0x0000_0000_0000_0001,
        width <= 10,
    ensures
        varint_bytes(v).len() <= width,
        varint_at(before + varint_bytes(v) + behind, before.len() as int, left) == Some(
            (v, (before.len() + varint_bytes(v).len()) as int),
        ),
    decreases width,
{
    let all = before + varint_bytes(v) + behind;
    let pos = before.len() as int;
    assert(all[pos] == varint_bytes(v)[0]);
    if v >= 128 {
        let first = seq![((v % 128) + 128) as u8];
        let next = before + first;
        assert(before + varint_bytes(v) + behind =~= next + varint_bytes(v / 128) + behind);
        lemma_varint_reads_back(
            v / 128,
            next,
            behind,
            (left - 1) as nat,
            bound / 128,
            (width - 1) as nat,
        );
    }
}

/// A number held in four bytes is read back from them.
pub proof fn law_fixed32_reads_back(v: u32)
    ensures
        fixed32_at(fixed32_bytes(v), 0) == v,
{
    let a = v / 256;
    let b = a / 256;
    let c = b / 256;
    assert(v == 256 * a + v % 256);
    assert(a == 256 * b + a % 256);
    assert(b == 256 * c + b % 256);
    assert(v / 65536 == b);
    assert(v / 16777216 == c);
    assert(c < 256);
}

/// A number held in eight bytes is read back from them.
pub proof fn law_fixed64_reads_back(w: u64)
    ensures
        fixed64_at(fixed64_bytes(w), 0) == w,
{
    let low = (w % 0x1_0000_0000) as u32;
    let high = (w / 0x1_0000_0000) as u32;
    let bytes = fixed64_bytes(w);
    law_fixed32_reads_back(low);
    law_fixed32_reads_back(high);
    assert(fixed32_at(bytes, 0) == fixed32_at(fixed32_bytes(low), 0));
    assert(fixed32_at(bytes, 4) == fixed32_at(fixed32_bytes(high), 0));
}

/// Appends `bytes` to `out`.
pub fn push_all(out: &mut Vec<u8>, bytes: &[u8])
    ensures
        final(out)@ == old(out)@ + bytes@,
{
    let mut i: usize = 0;
    while i < bytes.len()
        invariant
            i <= bytes@.len(),
            out@ == old(out)@ + bytes@.subrange(0, i as int),
        decreases bytes@.len() - i,
    {
        out.push(bytes[i]);
        i += 1;
        assert(out@ =~= old(out)@ + bytes@.subrange(0, i as int));
    }
    assert(bytes@.subrange(0, i as int) =~= bytes@);
}

/// Appends `v` in variable width.
pub fn push_varint(out: &mut Vec<u8>, v: u64)
    ensures
        final(out)@ == old(out)@ + varint_bytes(v),
    decreases v,
{
    if v < 128 {
        out.push(v as u8);
        assert(out@ =~= old(out)@ + varint_bytes(v));
    } else {
        out.push(((v % 128) + 128) as u8);
        push_varint(out, v / 128);
        assert(out@ =~= old(out)@ + varint_bytes(v));
    }
}

/// Reads the number of variable width that starts at `pos`.
pub fn read_varint(bytes: &[u8], pos: usize, left: u8) -> (r: Option<(u64, usize)>)
    ensures
        match r {
            Some((v, next)) => varint_at(bytes@, pos as int, left as nat) == Some((v, next as int))
                && pos < next <= bytes@.len(),
            None => varint_at(bytes@, pos as int, left as nat) is None,
        },
    decreases left,
{
    if left == 0 || pos >= bytes.len() {
        return None;
    }
    let b: u8 = bytes[pos];
    if b < 128 {
        Some((b as u64, pos + 1))
    } else {
        match read_varint(bytes, pos + 1, left - 1) {
            Some((rest, next)) => {
                if rest <= 0x01ff_ffff_ffff_ffff {
                    Some((rest * 128 + ((b - 128) as u64), next))
                } else {
                    None
                }
            },
            None => None,
        }
    }
}

/// Appends `v` in four bytes.
pub fn push_fixed32(out: &mut Vec<u8>, v: u32)
    ensures
        final(out)@ == old(out)@ + fixed32_bytes(v),
{
    out.push((v % 256) as u8);
    out.push((v / 256 % 256) as u8);
    out.push((v / 65536 % 256) as u8);
    out.push((v / 16777216) as u8);
    assert(out@ =~= old(out)@ + fixed32_bytes(v));
}

/// Appends `v` in eight bytes.
pub fn push_fixed64(out: &mut Vec<u8>, v: u64)
    ensures
        final(out)@ == old(out)@ + fixed64_bytes(v),
{
    push_fixed32(out, (v % 0x1_0000_0000) as u32);
    push_fixed32(out, (v / 0x1_0000_0000) as u32);
    assert(out@ =~= old(out)@ + fixed64_bytes(v));
}

/// Reads the number held in the four bytes from `pos` on.
pub fn read_fixed32(bytes: &[u8], pos: usize) -> (r: u32)
    requires
        pos + 4 <= bytes@.len(),
    ensures
        r == fixed32_at(bytes@, pos as int),
{
    let b0: u32 = bytes[pos] as u32;
    let b1: u32 = bytes[pos + 1] as u32;
    let b2: u32 = bytes[pos + 2] as u32;
    let b3: u32 = bytes[pos + 3] as u32;
    b0 + 256 * b1 + 65536 * b2 + 16777216 * b3
}

/// Reads the number held in the eight bytes from `pos` on.
pub fn read_fixed64(bytes: &[u8], pos: usize) -> (r: u64)
    requires
        pos + 8 <= bytes@.len(),
    ensures
        r == fixed64_at(bytes@, pos as int),
{
    let len: usize = bytes.len();
    let low: u64 = read_fixed32(bytes, pos) as u64;
    let high: u64 = read_fixed32(bytes, pos + 4) as u64;
    low + 0x1_0000_0000 * high
}

/// The signed number that has the bits of `v`.
pub fn signed_of(v: u64) -> (r: i64)
    ensures
        r == as_signed(v),
{
    if v < 0x8000_0000_0000_0000 {
        v as i64
    } else {
        ((v - 0x8000_0000_0000_0000) as i64) + i64::MIN
    }
}

/// The unsigned number that has the bits of `n`.
pub fn unsigned_of(n: i64) -> (r: u64)
    ensures
        r == as_unsigned(n),
{
    if n >= 0 {
        n as u64
    } else {
        ((n - i64::MIN) as u64) + 0x8000_0000_0000_0000
    }
}

/// The signed number that has the bits of `v`.
pub fn signed32_of(v: u32) -> (r: i32)
    ensures
        r == as_signed32(v),
{
    if v < 0x8000_0000 {
        v as i32
    } else {
        ((v - 0x8000_0000) as i32) + i32::MIN
    }
}

/// The unsigned number that has the bits of `n`.
pub fn unsigned32_of(n: i32) -> (r: u32)
    ensures
        r == as_unsigned32(n),
{
    if n >= 0 {
        n as u32
    } else {
        ((n - i32::MIN) as u32) + 0x8000_0000
    }
}

/// The number that stands for `n` in zigzag.
pub fn zigzag_of(n: i64) -> (r: u64)
    ensures
        r == zigzag(n),
{
    if n >= 0 {
        (n as u64) * 2
    } else {
        ((-(n + 1)) as u64) * 2 + 1
    }
}

/// The number that `v` stands for in zigzag.
pub fn unzigzag_of(v: u64) -> (r: i64)
    ensures
        r == unzigzag(v),
{
    if v % 2 == 0 {
        (v / 2) as i64
    } else {
        -((v / 2) as i64) - 1
    }
}

/// Appends the tag of a field.
pub fn push_tag(out: &mut Vec<u8>, number: u32, wire_type: u64)
    requires
        wire_type < 8,
    ensures
        final(out)@ == old(out)@ + tag_bytes(number, wire_type),
{
    push_varint(out, (number as u64) * 8 + wire_type);
}

} // verus!
