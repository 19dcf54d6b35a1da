//! What is read back from what was written.

use vstd::prelude::*;
use crate::descriptor::KindRef;
use crate::json::codec::{base64_bytes, base64_text};
use crate::json::de::{enum_of_json, scalar_of_json, DeserializeError};
use crate::json::ser::{
    double_is_infinite, double_is_nan, json_of_scalar, single_is_infinite, single_is_nan,
};
use crate::json::text::{decimal, digit_value, digits_value, integer_value, signed_decimal};
use crate::json::SerializeOptions;
use crate::value::{valid_for_kind, ValueView};

verus! {

/// The decimal text of a number consists of digits and stands for the
/// number.
pub proof fn law_decimal_reads_back(n: nat)
    ensures
        decimal(n).len() > 0,
        forall|i: int| 0 <= i < decimal(n).len() ==> digit_value(#[trigger] decimal(n)[i]) is Some,
        digits_value(decimal(n)) == Some(n),
    decreases n,
{
    if n >= 10 {
        law_decimal_reads_back(n / 10);
        let s = decimal(n);
        assert(s.drop_last() =~= decimal(n / 10));
    }
}

/// The decimal text of an integer stands for the integer.
pub proof fn law_signed_decimal_reads_back(n: int)
    ensures
        integer_value(signed_decimal(n)) == Some(n),
{
    if n < 0 {
        law_decimal_reads_back((-n) as nat);
        let s = signed_decimal(n);
        assert(s.subrange(1, s.len() as int) =~= decimal((-n) as nat));
    } else {
        law_decimal_reads_back(n as nat);
        assert(digit_value(decimal(n as nat)[0]) is Some);
    }
}

/// The value is one that the JSON mapping keeps: a floating-point value that
/// is a number, an infinity or the one not-a-number that the mapping reads;
/// an enum value that is written as its number, or under a name that names
/// it, and as `null` only where it is zero; bytes whose base64 text stands
/// for them.
pub open spec fn kept_by_mapping<'a>(
    v: ValueView<'a>,
    kind: KindRef<'a>,
    options: SerializeOptions,
) -> bool {
    match (v, kind) {
        (ValueView::F32(bits), _) => !single_is_nan(bits) || bits == 0x7fc0_0000u32,
        (ValueView::F64(bits), _) => !double_is_nan(bits) || bits == 0x7ff8_0000_0000_0000u64,
        (ValueView::Bytes(b), _) => base64_bytes(base64_text(b)) == Some(b),
        (ValueView::EnumNumber(n), KindRef::Enum(e)) => if e.data().full_name@
            == "google.protobuf.NullValue"@ {
            n == 0
        } else if options.uses_enum_numbers() {
            true
        } else {
            e.value_index(n) matches Some(i) ==> (e.name_index(e.data().values@[i].name@) matches Some(
                k,
            ) && e.data().values@[k].number == n)
        },
        _ => true,
    }
}

/// A 32-bit integer that was written is read back.
proof fn lemma_narrow_integer_reads_back<'a>(v: ValueView<'a>, kind: KindRef<'a>, options: SerializeOptions)
    requires
        v is I32 || v is U32,
        valid_for_kind(v, kind),
    ensures
        json_of_scalar(v, kind, options) matches Ok(j) && scalar_of_json(j, kind) == Ok::<
            ValueView<'a>,
            DeserializeError,
        >(v),
{
    reveal(scalar_of_json);
}

/// A 64-bit integer that was written, as a number or as text, is read back.
proof fn lemma_wide_integer_reads_back<'a>(v: ValueView<'a>, kind: KindRef<'a>, options: SerializeOptions)
    requires
        v is I64 || v is U64,
        valid_for_kind(v, kind),
    ensures
        json_of_scalar(v, kind, options) matches Ok(j) && scalar_of_json(j, kind) == Ok::<
            ValueView<'a>,
            DeserializeError,
        >(v),
{
    reveal(scalar_of_json);
    match v {
        ValueView::I64(n) => {
            law_signed_decimal_reads_back(n as int);
        },
        ValueView::U64(n) => {
            law_decimal_reads_back(n as nat);
            assert(digit_value(decimal(n as nat)[0]) is Some);
        },
        _ => {},
    }
}

/// A floating-point value that was written is read back.
proof fn lemma_float_reads_back<'a>(v: ValueView<'a>, kind: KindRef<'a>, options: SerializeOptions)
    requires
        v is F32 || v is F64,
        valid_for_kind(v, kind),
        kept_by_mapping(v, kind, options),
    ensures
        json_of_scalar(v, kind, options) matches Ok(j) && scalar_of_json(j, kind) == Ok::<
            ValueView<'a>,
            DeserializeError,
        >(v),
{
    reveal(scalar_of_json);
    reveal_strlit("NaN");
    reveal_strlit("Infinity");
    reveal_strlit("-Infinity");
    match v {
        ValueView::F32(bits) => {
            assert(single_is_infinite(bits) && bits >> 31 == 0 ==> bits == 0x7f80_0000u32)
                by (bit_vector);
            assert(single_is_infinite(bits) && bits >> 31 != 0 ==> bits == 0xff80_0000u32)
                by (bit_vector);
        },
        ValueView::F64(bits) => {
            assert(double_is_infinite(bits) && bits >> 63 == 0 ==> bits == 0x7ff0_0000_0000_0000u64)
                by (bit_vector);
            assert(double_is_infinite(bits) && bits >> 63 != 0 ==> bits == 0xfff0_0000_0000_0000u64)
                by (bit_vector);
        },
        _ => {},
    }
}

/// An enum value that was written is read back.
proof fn lemma_enum_reads_back<'a>(v: ValueView<'a>, kind: KindRef<'a>, options: SerializeOptions)
    requires
        v is EnumNumber,
        valid_for_kind(v, kind),
        kept_by_mapping(v, kind, options),
    ensures
        json_of_scalar(v, kind, options) matches Ok(j) ==> scalar_of_json(j, kind) == Ok::<
            ValueView<'a>,
            DeserializeError,
        >(v),
{
    reveal(scalar_of_json);
    reveal(enum_of_json);
}

/// A boolean, a string or a byte string that was written is read back.
proof fn lemma_plain_reads_back<'a>(v: ValueView<'a>, kind: KindRef<'a>, options: SerializeOptions)
    requires
        v is Bool || v is String || v is Bytes,
        valid_for_kind(v, kind),
        kept_by_mapping(v, kind, options),
    ensures
        json_of_scalar(v, kind, options) matches Ok(j) && scalar_of_json(j, kind) == Ok::<
            ValueView<'a>,
            DeserializeError,
        >(v),
{
    reveal(scalar_of_json);
}

/// A single value of a kind other than message that was written as JSON is
/// read back as it was, whatever the options under which it was written.
pub proof fn law_scalar_reads_back<'a>(
    v: ValueView<'a>,
    kind: KindRef<'a>,
    options: SerializeOptions,
)
    requires
        !(kind is Message),
        valid_for_kind(v, kind),
        kept_by_mapping(v, kind, options),
    ensures
        json_of_scalar(v, kind, options) matches Ok(j) ==> scalar_of_json(j, kind) == Ok::<
            ValueView<'a>,
            DeserializeError,
        >(v),
{
    match v {
        ValueView::I32(_) | ValueView::U32(_) => lemma_narrow_integer_reads_back(v, kind, options),
        ValueView::I64(_) | ValueView::U64(_) => lemma_wide_integer_reads_back(v, kind, options),
        ValueView::F32(_) | ValueView::F64(_) => lemma_float_reads_back(v, kind, options),
        ValueView::EnumNumber(_) => lemma_enum_reads_back(v, kind, options),
        ValueView::Bool(_) | ValueView::String(_) | ValueView::Bytes(_) => lemma_plain_reads_back(
            v,
            kind,
            options,
        ),
        _ => {},
    }
}

} // verus!
