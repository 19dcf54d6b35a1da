//! The text of a duration is read back as the duration.

use crate::descriptor::FieldDescriptorRef;
use crate::json::de::{duration_of_json, message_of_json, timed_message, DeserializeError};
use crate::json::laws::law_decimal_reads_back;
use crate::json::ser::{json_of_duration, json_of_message, json_of_well_known, SerializeError};
use crate::json::text::{decimal, digit_value, digits_value};
use crate::json::time::{
    duration_of_text, duration_parts, duration_text, fraction, normal_duration, padded, point_of,
    lemma_point_stays, scaled, signs_agree, size_of,
};
use crate::json::value::JsonView;
use crate::json::{
    duration_in_range, well_known_type, DeserializeOptions, Duration, SerializeOptions,
};
use crate::value::{EntryView, MessageView, ValueView};
use vstd::prelude::*;

verus! {

/// Ten to the power of `k`.
pub open spec fn pow10(k: nat) -> nat
    decreases k,
{
    if k == 0 {
        1
    } else {
        10 * pow10((k - 1) as nat)
    }
}

/// Every character of the text is a decimal digit.
pub open spec fn all_digits(s: Seq<char>) -> bool {
    forall|i: int| 0 <= i < s.len() ==> digit_value(#[trigger] s[i]) is Some
}

/// A text that begins with digits has no point among them.
proof fn lemma_no_point(s: Seq<char>, n: nat)
    requires
        n <= s.len(),
        forall|i: int| 0 <= i < n ==> digit_value(#[trigger] s[i]) is Some,
    ensures
        point_of(s, n) is None,
    decreases n,
{
    if n > 0 {
        lemma_no_point(s, (n - 1) as nat);
        assert(digit_value(s[n - 1]) is Some);
    }
}

/// A number below ten to the power of `width`, written in `width` digits, is
/// read back.
proof fn lemma_padded_reads_back(n: nat, width: nat)
    requires
        width >= 1,
        n < pow10(width),
    ensures
        padded(n, width).len() == width,
        all_digits(padded(n, width)),
        digits_value(padded(n, width)) == Some(n),
    decreases width,
{
    let s = padded(n, width);
    let front = padded(n / 10, (width - 1) as nat);
    if width == 1 {
        assert(pow10(1) == 10) by {
            assert(pow10(0) == 1);
        }
        assert(front =~= Seq::<char>::empty());
        assert(s.len() == 1);
    } else {
        lemma_padded_reads_back(n / 10, (width - 1) as nat);
        assert(s.drop_last() =~= front);
    }
}

/// One more zero behind a number that has room for it.
proof fn lemma_scaled_more(f: nat, k: nat)
    requires
        scaled(f, k) matches Some(r) && r <= 99_999_999,
    ensures
        scaled(f, k + 1) == Some(scaled(f, k)->Some_0 * 10),
    decreases k,
{
    if k > 0 {
        lemma_scaled_more(f * 10, (k - 1) as nat);
    } else {
        assert(scaled(f * 10, 0) == Some(f * 10));
    }
}

/// The digits of a fraction are read back as the fraction.
proof fn lemma_fraction_reads_back(n: nat, width: nat)
    requires
        1 <= width <= 9,
        n < pow10(width),
        n <= 999_999_999,
    ensures
        1 <= fraction(n, width).len() <= width,
        all_digits(fraction(n, width)),
        digits_value(fraction(n, width)) matches Some(f) && f <= n && scaled(
            f,
            (width - fraction(n, width).len()) as nat,
        ) == Some(n),
    decreases width,
{
    if width > 1 && n % 10 == 0 {
        lemma_fraction_reads_back(n / 10, (width - 1) as nat);
        let f = digits_value(fraction(n, width))->Some_0;
        lemma_scaled_more(f, (width - 1 - fraction(n, width).len()) as nat);
    } else {
        lemma_padded_reads_back(n, width);
    }
}

/// The text of a duration within the range of the mapping, whose parts do
/// not differ in sign, stands for the duration.
pub proof fn law_duration_text_reads_back(duration: Duration)
    requires
        duration_in_range(duration),
        signs_agree(duration),
    ensures
        duration_of_text(duration_text(duration)) == Some((duration.seconds, duration.nanos)),
{
    let whole = size_of(duration.seconds as int);
    let nanos = size_of(duration.nanos as int);
    let negative = duration.seconds < 0 || duration.nanos < 0;
    let sign = if negative {
        seq!['-']
    } else {
        Seq::<char>::empty()
    };
    let part = if duration.nanos == 0 {
        Seq::<char>::empty()
    } else {
        seq!['.'] + fraction(nanos, 9)
    };
    let digits = decimal(whole);
    let text = duration_text(duration);
    law_decimal_reads_back(whole);
    assert(text == sign + digits + part + seq!['s']);
    assert(text.last() == 's');
    assert(digit_value(digits[0]) is Some);
    assert(text[0] == if negative {
        '-'
    } else {
        digits[0]
    });
    assert((text[0] == '-') == negative);
    let start: int = if negative {
        1
    } else {
        0
    };
    let body = text.subrange(start, text.len() - 1);
    assert(body =~= digits + part);
    assert(duration_parts(negative, whole, nanos) == (duration.seconds, duration.nanos));
    if duration.nanos == 0 {
        assert(body =~= digits);
        lemma_no_point(body, body.len());
    } else {
        assert(pow10(9) == 1_000_000_000) by {
            assert(pow10(0) == 1);
            assert(pow10(1) == 10);
            assert(pow10(2) == 100);
            assert(pow10(3) == 1_000);
            assert(pow10(4) == 10_000);
            assert(pow10(5) == 100_000);
            assert(pow10(6) == 1_000_000);
            assert(pow10(7) == 10_000_000);
            assert(pow10(8) == 100_000_000);
        }
        lemma_fraction_reads_back(nanos, 9);
        let p = digits.len() as int;
        assert forall|i: int| 0 <= i < p implies digit_value(#[trigger] body[i]) is Some by {
            assert(body[i] == digits[i]);
        }
        lemma_no_point(body, p as nat);
        assert(body[p] == '.');
        assert(point_of(body, (p + 1) as nat) == Some(p));
        lemma_point_stays(body, (p + 1) as nat, body.len());
        assert(body.subrange(0, p) =~= digits);
        assert(body.subrange(p + 1, body.len() as int) =~= fraction(nanos, 9));
    }
}

/// The message is a duration that is read back: it holds seconds and
/// nanoseconds of one sign within the range of the mapping, as its type
/// declares them.
pub open spec fn duration_kept<'a>(m: MessageView<'a>) -> bool {
    &&& m.desc.full_name_spec() == "google.protobuf.Duration"@
    &&& m.fields.contains_key(1)
    &&& m.fields.contains_key(2)
    &&& m.fields[1] matches EntryView::Value(ValueView::I64(seconds))
    &&& m.fields[2] matches EntryView::Value(ValueView::I32(nanos))
    &&& duration_in_range(Duration { seconds, nanos })
    &&& signs_agree(Duration { seconds, nanos })
    &&& timed_message(m.desc, seconds, nanos) == Ok::<MessageView<'a>, DeserializeError>(m)
}

/// The name of the duration sets it apart.
proof fn lemma_duration_name(full_name: Seq<char>)
    requires
        full_name == "google.protobuf.Duration"@,
    ensures
        well_known_type(full_name),
{
    reveal_strlit("google.protobuf.Duration");
}

/// A duration that is kept is written as a string, and is read back from it
/// as it was.
#[verifier::spinoff_prover]
pub proof fn law_duration_reads_back<'a>(
    m: MessageView<'a>,
    written: SerializeOptions,
    read: DeserializeOptions,
)
    requires
        duration_kept(m),
    ensures
        json_of_message(m, written) matches Ok(j) && j is String && message_of_json(j, m.desc, read)
            == Ok::<MessageView<'a>, DeserializeError>(m),
{
    let seconds = m.fields[1]->Value_0->I64_0;
    let nanos = m.fields[2]->Value_0->I32_0;
    let duration = Duration { seconds, nanos };
    lemma_duration_name(m.desc.full_name_spec());
    law_duration_text_reads_back(duration);
    assert(normal_duration(duration) == duration);
    let j = JsonView::String(duration_text(duration));
    assert(json_of_message(m, written) == json_of_well_known(m, written));
    assert(json_of_well_known(m, written) == json_of_duration(m));
    assert(json_of_duration(m) == Ok::<JsonView, SerializeError>(j));
    assert(message_of_json(j, m.desc, read) == crate::json::de::well_known_of_json(j, m.desc, read));
    assert(crate::json::de::well_known_of_json(j, m.desc, read) == duration_of_json(j, m.desc));
}

} // verus!
