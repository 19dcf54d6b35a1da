//! The text of durations, and the shape of the text of timestamps.

use vstd::prelude::*;
use vstd::string::{StrSliceExecFns, StringExecFns};
use crate::json::text::{
    decimal, digit_char, digit_of, digit_value, digits_value, magnitude, parse_digits, push_decimal,
    push_digit,
};
use crate::json::{duration_in_range, Duration};

verus! {

/// The decimal text of `n` in `width` digits, with leading zeros.
pub open spec fn padded(n: nat, width: nat) -> Seq<char>
    decreases width,
{
    if width == 0 {
        Seq::empty()
    } else {
        padded(n / 10, (width - 1) as nat).push(digit_char((n % 10) as int))
    }
}

/// The digits of the fraction `n / 10^width`, without trailing zeros but at
/// least one.
pub open spec fn fraction(n: nat, width: nat) -> Seq<char>
    decreases width,
{
    if width > 1 && n % 10 == 0 {
        fraction(n / 10, (width - 1) as nat)
    } else {
        padded(n, width)
    }
}

/// The size of `n` without its sign.
pub open spec fn size_of(n: int) -> nat {
    if n < 0 {
        (-n) as nat
    } else {
        n as nat
    }
}

/// The two parts of the duration do not differ in sign.
pub open spec fn signs_agree(duration: Duration) -> bool {
    !(duration.seconds > 0 && duration.nanos < 0) && !(duration.seconds < 0 && duration.nanos > 0)
}

/// The duration with parts that do not differ in sign: one second is moved
/// between the parts where they do.
pub open spec fn normal_duration(duration: Duration) -> Duration {
    if duration.seconds > 0 && duration.nanos < 0 {
        Duration {
            seconds: (duration.seconds - 1) as i64,
            nanos: (duration.nanos + 1_000_000_000) as i32,
        }
    } else if duration.seconds < 0 && duration.nanos > 0 {
        Duration {
            seconds: (duration.seconds + 1) as i64,
            nanos: (duration.nanos - 1_000_000_000) as i32,
        }
    } else {
        duration
    }
}

/// The seconds and nanoseconds of the same instant with the nanoseconds
/// within one second: whole seconds are moved between the parts.
pub open spec fn normal_timestamp(seconds: int, nanos: int) -> (int, int)
    decreases
            (if nanos < 0 {
                1_000_000_000 - nanos
            } else {
                nanos
            }),
{
    if nanos < 0 {
        normal_timestamp(seconds - 1, nanos + 1_000_000_000)
    } else if nanos >= 1_000_000_000 {
        normal_timestamp(seconds + 1, nanos - 1_000_000_000)
    } else {
        (seconds, nanos)
    }
}

/// The duration with parts that do not differ in sign.
pub fn normalize_duration(duration: &Duration) -> (r: Duration)
    requires
        duration_in_range(*duration),
    ensures
        r == normal_duration(*duration),
        signs_agree(r),
        duration_in_range(r),
{
    if duration.seconds > 0 && duration.nanos < 0 {
        Duration { seconds: duration.seconds - 1, nanos: duration.nanos + 1_000_000_000 }
    } else if duration.seconds < 0 && duration.nanos > 0 {
        Duration { seconds: duration.seconds + 1, nanos: duration.nanos - 1_000_000_000 }
    } else {
        Duration { seconds: duration.seconds, nanos: duration.nanos }
    }
}

/// The seconds and nanoseconds of the same instant with the nanoseconds
/// within one second.
pub fn normalize_timestamp(seconds: i64, nanos: i32) -> (r: (i64, i32))
    requires
        -0x4000_0000_0000_0000 <= seconds <= 0x4000_0000_0000_0000,
    ensures
        (r.0 as int, r.1 as int) == normal_timestamp(seconds as int, nanos as int),
        0 <= r.1 <= 999_999_999,
{
    let mut s: i64 = seconds;
    let mut n: i64 = nanos as i64;
    while n < 0
        invariant
            normal_timestamp(s as int, n as int) == normal_timestamp(seconds as int, nanos as int),
            s * 1_000_000_000 + n == seconds * 1_000_000_000 + nanos,
            nanos <= n < 1_000_000_000 || n == nanos,
            -0x4000_0000_0000_0000 <= seconds <= 0x4000_0000_0000_0000,
        decreases
                (if n < 0 {
                    1_000_000_000 - n
                } else {
                    0
                }),
    {
        n = n + 1_000_000_000;
        s = s - 1;
    }
    while n >= 1_000_000_000
        invariant
            normal_timestamp(s as int, n as int) == normal_timestamp(seconds as int, nanos as int),
            s * 1_000_000_000 + n == seconds * 1_000_000_000 + nanos,
            0 <= n <= 0x7fff_ffff,
            -0x4000_0000_0000_0000 <= seconds <= 0x4000_0000_0000_0000,
        decreases n,
    {
        n = n - 1_000_000_000;
        s = s + 1;
    }
    (s, n as i32)
}

/// The text of a duration: its seconds, behind a minus sign for a negative
/// duration, then the fraction of a second behind a point, where there is
/// one, and the suffix `s`.
pub open spec fn duration_text(duration: Duration) -> Seq<char> {
    let sign = if duration.seconds < 0 || duration.nanos < 0 {
        seq!['-']
    } else {
        Seq::<char>::empty()
    };
    let part = if duration.nanos == 0 {
        Seq::<char>::empty()
    } else {
        seq!['.'] + fraction(size_of(duration.nanos as int), 9)
    };
    sign + decimal(size_of(duration.seconds as int)) + part + seq!['s']
}

/// Appends the decimal text of `n` in `width` digits.
fn push_padded(out: &mut String, n: u32, width: u8)
    ensures
        final(out)@ == old(out)@ + padded(n as nat, width as nat),
    decreases width,
{
    let ghost before = out@;
    if width > 0 {
        push_padded(out, n / 10, width - 1);
        push_digit(out, (n % 10) as u8);
    }
    assert(out@ =~= before + padded(n as nat, width as nat));
}

/// Appends the digits of the fraction `n / 10^width`.
fn push_fraction(out: &mut String, n: u32, width: u8)
    ensures
        final(out)@ == old(out)@ + fraction(n as nat, width as nat),
    decreases width,
{
    if width > 1 && n % 10 == 0 {
        push_fraction(out, n / 10, width - 1);
    } else {
        push_padded(out, n, width);
    }
}

/// The text of a duration.
pub fn duration_to_string(duration: &Duration) -> (r: String)
    ensures
        r@ == duration_text(*duration),
{
    proof {
        reveal_strlit("-");
        reveal_strlit(".");
        reveal_strlit("s");
    }
    let mut out = String::new();
    if duration.seconds < 0 || duration.nanos < 0 {
        out.append("-");
    }
    let ghost sign = out@;
    push_decimal(&mut out, magnitude(duration.seconds));
    let ghost whole = out@;
    if duration.nanos != 0 {
        out.append(".");
        push_fraction(&mut out, magnitude(duration.nanos as i64) as u32, 9);
    }
    let ghost part = out@;
    out.append("s");
    assert(sign =~= if duration.seconds < 0 || duration.nanos < 0 {
        seq!['-']
    } else {
        Seq::<char>::empty()
    });
    assert(out@ =~= duration_text(*duration));
    out
}

/// The characters of `s` from `from` up to `to` are decimal digits.
pub open spec fn digits_at(s: Seq<char>, from: int, to: int) -> bool {
    forall|i: int| from <= i < to ==> digit_value(#[trigger] s[i]) is Some
}

/// The text has the shape of a date and time as RFC 3339 writes them:
/// `YYYY-MM-DDTHH:MM:SS`, then a point and one to nine digits where there is
/// a fraction of a second, then `Z` or an offset `+HH:MM` or `-HH:MM`.
pub open spec fn strict_rfc3339(s: Seq<char>) -> bool {
    &&& s.len() >= 20
    &&& digits_at(s, 0, 4)
    &&& s[4] == '-'
    &&& digits_at(s, 5, 7)
    &&& s[7] == '-'
    &&& digits_at(s, 8, 10)
    &&& s[10] == 'T'
    &&& digits_at(s, 11, 13)
    &&& s[13] == ':'
    &&& digits_at(s, 14, 16)
    &&& s[16] == ':'
    &&& digits_at(s, 17, 19)
    &&& exists|end: int| 19 <= end <= s.len() && #[trigger] fraction_and_zone(s, end)
}

/// The fraction of a second of the text ends at `end`, and a zone stands
/// behind it.
pub open spec fn fraction_and_zone(s: Seq<char>, end: int) -> bool {
    &&& 19 <= end <= s.len()
    &&& end == 19 || (21 <= end <= 29 && s[19] == '.' && digits_at(s, 20, end))
    &&& zone_at(s, end)
}

/// The text ends, from `at` on, in `Z` or in an offset `+HH:MM` or `-HH:MM`.
pub open spec fn zone_at(s: Seq<char>, at: int) -> bool {
    ||| s.len() == at + 1 && s[at] == 'Z'
    ||| {
        &&& s.len() == at + 6
        &&& s[at] == '+' || s[at] == '-'
        &&& digits_at(s, at + 1, at + 3)
        &&& s[at + 3] == ':'
        &&& digits_at(s, at + 4, at + 6)
    }
}

/// Whether the characters of `text` from `from` up to `to` are decimal
/// digits.
fn are_digits(text: &str, from: usize, to: usize) -> (r: bool)
    requires
        from <= to <= text@.len(),
    ensures
        r == digits_at(text@, from as int, to as int),
{
    let mut i: usize = from;
    while i < to
        invariant
            from <= i <= to <= text@.len(),
            digits_at(text@, from as int, i as int),
        decreases to - i,
    {
        if digit_of(text.get_char(i)).is_none() {
            return false;
        }
        i += 1;
    }
    true
}

/// Whether the text ends, from `at` on, in a zone.
fn is_zone(text: &str, at: usize, len: usize) -> (r: bool)
    requires
        at <= len == text@.len(),
    ensures
        r == zone_at(text@, at as int),
{
    if len - at == 1 {
        text.get_char(at) == 'Z'
    } else if len - at == 6 {
        let sign = text.get_char(at);
        (sign == '+' || sign == '-') && are_digits(text, at + 1, at + 3) && text.get_char(at + 3)
            == ':' && are_digits(text, at + 4, at + 6)
    } else {
        false
    }
}

/// Whether the text has the shape of a date and time as RFC 3339 writes
/// them.
pub fn is_strict_rfc3339(text: &str) -> (r: bool)
    ensures
        r == strict_rfc3339(text@),
{
    let len = text.unicode_len();
    if len < 20 {
        return false;
    }
    let head = are_digits(text, 0, 4) && text.get_char(4) == '-' && are_digits(text, 5, 7)
        && text.get_char(7) == '-' && are_digits(text, 8, 10) && text.get_char(10) == 'T'
        && are_digits(text, 11, 13) && text.get_char(13) == ':' && are_digits(text, 14, 16)
        && text.get_char(16) == ':' && are_digits(text, 17, 19);
    if !head {
        return false;
    }
    if text.get_char(19) != '.' {
        let r = is_zone(text, 19, len);
        proof {
            if r {
                assert(fraction_and_zone(text@, 19));
            } else {
                assert forall|end: int| 19 <= end <= text@.len() implies !#[trigger] fraction_and_zone(
                    text@,
                    end,
                ) by {}
            }
        }
        return r;
    }
    // the digits of the fraction, up to nine of them
    let mut end: usize = 20;
    while end < len && end < 29 && digit_of(text.get_char(end)).is_some()
        invariant
            20 <= end <= 29,
            end <= len == text@.len(),
            digits_at(text@, 20, end as int),
        decreases len - end,
    {
        end += 1;
    }
    let r = end >= 21 && is_zone(text, end, len);
    proof {
        if r {
            assert(fraction_and_zone(text@, end as int));
        } else {
            assert forall|e: int| 19 <= e <= text@.len() implies !#[trigger] fraction_and_zone(
                text@,
                e,
            ) by {
                if fraction_and_zone(text@, e) {
                    // the zone begins with a character that is no digit, so the
                    // fraction ends where the digits end
                    assert(e != 19);
                    if e < end {
                        assert(digit_value(text@[e]) is Some);
                    } else if e > end {
                        assert(digit_value(text@[end as int]) is Some);
                    }
                }
            }
        }
    }
    r
}

/// The position of the first point among the first `n` characters.
pub open spec fn point_of(s: Seq<char>, n: nat) -> Option<int>
    decreases n,
{
    if n == 0 || n > s.len() {
        None
    } else {
        match point_of(s, (n - 1) as nat) {
            Some(i) => Some(i),
            None => if s[n - 1] == '.' {
                Some(n - 1)
            } else {
                None
            },
        }
    }
}

/// `f` with `k` zeros behind it, as long as it stays below a thousand
/// million.
pub open spec fn scaled(f: nat, k: nat) -> Option<nat>
    decreases k,
{
    if k == 0 {
        Some(f)
    } else if f > 99_999_999 {
        None
    } else {
        scaled(f * 10, (k - 1) as nat)
    }
}

/// The parts of a duration of `whole` seconds and `nanos` nanoseconds,
/// both negative for a negative duration.
pub open spec fn duration_parts(negative: bool, whole: nat, nanos: nat) -> (i64, i32) {
    if negative {
        ((-whole) as i64, (-nanos) as i32)
    } else {
        (whole as i64, nanos as i32)
    }
}

/// The duration that a text stands for, in seconds and nanoseconds: an
/// optional minus sign, the digits of the seconds, optionally a point and up
/// to nine digits of a fraction, and the suffix `s`. `None` for any other
/// text, and for seconds that do not fit 64 bits.
pub open spec fn duration_of_text(text: Seq<char>) -> Option<(i64, i32)> {
    if text.len() < 2 || text.last() != 's' {
        None
    } else {
        let negative = text[0] == '-';
        let start: int = if negative {
            1
        } else {
            0
        };
        let body = text.subrange(start, text.len() - 1);
        match point_of(body, body.len()) {
            None => match digits_value(body) {
                Some(whole) => if whole <= 0x7fff_ffff_ffff_ffff {
                    Some(duration_parts(negative, whole, 0))
                } else {
                    None
                },
                None => None,
            },
            Some(p) => {
                let digits = body.subrange(p + 1, body.len() as int);
                match (digits_value(body.subrange(0, p)), digits_value(digits)) {
                    (Some(whole), Some(f)) => if whole <= 0x7fff_ffff_ffff_ffff && digits.len() <= 9
                        && f <= 999_999_999 {
                        match scaled(f, (9 - digits.len()) as nat) {
                            Some(nanos) => if nanos <= 999_999_999 {
                                Some(duration_parts(negative, whole, nanos))
                            } else {
                                None
                            },
                            None => None,
                        }
                    } else {
                        None
                    },
                    _ => None,
                }
            },
        }
    }
}

/// Once a point is found among the first characters, it is the first of
/// all.
pub proof fn lemma_point_stays(s: Seq<char>, n: nat, len: nat)
    requires
        n <= len <= s.len(),
        point_of(s, n) is Some,
    ensures
        point_of(s, len) == point_of(s, n),
    decreases len - n,
{
    if n < len {
        lemma_point_stays(s, n + 1, len);
    }
}

/// The position of the first point of the text.
fn find_point(text: &str) -> (r: Option<usize>)
    ensures
        match r {
            Some(p) => point_of(text@, text@.len()) == Some(p as int) && p < text@.len(),
            None => point_of(text@, text@.len()) is None,
        },
{
    let len: usize = text.unicode_len();
    let mut i: usize = 0;
    while i < len
        invariant
            len == text@.len(),
            i <= len,
            point_of(text@, i as nat) is None,
        decreases len - i,
    {
        if text.get_char(i) == '.' {
            proof {
                assert(point_of(text@, (i + 1) as nat) == Some(i as int));
                lemma_point_stays(text@, (i + 1) as nat, len as nat);
            }
            return Some(i);
        }
        i += 1;
    }
    None
}

/// `f` with `k` zeros behind it.
fn scale(f: u64, k: usize) -> (r: Option<u64>)
    requires
        f <= 999_999_999,
    ensures
        match r {
            Some(n) => scaled(f as nat, k as nat) == Some(n as nat),
            None => scaled(f as nat, k as nat) is None,
        },
    decreases k,
{
    if k == 0 {
        Some(f)
    } else if f > 99_999_999 {
        None
    } else {
        scale(f * 10, k - 1)
    }
}

/// The parts of a duration of `whole` seconds and `nanos` nanoseconds.
fn parts(negative: bool, whole: u64, nanos: u64) -> (r: (i64, i32))
    requires
        whole <= 0x7fff_ffff_ffff_ffff,
        nanos <= 999_999_999,
    ensures
        r == duration_parts(negative, whole as nat, nanos as nat),
{
    if negative {
        (-(whole as i64), -(nanos as i32))
    } else {
        (whole as i64, nanos as i32)
    }
}

/// The duration that the text stands for.
pub fn duration_from_str(text: &str) -> (r: Option<(i64, i32)>)
    ensures
        r == duration_of_text(text@),
{
    let len: usize = text.unicode_len();
    if len < 2 || text.get_char(len - 1) != 's' {
        return None;
    }
    let negative = text.get_char(0) == '-';
    let start: usize = if negative {
        1
    } else {
        0
    };
    let body = text.substring_char(start, len - 1);
    let size: usize = body.unicode_len();
    match find_point(body) {
        None => {
            assert(body@.subrange(0, body@.len() as int) =~= body@);
            match parse_digits(body, 0, 0x7fff_ffff_ffff_ffff) {
                Some(whole) => Some(parts(negative, whole, 0)),
                None => None,
            }
        },
        Some(p) => {
            let front = body.substring_char(0, p);
            let digits = body.substring_char(p + 1, size);
            assert(front@.subrange(0, front@.len() as int) =~= front@);
            assert(digits@.subrange(0, digits@.len() as int) =~= digits@);
            let whole = parse_digits(front, 0, 0x7fff_ffff_ffff_ffff);
            let f = parse_digits(digits, 0, 999_999_999);
            match (whole, f) {
                (Some(whole), Some(f)) => {
                    let count: usize = digits.unicode_len();
                    if count <= 9 {
                        match scale(f, 9 - count) {
                            Some(nanos) => if nanos <= 999_999_999 {
                                Some(parts(negative, whole, nanos))
                            } else {
                                None
                            },
                            None => None,
                        }
                    } else {
                        None
                    }
                },
                _ => None,
            }
        },
    }
}

} // verus!
