//! Decimal text of integers, written and read.

use vstd::prelude::*;
use vstd::string::{StrSliceExecFns, StringExecFns};

verus! {

/// The character of the decimal digit `d`.
pub open spec fn digit_char(d: int) -> char {
    if d == 0 {
        '0'
    } else if d == 1 {
        '1'
    } else if d == 2 {
        '2'
    } else if d == 3 {
        '3'
    } else if d == 4 {
        '4'
    } else if d == 5 {
        '5'
    } else if d == 6 {
        '6'
    } else if d == 7 {
        '7'
    } else if d == 8 {
        '8'
    } else {
        '9'
    }
}

/// The decimal digit that `c` stands for, if it is one.
pub open spec fn digit_value(c: char) -> Option<int> {
    if c == '0' {
        Some(0)
    } else if c == '1' {
        Some(1)
    } else if c == '2' {
        Some(2)
    } else if c == '3' {
        Some(3)
    } else if c == '4' {
        Some(4)
    } else if c == '5' {
        Some(5)
    } else if c == '6' {
        Some(6)
    } else if c == '7' {
        Some(7)
    } else if c == '8' {
        Some(8)
    } else if c == '9' {
        Some(9)
    } else {
        None
    }
}

/// The decimal text of `n`, without leading zeros.
pub open spec fn decimal(n: nat) -> Seq<char>
    decreases n,
{
    if n < 10 {
        seq![digit_char(n as int)]
    } else {
        decimal(n / 10).push(digit_char((n % 10) as int))
    }
}

/// The decimal text of `n`, with a minus sign where it is negative.
pub open spec fn signed_decimal(n: int) -> Seq<char> {
    if n < 0 {
        seq!['-'] + decimal((-n) as nat)
    } else {
        decimal(n as nat)
    }
}

/// The number that a run of decimal digits stands for; `None` for the empty
/// run and for one that holds another character.
pub open spec fn digits_value(s: Seq<char>) -> Option<nat>
    decreases s.len(),
{
    if s.len() == 0 {
        None
    } else {
        match digit_value(s.last()) {
            None => None,
            Some(d) => if s.len() == 1 {
                Some(d as nat)
            } else {
                match digits_value(s.drop_last()) {
                    None => None,
                    Some(front) => Some(front * 10 + d as nat),
                }
            },
        }
    }
}

/// The integer that a decimal text stands for: digits, behind a minus sign
/// for a negative number.
pub open spec fn integer_value(s: Seq<char>) -> Option<int> {
    if s.len() > 0 && s[0] == '-' {
        match digits_value(s.subrange(1, s.len() as int)) {
            Some(n) => Some(-(n as int)),
            None => None,
        }
    } else {
        match digits_value(s) {
            Some(n) => Some(n as int),
            None => None,
        }
    }
}

/// Appends the character of the decimal digit `d`.
pub fn push_digit(out: &mut String, d: u8)
    requires
        d < 10,
    ensures
        final(out)@ == old(out)@.push(digit_char(d as int)),
{
    proof {
        reveal_strlit("0");
        reveal_strlit("1");
        reveal_strlit("2");
        reveal_strlit("3");
        reveal_strlit("4");
        reveal_strlit("5");
        reveal_strlit("6");
        reveal_strlit("7");
        reveal_strlit("8");
        reveal_strlit("9");
    }
    let ghost before = out@;
    if d == 0 {
        out.append("0");
    } else if d == 1 {
        out.append("1");
    } else if d == 2 {
        out.append("2");
    } else if d == 3 {
        out.append("3");
    } else if d == 4 {
        out.append("4");
    } else if d == 5 {
        out.append("5");
    } else if d == 6 {
        out.append("6");
    } else if d == 7 {
        out.append("7");
    } else if d == 8 {
        out.append("8");
    } else {
        out.append("9");
    }
    assert(out@ =~= before.push(digit_char(d as int)));
}

/// Appends the decimal text of `n`.
pub fn push_decimal(out: &mut String, n: u64)
    ensures
        final(out)@ == old(out)@ + decimal(n as nat),
    decreases n,
{
    let ghost before = out@;
    if n >= 10 {
        push_decimal(out, n / 10);
    }
    push_digit(out, (n % 10) as u8);
    assert(out@ =~= before + decimal(n as nat));
}

/// The size of `n` without its sign.
pub fn magnitude(n: i64) -> (r: u64)
    ensures
        r == if n < 0 {
            -(n as int)
        } else {
            n as int
        },
{
    if n >= 0 {
        n as u64
    } else if n == i64::MIN {
        0x8000_0000_0000_0000
    } else {
        (-n) as u64
    }
}

/// The decimal text of `n`.
pub fn unsigned_to_string(n: u64) -> (r: String)
    ensures
        r@ == decimal(n as nat),
{
    let mut out = String::new();
    push_decimal(&mut out, n);
    assert(out@ =~= decimal(n as nat));
    out
}

/// The decimal text of `n`.
pub fn signed_to_string(n: i64) -> (r: String)
    ensures
        r@ == signed_decimal(n as int),
{
    let mut out = String::new();
    if n < 0 {
        proof {
            reveal_strlit("-");
        }
        out.append("-");
        assert(out@ =~= seq!['-']);
    }
    push_decimal(&mut out, magnitude(n));
    assert(out@ =~= signed_decimal(n as int));
    out
}

/// The digit that `c` stands for.
pub fn digit_of(c: char) -> (r: Option<u8>)
    ensures
        match r {
            Some(d) => digit_value(c) == Some(d as int) && d < 10,
            None => digit_value(c) is None,
        },
{
    if c == '0' {
        Some(0)
    } else if c == '1' {
        Some(1)
    } else if c == '2' {
        Some(2)
    } else if c == '3' {
        Some(3)
    } else if c == '4' {
        Some(4)
    } else if c == '5' {
        Some(5)
    } else if c == '6' {
        Some(6)
    } else if c == '7' {
        Some(7)
    } else if c == '8' {
        Some(8)
    } else if c == '9' {
        Some(9)
    } else {
        None
    }
}

/// A run of digits that stands for a number stands for it digit by digit.
pub proof fn lemma_digits_step(s: Seq<char>, i: int)
    requires
        0 <= i < s.len(),
    ensures
        digits_value(s.subrange(0, i + 1)) == match digit_value(s[i]) {
            None => None,
            Some(d) => if i == 0 {
                Some(d as nat)
            } else {
                match digits_value(s.subrange(0, i)) {
                    None => None,
                    Some(front) => Some(front * 10 + d as nat),
                }
            },
        },
{
    let t = s.subrange(0, i + 1);
    assert(t.last() == s[i]);
    assert(t.drop_last() =~= s.subrange(0, i));
}

/// The number, at most `limit`, that the characters of `text` from `start`
/// on stand for as decimal digits.
pub fn parse_digits(text: &str, start: usize, limit: u64) -> (r: Option<u64>)
    requires
        start <= text@.len(),
    ensures
        match r {
            Some(n) => digits_value(text@.subrange(start as int, text@.len() as int)) == Some(
                n as nat,
            ) && n <= limit,
            None => match digits_value(text@.subrange(start as int, text@.len() as int)) {
                Some(n) => n > limit,
                None => true,
            },
        },
{
    let len = text.unicode_len();
    if start >= len {
        return None;
    }
    let ghost s = text@.subrange(start as int, len as int);
    let mut acc: u64 = 0;
    let mut too_large = false;
    let mut i: usize = start;
    while i < len
        invariant
            start <= i <= len,
            len == text@.len(),
            s == text@.subrange(start as int, len as int),
            i == start ==> acc == 0 && !too_large,
            i > start ==> (digits_value(s.subrange(0, i - start)) matches Some(n) && if too_large {
                n > limit
            } else {
                n == acc && n <= limit
            }),
        decreases len - i,
    {
        let c = text.get_char(i);
        proof {
            lemma_digits_step(s, i - start);
            assert(s[i - start] == c);
        }
        match digit_of(c) {
            None => {
                proof {
                    lemma_digits_bad(s, i - start);
                }
                return None;
            },
            Some(d) => {
                let ghost front = if i == start {
                    0nat
                } else {
                    digits_value(s.subrange(0, i - start))->Some_0
                };
                proof {
                    assert(digits_value(s.subrange(0, i - start + 1)) == Some(front * 10 + d as nat));
                }
                if !too_large {
                    if limit < d as u64 || acc > (limit - d as u64) / 10 {
                        too_large = true;
                    } else {
                        acc = acc * 10 + d as u64;
                    }
                }
            },
        }
        i += 1;
    }
    proof {
        assert(s.subrange(0, len - start) =~= s);
    }
    if too_large {
        None
    } else {
        Some(acc)
    }
}

/// A run of characters that holds another character than a digit stands for
/// no number.
pub proof fn lemma_digits_bad(s: Seq<char>, i: int)
    requires
        0 <= i < s.len(),
        digit_value(s[i]) is None,
    ensures
        digits_value(s) is None,
    decreases s.len(),
{
    if i == s.len() - 1 {
    } else {
        lemma_digits_bad(s.drop_last(), i);
    }
}

/// The integer between `min` and `max` that `text` stands for in decimal.
pub fn parse_integer(text: &str, min: i64, max: u64) -> (r: Option<(bool, u64)>)
    requires
        min <= 0,
    ensures
        match r {
            Some((negative, size)) => {
                &&& integer_value(text@) == Some(
                    if negative {
                        -(size as int)
                    } else {
                        size as int
                    },
                )
                &&& min <= (if negative {
                    -(size as int)
                } else {
                    size as int
                }) <= max
                &&& negative ==> size > 0
            },
            None => match integer_value(text@) {
                Some(n) => !(min <= n <= max),
                None => true,
            },
        },
{
    let len = text.unicode_len();
    if len > 0 && text.get_char(0) == '-' {
        match parse_digits(text, 1, magnitude(min)) {
            Some(size) => {
                if size == 0 {
                    // "-0" is read as zero
                    Some((false, 0))
                } else {
                    Some((true, size))
                }
            },
            None => None,
        }
    } else {
        proof {
            assert(text@.subrange(0, text@.len() as int) =~= text@);
        }
        match parse_digits(text, 0, max) {
            Some(size) => Some((false, size)),
            None => None,
        }
    }
}

} // verus!
