//! The text of field masks: paths in lowerCamelCase, joined by commas.

use vstd::prelude::*;
use vstd::string::{StrSliceExecFns, StringExecFns};

verus! {

/// The character is a small Latin letter.
pub open spec fn is_lower(c: char) -> bool {
    'a' <= c <= 'z'
}

/// The character is a capital Latin letter.
pub open spec fn is_upper(c: char) -> bool {
    'A' <= c <= 'Z'
}

/// The capital of a small Latin letter.
pub open spec fn upper_of(c: char) -> char {
    ((c as int) - 32) as char
}

/// The small letter of a capital Latin letter.
pub open spec fn lower_of(c: char) -> char {
    ((c as int) + 32) as char
}

/// The path can be written in lowerCamelCase and read back: it holds no
/// capital letter, and each underscore stands before a small letter.
pub open spec fn camel_valid(path: Seq<char>) -> bool {
    forall|i: int|
        0 <= i < path.len() ==> !is_upper(#[trigger] path[i]) && (path[i] == '_' ==> i + 1 < path.len()
            && is_lower(path[i + 1]))
}

/// The first `n` characters of the path in lowerCamelCase: each underscore
/// is left out, and the letter behind it is written as a capital.
pub open spec fn camel_text(path: Seq<char>, n: nat) -> Seq<char>
    decreases n,
{
    if n == 0 {
        Seq::empty()
    } else {
        let c = path[n - 1];
        let front = camel_text(path, (n - 1) as nat);
        if c == '_' {
            front
        } else if n >= 2 && path[n - 2] == '_' {
            front.push(upper_of(c))
        } else {
            front.push(c)
        }
    }
}

/// The path in lowerCamelCase, where it can be written so.
pub open spec fn camel_of(path: Seq<char>) -> Option<Seq<char>> {
    if camel_valid(path) {
        Some(camel_text(path, path.len()))
    } else {
        None
    }
}

/// The first `n` characters of a path that is read from lowerCamelCase: each
/// capital letter gives an underscore and the small letter.
pub open spec fn snake_text(path: Seq<char>, n: nat) -> Seq<char>
    decreases n,
{
    if n == 0 {
        Seq::empty()
    } else {
        let c = path[n - 1];
        let front = snake_text(path, (n - 1) as nat);
        if is_upper(c) {
            front.push('_').push(lower_of(c))
        } else {
            front.push(c)
        }
    }
}

/// The path that a text in lowerCamelCase stands for; none where the text
/// holds an underscore.
pub open spec fn snake_of(path: Seq<char>) -> Option<Seq<char>> {
    if forall|i: int| 0 <= i < path.len() ==> #[trigger] path[i] != '_' {
        Some(snake_text(path, path.len()))
    } else {
        None
    }
}

/// The first `n` of the parts, joined by commas.
pub open spec fn joined(parts: Seq<Seq<char>>, n: nat) -> Seq<char>
    decreases n,
{
    if n == 0 {
        Seq::empty()
    } else if n == 1 {
        parts[0]
    } else {
        joined(parts, (n - 1) as nat) + seq![','] + parts[n - 1]
    }
}

/// The parts that end within the first `n` characters of the text at a
/// comma, and the part that is begun behind the last of those commas.
pub open spec fn split_upto(text: Seq<char>, n: nat) -> (Seq<Seq<char>>, Seq<char>)
    decreases n,
{
    if n == 0 {
        (Seq::empty(), Seq::empty())
    } else {
        let (done, begun) = split_upto(text, (n - 1) as nat);
        if text[n - 1] == ',' {
            (done.push(begun), Seq::empty())
        } else {
            (done, begun.push(text[n - 1]))
        }
    }
}

/// The parts of the text between its commas; none for the empty text.
pub open spec fn split(text: Seq<char>) -> Seq<Seq<char>> {
    if text.len() == 0 {
        Seq::empty()
    } else {
        split_upto(text, text.len()).0.push(split_upto(text, text.len()).1)
    }
}

/// Appends the character of `text` at `i`.
fn push_same(out: &mut String, text: &str, i: usize, len: usize)
    requires
        i < len == text@.len(),
    ensures
        final(out)@ == old(out)@.push(text@[i as int]),
{
    let ghost before = out@;
    out.append(text.substring_char(i, i + 1));
    assert(out@ =~= before.push(text@[i as int]));
}

/// Appends the capital of the small letter `c`.
fn push_upper(out: &mut String, c: char)
    requires
        is_lower(c),
    ensures
        final(out)@ == old(out)@.push(upper_of(c)),
{
    proof {
        reveal_strlit("A");
        reveal_strlit("B");
        reveal_strlit("C");
        reveal_strlit("D");
        reveal_strlit("E");
        reveal_strlit("F");
        reveal_strlit("G");
        reveal_strlit("H");
        reveal_strlit("I");
        reveal_strlit("J");
        reveal_strlit("K");
        reveal_strlit("L");
        reveal_strlit("M");
        reveal_strlit("N");
        reveal_strlit("O");
        reveal_strlit("P");
        reveal_strlit("Q");
        reveal_strlit("R");
        reveal_strlit("S");
        reveal_strlit("T");
        reveal_strlit("U");
        reveal_strlit("V");
        reveal_strlit("W");
        reveal_strlit("X");
        reveal_strlit("Y");
        reveal_strlit("Z");
    }
    let ghost before = out@;
    if c == 'a' {
        out.append("A");
    } else if c == 'b' {
        out.append("B");
    } else if c == 'c' {
        out.append("C");
    } else if c == 'd' {
        out.append("D");
    } else if c == 'e' {
        out.append("E");
    } else if c == 'f' {
        out.append("F");
    } else if c == 'g' {
        out.append("G");
    } else if c == 'h' {
        out.append("H");
    } else if c == 'i' {
        out.append("I");
    } else if c == 'j' {
        out.append("J");
    } else if c == 'k' {
        out.append("K");
    } else if c == 'l' {
        out.append("L");
    } else if c == 'm' {
        out.append("M");
    } else if c == 'n' {
        out.append("N");
    } else if c == 'o' {
        out.append("O");
    } else if c == 'p' {
        out.append("P");
    } else if c == 'q' {
        out.append("Q");
    } else if c == 'r' {
        out.append("R");
    } else if c == 's' {
        out.append("S");
    } else if c == 't' {
        out.append("T");
    } else if c == 'u' {
        out.append("U");
    } else if c == 'v' {
        out.append("V");
    } else if c == 'w' {
        out.append("W");
    } else if c == 'x' {
        out.append("X");
    } else if c == 'y' {
        out.append("Y");
    } else {
        out.append("Z");
    }
    assert(out@ =~= before.push(upper_of(c)));
}

/// Appends an underscore and the small letter of the capital `c`.
fn push_lower(out: &mut String, c: char)
    requires
        is_upper(c),
    ensures
        final(out)@ == old(out)@.push('_').push(lower_of(c)),
{
    proof {
        reveal_strlit("_a");
        reveal_strlit("_b");
        reveal_strlit("_c");
        reveal_strlit("_d");
        reveal_strlit("_e");
        reveal_strlit("_f");
        reveal_strlit("_g");
        reveal_strlit("_h");
        reveal_strlit("_i");
        reveal_strlit("_j");
        reveal_strlit("_k");
        reveal_strlit("_l");
        reveal_strlit("_m");
        reveal_strlit("_n");
        reveal_strlit("_o");
        reveal_strlit("_p");
        reveal_strlit("_q");
        reveal_strlit("_r");
        reveal_strlit("_s");
        reveal_strlit("_t");
        reveal_strlit("_u");
        reveal_strlit("_v");
        reveal_strlit("_w");
        reveal_strlit("_x");
        reveal_strlit("_y");
        reveal_strlit("_z");
    }
    let ghost before = out@;
    if c == 'A' {
        out.append("_a");
    } else if c == 'B' {
        out.append("_b");
    } else if c == 'C' {
        out.append("_c");
    } else if c == 'D' {
        out.append("_d");
    } else if c == 'E' {
        out.append("_e");
    } else if c == 'F' {
        out.append("_f");
    } else if c == 'G' {
        out.append("_g");
    } else if c == 'H' {
        out.append("_h");
    } else if c == 'I' {
        out.append("_i");
    } else if c == 'J' {
        out.append("_j");
    } else if c == 'K' {
        out.append("_k");
    } else if c == 'L' {
        out.append("_l");
    } else if c == 'M' {
        out.append("_m");
    } else if c == 'N' {
        out.append("_n");
    } else if c == 'O' {
        out.append("_o");
    } else if c == 'P' {
        out.append("_p");
    } else if c == 'Q' {
        out.append("_q");
    } else if c == 'R' {
        out.append("_r");
    } else if c == 'S' {
        out.append("_s");
    } else if c == 'T' {
        out.append("_t");
    } else if c == 'U' {
        out.append("_u");
    } else if c == 'V' {
        out.append("_v");
    } else if c == 'W' {
        out.append("_w");
    } else if c == 'X' {
        out.append("_x");
    } else if c == 'Y' {
        out.append("_y");
    } else {
        out.append("_z");
    }
    assert(out@ =~= before.push('_').push(lower_of(c)));
}

/// Whether the character is a small Latin letter.
fn lower(c: char) -> (r: bool)
    ensures
        r == is_lower(c),
{
    'a' <= c && c <= 'z'
}

/// Whether the character is a capital Latin letter.
fn upper(c: char) -> (r: bool)
    ensures
        r == is_upper(c),
{
    'A' <= c && c <= 'Z'
}

/// The path in lowerCamelCase, or `None` where it cannot be written so.
pub fn to_camel(path: &str) -> (r: Option<String>)
    ensures
        match r {
            Some(text) => camel_of(path@) == Some(text@),
            None => camel_of(path@) is None,
        },
{
    let len = path.unicode_len();
    let mut i: usize = 0;
    while i < len
        invariant
            i <= len == path@.len(),
            forall|k: int|
                0 <= k < i ==> !is_upper(#[trigger] path@[k]) && (path@[k] == '_' ==> k + 1 < path@.len()
                    && is_lower(path@[k + 1])),
        decreases len - i,
    {
        let c = path.get_char(i);
        if upper(c) {
            return None;
        }
        if c == '_' {
            if i + 1 >= len || !lower(path.get_char(i + 1)) {
                return None;
            }
        }
        i += 1;
    }
    let mut out = String::new();
    let mut k: usize = 0;
    while k < len
        invariant
            k <= len == path@.len(),
            camel_valid(path@),
            out@ == camel_text(path@, k as nat),
        decreases len - k,
    {
        let c = path.get_char(k);
        if c == '_' {
        } else if k >= 1 && path.get_char(k - 1) == '_' {
            push_upper(&mut out, c);
        } else {
            push_same(&mut out, path, k, len);
        }
        k += 1;
    }
    Some(out)
}

/// The path that a text in lowerCamelCase stands for, or `None` where the
/// text holds an underscore.
pub fn to_snake(path: &str) -> (r: Option<String>)
    ensures
        match r {
            Some(text) => snake_of(path@) == Some(text@),
            None => snake_of(path@) is None,
        },
{
    let len = path.unicode_len();
    let mut out = String::new();
    let mut k: usize = 0;
    while k < len
        invariant
            k <= len == path@.len(),
            forall|i: int| 0 <= i < k ==> #[trigger] path@[i] != '_',
            out@ == snake_text(path@, k as nat),
        decreases len - k,
    {
        let c = path.get_char(k);
        if c == '_' {
            return None;
        }
        if upper(c) {
            push_lower(&mut out, c);
        } else {
            push_same(&mut out, path, k, len);
        }
        k += 1;
    }
    Some(out)
}

/// The parts joined by commas.
pub fn join(parts: &Vec<String>) -> (r: String)
    ensures
        r@ == joined(parts@.map_values(|s: String| s@), parts@.len()),
{
    proof {
        reveal_strlit(",");
    }
    let ghost views = parts@.map_values(|s: String| s@);
    let mut out = String::new();
    let mut i: usize = 0;
    while i < parts.len()
        invariant
            i <= parts.len(),
            views == parts@.map_values(|s: String| s@),
            out@ == joined(views, i as nat),
        decreases parts.len() - i,
    {
        let ghost before = out@;
        if i > 0 {
            out.append(",");
        }
        out.append(parts[i].as_str());
        proof {
            reveal_strlit(",");
            assert(views[i as int] == parts@[i as int]@);
            if i == 0 {
                assert(out@ =~= views[0]);
            } else {
                assert(out@ =~= before + seq![','] + views[i as int]);
            }
        }
        i += 1;
    }
    out
}

/// The parts of the text between its commas.
pub fn split_at_commas(text: &str) -> (r: Vec<String>)
    ensures
        r@.map_values(|s: String| s@) == split(text@),
{
    let len = text.unicode_len();
    let mut done: Vec<String> = Vec::new();
    let mut begun = String::new();
    let mut i: usize = 0;
    assert(done@.map_values(|s: String| s@) =~= Seq::empty());
    while i < len
        invariant
            i <= len == text@.len(),
            done@.map_values(|s: String| s@) == split_upto(text@, i as nat).0,
            begun@ == split_upto(text@, i as nat).1,
        decreases len - i,
    {
        let ghost parts = done@.map_values(|s: String| s@);
        let ghost part = begun@;
        if text.get_char(i) == ',' {
            done.push(begun);
            begun = String::new();
            assert(done@.map_values(|s: String| s@) =~= parts.push(part));
        } else {
            push_same(&mut begun, text, i, len);
        }
        i += 1;
    }
    if len > 0 {
        let ghost parts = done@.map_values(|s: String| s@);
        let ghost part = begun@;
        done.push(begun);
        assert(done@.map_values(|s: String| s@) =~= parts.push(part));
    }
    done
}

} // verus!
