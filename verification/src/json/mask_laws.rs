//! Field masks are read back from their text.

use vstd::prelude::*;
use crate::descriptor::FieldDescriptorRef;
use crate::fields::{decoded, set_spec};
use crate::json::de::{
    field_mask_of_json, mask_paths_read, message_of_json, message_with, string_values,
    well_known_of_json, DeserializeError,
};
use crate::json::mask::{
    camel_of, camel_text, camel_valid, is_lower, is_upper, joined, lower_of, snake_of, snake_text,
    split, split_upto, upper_of,
};
use crate::json::ser::{
    json_of_field_mask, json_of_message, json_of_well_known, mask_paths, SerializeError,
};
use crate::json::value::JsonView;
use crate::json::{well_known_type, DeserializeOptions, SerializeOptions};
use crate::value::{EntryView, MessageView, ValueView};

verus! {

/// What the first `k` characters of a text are read as does not depend on
/// the characters behind them.
pub proof fn lemma_snake_of_prefix(s: Seq<char>, t: Seq<char>, k: nat)
    requires
        k <= s.len(),
        k <= t.len(),
        forall|i: int| 0 <= i < k ==> s[i] == t[i],
    ensures
        snake_text(s, k) == snake_text(t, k),
    decreases k,
{
    if k > 0 {
        lemma_snake_of_prefix(s, t, (k - 1) as nat);
    }
}

/// The first `n` characters of a path in lowerCamelCase hold no underscore
/// and no comma, where the path holds no comma.
pub proof fn lemma_camel_chars(path: Seq<char>, n: nat)
    requires
        camel_valid(path),
        n <= path.len(),
    ensures
        forall|i: int| 0 <= i < camel_text(path, n).len() ==> #[trigger] camel_text(path, n)[i] != '_',
        (forall|i: int| 0 <= i < path.len() ==> #[trigger] path[i] != ',') ==> forall|i: int|
            0 <= i < camel_text(path, n).len() ==> #[trigger] camel_text(path, n)[i] != ',',
    decreases n,
{
    if n > 0 {
        lemma_camel_chars(path, (n - 1) as nat);
        let c = path[n - 1];
        let front = camel_text(path, (n - 1) as nat);
        let now = camel_text(path, n);
        if c != '_' {
            let added = if n >= 2 && path[n - 2] == '_' {
                upper_of(c)
            } else {
                c
            };
            if n >= 2 && path[n - 2] == '_' {
                assert(is_lower(path[n - 2 + 1]));
                assert(upper_of(c) != '_' && upper_of(c) != ',');
            }
            assert(now == front.push(added));
            assert forall|i: int| 0 <= i < now.len() implies #[trigger] now[i] != '_' by {
                if i < front.len() {
                    assert(now[i] == front[i]);
                }
            }
            if forall|i: int| 0 <= i < path.len() ==> #[trigger] path[i] != ',' {
                assert forall|i: int| 0 <= i < now.len() implies #[trigger] now[i] != ',' by {
                    if i < front.len() {
                        assert(now[i] == front[i]);
                    } else {
                        assert(path[n - 1] != ',');
                    }
                }
            }
        }
    }
}

/// A prefix of a path that does not end amid an underscore and its letter,
/// written in lowerCamelCase, is read back as the prefix.
pub proof fn lemma_camel_prefix_reads_back(path: Seq<char>, n: nat)
    requires
        camel_valid(path),
        n <= path.len(),
        n == 0 || path[n - 1] != '_',
    ensures
        snake_text(camel_text(path, n), camel_text(path, n).len()) == path.subrange(0, n as int),
    decreases n,
{
    if n == 0 {
        assert(path.subrange(0, 0) =~= Seq::empty());
    } else {
        let c = path[n - 1];
        let now = camel_text(path, n);
        if n >= 2 && path[n - 2] == '_' {
            let base = (n - 2) as nat;
            let front = camel_text(path, base);
            assert(camel_text(path, (n - 1) as nat) == front);
            assert(is_lower(path[n - 2 + 1]));
            if base > 0 && path[base - 1] == '_' {
                assert(is_lower(path[base - 1 + 1]));
            }
            lemma_camel_prefix_reads_back(path, base);
            let capital = upper_of(c);
            assert(is_upper(capital) && lower_of(capital) == c);
            assert(now == front.push(capital));
            lemma_snake_of_prefix(now, front, front.len());
            assert(snake_text(now, now.len()) == snake_text(front, front.len()).push('_').push(c));
            assert(path.subrange(0, n as int) =~= path.subrange(0, base as int).push('_').push(c));
        } else {
            let base = (n - 1) as nat;
            let front = camel_text(path, base);
            lemma_camel_prefix_reads_back(path, base);
            assert(!is_upper(c));
            assert(now == front.push(c));
            lemma_snake_of_prefix(now, front, front.len());
            assert(path.subrange(0, n as int) =~= path.subrange(0, base as int).push(c));
        }
    }
}

/// A path that can be written in lowerCamelCase is read back from what is
/// written for it.
pub proof fn law_camel_reads_back(path: Seq<char>)
    requires
        camel_valid(path),
    ensures
        camel_of(path) matches Some(text) && snake_of(text) == Some(path),
{
    let n = path.len();
    lemma_camel_chars(path, n);
    if n > 0 && path[n - 1] == '_' {
        assert(n - 1 + 1 < path.len());
    }
    lemma_camel_prefix_reads_back(path, n);
    assert(path.subrange(0, n as int) =~= path);
}

/// What the first characters of a text are split into does not depend on
/// the characters behind them.
pub proof fn lemma_split_of_prefix(s: Seq<char>, t: Seq<char>, k: nat)
    requires
        k <= s.len(),
        k <= t.len(),
        forall|i: int| 0 <= i < k ==> s[i] == t[i],
    ensures
        split_upto(s, k) == split_upto(t, k),
    decreases k,
{
    if k > 0 {
        lemma_split_of_prefix(s, t, (k - 1) as nat);
    }
}

/// Characters without a comma behind a text add to the part that is begun
/// at the end of the text.
pub proof fn lemma_split_more(a: Seq<char>, b: Seq<char>, k: nat)
    requires
        k <= b.len(),
        forall|i: int| 0 <= i < k ==> b[i] != ',',
    ensures
        split_upto(a + b, a.len() + k) == (
            split_upto(a, a.len()).0,
            split_upto(a, a.len()).1 + b.subrange(0, k as int),
        ),
    decreases k,
{
    if k == 0 {
        lemma_split_of_prefix(a + b, a, a.len());
        assert(split_upto(a, a.len()).1 + b.subrange(0, 0) =~= split_upto(a, a.len()).1);
    } else {
        lemma_split_more(a, b, (k - 1) as nat);
        assert((a + b)[a.len() + k - 1] == b[k - 1]);
        assert(b.subrange(0, k as int) =~= b.subrange(0, k - 1).push(b[k - 1]));
        assert(split_upto(a, a.len()).1 + b.subrange(0, k as int) =~= (split_upto(a, a.len()).1
            + b.subrange(0, k - 1)).push(b[k - 1]));
    }
}

/// The first `n` of the parts, where none of them holds a comma, are what
/// their joined text is split into: all but the last of them end at a comma,
/// and the last is begun.
pub proof fn lemma_joined_splits(parts: Seq<Seq<char>>, n: nat)
    requires
        0 < n <= parts.len(),
        forall|p: int, i: int|
            0 <= p < parts.len() && 0 <= i < parts[p].len() ==> (#[trigger] parts[p][i]) != ',',
    ensures
        split_upto(joined(parts, n), joined(parts, n).len()) == (
            parts.subrange(0, n - 1),
            parts[n - 1],
        ),
    decreases n,
{
    if n == 1 {
        let text = parts[0];
        lemma_split_more(Seq::empty(), text, text.len());
        assert(Seq::<char>::empty() + text =~= text);
        assert(text.subrange(0, text.len() as int) =~= text);
        assert(Seq::<char>::empty() + text.subrange(0, text.len() as int) =~= text);
        assert(parts.subrange(0, 0) =~= Seq::empty());
    } else {
        let before = joined(parts, (n - 1) as nat);
        let last = parts[n - 1];
        lemma_joined_splits(parts, (n - 1) as nat);
        let stopped = before + seq![','];
        lemma_split_of_prefix(stopped, before, before.len());
        assert(stopped[stopped.len() - 1] == ',');
        assert(split_upto(stopped, stopped.len()) == (
            parts.subrange(0, n - 2).push(parts[n - 2]),
            Seq::<char>::empty(),
        ));
        lemma_split_more(stopped, last, last.len());
        assert(last.subrange(0, last.len() as int) =~= last);
        assert(Seq::<char>::empty() + last =~= last);
        assert(joined(parts, n) =~= stopped + last);
        assert(parts.subrange(0, n - 2).push(parts[n - 2]) =~= parts.subrange(0, n - 1));
    }
}

/// Parts without a comma are what their joined text is split into, but for
/// the one part that is empty, whose text is that of no part.
pub proof fn law_joined_splits(parts: Seq<Seq<char>>)
    requires
        forall|p: int, i: int|
            0 <= p < parts.len() && 0 <= i < parts[p].len() ==> (#[trigger] parts[p][i]) != ',',
        !(parts.len() == 1 && parts[0].len() == 0),
    ensures
        split(joined(parts, parts.len())) == parts,
{
    let n = parts.len();
    if n == 0 {
        assert(parts =~= Seq::empty());
    } else {
        lemma_joined_splits(parts, n);
        if n >= 2 {
            assert(joined(parts, n).len() > 0);
        }
        assert(parts.subrange(0, n - 1).push(parts[n - 1]) =~= parts);
    }
}


/// The paths in lowerCamelCase.
pub open spec fn camel_texts(paths: Seq<Seq<char>>) -> Seq<Seq<char>> {
    Seq::new(paths.len(), |i: int| camel_text(paths[i], paths[i].len()))
}

/// Paths that can be written in lowerCamelCase are written so, one text for
/// each.
pub proof fn lemma_mask_paths_written<'a>(items: Seq<ValueView<'a>>, paths: Seq<Seq<char>>, n: nat)
    requires
        n <= paths.len(),
        items == string_values::<'a>(paths),
        forall|p: int| 0 <= p < paths.len() ==> camel_valid(#[trigger] paths[p]),
    ensures
        mask_paths(items, n) == Some(camel_texts(paths).subrange(0, n as int)),
    decreases n,
{
    if n == 0 {
        assert(camel_texts(paths).subrange(0, 0) =~= Seq::empty());
    } else {
        lemma_mask_paths_written(items, paths, (n - 1) as nat);
        assert(camel_valid(paths[n - 1]));
        assert(items[n - 1] == ValueView::<'a>::String(paths[n - 1]));
        assert(camel_texts(paths).subrange(0, n as int) =~= camel_texts(paths).subrange(
            0,
            n - 1,
        ).push(camel_text(paths[n - 1], paths[n - 1].len())));
    }
}

/// The texts of paths in lowerCamelCase are read back as the paths.
pub proof fn lemma_mask_paths_read_back(paths: Seq<Seq<char>>, n: nat)
    requires
        n <= paths.len(),
        forall|p: int| 0 <= p < paths.len() ==> camel_valid(#[trigger] paths[p]),
    ensures
        mask_paths_read(camel_texts(paths), n) == Some(paths.subrange(0, n as int)),
    decreases n,
{
    if n == 0 {
        assert(paths.subrange(0, 0) =~= Seq::empty());
    } else {
        lemma_mask_paths_read_back(paths, (n - 1) as nat);
        assert(camel_valid(paths[n - 1]));
        law_camel_reads_back(paths[n - 1]);
        assert(camel_texts(paths)[n - 1] == camel_text(paths[n - 1], paths[n - 1].len()));
        assert(paths.subrange(0, n as int) =~= paths.subrange(0, n - 1).push(paths[n - 1]));
    }
}

/// The name `FieldMask` is that of a well-known type, and of none of those
/// that are tried before it.
proof fn lemma_field_mask_name(full_name: Seq<char>)
    requires
        full_name == "google.protobuf.FieldMask"@,
    ensures
        well_known_type(full_name),
        full_name != "google.protobuf.Duration"@,
        full_name != "google.protobuf.Timestamp"@,
        full_name != "google.protobuf.Empty"@,
        full_name != "google.protobuf.Any"@,
{
    reveal_strlit("google.protobuf.FieldMask");
    reveal_strlit("google.protobuf.Duration");
    reveal_strlit("google.protobuf.Timestamp");
    reveal_strlit("google.protobuf.Empty");
    reveal_strlit("google.protobuf.Any");
    assert("google.protobuf.FieldMask"@.len() == 25);
    assert("google.protobuf.Duration"@.len() == 24);
    assert("google.protobuf.Empty"@.len() == 21);
    assert("google.protobuf.Any"@.len() == 19);
    assert("google.protobuf.FieldMask"@[16] == 'F');
    assert("google.protobuf.Timestamp"@[16] == 'T');
}

/// A field mask is written as the text of its paths.
#[verifier::spinoff_prover]
proof fn lemma_field_mask_written<'a>(m: MessageView<'a>, written: SerializeOptions)
    requires
        well_known_type(m.desc.full_name_spec()),
        m.desc.full_name_spec() == "google.protobuf.FieldMask"@,
        m.desc.full_name_spec() != "google.protobuf.Duration"@,
        m.desc.full_name_spec() != "google.protobuf.Timestamp"@,
        m.desc.full_name_spec() != "google.protobuf.Empty"@,
        m.desc.full_name_spec() != "google.protobuf.Any"@,
    ensures
        json_of_message(m, written) == json_of_field_mask(m),
{
    assert(json_of_message(m, written) == json_of_well_known(m, written));
}

/// A field mask is read from the text of its paths.
#[verifier::spinoff_prover]
proof fn lemma_field_mask_read<'a>(
    j: JsonView,
    desc: crate::descriptor::MessageDescriptorRef<'a>,
    read: DeserializeOptions,
)
    requires
        well_known_type(desc.full_name_spec()),
        desc.full_name_spec() == "google.protobuf.FieldMask"@,
        desc.full_name_spec() != "google.protobuf.Duration"@,
        desc.full_name_spec() != "google.protobuf.Timestamp"@,
        desc.full_name_spec() != "google.protobuf.Empty"@,
        desc.full_name_spec() != "google.protobuf.Any"@,
    ensures
        message_of_json(j, desc, read) == field_mask_of_json(j, desc),
{
    assert(message_of_json(j, desc, read) == well_known_of_json(j, desc, read));
}

/// A field mask whose paths can be written in lowerCamelCase and hold no
/// comma is read back as it was from what is written for it, but for the
/// mask of the one empty path.
pub proof fn law_field_mask_reads_back<'a>(
    m: MessageView<'a>,
    paths: Seq<Seq<char>>,
    written: SerializeOptions,
    read: DeserializeOptions,
)
    requires
        m.desc.wf(),
        m.desc.full_name_spec() == "google.protobuf.FieldMask"@,
        m.desc.field_index(1) matches Some(i) && {
            let field = FieldDescriptorRef::at(m.desc, i as usize);
            field.holds_list() && field.resolved_kind() is String
        },
        m.fields == Map::<u32, EntryView<'a>>::empty().insert(
            1,
            EntryView::Value(ValueView::List(string_values(paths))),
        ),
        forall|p: int| 0 <= p < paths.len() ==> camel_valid(#[trigger] paths[p]),
        forall|p: int, i: int|
            0 <= p < paths.len() && 0 <= i < paths[p].len() ==> (#[trigger] paths[p][i]) != ',',
        !(paths.len() == 1 && paths[0].len() == 0),
    ensures
        json_of_message(m, written) matches Ok(j) && message_of_json(j, m.desc, read) == Ok::<
            MessageView<'a>,
            DeserializeError,
        >(m),
        json_of_message(m, written) matches Ok(j) && j is String,
{
    broadcast use FieldDescriptorRef::lemma_at_parts;

    let desc = m.desc;
    let n = paths.len();
    let texts = camel_texts(paths);
    lemma_field_mask_name(desc.full_name_spec());
    lemma_field_mask_written(m, written);
    // what is written
    assert(decoded(m.fields, 1) == Some(ValueView::<'a>::List(string_values(paths))));
    lemma_mask_paths_written(string_values::<'a>(paths), paths, n);
    assert(texts.subrange(0, n as int) =~= texts);
    let text = joined(texts, n);
    assert(json_of_field_mask(m) == Ok::<JsonView, SerializeError>(JsonView::String(text)));
    // what is read
    assert forall|p: int, i: int| 0 <= p < texts.len() && 0 <= i < texts[p].len() implies (
    #[trigger] texts[p][i]) != ',' by {
        assert(camel_valid(paths[p]));
        lemma_camel_chars(paths[p], paths[p].len());
    }
    if n == 1 {
        let path = paths[0];
        assert(camel_valid(path));
        assert(path[path.len() - 1] != '_') by {
            if path[path.len() - 1] == '_' {
                assert(path.len() - 1 + 1 < path.len());
            }
        }
        assert(texts[0].len() > 0);
    }
    law_joined_splits(texts);
    lemma_mask_paths_read_back(paths, n);
    assert(paths.subrange(0, n as int) =~= paths);
    lemma_field_mask_read(JsonView::String(text), desc, read);
    crate::json::round_trip::lemma_field_count_fits(desc);
    let i = desc.field_index(1)->Some_0;
    let field = FieldDescriptorRef::at(desc, i as usize);
    assert(field.data() == desc.data().fields@[i]);
    assert(set_spec(
        Map::<u32, EntryView<'a>>::empty(),
        field,
        ValueView::List(string_values(paths)),
    ) =~= m.fields);
}

} // verus!
