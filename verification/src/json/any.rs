//! The parts of a `google.protobuf.Any`: the URL that names the type of
//! its payload, and the payload in its binary form.

use crate::descriptor::{DescriptorPool, MessageDescriptorRef};
use crate::fields::decoded;
use crate::message::DynamicMessage;
use crate::value::{EntryView, Value, ValueView};
use vstd::prelude::*;

verus! {

/// The text that a message holds under `number`: empty where it holds
/// nothing, none where it holds something else.
pub open spec fn held_text<'a>(fields: Map<u32, EntryView<'a>>, number: u32) -> Option<Seq<char>> {
    match decoded(fields, number) {
        None => Some(Seq::empty()),
        Some(ValueView::String(s)) => Some(s),
        Some(_) => None,
    }
}

/// The bytes that a message holds under `number`: empty where it holds
/// nothing, none where it holds something else.
pub open spec fn held_bytes<'a>(fields: Map<u32, EntryView<'a>>, number: u32) -> Option<Seq<u8>> {
    match decoded(fields, number) {
        None => Some(Seq::empty()),
        Some(ValueView::Bytes(b)) => Some(b),
        Some(_) => None,
    }
}

/// The position of the last `/` among the first `n` characters, or -1.
pub open spec fn slash_before(url: Seq<char>, n: nat) -> int
    decreases n,
{
    if n == 0 || n > url.len() {
        -1
    } else if url[n - 1] == '/' {
        n - 1
    } else {
        slash_before(url, (n - 1) as nat)
    }
}

/// The name of the message type that a type URL names: what stands behind
/// its last `/`, or all of it where it holds none.
pub open spec fn type_name_of(url: Seq<char>) -> Seq<char> {
    url.subrange(slash_before(url, url.len()) + 1, url.len() as int)
}

/// The message type of `pool` that a type URL names.
pub open spec fn payload_type<'a>(pool: DescriptorPool, url: Seq<char>) -> Option<
    MessageDescriptorRef<'a>,
> {
    match pool.message_named(type_name_of(url)) {
        Some(i) => Some(MessageDescriptorRef::at(pool, i as usize)),
        None => None,
    }
}

/// The text that the message holds under `number`.
pub fn read_text<'m, 'a>(message: &'m DynamicMessage<'a>, number: u32) -> (r: Option<&'m str>)
    ensures
        match held_text(message@.fields, number) {
            Some(s) => r matches Some(text) && text@ == s,
            None => r is None,
        },
{
    assert(message@.fields == message.fields@);
    proof {
        reveal_strlit("");
        assert(""@ =~= Seq::<char>::empty());
    }
    match message.fields.get_value(number) {
        None => Some(""),
        Some(Value::String(s)) => Some(s.as_str()),
        Some(_) => None,
    }
}

/// The bytes that the message holds under `number`.
pub fn read_bytes<'m, 'a>(message: &'m DynamicMessage<'a>, number: u32) -> (r: Option<&'m [u8]>)
    ensures
        match held_bytes(message@.fields, number) {
            Some(b) => r matches Some(bytes) && bytes@ == b,
            None => r is None,
        },
{
    assert(message@.fields == message.fields@);
    match message.fields.get_value(number) {
        None => {
            let empty: &'static [u8] = &[];
            assert(empty@ =~= Seq::<u8>::empty());
            Some(empty)
        },
        Some(Value::Bytes(b)) => Some(b.as_slice()),
        Some(_) => None,
    }
}

/// The name of the message type that a type URL names.
pub fn named_type(url: &str) -> (r: &str)
    ensures
        r@ == type_name_of(url@),
{
    let len: usize = url.unicode_len();
    let mut start: usize = 0;
    let mut i: usize = 0;
    while i < len
        invariant
            len == url@.len(),
            i <= len,
            start <= i,
            start == slash_before(url@, i as nat) + 1,
        decreases len - i,
    {
        if url.get_char(i) == '/' {
            start = i + 1;
        }
        i += 1;
    }
    url.substring_char(start, len)
}

/// The message type of `pool` that a type URL names.
pub fn find_payload_type<'a>(pool: &'a DescriptorPool, url: &str) -> (r: Option<
    MessageDescriptorRef<'a>,
>)
    ensures
        r == payload_type::<'a>(*pool, url@),
        r matches Some(m) ==> m.wf() && m.pool() == *pool,
{
    let r = pool.get_message_by_name(named_type(url));
    proof {
        if let Some(m) = r {
            m.lemma_at();
        }
    }
    r
}

} // verus!
