//! An `Any` is read back as it was from what is written for it.

use crate::descriptor::MessageDescriptorRef;
use crate::fields::{item_at, walk_of};
use crate::json::any::{held_bytes, held_text, payload_type};
use crate::json::de::{
    any_holding, any_of_json, any_of_payload, fields_of_json, first_named, member_of_json,
    message_of_json, object_of_json, payload_fields_of_json, payload_of_json, well_known_of_json,
    DeserializeError,
};
use crate::json::known_laws::{known_kept, lemma_known_reads_back};
use crate::json::round_trip::{law_message_reads_back, message_kept};
use crate::json::ser::{
    json_of_any, json_of_any_held, json_of_members, json_of_message, json_of_walk,
    json_of_well_known, SerializeError,
};
use crate::json::value::JsonView;
use crate::json::walk_laws::{lemma_members_are_items, lemma_walk_items, written_name};
use crate::json::{well_known_type, DeserializeOptions, SerializeOptions};
use crate::value::{EntryView, MessageView};
use crate::wire::decode::message_of_wire;
use crate::wire::encode::wire_of_message;
use vstd::prelude::*;

verus! {

/// The payload is one that is read back from the object of an `Any`: a
/// message of a well-known type that is kept; or one of no well-known type
/// that is kept, none of whose fields is written under the name `@type`.
pub open spec fn payload_kept<'a>(payload: MessageView<'a>, written: SerializeOptions) -> bool {
    ||| known_kept(payload, written)
    ||| {
        &&& message_kept(payload, written)
        &&& forall|k: u32| #[trigger]
            item_at(payload.fields, payload.desc, k) is Some ==> written_name(
                item_at(payload.fields, payload.desc, k)->Some_0,
                written,
            ) != Some("@type"@)
    }
}

/// The `Any` is one that is read back. It holds a type URL that names a
/// message type of its pool, and bytes that are the binary form of a payload
/// of that type: the payload is read from them, and they are written for it.
/// The payload is one that is read back, and the options skip fields that are
/// not set and let an `Any` be written.
pub open spec fn any_kept<'a>(
    m: MessageView<'a>,
    payload: MessageView<'a>,
    written: SerializeOptions,
) -> bool {
    &&& m.desc.full_name_spec() == "google.protobuf.Any"@
    &&& written.skips_default_fields()
    &&& written.any_nesting_limit() > 0
    &&& held_text(m.fields, 1) matches Some(url)
    &&& held_bytes(m.fields, 2) matches Some(bytes)
    &&& payload_type(m.desc.pool(), url) == Some(payload.desc)
    &&& message_of_wire(bytes, payload.desc) == Some(payload)
    &&& wire_of_message(payload) == Some(bytes)
    &&& any_holding(m.desc, url, bytes) == Ok::<MessageView<'a>, DeserializeError>(m)
    &&& payload_kept(payload, written.nested())
}

/// The members of an object behind a first member `@type`, none of which
/// is named `@type`, are read as the fields of a payload as they are read as
/// the fields of a message.
proof fn lemma_payload_fields<'a>(
    members: Seq<(Seq<char>, JsonView)>,
    url: JsonView,
    n: nat,
    desc: MessageDescriptorRef<'a>,
    read: DeserializeOptions,
)
    requires
        n <= members.len(),
        forall|p: int| 0 <= p < members.len() ==> (#[trigger] members[p]).0 != "@type"@,
    ensures
        payload_fields_of_json(
            JsonView::Object(seq![("@type"@, url)] + members),
            n + 1,
            desc,
            read,
        ) == fields_of_json(JsonView::Object(members), n, desc, read),
    decreases n,
{
    let all = seq![("@type"@, url)] + members;
    let j = JsonView::Object(all);
    if n == 0 {
        assert(payload_fields_of_json(j, 0, desc, read) == Ok::<
            Map<u32, EntryView<'a>>,
            DeserializeError,
        >(Map::empty()));
        assert(all[0].0 == "@type"@);
    } else {
        lemma_payload_fields(members, url, (n - 1) as nat, desc, read);
        assert(all[n as int] == members[n - 1]);
    }
}

/// The name of the members `@type` and `value`.
proof fn lemma_first_members(members: Seq<(Seq<char>, JsonView)>)
    requires
        members.len() >= 1,
        members[0].0 == "@type"@,
    ensures
        first_named(members, "@type"@, members.len()) == Some(0int),
        members.len() == 2 && members[1].0 == "value"@ ==> first_named(members, "value"@, 2) == Some(
            1int,
        ),
{
    reveal_strlit("@type");
    reveal_strlit("value");
    assert("@type"@.len() == 5 && "value"@.len() == 5);
    assert("@type"@[0] == '@' && "value"@[0] == 'v');
    assert(first_named(members, "@type"@, 0) is None);
    assert(first_named(members, "@type"@, 1) == Some(0int));
    crate::json::de::lemma_first_named_stays(members, "@type"@, 1, members.len());
    if members.len() == 2 && members[1].0 == "value"@ {
        assert(first_named(members, "value"@, 0) is None);
        assert(first_named(members, "value"@, 1) is None);
    }
}

/// The type of an `Any` is a well-known one, and not another.
proof fn lemma_any_name(full_name: Seq<char>)
    requires
        full_name == "google.protobuf.Any"@,
    ensures
        well_known_type(full_name),
        full_name != "google.protobuf.Duration"@,
        full_name != "google.protobuf.Timestamp"@,
        full_name != "google.protobuf.Empty"@,
{
    reveal_strlit("google.protobuf.Any");
    reveal_strlit("google.protobuf.Duration");
    reveal_strlit("google.protobuf.Timestamp");
    reveal_strlit("google.protobuf.Empty");
    assert("google.protobuf.Any"@.len() == 19);
    assert("google.protobuf.Duration"@.len() == 24);
    assert("google.protobuf.Timestamp"@.len() == 25);
    assert("google.protobuf.Empty"@.len() == 21);
}

/// An `Any` that is kept is written as the JSON of its payload with the
/// type URL.
#[verifier::spinoff_prover]
proof fn lemma_any_written<'a>(m: MessageView<'a>, payload: MessageView<'a>, written: SerializeOptions)
    requires
        any_kept(m, payload, written),
    ensures
        json_of_message(m, written) == json_of_any(
            held_text(m.fields, 1)->Some_0,
            payload,
            written.nested(),
        ),
{
    written.lemma_nested();
    lemma_any_name(m.desc.full_name_spec());
    assert(json_of_message(m, written) == json_of_well_known(m, written));
    assert(json_of_well_known(m, written) == json_of_any_held(m, written));
}

/// An `Any` is read from the object that holds its type URL and its
/// payload.
#[verifier::spinoff_prover]
proof fn lemma_any_read<'a>(j: JsonView, desc: MessageDescriptorRef<'a>, read: DeserializeOptions)
    requires
        desc.full_name_spec() == "google.protobuf.Any"@,
    ensures
        message_of_json(j, desc, read) == any_of_json(j, desc, read),
{
    lemma_any_name(desc.full_name_spec());
    assert(message_of_json(j, desc, read) == well_known_of_json(j, desc, read));
}

/// A payload of a well-known type is read back from the member `value`.
#[verifier::spinoff_prover]
proof fn lemma_known_payload_read<'a>(
    desc: MessageDescriptorRef<'a>,
    url: Seq<char>,
    payload: MessageView<'a>,
    inner: SerializeOptions,
    read: DeserializeOptions,
)
    requires
        payload_type(desc.pool(), url) == Some(payload.desc),
        well_known_type(payload.desc.full_name_spec()),
        known_kept(payload, inner),
        json_of_message(payload, inner) is Ok,
    ensures
        any_of_json(
            JsonView::Object(
                seq![
                    ("@type"@, JsonView::String(url)),
                    ("value"@, json_of_message(payload, inner)->Ok_0),
                ],
            ),
            desc,
            read,
        ) == any_of_payload(desc, url, Ok(payload)),
{
    let pj = json_of_message(payload, inner)->Ok_0;
    let members = seq![("@type"@, JsonView::String(url)), ("value"@, pj)];
    let j = JsonView::Object(members);
    lemma_first_members(members);
    lemma_known_reads_back(payload, inner, read);
    assert(j->Object_0[1].1 == pj);
}

/// A payload of no well-known type is read back from the members beside
/// `@type`.
#[verifier::spinoff_prover]
proof fn lemma_plain_payload_read<'a>(
    desc: MessageDescriptorRef<'a>,
    url: Seq<char>,
    payload: MessageView<'a>,
    inner: SerializeOptions,
    read: DeserializeOptions,
)
    requires
        payload_type(desc.pool(), url) == Some(payload.desc),
        !well_known_type(payload.desc.full_name_spec()),
        inner.skips_default_fields(),
        payload_kept(payload, inner),
        json_of_message(payload, inner) is Ok,
    ensures
        json_of_message(payload, inner)->Ok_0 is Object,
        any_of_json(
            JsonView::Object(
                seq![("@type"@, JsonView::String(url))] + json_of_message(
                    payload,
                    inner,
                )->Ok_0->Object_0,
            ),
            desc,
            read,
        ) == any_of_payload(desc, url, Ok(payload)),
{
    let pj = json_of_message(payload, inner)->Ok_0;
    assert(message_kept(payload, inner)) by {
        if known_kept(payload, inner) {
            crate::json::known_laws::lemma_known_is_well_known(payload, inner);
        }
    }
    law_message_reads_back(payload, inner, read);
    let walk = walk_of(payload.fields, payload.desc);
    assert(json_of_members(payload, inner) == json_of_walk(payload, walk.len(), inner));
    let held = pj->Object_0;
    assert(pj == JsonView::Object(held));
    let members = seq![("@type"@, JsonView::String(url))] + held;
    let j = JsonView::Object(members);
    lemma_first_members(members);
    assert forall|p: int| 0 <= p < held.len() implies (#[trigger] held[p]).0 != "@type"@ by {
        lemma_members_are_items(payload, walk.len(), inner, p);
        let q = choose|q: int|
            0 <= q < walk.len() && written_name(#[trigger] walk[q], inner) == Some(held[p].0);
        lemma_walk_items(payload, 0x1_0000_0000, q);
    }
    lemma_payload_fields(held, JsonView::String(url), held.len(), payload.desc, read);
    assert(message_of_json(pj, payload.desc, read) == object_of_json(pj, payload.desc, read));
    assert(payload_of_json(j, payload.desc, read) == Ok::<MessageView<'a>, DeserializeError>(
        payload,
    ));
}

/// An `Any` that is kept is read back as it was from what is written for
/// it.
pub proof fn law_any_reads_back<'a>(
    m: MessageView<'a>,
    payload: MessageView<'a>,
    written: SerializeOptions,
    read: DeserializeOptions,
)
    requires
        any_kept(m, payload, written),
    ensures
        json_of_message(m, written) matches Ok(j) ==> message_of_json(j, m.desc, read) == Ok::<
            MessageView<'a>,
            DeserializeError,
        >(m),
{
    let desc = m.desc;
    let url = held_text(m.fields, 1)->Some_0;
    let inner = written.nested();
    written.lemma_nested();
    lemma_any_written(m, payload, written);
    if json_of_message(m, written) is Ok {
        let j = json_of_message(m, written)->Ok_0;
        lemma_any_read(j, desc, read);
        if well_known_type(payload.desc.full_name_spec()) {
            assert(known_kept(payload, inner)) by {
                if message_kept(payload, inner) {
                    assert(!well_known_type(payload.desc.full_name_spec()));
                }
            }
            lemma_known_payload_read(desc, url, payload, inner, read);
        } else {
            lemma_plain_payload_read(desc, url, payload, inner, read);
        }
    }
}

/// An `Any` that holds the binary form of a payload, as it is written for
/// the payload, is read back as it was from what is written for it, where
/// the payload is one that is read back from its binary form.
pub proof fn law_any_of_written_payload_reads_back<'a>(
    m: MessageView<'a>,
    payload: MessageView<'a>,
    written: SerializeOptions,
    read: DeserializeOptions,
)
    requires
        m.desc.full_name_spec() == "google.protobuf.Any"@,
        written.skips_default_fields(),
        written.any_nesting_limit() > 0,
        held_text(m.fields, 1) matches Some(url) && payload_type(m.desc.pool(), url) == Some(
            payload.desc,
        ),
        crate::wire::round_trip::wire_kept(payload),
        wire_of_message(payload) matches Some(bytes) && bytes.len() <= usize::MAX && held_bytes(
            m.fields,
            2,
        ) == Some(bytes) && any_holding(m.desc, held_text(m.fields, 1)->Some_0, bytes) == Ok::<
            MessageView<'a>,
            DeserializeError,
        >(m),
        payload_kept(payload, written.nested()),
    ensures
        json_of_message(m, written) matches Ok(j) ==> message_of_json(j, m.desc, read) == Ok::<
            MessageView<'a>,
            DeserializeError,
        >(m),
{
    crate::wire::round_trip::law_wire_reads_back(payload);
    law_any_reads_back(m, payload, written, read);
}

} // verus!
