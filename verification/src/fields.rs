//! The store of a message's fields.

use std::borrow::Cow;
use std::collections::BTreeMap;
use vstd::prelude::*;
use vstd::std_specs::btree::spec_btree_map_iter;
use vstd::std_specs::iter::IteratorSpec;
use crate::order::lemma_keys_ascend;
use crate::descriptor::{
    ExtensionDescriptorRef, FieldDescriptorRef, KindRef, MessageDescriptorRef, OneofDescriptorRef,
};
use crate::unknown::{unknown_views, UnknownField};
use crate::value::{
    default_value_spec, is_default_value_spec, valid_value_spec, value_view, EntryView, Value,
    ValueView,
};

verus! {

/// What the store asks of the declaration of a field, ordinary or extension.
pub trait FieldDescriptorLike<'a>: Copy {
    /// The number of the field.
    spec fn number_spec(&self) -> u32;

    /// The declared kind of the field.
    spec fn kind_spec(&self) -> KindRef<'a>;

    /// The field holds a list.
    spec fn is_list_spec(&self) -> bool;

    /// The field holds a map.
    spec fn is_map_spec(&self) -> bool;

    /// The field distinguishes being unset from holding its default value.
    spec fn supports_presence_spec(&self) -> bool;

    /// The oneof group that the field belongs to.
    spec fn containing_oneof_spec(&self) -> Option<OneofDescriptorRef<'a>>;

    /// The field is encoded as a group.
    spec fn is_group_spec(&self) -> bool;

    /// The field is encoded packed.
    spec fn is_packed_spec(&self) -> bool;

    fn number(&self) -> (r: u32)
        ensures
            r == self.number_spec(),
    ;

    fn default_value(&self) -> (r: Value<'a>)
        ensures
            r@ == default_value_spec(self.kind_spec(), self.is_list_spec(), self.is_map_spec()),
    ;

    fn is_default_value(&self, value: &Value<'a>) -> (r: bool)
        ensures
            r == is_default_value_spec(
                value@,
                self.kind_spec(),
                self.is_list_spec(),
                self.is_map_spec(),
            ),
    ;

    fn is_valid(&self, value: &Value<'a>) -> (r: bool)
        ensures
            r == valid_value_spec(
                value@,
                self.kind_spec(),
                self.is_list_spec(),
                self.is_map_spec(),
            ),
    ;

    fn containing_oneof(&self) -> (r: Option<OneofDescriptorRef<'a>>)
        ensures
            r == self.containing_oneof_spec(),
            r matches Some(o) ==> o.wf(),
    ;

    fn supports_presence(&self) -> (r: bool)
        ensures
            r == self.supports_presence_spec(),
    ;

    fn kind(&self) -> (r: KindRef<'a>)
        ensures
            r == self.kind_spec(),
            r.wf(),
    ;

    fn is_group(&self) -> (r: bool)
        ensures
            r == self.is_group_spec(),
    ;

    fn is_list(&self) -> (r: bool)
        ensures
            r == self.is_list_spec(),
    ;

    fn is_map(&self) -> (r: bool)
        ensures
            r == self.is_map_spec(),
    ;

    fn is_packed(&self) -> (r: bool)
        ensures
            r == self.is_packed_spec(),
    ;

    fn is_packable(&self) -> (r: bool)
        ensures
            r == self.kind_spec().packable(),
    ;

    /// Whether a field that holds `value` counts as set: always where the
    /// field tracks presence, else when the value differs from the default.
    fn has(&self, value: &Value<'a>) -> (r: bool)
        ensures
            r == (self.supports_presence_spec() || !is_default_value_spec(
                value@,
                self.kind_spec(),
                self.is_list_spec(),
                self.is_map_spec(),
            )),
    {
        self.supports_presence() || !self.is_default_value(value)
    }
}

/// The value that the field has when it is not set.
pub open spec fn default_of<'a, D: FieldDescriptorLike<'a>>(desc: D) -> ValueView<'a> {
    default_value_spec(desc.kind_spec(), desc.is_list_spec(), desc.is_map_spec())
}

/// `v` is a value that the field may hold.
pub open spec fn valid_for<'a, D: FieldDescriptorLike<'a>>(desc: D, v: ValueView<'a>) -> bool {
    valid_value_spec(v, desc.kind_spec(), desc.is_list_spec(), desc.is_map_spec())
}

/// A field that holds `v` counts as set.
pub open spec fn counts_as_set<'a, D: FieldDescriptorLike<'a>>(desc: D, v: ValueView<'a>) -> bool {
    desc.supports_presence_spec() || !is_default_value_spec(
        v,
        desc.kind_spec(),
        desc.is_list_spec(),
        desc.is_map_spec(),
    )
}

/// The numbers of the other members of the field's oneof group; empty for a
/// field outside any oneof.
pub open spec fn oneof_siblings<'a, D: FieldDescriptorLike<'a>>(desc: D) -> Set<u32> {
    match desc.containing_oneof_spec() {
        Some(oneof) => oneof.numbers().remove(desc.number_spec()),
        None => Set::empty(),
    }
}

/// What the store holds for one field number.
#[derive(Debug, PartialEq)]
pub enum ValueOrUnknown<'a> {
    /// The decoded value of the field.
    Value(Value<'a>),
    /// The entries read for a number that was not decoded, in the order they
    /// were read.
    Unknown(Vec<UnknownField>),
}

/// The fields of one message, by number: for each number a decoded value or
/// the undecoded entries read for it.
#[derive(Debug, PartialEq)]
pub struct DynamicMessageFieldSet<'a> {
    fields: BTreeMap<u32, ValueOrUnknown<'a>>,
}

/// One item of a walk over a store.
#[derive(Debug)]
pub enum ValueAndDescriptor<'s, 'a> {
    Field(&'s Value<'a>, FieldDescriptorRef<'a>),
    Extension(&'s Value<'a>, ExtensionDescriptorRef<'a>),
    Unknown(u32, &'s [UnknownField]),
}

/// What an item of a walk holds.
pub enum ItemView<'a> {
    Field(ValueView<'a>, FieldDescriptorRef<'a>),
    Extension(ValueView<'a>, ExtensionDescriptorRef<'a>),
    Unknown(u32, Seq<Seq<u8>>),
}

impl<'s, 'a> View for ValueAndDescriptor<'s, 'a> {
    type V = ItemView<'a>;

    open spec fn view(&self) -> ItemView<'a> {
        match *self {
            ValueAndDescriptor::Field(value, field) => ItemView::Field(value@, field),
            ValueAndDescriptor::Extension(value, extension) => ItemView::Extension(
                value@,
                extension,
            ),
            ValueAndDescriptor::Unknown(number, unknowns) => ItemView::Unknown(
                number,
                unknown_views(unknowns@),
            ),
        }
    }
}

impl<'a> ItemView<'a> {
    /// The field number that the item stands under.
    pub open spec fn number(&self) -> u32 {
        match *self {
            ItemView::Field(_, field) => field.data().number,
            ItemView::Extension(_, extension) => extension.data().number,
            ItemView::Unknown(number, _) => number,
        }
    }
}

/// What an entry of the store holds.
pub open spec fn entry_view<'a>(e: ValueOrUnknown<'a>) -> EntryView<'a>
    decreases e,
{
    match e {
        ValueOrUnknown::Value(v) => EntryView::Value(value_view(v)),
        ValueOrUnknown::Unknown(entries) => EntryView::Unknown(unknown_views(entries@)),
    }
}

/// What the store holds, by field number.
pub closed spec fn store_view<'a>(s: DynamicMessageFieldSet<'a>) -> Map<u32, EntryView<'a>>
    decreases s,
{
    Map::new(
        |n: u32| s.fields@.contains_key(n),
        |n: u32|
            if s.fields@.contains_key(n) {
                entry_view(s.fields@[n])
            } else {
                EntryView::Unknown(Seq::empty())
            },
    )
}

impl<'a> View for ValueOrUnknown<'a> {
    type V = EntryView<'a>;

    open spec fn view(&self) -> EntryView<'a> {
        entry_view(*self)
    }
}

impl<'a> View for DynamicMessageFieldSet<'a> {
    type V = Map<u32, EntryView<'a>>;

    open spec fn view(&self) -> Map<u32, EntryView<'a>> {
        store_view(*self)
    }
}

/// The decoded value that the store holds under `number`, if it holds one.
pub open spec fn decoded<'a>(m: Map<u32, EntryView<'a>>, number: u32) -> Option<ValueView<'a>> {
    if m.contains_key(number) && m[number] is Value {
        Some(m[number]->Value_0)
    } else {
        None
    }
}

/// The undecoded entries that the store holds under `number`; none where it
/// holds a decoded value or nothing.
pub open spec fn unknown_at<'a>(m: Map<u32, EntryView<'a>>, number: u32) -> Seq<Seq<u8>> {
    if m.contains_key(number) && m[number] is Unknown {
        m[number]->Unknown_0
    } else {
        Seq::empty()
    }
}

/// The field is set: the store holds a decoded value for it, and that value
/// counts as set.
pub open spec fn has_spec<'a, D: FieldDescriptorLike<'a>>(m: Map<u32, EntryView<'a>>, desc: D) -> bool {
    decoded(m, desc.number_spec()) matches Some(v) && counts_as_set(desc, v)
}

/// The value of the field: the decoded value that the store holds for it, or
/// else the field's default.
pub open spec fn get_spec<'a, D: FieldDescriptorLike<'a>>(
    m: Map<u32, EntryView<'a>>,
    desc: D,
) -> ValueView<'a> {
    match decoded(m, desc.number_spec()) {
        Some(v) => v,
        None => default_of(desc),
    }
}

/// The store without the entries of the other members of the field's oneof
/// group.
pub open spec fn clear_oneof_spec<'a, D: FieldDescriptorLike<'a>>(
    m: Map<u32, EntryView<'a>>,
    desc: D,
) -> Map<u32, EntryView<'a>> {
    m.remove_keys(oneof_siblings(desc))
}

/// The store after `v` is written to the field: the field's oneof siblings
/// are gone, and the field's number holds `v`, decoded.
pub open spec fn set_spec<'a, D: FieldDescriptorLike<'a>>(
    m: Map<u32, EntryView<'a>>,
    desc: D,
    v: ValueView<'a>,
) -> Map<u32, EntryView<'a>> {
    clear_oneof_spec(m, desc).insert(desc.number_spec(), EntryView::Value(v))
}

/// The store without an entry for the field's number.
pub open spec fn clear_spec<'a, D: FieldDescriptorLike<'a>>(
    m: Map<u32, EntryView<'a>>,
    desc: D,
) -> Map<u32, EntryView<'a>> {
    m.remove(desc.number_spec())
}

/// The store after one more undecoded entry was read for `number`: the entry
/// stands behind those read before.
pub open spec fn add_unknown_spec<'a>(m: Map<u32, EntryView<'a>>, number: u32, entry: Seq<u8>) -> Map<
    u32,
    EntryView<'a>,
> {
    m.insert(number, EntryView::Unknown(unknown_at(m, number).push(entry)))
}

/// The item that a walk yields for what the store holds under `number`, read
/// by the declarations of `message`: the undecoded entries as they are; or the
/// decoded value with the field of that number, or else with the extension of
/// that number, where the value counts as set. Nothing is yielded for a value
/// that does not count as set.
pub open spec fn item_of_entry<'a>(
    entry: EntryView<'a>,
    message: MessageDescriptorRef<'a>,
    number: u32,
) -> Option<ItemView<'a>> {
    match entry {
        EntryView::Unknown(entries) => Some(ItemView::Unknown(number, entries)),
        EntryView::Value(v) => match message.field_index(number) {
            Some(i) => {
                let field = FieldDescriptorRef::at(message, i as usize);
                if counts_as_set(field, v) {
                    Some(ItemView::Field(v, field))
                } else {
                    None
                }
            },
            None => match message.extension_index(number) {
                Some(j) => {
                    let extension = ExtensionDescriptorRef::at(message.pool(), j as usize);
                    if counts_as_set(extension, v) {
                        Some(ItemView::Extension(v, extension))
                    } else {
                        None
                    }
                },
                None => None,
            },
        },
    }
}

/// The item that a walk over the store yields for `number`; nothing for a
/// number that the store does not hold.
pub open spec fn item_at<'a>(
    m: Map<u32, EntryView<'a>>,
    message: MessageDescriptorRef<'a>,
    number: u32,
) -> Option<ItemView<'a>> {
    if m.contains_key(number) {
        item_of_entry(m[number], message, number)
    } else {
        None
    }
}

/// `items` is the walk over the store: the items that the store yields, each
/// once, in ascending order of their field numbers.
pub open spec fn is_walk<'a>(
    items: Seq<ItemView<'a>>,
    m: Map<u32, EntryView<'a>>,
    message: MessageDescriptorRef<'a>,
) -> bool {
    &&& forall|i: int, j: int|
        0 <= i < j < items.len() ==> (#[trigger] items[i]).number() < (#[trigger] items[j]).number()
    &&& forall|i: int|
        0 <= i < items.len() ==> item_at(m, message, (#[trigger] items[i]).number()) == Some(
            items[i],
        )
    &&& forall|n: u32|
        item_at(m, message, n) is Some ==> exists|i: int|
            0 <= i < items.len() && (#[trigger] items[i]).number() == n
}

/// What the items of a walk hold, in order.
pub open spec fn item_views<'s, 'a>(items: Seq<ValueAndDescriptor<'s, 'a>>) -> Seq<ItemView<'a>> {
    Seq::new(items.len(), |i: int| items[i]@)
}

/// Every decoded value of the store stands under a number that `message`
/// declares, as a field or as an extension.
pub open spec fn all_declared<'a>(m: Map<u32, EntryView<'a>>, message: MessageDescriptorRef<'a>) -> bool {
    forall|n: u32| decoded(m, n) is Some ==> message.declares(n)
}

/// The items that the store yields for the numbers below `n`, in ascending
/// order of those numbers.
pub open spec fn walk_below<'a>(
    m: Map<u32, EntryView<'a>>,
    message: MessageDescriptorRef<'a>,
    n: nat,
) -> Seq<ItemView<'a>>
    decreases n,
{
    if n == 0 {
        Seq::empty()
    } else {
        let front = walk_below(m, message, (n - 1) as nat);
        match item_at(m, message, (n - 1) as u32) {
            Some(item) => front.push(item),
            None => front,
        }
    }
}

/// The walk over the store: the items that it yields, in ascending order of
/// their field numbers.
pub open spec fn walk_of<'a>(m: Map<u32, EntryView<'a>>, message: MessageDescriptorRef<'a>) -> Seq<
    ItemView<'a>,
> {
    walk_below(m, message, 0x1_0000_0000)
}

/// `out` is the walk over what the store holds under the first `at` of
/// `keys`, and stands below the other keys.
#[verifier::opaque]
pub closed spec fn walked_upto<'a>(
    out: Seq<ItemView<'a>>,
    m: Map<u32, EntryView<'a>>,
    message: MessageDescriptorRef<'a>,
    keys: Seq<u32>,
    at: int,
) -> bool {
    &&& forall|i: int, j: int|
        0 <= i < j < out.len() ==> (#[trigger] out[i]).number() < (#[trigger] out[j]).number()
    &&& forall|i: int|
        0 <= i < out.len() ==> item_at(m, message, (#[trigger] out[i]).number()) == Some(out[i])
    &&& forall|i: int, k: int|
        0 <= i < out.len() && at <= k < keys.len() ==> (#[trigger] out[i]).number() < #[trigger] keys[k]
    &&& forall|k: int|
        0 <= k < at && k < keys.len() && item_at(m, message, #[trigger] keys[k]) is Some
            ==> exists|i: int| 0 <= i < out.len() && (#[trigger] out[i]).number() == keys[k]
}

/// The keys of the entries, in their order.
pub open spec fn keys_of<V>(entries: Seq<(&u32, &V)>) -> Seq<u32> {
    Seq::new(entries.len(), |k: int| *entries[k].0)
}

proof fn lemma_walk_starts<'a>(
    m: Map<u32, EntryView<'a>>,
    message: MessageDescriptorRef<'a>,
    keys: Seq<u32>,
)
    ensures
        walked_upto(Seq::<ItemView<'a>>::empty(), m, message, keys, 0),
{
    reveal(walked_upto);
}

/// One step of a walk: the item under the next key, where there is one, is
/// added behind those walked so far.
proof fn lemma_walk_step<'a>(
    out: Seq<ItemView<'a>>,
    m: Map<u32, EntryView<'a>>,
    message: MessageDescriptorRef<'a>,
    keys: Seq<u32>,
    at: int,
)
    requires
        walked_upto(out, m, message, keys, at),
        0 <= at < keys.len(),
        forall|a: int, b: int| 0 <= a < b < keys.len() ==> #[trigger] keys[a] < #[trigger] keys[b],
    ensures
        match item_at(m, message, keys[at]) {
            Some(item) => item.number() == keys[at] ==> walked_upto(
                out.push(item),
                m,
                message,
                keys,
                at + 1,
            ),
            None => walked_upto(out, m, message, keys, at + 1),
        },
{
    reveal(walked_upto);
    match item_at(m, message, keys[at]) {
        Some(item) => {
            if item.number() == keys[at] {
                let next = out.push(item);
                let last = out.len() as int;
                assert(forall|i: int| 0 <= i < last ==> next[i] == out[i]);
                assert(next[last] == item);
                assert forall|k: int|
                    0 <= k < at + 1 && k < keys.len() && item_at(m, message, #[trigger] keys[k])
                        is Some implies exists|i: int|
                    0 <= i < next.len() && (#[trigger] next[i]).number() == keys[k] by {
                    if k < at {
                        let i = choose|i: int|
                            0 <= i < out.len() && (#[trigger] out[i]).number() == keys[k];
                        assert(next[i].number() == keys[k]);
                    } else {
                        assert(next[last].number() == keys[k]);
                    }
                }
                assert forall|i: int, j: int| 0 <= i < j < next.len() implies (#[trigger] next[i]).number()
                    < (#[trigger] next[j]).number() by {
                    if j == last {
                        assert(out[i].number() < keys[at]);
                    }
                }
                assert forall|i: int, k: int|
                    0 <= i < next.len() && at + 1 <= k < keys.len() implies (#[trigger] next[i]).number()
                    < #[trigger] keys[k] by {
                    if i == last {
                        assert(keys[at] < keys[k]);
                    } else {
                        assert(out[i].number() < keys[k]);
                    }
                }
            }
        },
        None => {},
    }
}

/// A walk over all keys of the store is the walk over the store.
proof fn lemma_walk_ends<'a>(
    out: Seq<ItemView<'a>>,
    m: Map<u32, EntryView<'a>>,
    message: MessageDescriptorRef<'a>,
    keys: Seq<u32>,
)
    requires
        walked_upto(out, m, message, keys, keys.len() as int),
        forall|n: u32| m.contains_key(n) ==> keys.contains(n),
    ensures
        is_walk(out, m, message),
{
    reveal(walked_upto);
    assert forall|n: u32| item_at(m, message, n) is Some implies exists|i: int|
        0 <= i < out.len() && (#[trigger] out[i]).number() == n by {
        assert(keys.contains(n));
        let k = choose|k: int| 0 <= k < keys.len() && keys[k] == n;
        assert(item_at(m, message, keys[k]) is Some);
    }
}

/// The items of a walk that stand below `n` are the first items of the walk,
/// and they are what the store yields below `n`. The result is their count.
pub proof fn lemma_walk_below<'a>(
    items: Seq<ItemView<'a>>,
    m: Map<u32, EntryView<'a>>,
    message: MessageDescriptorRef<'a>,
    n: nat,
) -> (count: int)
    requires
        is_walk(items, m, message),
        n <= 0x1_0000_0000,
    ensures
        0 <= count <= items.len(),
        walk_below(m, message, n) == items.subrange(0, count),
        forall|i: int| 0 <= i < count ==> (#[trigger] items[i]).number() < n,
        forall|i: int| count <= i < items.len() ==> (#[trigger] items[i]).number() >= n,
    decreases n,
{
    if n == 0 {
        assert(walk_below(m, message, n) =~= items.subrange(0, 0));
        0
    } else {
        let before = lemma_walk_below(items, m, message, (n - 1) as nat);
        let number = (n - 1) as u32;
        match item_at(m, message, number) {
            Some(item) => {
                let i = choose|i: int| 0 <= i < items.len() && (#[trigger] items[i]).number() == number;
                assert(i >= before);
                if i > before {
                    assert(items[before].number() < items[i].number());
                    assert(items[before].number() >= n - 1);
                }
                assert(items[before] == item);
                assert(items.subrange(0, before).push(item) =~= items.subrange(0, before + 1));
                assert forall|k: int| before + 1 <= k < items.len() implies (#[trigger] items[k]).number()
                    >= n by {
                    assert(items[before].number() < items[k].number());
                }
                before + 1
            },
            None => {
                assert forall|k: int| before <= k < items.len() implies (#[trigger] items[k]).number()
                    >= n by {
                    if items[k].number() == number {
                        assert(item_at(m, message, items[k].number()) == Some(items[k]));
                    }
                }
                before
            },
        }
    }
}

/// The store has one walk: the items that it yields under each number, in
/// ascending order of the numbers.
pub proof fn law_walk_is_determined<'a>(
    items: Seq<ItemView<'a>>,
    m: Map<u32, EntryView<'a>>,
    message: MessageDescriptorRef<'a>,
)
    requires
        is_walk(items, m, message),
    ensures
        items == walk_of(m, message),
{
    let count = lemma_walk_below(items, m, message, 0x1_0000_0000);
    if count < items.len() {
        assert(items[count].number() >= 0x1_0000_0000);
    }
    assert(items.subrange(0, count) =~= items);
}

/// The item that a walk yields for `entry`, held under `number`; the outer
/// `None` for a decoded value under a number that `message` does not declare.
fn item_of<'s, 'a>(
    number: u32,
    entry: &'s ValueOrUnknown<'a>,
    message: MessageDescriptorRef<'a>,
) -> (r: Option<Option<ValueAndDescriptor<'s, 'a>>>)
    ensures
        match r {
            Some(Some(item)) => item_of_entry(entry@, message, number) == Some(item@)
                && item@.number() == number,
            Some(None) => item_of_entry(entry@, message, number) is None,
            None => entry@ is Value && !message.declares(number),
        },
        r is Some ==> (entry@ is Value ==> message.declares(number)),
{
    broadcast use {
        FieldDescriptorRef::lemma_at,
        FieldDescriptorRef::lemma_at_parts,
        ExtensionDescriptorRef::lemma_at,
        ExtensionDescriptorRef::lemma_at_parts,
    };

    match entry {
        ValueOrUnknown::Value(value) => {
            if let Some(field) = message.get_field(number) {
                if field.has(value) {
                    Some(Some(ValueAndDescriptor::Field(value, field)))
                } else {
                    Some(None)
                }
            } else if let Some(extension) = message.get_extension(number) {
                if extension.has(value) {
                    Some(Some(ValueAndDescriptor::Extension(value, extension)))
                } else {
                    Some(None)
                }
            } else {
                None
            }
        },
        ValueOrUnknown::Unknown(unknowns) => Some(
            Some(ValueAndDescriptor::Unknown(number, unknowns.as_slice())),
        ),
    }
}

/// `BTreeMap::get_mut` on a store's map: a mutable reference to the entry
/// under `key`, through which the map changes at that key and nowhere else,
/// or `None` for a key that the map does not hold.
#[verifier::external_body]
fn map_get_mut<'s, 'a>(map: &'s mut BTreeMap<u32, ValueOrUnknown<'a>>, key: u32) -> (r: Option<
    &'s mut ValueOrUnknown<'a>,
>)
    ensures
        match r {
            Some(entry) => old(map)@.contains_key(key) && *entry == old(map)@[key] && final(map)@
                == old(map)@.insert(key, *final(entry)),
            None => !old(map)@.contains_key(key) && final(map)@ == old(map)@,
        },
{
    map.get_mut(&key)
}

impl<'a> Clone for ValueOrUnknown<'a> {
    fn clone(&self) -> (r: Self)
        ensures
            r@ == self@,
        decreases self,
    {
        match self {
            ValueOrUnknown::Value(value) => ValueOrUnknown::Value(value.clone()),
            ValueOrUnknown::Unknown(unknowns) => {
                let mut out: Vec<UnknownField> = Vec::new();
                let mut i: usize = 0;
                while i < unknowns.len()
                    invariant
                        i <= unknowns.len(),
                        out@.len() == i,
                        forall|k: int| 0 <= k < i ==> (#[trigger] out@[k])@ == unknowns@[k]@,
                    decreases unknowns.len() - i,
                {
                    out.push(unknowns[i].clone());
                    i += 1;
                }
                assert(unknown_views(out@) =~= unknown_views(unknowns@));
                ValueOrUnknown::Unknown(out)
            },
        }
    }
}

impl<'a> Clone for DynamicMessageFieldSet<'a> {
    fn clone(&self) -> (r: Self)
        ensures
            r@ == self@,
        decreases self,
    {
        let mut fields: BTreeMap<u32, ValueOrUnknown<'a>> = BTreeMap::new();
        for kv in it: self.fields.iter()
            invariant
                it.seq() == spec_btree_map_iter(&self.fields).remaining(),
                forall|n: u32|
                    fields@.contains_key(n) <==> exists|k: int|
                        0 <= k < it.index() && *(#[trigger] it.seq()[k]).0 == n,
                forall|n: u32|
                    fields@.contains_key(n) ==> self.fields@.contains_key(n) && (#[trigger] fields@[n])@
                        == self.fields@[n]@,
        {
            let number: u32 = *kv.0;
            let entry = kv.1;
            proof {
                assert(kv == it.seq()[it.index()]);
                assert(self.fields@.contains_key(*kv.0) && self.fields@[*kv.0] == *kv.1);
            }
            let copy = entry.clone();
            fields.insert(number, copy);
        }
        let r = DynamicMessageFieldSet { fields };
        assert(r@ =~= self@);
        r
    }
}

impl<'a> Default for DynamicMessageFieldSet<'a> {
    fn default() -> (r: Self)
        ensures
            r@ == Map::<u32, EntryView<'a>>::empty(),
    {
        DynamicMessageFieldSet::new()
    }
}

impl<'a> ValueOrUnknown<'a> {
    /// The decoded value of an entry that holds one.
    pub fn unwrap_value_mut(&mut self) -> (r: &mut Value<'a>)
        requires
            *old(self) is Value,
        ensures
            *r == old(self)->Value_0,
            *final(self) == ValueOrUnknown::Value(*final(r)),
    {
        match self {
            ValueOrUnknown::Value(value) => value,
            ValueOrUnknown::Unknown(_) => vstd::pervasive::unreached(),
        }
    }
}

impl<'a> DynamicMessageFieldSet<'a> {
    /// A store that holds nothing.
    pub fn new() -> (r: DynamicMessageFieldSet<'a>)
        ensures
            r@ == Map::<u32, EntryView<'a>>::empty(),
    {
        let r = DynamicMessageFieldSet { fields: BTreeMap::new() };
        assert(r@ =~= Map::empty());
        r
    }

    /// Whether the store holds nothing.
    pub fn is_empty(&self) -> (r: bool)
        ensures
            r == (self@ == Map::<u32, EntryView<'a>>::empty()),
    {
        let r = self.fields.is_empty();
        proof {
            if r {
                assert(self@ =~= Map::empty());
            } else {
                let n = choose|n: u32| self.fields@.contains_key(n);
                assert(self@.contains_key(n));
            }
        }
        r
    }

    /// The decoded value held under `number`, if one is.
    pub fn get_value(&self, number: u32) -> (r: Option<&Value<'a>>)
        ensures
            match r {
                Some(value) => decoded(self@, number) == Some(value@),
                None => decoded(self@, number) is None,
            },
    {
        match self.fields.get(&number) {
            Some(ValueOrUnknown::Value(value)) => Some(value),
            Some(ValueOrUnknown::Unknown(_)) | None => None,
        }
    }

    /// Whether the field is set.
    pub fn has<D: FieldDescriptorLike<'a>>(&self, desc: D) -> (r: bool)
        ensures
            r == has_spec(self@, desc),
    {
        match self.get_value(desc.number()) {
            Some(value) => desc.has(value),
            None => false,
        }
    }

    /// The value of the field: the one held for it, or else its default.
    pub fn get<D: FieldDescriptorLike<'a>>(&self, desc: D) -> (r: Cow<'_, Value<'a>>)
        ensures
            r@ == get_spec(self@, desc),
    {
        match self.get_value(desc.number()) {
            Some(value) => Cow::Borrowed(value),
            None => Cow::Owned(desc.default_value()),
        }
    }

    /// A mutable reference to the value of the field. The other members of
    /// the field's oneof group are cleared first; a field that holds no
    /// decoded value is then given its default, in place of any undecoded
    /// entries.
    pub fn get_mut<D: FieldDescriptorLike<'a>>(&mut self, desc: D) -> (r: &mut Value<'a>)
        ensures
            r@ == get_spec(old(self)@, desc),
            final(self)@ == set_spec(old(self)@, desc, final(r)@),
    {
        self.clear_oneof_fields(desc);
        let number = desc.number();
        assert(decoded(self@, number) == decoded(old(self)@, number));
        let absent = match self.fields.get(&number) {
            Some(ValueOrUnknown::Value(_)) => false,
            Some(ValueOrUnknown::Unknown(_)) | None => true,
        };
        if absent {
            self.fields.insert(number, ValueOrUnknown::Value(desc.default_value()));
        }
        assert(self@ =~= set_spec(old(self)@, desc, get_spec(old(self)@, desc)));
        assert(self.fields@[number] is Value);
        assert(self.fields@[number]->Value_0@ == get_spec(old(self)@, desc));
        match map_get_mut(&mut self.fields, number) {
            Some(entry) => entry.unwrap_value_mut(),
            None => vstd::pervasive::unreached(),
        }
    }

    /// Writes `value` to the field. The other members of the field's oneof
    /// group are cleared, and whatever the store held for the field is
    /// replaced.
    pub fn set<D: FieldDescriptorLike<'a>>(&mut self, desc: D, value: Value<'a>)
        requires
            valid_for(desc, value@),
        ensures
            final(self)@ == set_spec(old(self)@, desc, value@),
    {
        self.clear_oneof_fields(desc);
        self.fields.insert(desc.number(), ValueOrUnknown::Value(value));
    }

    /// Clears the other members of the field's oneof group.
    pub fn clear_oneof_fields<D: FieldDescriptorLike<'a>>(&mut self, desc: D)
        ensures
            final(self)@ == clear_oneof_spec(old(self)@, desc),
    {
        let ghost start = self@;
        if let Some(oneof_desc) = desc.containing_oneof() {
            let members = oneof_desc.fields();
            let number = desc.number();
            let ghost mut cleared: Set<u32> = Set::empty();
            let mut i: usize = 0;
            while i < members.len()
                invariant
                    i <= members@.len(),
                    number == desc.number_spec(),
                    self@ == start.remove_keys(cleared),
                    forall|n: u32|
                        cleared.contains(n) <==> n != number && exists|k: int|
                            0 <= k < i && (#[trigger] members@[k]).data().number == n,
                decreases members.len() - i,
            {
                let member = members[i];
                let ghost before = cleared;
                if member.number() != number {
                    self.clear(member);
                    proof {
                        cleared = cleared.insert(member.data().number);
                    }
                }
                proof {
                    assert(self@ =~= start.remove_keys(cleared));
                    assert forall|n: u32| cleared.contains(n) <==> n != number && exists|k: int|
                        0 <= k < i + 1 && (#[trigger] members@[k]).data().number == n by {
                        if cleared.contains(n) {
                            if before.contains(n) {
                                let k = choose|k: int|
                                    0 <= k < i && (#[trigger] members@[k]).data().number == n;
                                assert(0 <= k < i + 1 && members@[k].data().number == n);
                            } else {
                                assert(members@[i as int].data().number == n);
                            }
                        }
                        if n != number && exists|k: int|
                            0 <= k < i + 1 && (#[trigger] members@[k]).data().number == n {
                            let k = choose|k: int|
                                0 <= k < i + 1 && (#[trigger] members@[k]).data().number == n;
                            if k < i {
                                assert(before.contains(n));
                            }
                        }
                    }
                }
                i += 1;
            }
            proof {
                let siblings = oneof_siblings(desc);
                assert forall|n: u32| siblings.contains(n) <==> cleared.contains(n) by {
                    if siblings.contains(n) {
                        let w = choose|w: int|
                            oneof_desc.has_member(w) && (#[trigger] oneof_desc.message().data().fields@[w]).number
                                == n;
                        let k = choose|k: int|
                            0 <= k < members@.len() && (#[trigger] members@[k]).index() == w;
                        assert(members@[k].data().number == n);
                    }
                    if cleared.contains(n) {
                        let k = choose|k: int|
                            0 <= k < members@.len() && (#[trigger] members@[k]).data().number == n;
                        let w = members@[k].index() as int;
                        assert(oneof_desc.has_member(w));
                        assert(oneof_desc.message().data().fields@[w].number == n);
                    }
                }
                assert(siblings =~= cleared);
            }
        } else {
            assert(self@ =~= start.remove_keys(oneof_siblings(desc)));
        }
    }

    /// Adds one undecoded entry for `number`, behind those added before.
    pub fn add_unknown(&mut self, number: u32, unknown: UnknownField)
        requires
            decoded(old(self)@, number) is None,
        ensures
            final(self)@ == add_unknown_spec(old(self)@, number, unknown@),
    {
        match self.fields.remove(&number) {
            Some(ValueOrUnknown::Unknown(mut unknowns)) => {
                unknowns.push(unknown);
                assert(unknown_views(unknowns@) =~= unknown_at(old(self)@, number).push(unknown@));
                self.fields.insert(number, ValueOrUnknown::Unknown(unknowns));
            },
            Some(ValueOrUnknown::Value(_)) => {
                vstd::pervasive::unreached()
            },
            None => {
                let mut unknowns: Vec<UnknownField> = Vec::new();
                unknowns.push(unknown);
                assert(unknown_views(unknowns@) =~= unknown_at(old(self)@, number).push(unknown@));
                self.fields.insert(number, ValueOrUnknown::Unknown(unknowns));
            },
        }
    }

    /// Removes whatever the store holds for the field.
    pub fn clear<D: FieldDescriptorLike<'a>>(&mut self, desc: D)
        ensures
            final(self)@ == clear_spec(old(self)@, desc),
    {
        self.fields.remove(&desc.number());
    }

    /// Walks the store in ascending order of field numbers. A decoded value is
    /// yielded with the field of `message` that carries its number or, where
    /// no field does, with the extension that does, and only where it counts
    /// as set; undecoded entries are yielded as they are. `None` where the
    /// store holds a decoded value under a number that `message` does not
    /// declare.
    pub fn try_iter<'s>(&'s self, message: MessageDescriptorRef<'a>) -> (r: Option<
        Vec<ValueAndDescriptor<'s, 'a>>,
    >)
        ensures
            match r {
                Some(items) => all_declared(self@, message) && is_walk(
                    item_views(items@),
                    self@,
                    message,
                ) && item_views(items@) == walk_of(self@, message),
                None => !all_declared(self@, message),
            },
    {
        let mut out: Vec<ValueAndDescriptor<'s, 'a>> = Vec::new();
        let entries = self.fields.iter();
        let ghost keys = keys_of(entries.remaining());
        proof {
            lemma_keys_ascend(entries.remaining());
            lemma_walk_starts(self@, message, keys);
            assert(item_views(out@) =~= Seq::<ItemView<'a>>::empty());
        }
        for kv in it: entries
            invariant
                it.seq() == spec_btree_map_iter(&self.fields).remaining(),
                keys == keys_of(it.seq()),
                forall|a: int, b: int| 0 <= a < b < keys.len() ==> #[trigger] keys[a] < #[trigger] keys[b],
                walked_upto(item_views(out@), self@, message, keys, it.index() as int),
                forall|k: int|
                    0 <= k < it.index() ==> (decoded(self@, #[trigger] keys[k]) is Some
                        ==> message.declares(keys[k])),
        {
            let number: u32 = *kv.0;
            let ghost before = item_views(out@);
            let ghost at = it.index() as int;
            proof {
                assert(kv == it.seq()[at]);
                assert(keys[at] == number);
                assert(self.fields@.contains_key(number) && self.fields@[number] == *kv.1);
                assert(self@.contains_key(number) && self@[number] == (*kv.1)@);
                lemma_walk_step(before, self@, message, keys, at);
            }
            match item_of(number, kv.1, message) {
                Some(Some(item)) => {
                    out.push(item);
                    proof {
                        assert(item_views(out@) =~= before.push(item@));
                    }
                },
                Some(None) => {},
                None => {
                    proof {
                        assert(decoded(self@, number) is Some);
                    }
                    return None;
                },
            }
        }
        proof {
            let all = spec_btree_map_iter(&self.fields).remaining();
            assert forall|n: u32| self@.contains_key(n) implies keys.contains(n) by {
                assert(self.fields@.contains_key(n));
                assert(all.contains((&n, &self.fields@[n])));
                let k = choose|k: int| 0 <= k < all.len() && all[k] == (&n, &self.fields@[n]);
                assert(keys[k] == n);
            }
            lemma_walk_ends(item_views(out@), self@, message, keys);
            law_walk_is_determined(item_views(out@), self@, message);
            assert forall|n: u32| decoded(self@, n) is Some implies message.declares(n) by {
                assert(keys.contains(n));
                let k = choose|k: int| 0 <= k < keys.len() && keys[k] == n;
                assert(decoded(self@, keys[k]) is Some);
            }
        }
        Some(out)
    }

    /// The walk of [`Self::try_iter`] over a store whose decoded values all
    /// stand under numbers that `message` declares.
    pub fn iter<'s>(&'s self, message: MessageDescriptorRef<'a>) -> (r: Vec<
        ValueAndDescriptor<'s, 'a>,
    >)
        requires
            forall|n: u32| decoded(self@, n) is Some ==> message.declares(n),
        ensures
            is_walk(item_views(r@), self@, message),
            item_views(r@) == walk_of(self@, message),
    {
        match self.try_iter(message) {
            Some(items) => items,
            None => vstd::pervasive::unreached(),
        }
    }

    /// Removes everything from the store.
    pub fn clear_all(&mut self)
        ensures
            final(self)@ == Map::<u32, EntryView<'a>>::empty(),
    {
        self.fields.clear();
    }
}

/// A field that was cleared reads as its default, and is not set.
pub proof fn law_cleared_field_reads_default<'a, D: FieldDescriptorLike<'a>>(
    m: Map<u32, EntryView<'a>>,
    desc: D,
)
    ensures
        get_spec(clear_spec(m, desc), desc) == default_of(desc),
        !has_spec(clear_spec(m, desc), desc),
{
}

/// After a value was written to a member of a oneof group, that member is
/// set and no other member of the group is.
pub proof fn law_oneof_members_exclude_each_other<'a>(
    m: Map<u32, EntryView<'a>>,
    field: FieldDescriptorRef<'a>,
    other: FieldDescriptorRef<'a>,
    v: ValueView<'a>,
)
    requires
        field.wf(),
        other.wf(),
        other.message() == field.message(),
        field.data().oneof is Some,
        other.data().oneof == field.data().oneof,
        other.index() != field.index(),
    ensures
        has_spec(set_spec(m, field, v), field),
        !has_spec(set_spec(m, field, v), other),
{
    broadcast use {OneofDescriptorRef::lemma_of, OneofDescriptorRef::lemma_of_parts};

    let message = field.message();
    let fields = message.data().fields@;
    assert(crate::descriptor::message_wf(
        message.data(),
        message.pool().messages().len() as int,
        message.pool().enums().len() as int,
    ));
    assert(crate::descriptor::field_wf(
        fields[field.index() as int],
        message.pool().messages().len() as int,
        message.pool().enums().len() as int,
    ));
    assert(fields[other.index() as int].number != fields[field.index() as int].number) by {
        if other.index() < field.index() {
            assert(fields[other.index() as int].number != fields[field.index() as int].number);
        } else {
            assert(fields[field.index() as int].number != fields[other.index() as int].number);
        }
    }
    let oneof = field.oneof()->Some_0;
    assert(oneof.has_member(other.index() as int));
    assert(oneof.numbers().contains(other.data().number));
    assert(oneof_siblings(field).contains(other.data().number));
}

/// Of each oneof group of `message`, the store holds a decoded value for at
/// most one member.
pub open spec fn oneofs_exclusive<'a>(m: Map<u32, EntryView<'a>>, message: MessageDescriptorRef<'a>) -> bool {
    let fields = message.data().fields@;
    forall|i: int, j: int|
        0 <= i < fields.len() && 0 <= j < fields.len() && i != j && (#[trigger] fields[i]).oneof
            is Some && fields[i].oneof == (#[trigger] fields[j]).oneof ==> !(decoded(
            m,
            fields[i].number,
        ) is Some && decoded(m, fields[j].number) is Some)
}

/// A write to a field of a message keeps the oneof groups of the message
/// exclusive.
pub proof fn law_write_keeps_oneofs_exclusive<'a>(
    m: Map<u32, EntryView<'a>>,
    field: FieldDescriptorRef<'a>,
    v: ValueView<'a>,
)
    requires
        field.wf(),
        oneofs_exclusive(m, field.message()),
    ensures
        oneofs_exclusive(set_spec(m, field, v), field.message()),
{
    broadcast use {OneofDescriptorRef::lemma_of, OneofDescriptorRef::lemma_of_parts};

    let message = field.message();
    let fields = message.data().fields@;
    let after = set_spec(m, field, v);
    assert(crate::descriptor::message_wf(
        message.data(),
        message.pool().messages().len() as int,
        message.pool().enums().len() as int,
    ));
    assert forall|i: int, j: int|
        0 <= i < fields.len() && 0 <= j < fields.len() && i != j && (#[trigger] fields[i]).oneof
            is Some && fields[i].oneof == (#[trigger] fields[j]).oneof implies !(decoded(
        after,
        fields[i].number,
    ) is Some && decoded(after, fields[j].number) is Some) by {
        assert(fields[i].number != fields[j].number) by {
            if i < j {
                assert(fields[i].number != fields[j].number);
            } else {
                assert(fields[j].number != fields[i].number);
            }
        }
        if fields[i].oneof == field.data().oneof {
            // the group of the written field: every other member was cleared
            let oneof = field.oneof()->Some_0;
            if i != field.index() {
                assert(fields[i].number != fields[field.index() as int].number) by {
                    if i < field.index() {
                        assert(fields[i].number != fields[field.index() as int].number);
                    } else {
                        assert(fields[field.index() as int].number != fields[i].number);
                    }
                }
                assert(oneof.has_member(i));
                assert(oneof.numbers().contains(fields[i].number));
                assert(oneof_siblings(field).contains(fields[i].number));
                assert(decoded(after, fields[i].number) is None);
            } else {
                assert(fields[j].number != fields[field.index() as int].number);
                assert(oneof.has_member(j));
                assert(oneof.numbers().contains(fields[j].number));
                assert(oneof_siblings(field).contains(fields[j].number));
                assert(decoded(after, fields[j].number) is None);
            }
        } else {
            // another group: the write took nothing from it and added nothing
            assert(fields[i].number != field.data().number) by {
                if i != field.index() {
                    if i < field.index() {
                        assert(fields[i].number != fields[field.index() as int].number);
                    } else {
                        assert(fields[field.index() as int].number != fields[i].number);
                    }
                }
            }
            assert(fields[j].number != field.data().number) by {
                if j != field.index() {
                    if j < field.index() {
                        assert(fields[j].number != fields[field.index() as int].number);
                    } else {
                        assert(fields[field.index() as int].number != fields[j].number);
                    }
                }
            }
            assert(decoded(after, fields[i].number) is Some ==> decoded(m, fields[i].number) is Some);
            assert(decoded(after, fields[j].number) is Some ==> decoded(m, fields[j].number) is Some);
        }
    }
}

/// A write to a field leaves alone what the store holds under every number
/// that is neither the field's own nor that of a member of its oneof group;
/// so does clearing the field.
pub proof fn law_other_numbers_untouched<'a, D: FieldDescriptorLike<'a>>(
    m: Map<u32, EntryView<'a>>,
    desc: D,
    v: ValueView<'a>,
    number: u32,
)
    requires
        number != desc.number_spec(),
        !oneof_siblings(desc).contains(number),
    ensures
        set_spec(m, desc, v).contains_key(number) == m.contains_key(number),
        m.contains_key(number) ==> set_spec(m, desc, v)[number] == m[number],
        clear_spec(m, desc).contains_key(number) == m.contains_key(number),
        m.contains_key(number) ==> clear_spec(m, desc)[number] == m[number],
{
}

/// An undecoded entry that was added is walked: the walk yields, under the
/// entry's number, the entries added for that number, in the order in which
/// they were added.
pub proof fn law_unknown_is_walked<'a>(
    m: Map<u32, EntryView<'a>>,
    message: MessageDescriptorRef<'a>,
    number: u32,
    entry: Seq<u8>,
    items: Seq<ItemView<'a>>,
)
    requires
        decoded(m, number) is None,
        is_walk(items, add_unknown_spec(m, number, entry), message),
    ensures
        exists|i: int|
            0 <= i < items.len() && #[trigger] items[i] == ItemView::Unknown(
                number,
                unknown_at(m, number).push(entry),
            ),
{
    let after = add_unknown_spec(m, number, entry);
    assert(item_at(after, message, number) is Some);
    let i = choose|i: int| 0 <= i < items.len() && (#[trigger] items[i]).number() == number;
    assert(item_at(after, message, items[i].number()) == Some(items[i]));
}

/// Undecoded entries do not outlive a write to their number: the field reads
/// as its default while only undecoded entries are held for it, and after a
/// write the number holds the written value and no undecoded entry.
pub proof fn law_write_discards_unknown<'a, D: FieldDescriptorLike<'a>>(
    m: Map<u32, EntryView<'a>>,
    desc: D,
    entry: Seq<u8>,
    v: ValueView<'a>,
)
    requires
        decoded(m, desc.number_spec()) is None,
    ensures
        get_spec(add_unknown_spec(m, desc.number_spec(), entry), desc) == default_of(desc),
        decoded(set_spec(add_unknown_spec(m, desc.number_spec(), entry), desc, v), desc.number_spec())
            == Some(v),
        unknown_at(
            set_spec(add_unknown_spec(m, desc.number_spec(), entry), desc, v),
            desc.number_spec(),
        ) == Seq::<Seq<u8>>::empty(),
{
}

impl<'a> FieldDescriptorLike<'a> for FieldDescriptorRef<'a> {
    open spec fn number_spec(&self) -> u32 {
        self.data().number
    }

    open spec fn kind_spec(&self) -> KindRef<'a> {
        self.resolved_kind()
    }

    open spec fn is_list_spec(&self) -> bool {
        self.holds_list()
    }

    open spec fn is_map_spec(&self) -> bool {
        self.holds_map()
    }

    open spec fn supports_presence_spec(&self) -> bool {
        self.tracks_presence()
    }

    open spec fn containing_oneof_spec(&self) -> Option<OneofDescriptorRef<'a>> {
        self.oneof()
    }

    open spec fn is_group_spec(&self) -> bool {
        self.data().is_group
    }

    open spec fn is_packed_spec(&self) -> bool {
        self.data().is_packed
    }

    fn number(&self) -> (r: u32) {
        FieldDescriptorRef::number(self)
    }

    fn default_value(&self) -> (r: Value<'a>) {
        Value::default_value_for_field(self)
    }

    fn is_default_value(&self, value: &Value<'a>) -> (r: bool) {
        value.is_default_for_field(self)
    }

    fn is_valid(&self, value: &Value<'a>) -> (r: bool) {
        value.is_valid_for_field(self)
    }

    fn containing_oneof(&self) -> (r: Option<OneofDescriptorRef<'a>>) {
        FieldDescriptorRef::containing_oneof(self)
    }

    fn supports_presence(&self) -> (r: bool) {
        FieldDescriptorRef::supports_presence(self)
    }

    fn kind(&self) -> (r: KindRef<'a>) {
        FieldDescriptorRef::kind(self)
    }

    fn is_group(&self) -> (r: bool) {
        FieldDescriptorRef::is_group(self)
    }

    fn is_list(&self) -> (r: bool) {
        FieldDescriptorRef::is_list(self)
    }

    fn is_map(&self) -> (r: bool) {
        FieldDescriptorRef::is_map(self)
    }

    fn is_packed(&self) -> (r: bool) {
        FieldDescriptorRef::is_packed(self)
    }

    fn is_packable(&self) -> (r: bool) {
        FieldDescriptorRef::is_packable(self)
    }
}

impl<'a> FieldDescriptorLike<'a> for ExtensionDescriptorRef<'a> {
    open spec fn number_spec(&self) -> u32 {
        self.data().number
    }

    open spec fn kind_spec(&self) -> KindRef<'a> {
        self.resolved_kind()
    }

    open spec fn is_list_spec(&self) -> bool {
        self.holds_list()
    }

    open spec fn is_map_spec(&self) -> bool {
        self.holds_map()
    }

    open spec fn supports_presence_spec(&self) -> bool {
        self.tracks_presence()
    }

    open spec fn containing_oneof_spec(&self) -> Option<OneofDescriptorRef<'a>> {
        None
    }

    open spec fn is_group_spec(&self) -> bool {
        self.data().is_group
    }

    open spec fn is_packed_spec(&self) -> bool {
        self.data().is_packed
    }

    fn number(&self) -> (r: u32) {
        ExtensionDescriptorRef::number(self)
    }

    fn default_value(&self) -> (r: Value<'a>) {
        Value::default_value_for_extension(self)
    }

    fn is_default_value(&self, value: &Value<'a>) -> (r: bool) {
        value.is_default_for_extension(self)
    }

    fn is_valid(&self, value: &Value<'a>) -> (r: bool) {
        value.is_valid_for_extension(self)
    }

    fn containing_oneof(&self) -> (r: Option<OneofDescriptorRef<'a>>) {
        None
    }

    fn supports_presence(&self) -> (r: bool) {
        ExtensionDescriptorRef::supports_presence(self)
    }

    fn kind(&self) -> (r: KindRef<'a>) {
        ExtensionDescriptorRef::kind(self)
    }

    fn is_group(&self) -> (r: bool) {
        ExtensionDescriptorRef::is_group(self)
    }

    fn is_list(&self) -> (r: bool) {
        ExtensionDescriptorRef::is_list(self)
    }

    fn is_map(&self) -> (r: bool) {
        ExtensionDescriptorRef::is_map(self)
    }

    fn is_packed(&self) -> (r: bool) {
        ExtensionDescriptorRef::is_packed(self)
    }

    fn is_packable(&self) -> (r: bool) {
        ExtensionDescriptorRef::is_packable(self)
    }
}

} // verus!
