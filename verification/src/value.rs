//! The values that a field can hold, and what it means for a value to fit a
//! field.

use vstd::prelude::*;
use crate::descriptor::{ExtensionDescriptorRef, FieldDescriptorRef, KindRef, MessageDescriptorRef};
use crate::message::{message_view, DynamicMessage};
use crate::text::str_eq;

verus! {

/// A key of a map field.
#[derive(Debug, PartialEq, Eq)]
pub enum MapKey {
    Bool(bool),
    I32(i32),
    I64(i64),
    U32(u32),
    U64(u64),
    String(String),
}

/// A value of a field. Floating-point values are held as their IEEE 754 bit
/// patterns. A map is held as its entries in insertion order.
#[derive(Debug, PartialEq)]
pub enum Value<'a> {
    Bool(bool),
    I32(i32),
    I64(i64),
    U32(u32),
    U64(u64),
    F32(u32),
    F64(u64),
    String(String),
    Bytes(Vec<u8>),
    EnumNumber(i32),
    Message(DynamicMessage<'a>),
    List(Vec<Value<'a>>),
    Entries(Vec<MapEntry<'a>>),
}

/// One entry of a map field.
#[derive(Debug, PartialEq)]
pub struct MapEntry<'a> {
    pub key: MapKey,
    pub value: Value<'a>,
}

/// What a map key holds.
pub enum MapKeyView {
    Bool(bool),
    I32(i32),
    I64(i64),
    U32(u32),
    U64(u64),
    String(Seq<char>),
}

/// What a value holds.
pub enum ValueView<'a> {
    Bool(bool),
    I32(i32),
    I64(i64),
    U32(u32),
    U64(u64),
    F32(u32),
    F64(u64),
    String(Seq<char>),
    Bytes(Seq<u8>),
    EnumNumber(i32),
    Message(MessageView<'a>),
    List(Seq<ValueView<'a>>),
    Entries(Seq<(MapKeyView, ValueView<'a>)>),
}

/// What the store holds for one field number: a decoded value, or the
/// undecoded entries read for the number, in the order they were added.
pub enum EntryView<'a> {
    Value(ValueView<'a>),
    Unknown(Seq<Seq<u8>>),
}

/// What a message holds: its type and its entries by field number.
pub struct MessageView<'a> {
    pub desc: MessageDescriptorRef<'a>,
    pub fields: Map<u32, EntryView<'a>>,
}

impl View for MapKey {
    type V = MapKeyView;

    open spec fn view(&self) -> MapKeyView {
        match *self {
            MapKey::Bool(b) => MapKeyView::Bool(b),
            MapKey::I32(n) => MapKeyView::I32(n),
            MapKey::I64(n) => MapKeyView::I64(n),
            MapKey::U32(n) => MapKeyView::U32(n),
            MapKey::U64(n) => MapKeyView::U64(n),
            MapKey::String(s) => MapKeyView::String(s@),
        }
    }
}

/// What `v` holds.
pub open spec fn value_view<'a>(v: Value<'a>) -> ValueView<'a>
    decreases v,
{
    match v {
        Value::Bool(b) => ValueView::Bool(b),
        Value::I32(n) => ValueView::I32(n),
        Value::I64(n) => ValueView::I64(n),
        Value::U32(n) => ValueView::U32(n),
        Value::U64(n) => ValueView::U64(n),
        Value::F32(bits) => ValueView::F32(bits),
        Value::F64(bits) => ValueView::F64(bits),
        Value::String(s) => ValueView::String(s@),
        Value::Bytes(b) => ValueView::Bytes(b@),
        Value::EnumNumber(n) => ValueView::EnumNumber(n),
        Value::Message(m) => ValueView::Message(message_view(m)),
        Value::List(items) => ValueView::List(
            Seq::new(
                items@.len(),
                |i: int|
                    if 0 <= i < items@.len() {
                        value_view(items@[i])
                    } else {
                        ValueView::Bool(false)
                    },
            ),
        ),
        Value::Entries(entries) => ValueView::Entries(
            Seq::new(
                entries@.len(),
                |i: int|
                    if 0 <= i < entries@.len() {
                        (entries@[i].key@, value_view(entries@[i].value))
                    } else {
                        (MapKeyView::Bool(false), ValueView::Bool(false))
                    },
            ),
        ),
    }
}

impl<'a> View for Value<'a> {
    type V = ValueView<'a>;

    open spec fn view(&self) -> ValueView<'a> {
        value_view(*self)
    }
}

/// The value that a singular field of `kind` has when it is not set: zero,
/// `false`, the empty string, the empty byte string, the enum's default value,
/// or the message without fields.
pub open spec fn default_for_kind<'a>(kind: KindRef<'a>) -> ValueView<'a> {
    match kind {
        KindRef::Double => ValueView::F64(0),
        KindRef::Float => ValueView::F32(0),
        KindRef::Int32 | KindRef::Sint32 | KindRef::Sfixed32 => ValueView::I32(0),
        KindRef::Int64 | KindRef::Sint64 | KindRef::Sfixed64 => ValueView::I64(0),
        KindRef::Uint32 | KindRef::Fixed32 => ValueView::U32(0),
        KindRef::Uint64 | KindRef::Fixed64 => ValueView::U64(0),
        KindRef::Bool => ValueView::Bool(false),
        KindRef::String => ValueView::String(Seq::empty()),
        KindRef::Bytes => ValueView::Bytes(Seq::empty()),
        KindRef::Message(m) => ValueView::Message(MessageView { desc: m, fields: Map::empty() }),
        KindRef::Enum(e) => ValueView::EnumNumber(e.default_number_spec()),
    }
}

/// The value that a field has when it is not set: the empty list for a list
/// field, the empty map for a map field, else the default of its kind.
pub open spec fn default_value_spec<'a>(
    kind: KindRef<'a>,
    is_list: bool,
    is_map: bool,
) -> ValueView<'a> {
    if is_list {
        ValueView::List(Seq::empty())
    } else if is_map {
        ValueView::Entries(Seq::empty())
    } else {
        default_for_kind(kind)
    }
}

/// `v` is the value that a singular field of `kind` has when it is not set. A
/// message is so when it has no entries and its type carries the name of the
/// kind's message type.
pub open spec fn is_default_for_kind<'a>(v: ValueView<'a>, kind: KindRef<'a>) -> bool {
    match kind {
        KindRef::Message(m) => v matches ValueView::Message(mv) && mv.desc.full_name_spec()
            == m.full_name_spec() && mv.fields == Map::<u32, EntryView<'a>>::empty(),
        _ => v == default_for_kind(kind),
    }
}

/// `v` is the value that a field of `kind` has when it is not set.
pub open spec fn is_default_value_spec<'a>(
    v: ValueView<'a>,
    kind: KindRef<'a>,
    is_list: bool,
    is_map: bool,
) -> bool {
    if is_list || is_map {
        v == default_value_spec(kind, is_list, is_map)
    } else {
        is_default_for_kind(v, kind)
    }
}

/// `v` has the shape that a single value of `kind` must have. A message fits
/// when its type carries the name of the kind's message type.
pub open spec fn valid_for_kind<'a>(v: ValueView<'a>, kind: KindRef<'a>) -> bool {
    match kind {
        KindRef::Double => v is F64,
        KindRef::Float => v is F32,
        KindRef::Int32 | KindRef::Sint32 | KindRef::Sfixed32 => v is I32,
        KindRef::Int64 | KindRef::Sint64 | KindRef::Sfixed64 => v is I64,
        KindRef::Uint32 | KindRef::Fixed32 => v is U32,
        KindRef::Uint64 | KindRef::Fixed64 => v is U64,
        KindRef::Bool => v is Bool,
        KindRef::String => v is String,
        KindRef::Bytes => v is Bytes,
        KindRef::Message(m) => v matches ValueView::Message(mv) && mv.desc.full_name_spec()
            == m.full_name_spec(),
        KindRef::Enum(_) => v is EnumNumber,
    }
}

/// `k` has the shape that a map key of `kind` must have.
pub open spec fn valid_key_for_kind<'a>(k: MapKeyView, kind: KindRef<'a>) -> bool {
    match kind {
        KindRef::Int32 | KindRef::Sint32 | KindRef::Sfixed32 => k is I32,
        KindRef::Int64 | KindRef::Sint64 | KindRef::Sfixed64 => k is I64,
        KindRef::Uint32 | KindRef::Fixed32 => k is U32,
        KindRef::Uint64 | KindRef::Fixed64 => k is U64,
        KindRef::Bool => k is Bool,
        KindRef::String => k is String,
        _ => false,
    }
}

/// The entries fit a map whose entries are described by the map entry type
/// `entry`, and no key occurs twice.
pub open spec fn valid_map_entries<'a>(
    entries: Seq<(MapKeyView, ValueView<'a>)>,
    entry: MessageDescriptorRef<'a>,
) -> bool {
    &&& entry.data().is_map_entry
    &&& forall|i: int|
        0 <= i < entries.len() ==> {
            &&& valid_key_for_kind((#[trigger] entries[i]).0, entry.map_key_kind_spec())
            &&& valid_for_kind(entries[i].1, entry.map_value_kind_spec())
        }
    &&& forall|i: int, j: int|
        0 <= i < j < entries.len() ==> (#[trigger] entries[i]).0 != (#[trigger] entries[j]).0
}

/// `v` fits a field of `kind`: a list of fitting values for a list field, a
/// map of fitting entries with distinct keys for a map field, else a single
/// fitting value.
pub open spec fn valid_value_spec<'a>(
    v: ValueView<'a>,
    kind: KindRef<'a>,
    is_list: bool,
    is_map: bool,
) -> bool {
    if is_list {
        v matches ValueView::List(items) && forall|i: int|
            0 <= i < items.len() ==> valid_for_kind(#[trigger] items[i], kind)
    } else if is_map {
        &&& v matches ValueView::Entries(entries)
        &&& kind matches KindRef::Message(entry)
        &&& valid_map_entries(entries, entry)
    } else {
        valid_for_kind(v, kind)
    }
}

/// What a run of values holds, in order.
pub open spec fn value_views<'a>(values: Seq<Value<'a>>) -> Seq<ValueView<'a>> {
    Seq::new(values.len(), |i: int| values[i]@)
}

/// What a run of map entries holds, in order.
pub open spec fn entry_views<'a>(entries: Seq<MapEntry<'a>>) -> Seq<(MapKeyView, ValueView<'a>)> {
    Seq::new(entries.len(), |i: int| (entries[i].key@, entries[i].value@))
}

impl Clone for MapKey {
    fn clone(&self) -> (r: Self)
        ensures
            r@ == self@,
    {
        match self {
            MapKey::Bool(b) => MapKey::Bool(*b),
            MapKey::I32(n) => MapKey::I32(*n),
            MapKey::I64(n) => MapKey::I64(*n),
            MapKey::U32(n) => MapKey::U32(*n),
            MapKey::U64(n) => MapKey::U64(*n),
            MapKey::String(s) => MapKey::String(s.clone()),
        }
    }
}

impl<'a> Clone for MapEntry<'a> {
    fn clone(&self) -> (r: Self)
        ensures
            r.key@ == self.key@,
            r.value@ == self.value@,
        decreases self,
    {
        MapEntry { key: self.key.clone(), value: self.value.clone() }
    }
}

impl<'a> Clone for Value<'a> {
    fn clone(&self) -> (r: Self)
        ensures
            r@ == self@,
        decreases self,
    {
        match self {
            Value::Bool(b) => Value::Bool(*b),
            Value::I32(n) => Value::I32(*n),
            Value::I64(n) => Value::I64(*n),
            Value::U32(n) => Value::U32(*n),
            Value::U64(n) => Value::U64(*n),
            Value::F32(bits) => Value::F32(*bits),
            Value::F64(bits) => Value::F64(*bits),
            Value::String(s) => Value::String(s.clone()),
            Value::Bytes(b) => {
                let copy = b.clone();
                assert(copy@ =~= b@);
                Value::Bytes(copy)
            },
            Value::EnumNumber(n) => Value::EnumNumber(*n),
            Value::Message(m) => Value::Message(m.clone()),
            Value::List(items) => {
                let mut out: Vec<Value<'a>> = Vec::new();
                let mut i: usize = 0;
                while i < items.len()
                    invariant
                        i <= items.len(),
                        out@.len() == i,
                        *self matches Value::List(l) && l == *items,
                        forall|k: int| 0 <= k < i ==> (#[trigger] out@[k])@ == items@[k]@,
                    decreases items.len() - i,
                {
                    out.push(items[i].clone());
                    i += 1;
                }
                let r = Value::List(out);
                assert(r@->List_0 =~= self@->List_0);
                r
            },
            Value::Entries(entries) => {
                let mut out: Vec<MapEntry<'a>> = Vec::new();
                let mut i: usize = 0;
                while i < entries.len()
                    invariant
                        i <= entries.len(),
                        out@.len() == i,
                        *self matches Value::Entries(l) && l == *entries,
                        forall|k: int|
                            0 <= k < i ==> (#[trigger] out@[k]).key@ == entries@[k].key@ && out@[k].value@
                                == entries@[k].value@,
                    decreases entries.len() - i,
                {
                    out.push(entries[i].clone());
                    i += 1;
                }
                let r = Value::Entries(out);
                assert(r@->Entries_0 =~= self@->Entries_0);
                r
            },
        }
    }
}

impl MapKey {
    /// Whether two keys are the same key.
    pub fn same_key(&self, other: &MapKey) -> (r: bool)
        ensures
            r == (self@ == other@),
    {
        match (self, other) {
            (MapKey::Bool(a), MapKey::Bool(b)) => *a == *b,
            (MapKey::I32(a), MapKey::I32(b)) => *a == *b,
            (MapKey::I64(a), MapKey::I64(b)) => *a == *b,
            (MapKey::U32(a), MapKey::U32(b)) => *a == *b,
            (MapKey::U64(a), MapKey::U64(b)) => *a == *b,
            (MapKey::String(a), MapKey::String(b)) => str_eq(a.as_str(), b.as_str()),
            _ => false,
        }
    }

    /// Whether the key has the shape that a map key of `kind` must have.
    pub fn is_valid_for_kind(&self, kind: &KindRef) -> (r: bool)
        ensures
            r == valid_key_for_kind(self@, *kind),
    {
        match (kind, self) {
            (KindRef::Int32, MapKey::I32(_)) => true,
            (KindRef::Sint32, MapKey::I32(_)) => true,
            (KindRef::Sfixed32, MapKey::I32(_)) => true,
            (KindRef::Int64, MapKey::I64(_)) => true,
            (KindRef::Sint64, MapKey::I64(_)) => true,
            (KindRef::Sfixed64, MapKey::I64(_)) => true,
            (KindRef::Uint32, MapKey::U32(_)) => true,
            (KindRef::Fixed32, MapKey::U32(_)) => true,
            (KindRef::Uint64, MapKey::U64(_)) => true,
            (KindRef::Fixed64, MapKey::U64(_)) => true,
            (KindRef::Bool, MapKey::Bool(_)) => true,
            (KindRef::String, MapKey::String(_)) => true,
            _ => false,
        }
    }
}

impl<'a> Value<'a> {
    /// The value that a singular field of `kind` has when it is not set.
    pub fn default_value(kind: &KindRef<'a>) -> (r: Value<'a>)
        ensures
            r@ == default_for_kind(*kind),
    {
        match kind {
            KindRef::Double => Value::F64(0),
            KindRef::Float => Value::F32(0),
            KindRef::Int32 | KindRef::Sint32 | KindRef::Sfixed32 => Value::I32(0),
            KindRef::Int64 | KindRef::Sint64 | KindRef::Sfixed64 => Value::I64(0),
            KindRef::Uint32 | KindRef::Fixed32 => Value::U32(0),
            KindRef::Uint64 | KindRef::Fixed64 => Value::U64(0),
            KindRef::Bool => Value::Bool(false),
            KindRef::String => Value::String(String::new()),
            KindRef::Bytes => Value::Bytes(Vec::new()),
            KindRef::Message(m) => Value::Message(DynamicMessage::new(*m)),
            KindRef::Enum(e) => Value::EnumNumber(e.default_number()),
        }
    }

    /// The value that a field of `kind` has when it is not set.
    pub fn default_value_for(kind: &KindRef<'a>, is_list: bool, is_map: bool) -> (r: Value<'a>)
        ensures
            r@ == default_value_spec(*kind, is_list, is_map),
    {
        if is_list {
            let items: Vec<Value<'a>> = Vec::new();
            let r = Value::List(items);
            assert(r@->List_0 =~= Seq::empty());
            r
        } else if is_map {
            let entries: Vec<MapEntry<'a>> = Vec::new();
            let r = Value::Entries(entries);
            assert(r@->Entries_0 =~= Seq::empty());
            r
        } else {
            Value::default_value(kind)
        }
    }

    /// Whether the value is the one that a singular field of `kind` has when
    /// it is not set.
    pub fn is_default(&self, kind: &KindRef<'a>) -> (r: bool)
        ensures
            r == is_default_for_kind(self@, *kind),
    {
        match kind {
            KindRef::Double => match self {
                Value::F64(bits) => *bits == 0,
                _ => false,
            },
            KindRef::Float => match self {
                Value::F32(bits) => *bits == 0,
                _ => false,
            },
            KindRef::Int32 | KindRef::Sint32 | KindRef::Sfixed32 => match self {
                Value::I32(n) => *n == 0,
                _ => false,
            },
            KindRef::Int64 | KindRef::Sint64 | KindRef::Sfixed64 => match self {
                Value::I64(n) => *n == 0,
                _ => false,
            },
            KindRef::Uint32 | KindRef::Fixed32 => match self {
                Value::U32(n) => *n == 0,
                _ => false,
            },
            KindRef::Uint64 | KindRef::Fixed64 => match self {
                Value::U64(n) => *n == 0,
                _ => false,
            },
            KindRef::Bool => match self {
                Value::Bool(b) => !*b,
                _ => false,
            },
            KindRef::String => match self {
                Value::String(s) => {
                    let r = s.as_str().is_empty();
                    assert(r ==> s@ =~= Seq::empty());
                    r
                },
                _ => false,
            },
            KindRef::Bytes => match self {
                Value::Bytes(b) => {
                    let r = b.len() == 0;
                    assert(r ==> b@ =~= Seq::empty());
                    r
                },
                _ => false,
            },
            KindRef::Message(m) => match self {
                Value::Message(message) => {
                    assert(message@.desc == message.desc && message@.fields == message.fields@);
                    str_eq(message.desc.full_name(), m.full_name()) && message.fields.is_empty()
                },
                _ => false,
            },
            KindRef::Enum(e) => match self {
                Value::EnumNumber(n) => *n == e.default_number(),
                _ => false,
            },
        }
    }

    /// Whether the value is the one that a field of `kind` has when it is not
    /// set.
    pub fn is_default_for(&self, kind: &KindRef<'a>, is_list: bool, is_map: bool) -> (r: bool)
        ensures
            r == is_default_value_spec(self@, *kind, is_list, is_map),
    {
        if is_list {
            match self {
                Value::List(items) => {
                    let r = items.len() == 0;
                    assert(r ==> self@->List_0 =~= Seq::empty());
                    assert(!r ==> self@->List_0.len() != 0);
                    r
                },
                _ => false,
            }
        } else if is_map {
            match self {
                Value::Entries(entries) => {
                    let r = entries.len() == 0;
                    assert(r ==> self@->Entries_0 =~= Seq::empty());
                    assert(!r ==> self@->Entries_0.len() != 0);
                    r
                },
                _ => false,
            }
        } else {
            self.is_default(kind)
        }
    }

    /// The value that `field` has when it is not set.
    pub fn default_value_for_field(field: &FieldDescriptorRef<'a>) -> (r: Value<'a>)
        ensures
            r@ == default_value_spec(field.resolved_kind(), field.holds_list(), field.holds_map()),
    {
        Value::default_value_for(&field.kind(), field.is_list(), field.is_map())
    }

    /// The value that `extension` has when it is not set.
    pub fn default_value_for_extension(extension: &ExtensionDescriptorRef<'a>) -> (r: Value<'a>)
        ensures
            r@ == default_value_spec(
                extension.resolved_kind(),
                extension.holds_list(),
                extension.holds_map(),
            ),
    {
        Value::default_value_for(&extension.kind(), extension.is_list(), extension.is_map())
    }

    /// Whether the value is the one that `field` has when it is not set.
    pub fn is_default_for_field(&self, field: &FieldDescriptorRef<'a>) -> (r: bool)
        ensures
            r == is_default_value_spec(
                self@,
                field.resolved_kind(),
                field.holds_list(),
                field.holds_map(),
            ),
    {
        self.is_default_for(&field.kind(), field.is_list(), field.is_map())
    }

    /// Whether the value is the one that `extension` has when it is not set.
    pub fn is_default_for_extension(&self, extension: &ExtensionDescriptorRef<'a>) -> (r: bool)
        ensures
            r == is_default_value_spec(
                self@,
                extension.resolved_kind(),
                extension.holds_list(),
                extension.holds_map(),
            ),
    {
        self.is_default_for(&extension.kind(), extension.is_list(), extension.is_map())
    }

    /// Whether the value fits `field`.
    pub fn is_valid_for_field(&self, field: &FieldDescriptorRef<'a>) -> (r: bool)
        ensures
            r == valid_value_spec(
                self@,
                field.resolved_kind(),
                field.holds_list(),
                field.holds_map(),
            ),
    {
        self.is_valid_for(&field.kind(), field.is_list(), field.is_map())
    }

    /// Whether the value fits `extension`.
    pub fn is_valid_for_extension(&self, extension: &ExtensionDescriptorRef<'a>) -> (r: bool)
        ensures
            r == valid_value_spec(
                self@,
                extension.resolved_kind(),
                extension.holds_list(),
                extension.holds_map(),
            ),
    {
        self.is_valid_for(&extension.kind(), extension.is_list(), extension.is_map())
    }

    /// Whether the value has the shape that a single value of `kind` must
    /// have.
    pub fn is_valid_for_kind(&self, kind: &KindRef<'a>) -> (r: bool)
        ensures
            r == valid_for_kind(self@, *kind),
    {
        match kind {
            KindRef::Double => match self {
                Value::F64(_) => true,
                _ => false,
            },
            KindRef::Float => match self {
                Value::F32(_) => true,
                _ => false,
            },
            KindRef::Int32 | KindRef::Sint32 | KindRef::Sfixed32 => match self {
                Value::I32(_) => true,
                _ => false,
            },
            KindRef::Int64 | KindRef::Sint64 | KindRef::Sfixed64 => match self {
                Value::I64(_) => true,
                _ => false,
            },
            KindRef::Uint32 | KindRef::Fixed32 => match self {
                Value::U32(_) => true,
                _ => false,
            },
            KindRef::Uint64 | KindRef::Fixed64 => match self {
                Value::U64(_) => true,
                _ => false,
            },
            KindRef::Bool => match self {
                Value::Bool(_) => true,
                _ => false,
            },
            KindRef::String => match self {
                Value::String(_) => true,
                _ => false,
            },
            KindRef::Bytes => match self {
                Value::Bytes(_) => true,
                _ => false,
            },
            KindRef::Message(m) => match self {
                Value::Message(message) => {
                    assert(message@.desc == message.desc);
                    str_eq(message.desc.full_name(), m.full_name())
                },
                _ => false,
            },
            KindRef::Enum(_) => match self {
                Value::EnumNumber(_) => true,
                _ => false,
            },
        }
    }

    /// Whether the value fits a field of `kind`.
    pub fn is_valid_for(&self, kind: &KindRef<'a>, is_list: bool, is_map: bool) -> (r: bool)
        ensures
            r == valid_value_spec(self@, *kind, is_list, is_map),
    {
        if is_list {
            match self {
                Value::List(items) => {
                    let mut i: usize = 0;
                    while i < items.len()
                        invariant
                            i <= items.len(),
                            is_list,
                            self@ is List,
                            self@->List_0.len() == items@.len(),
                            forall|k: int|
                                0 <= k < items@.len() ==> (#[trigger] self@->List_0[k]) == items@[k]@,
                            forall|k: int|
                                0 <= k < i ==> valid_for_kind(#[trigger] self@->List_0[k], *kind),
                        decreases items.len() - i,
                    {
                        if !items[i].is_valid_for_kind(kind) {
                            assert(!valid_for_kind(self@->List_0[i as int], *kind));
                            return false;
                        }
                        i += 1;
                    }
                    true
                },
                _ => false,
            }
        } else if is_map {
            match (kind, self) {
                (KindRef::Message(entry), Value::Entries(entries)) => {
                    if !entry.is_map_entry() {
                        return false;
                    }
                    let key_kind = entry.map_entry_key_kind();
                    let value_kind = entry.map_entry_value_kind();
                    let ghost views = self@->Entries_0;
                    let mut j: usize = 0;
                    while j < entries.len()
                        invariant
                            j <= entries.len(),
                            !is_list,
                            is_map,
                            *kind == KindRef::Message(*entry),
                            entry.data().is_map_entry,
                            self@ is Entries,
                            views == self@->Entries_0,
                            views.len() == entries@.len(),
                            key_kind == entry.map_key_kind_spec(),
                            value_kind == entry.map_value_kind_spec(),
                            forall|k: int|
                                0 <= k < entries@.len() ==> (#[trigger] views[k]) == (
                                    entries@[k].key@,
                                    entries@[k].value@,
                                ),
                            forall|k: int|
                                0 <= k < j ==> {
                                    &&& valid_key_for_kind((#[trigger] views[k]).0, key_kind)
                                    &&& valid_for_kind(views[k].1, value_kind)
                                },
                            forall|a: int, b: int|
                                0 <= a < b < j ==> (#[trigger] views[a]).0 != (#[trigger] views[b]).0,
                        decreases entries.len() - j,
                    {
                        if !entries[j].key.is_valid_for_kind(&key_kind) || !entries[j].value.is_valid_for_kind(
                            &value_kind,
                        ) {
                            assert(!(valid_key_for_kind(views[j as int].0, key_kind) && valid_for_kind(
                                views[j as int].1,
                                value_kind,
                            )));
                            return false;
                        }
                        let mut i: usize = 0;
                        while i < j
                            invariant
                                i <= j < entries.len(),
                                !is_list,
                                is_map,
                                *kind == KindRef::Message(*entry),
                                entry.data().is_map_entry,
                                self@ is Entries,
                                views == self@->Entries_0,
                                views.len() == entries@.len(),
                                forall|k: int|
                                    0 <= k < entries@.len() ==> (#[trigger] views[k]) == (
                                        entries@[k].key@,
                                        entries@[k].value@,
                                    ),
                                forall|a: int| 0 <= a < i ==> (#[trigger] views[a]).0 != views[j as int].0,
                            decreases j - i,
                        {
                            if entries[i].key.same_key(&entries[j].key) {
                                assert(views[i as int].0 == views[j as int].0);
                                return false;
                            }
                            i += 1;
                        }
                        j += 1;
                    }
                    true
                },
                _ => false,
            }
        } else {
            self.is_valid_for_kind(kind)
        }
    }
}

} // verus!
