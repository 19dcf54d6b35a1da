//! Schema metadata: a validated pool of message, enum and extension
//! definitions, and the lightweight handles through which the rest of the
//! crate queries it.

use vstd::prelude::*;

verus! {

/// How often a field may occur in a message.
#[derive(Clone, Copy, Debug, PartialEq, Eq, Structural)]
pub enum Cardinality {
    Optional,
    Required,
    Repeated,
}

/// The declared type of a field. Message and enum types are named by their
/// position in the pool that holds the definition.
#[derive(Clone, Copy, Debug, PartialEq, Eq, Structural)]
pub enum Kind {
    Double,
    Float,
    Int32,
    Int64,
    Uint32,
    Uint64,
    Sint32,
    Sint64,
    Fixed32,
    Fixed64,
    Sfixed32,
    Sfixed64,
    Bool,
    String,
    Bytes,
    Message(usize),
    Enum(usize),
}

/// The definition of one ordinary field of a message.
#[derive(Clone, Debug, PartialEq, Eq)]
pub struct FieldData {
    pub name: String,
    pub json_name: String,
    pub number: u32,
    pub kind: Kind,
    pub cardinality: Cardinality,
    /// Set for singular fields that track presence on their own account
    /// (proto2 fields, proto3 `optional`).
    pub explicit_presence: bool,
    /// The oneof group of the enclosing message that the field belongs to.
    pub oneof: Option<u32>,
    pub is_packed: bool,
    pub is_group: bool,
}

/// The definition of one message type.
#[derive(Clone, Debug, PartialEq, Eq)]
pub struct MessageData {
    pub full_name: String,
    /// Set for the synthetic two-field messages that stand for the entries of
    /// a map field.
    pub is_map_entry: bool,
    pub fields: Vec<FieldData>,
}

/// One named value of an enum type.
#[derive(Clone, Debug, PartialEq, Eq)]
pub struct EnumValueData {
    pub name: String,
    pub number: i32,
}

/// The definition of one enum type.
#[derive(Clone, Debug, PartialEq, Eq)]
pub struct EnumData {
    pub full_name: String,
    pub values: Vec<EnumValueData>,
}

/// The definition of one extension field.
#[derive(Clone, Debug, PartialEq, Eq)]
pub struct ExtensionData {
    pub full_name: String,
    pub json_name: String,
    pub number: u32,
    pub kind: Kind,
    pub cardinality: Cardinality,
    /// The position in the pool of the message that the field extends.
    pub extendee: usize,
    pub is_packed: bool,
    pub is_group: bool,
}

/// A kind names only types that the pool holds.
pub open spec fn kind_in_range(kind: Kind, messages: int, enums: int) -> bool {
    match kind {
        Kind::Message(i) => i < messages,
        Kind::Enum(i) => i < enums,
        _ => true,
    }
}

/// The kinds that a map may be keyed by: the integers, `bool` and `string`.
pub open spec fn kind_is_map_key(kind: Kind) -> bool {
    !(kind is Double || kind is Float || kind is Bytes || kind is Message || kind is Enum)
}

/// No two of the fields carry the same number.
pub open spec fn numbers_distinct(fields: Seq<FieldData>) -> bool {
    forall|i: int, j: int|
        0 <= i < j < fields.len() ==> (#[trigger] fields[i]).number != (#[trigger] fields[j]).number
}

/// A field definition is well formed within a pool of `messages` message
/// types and `enums` enum types: its kind names a type of the pool, and a
/// member of a oneof is singular.
pub open spec fn field_wf(f: FieldData, messages: int, enums: int) -> bool {
    &&& kind_in_range(f.kind, messages, enums)
    &&& f.oneof is Some ==> f.cardinality != Cardinality::Repeated
}

/// A message definition is well formed within a pool: its fields are well
/// formed, its field numbers are distinct, and a map entry consists of a
/// singular key, numbered 1, and a singular value, numbered 2.
pub open spec fn message_wf(m: MessageData, messages: int, enums: int) -> bool {
    &&& forall|i: int|
        0 <= i < m.fields@.len() ==> field_wf(#[trigger] m.fields@[i], messages, enums)
    &&& numbers_distinct(m.fields@)
    &&& m.is_map_entry ==> {
        &&& m.fields@.len() == 2
        &&& m.fields@[0].number == 1
        &&& m.fields@[1].number == 2
        &&& m.fields@[0].cardinality != Cardinality::Repeated
        &&& m.fields@[1].cardinality != Cardinality::Repeated
        &&& kind_is_map_key(m.fields@[0].kind)
    }
}

/// A name between square brackets.
pub open spec fn bracketed(name: Seq<char>) -> Seq<char> {
    seq!['['] + name + seq![']']
}

/// An extension definition is well formed within a pool: the message it
/// extends and the types its kind names are in the pool, and its JSON name is
/// its full name between square brackets.
pub open spec fn extension_wf(e: ExtensionData, messages: int, enums: int) -> bool {
    &&& e.extendee < messages
    &&& kind_in_range(e.kind, messages, enums)
    &&& e.json_name@ == bracketed(e.full_name@)
}

/// Whether `text` is `name` between square brackets.
fn is_bracketed(text: &str, name: &str) -> (r: bool)
    ensures
        r == (text@ == bracketed(name@)),
{
    let n: usize = name.unicode_len();
    let len: usize = text.unicode_len();
    if n > usize::MAX - 2 || len != n + 2 {
        return false;
    }
    if text.get_char(0) != '[' || text.get_char(len - 1) != ']' {
        assert(bracketed(name@)[0] == '[');
        assert(bracketed(name@)[len - 1] == ']');
        return false;
    }
    let mut i: usize = 0;
    while i < n
        invariant
            n == name@.len(),
            len == text@.len(),
            len == n + 2,
            i <= n,
            forall|k: int| 0 <= k < i ==> text@[k + 1] == name@[k],
        decreases n - i,
    {
        if text.get_char(i + 1) != name.get_char(i) {
            assert(bracketed(name@)[i + 1] == name@[i as int]);
            return false;
        }
        i += 1;
    }
    assert(text@ =~= bracketed(name@));
    true
}

/// The definitions form a consistent pool.
pub open spec fn pool_wf(
    messages: Seq<MessageData>,
    enums: Seq<EnumData>,
    extensions: Seq<ExtensionData>,
) -> bool {
    &&& forall|i: int|
        0 <= i < messages.len() ==> message_wf(
            #[trigger] messages[i],
            messages.len() as int,
            enums.len() as int,
        )
    &&& forall|i: int|
        0 <= i < extensions.len() ==> extension_wf(
            #[trigger] extensions[i],
            messages.len() as int,
            enums.len() as int,
        )
}

/// A set of message, enum and extension definitions that refer to each other
/// consistently.
#[derive(Debug, PartialEq, Eq)]
pub struct DescriptorPool {
    messages: Vec<MessageData>,
    enums: Vec<EnumData>,
    extensions: Vec<ExtensionData>,
}

fn check_kind(kind: Kind, messages: usize, enums: usize) -> (ok: bool)
    ensures
        ok == kind_in_range(kind, messages as int, enums as int),
{
    match kind {
        Kind::Message(i) => i < messages,
        Kind::Enum(i) => i < enums,
        _ => true,
    }
}

fn check_map_key(kind: Kind) -> (ok: bool)
    ensures
        ok == kind_is_map_key(kind),
{
    match kind {
        Kind::Double | Kind::Float | Kind::Bytes | Kind::Message(_) | Kind::Enum(_) => false,
        _ => true,
    }
}

fn is_repeated(cardinality: Cardinality) -> (r: bool)
    ensures
        r == (cardinality == Cardinality::Repeated),
{
    match cardinality {
        Cardinality::Repeated => true,
        _ => false,
    }
}

fn check_numbers_distinct(fields: &Vec<FieldData>) -> (ok: bool)
    ensures
        ok == numbers_distinct(fields@),
{
    let mut j: usize = 0;
    while j < fields.len()
        invariant
            j <= fields.len(),
            forall|a: int, b: int|
                0 <= a < b < j ==> (#[trigger] fields@[a]).number != (#[trigger] fields@[b]).number,
        decreases fields.len() - j,
    {
        let mut i: usize = 0;
        while i < j
            invariant
                i <= j < fields.len(),
                forall|a: int| 0 <= a < i ==> (#[trigger] fields@[a]).number != fields@[j as int].number,
            decreases j - i,
        {
            if fields[i].number == fields[j].number {
                return false;
            }
            i += 1;
        }
        j += 1;
    }
    true
}

fn check_message(m: &MessageData, messages: usize, enums: usize) -> (ok: bool)
    ensures
        ok == message_wf(*m, messages as int, enums as int),
{
    let mut i: usize = 0;
    while i < m.fields.len()
        invariant
            i <= m.fields.len(),
            forall|a: int|
                0 <= a < i ==> field_wf(#[trigger] m.fields@[a], messages as int, enums as int),
        decreases m.fields.len() - i,
    {
        let field = &m.fields[i];
        if !check_kind(field.kind, messages, enums) || (field.oneof.is_some() && is_repeated(
            field.cardinality,
        )) {
            return false;
        }
        i += 1;
    }
    if !check_numbers_distinct(&m.fields) {
        return false;
    }
    if m.is_map_entry {
        if m.fields.len() != 2 {
            return false;
        }
        let key = &m.fields[0];
        let value = &m.fields[1];
        return key.number == 1 && value.number == 2 && !is_repeated(key.cardinality)
            && !is_repeated(value.cardinality) && check_map_key(key.kind);
    }
    true
}

impl DescriptorPool {
    #[verifier::type_invariant]
    spec fn inv(self) -> bool {
        pool_wf(self.messages@, self.enums@, self.extensions@)
    }

    /// The message definitions of the pool.
    pub closed spec fn messages(&self) -> Seq<MessageData> {
        self.messages@
    }

    /// The enum definitions of the pool.
    pub closed spec fn enums(&self) -> Seq<EnumData> {
        self.enums@
    }

    /// The extension definitions of the pool.
    pub closed spec fn extensions(&self) -> Seq<ExtensionData> {
        self.extensions@
    }

    /// The pool's definitions are consistent with each other. Every pool that
    /// executable code holds is well formed.
    pub open spec fn wf(&self) -> bool {
        pool_wf(self.messages(), self.enums(), self.extensions())
    }

    /// The definitions of a pool are as many as executable code can count.
    pub proof fn lemma_counts_fit(&self)
        ensures
            self.messages().len() <= usize::MAX,
            self.enums().len() <= usize::MAX,
            self.extensions().len() <= usize::MAX,
    {
        assert(self.messages.len() == self.messages@.len());
        assert(self.enums.len() == self.enums@.len());
        assert(self.extensions.len() == self.extensions@.len());
    }

    /// Builds a pool from the definitions, or returns `None` when they do not
    /// form a consistent pool.
    pub fn new(
        messages: Vec<MessageData>,
        enums: Vec<EnumData>,
        extensions: Vec<ExtensionData>,
    ) -> (r: Option<DescriptorPool>)
        ensures
            r is Some <==> pool_wf(messages@, enums@, extensions@),
            r matches Some(pool) ==> {
                &&& pool.messages() == messages@
                &&& pool.enums() == enums@
                &&& pool.extensions() == extensions@
            },
    {
        let n_messages = messages.len();
        let n_enums = enums.len();
        let mut i: usize = 0;
        while i < messages.len()
            invariant
                i <= messages.len(),
                n_messages == messages.len(),
                n_enums == enums.len(),
                forall|a: int|
                    0 <= a < i ==> message_wf(
                        #[trigger] messages@[a],
                        n_messages as int,
                        n_enums as int,
                    ),
            decreases messages.len() - i,
        {
            if !check_message(&messages[i], n_messages, n_enums) {
                return None;
            }
            i += 1;
        }
        let mut k: usize = 0;
        while k < extensions.len()
            invariant
                k <= extensions.len(),
                n_messages == messages.len(),
                n_enums == enums.len(),
                forall|a: int|
                    0 <= a < k ==> extension_wf(
                        #[trigger] extensions@[a],
                        n_messages as int,
                        n_enums as int,
                    ),
            decreases extensions.len() - k,
        {
            let e = &extensions[k];
            if !(e.extendee < n_messages && check_kind(e.kind, n_messages, n_enums) && is_bracketed(
                e.json_name.as_str(),
                e.full_name.as_str(),
            )) {
                return None;
            }
            k += 1;
        }
        Some(DescriptorPool { messages, enums, extensions })
    }

    /// The number of extensions in the pool.
    pub fn extension_count(&self) -> (n: usize)
        ensures
            n == self.extensions().len(),
    {
        self.extensions.len()
    }

    /// The number of message types in the pool.
    pub fn message_count(&self) -> (n: usize)
        ensures
            n == self.messages().len(),
    {
        self.messages.len()
    }

    /// The position of the first message type named `name`.
    pub open spec fn message_named(&self, name: Seq<char>) -> Option<int> {
        if exists|i: int| self.names_first(name, i) {
            Some(choose|i: int| self.names_first(name, i))
        } else {
            None
        }
    }

    /// The message type at `i` is the first that is named `name`.
    pub open spec fn names_first(&self, name: Seq<char>, i: int) -> bool {
        &&& 0 <= i < self.messages().len()
        &&& self.messages()[i].full_name@ == name
        &&& forall|k: int| 0 <= k < i ==> (#[trigger] self.messages()[k]).full_name@ != name
    }

    /// The first message type of the pool that is named `name`, if there is
    /// one.
    pub fn get_message_by_name<'a>(&'a self, name: &str) -> (r: Option<MessageDescriptorRef<'a>>)
        ensures
            match r {
                Some(m) => m.wf() && m.pool() == *self && self.message_named(name@) == Some(
                    m.index() as int,
                ) && m.full_name_spec() == name@,
                None => self.message_named(name@) is None,
            },
    {
        proof {
            use_type_invariant(self);
        }
        let mut i: usize = 0;
        while i < self.messages.len()
            invariant
                i <= self.messages.len(),
                self.messages@ == self.messages(),
                forall|k: int| 0 <= k < i ==> (#[trigger] self.messages()[k]).full_name@ != name@,
            decreases self.messages.len() - i,
        {
            if crate::text::str_eq(self.messages[i].full_name.as_str(), name) {
                assert(self.names_first(name@, i as int));
                assert forall|j: int| self.names_first(name@, j) implies j == i by {
                    if j < i {
                        assert(self.messages()[j].full_name@ != name@);
                    }
                    if i < j {
                        assert(self.messages()[i as int].full_name@ != name@);
                    }
                }
                return self.get_message(i);
            }
            i += 1;
        }
        assert forall|j: int| !self.names_first(name@, j) by {
            if 0 <= j < self.messages().len() {
                assert(self.messages()[j].full_name@ != name@);
            }
        }
        None
    }

    /// The message type at `index`, if the pool holds that many.
    pub fn get_message<'a>(&'a self, index: usize) -> (r: Option<MessageDescriptorRef<'a>>)
        ensures
            r is Some <==> index < self.messages().len(),
            r matches Some(m) ==> m.pool() == *self && m.index() == index && m.wf(),
    {
        proof {
            use_type_invariant(self);
        }
        if index < self.messages.len() {
            Some(MessageDescriptorRef { pool: self, index })
        } else {
            None
        }
    }

    /// The extension at `index`, if the pool holds that many.
    pub fn get_extension<'a>(&'a self, index: usize) -> (r: Option<ExtensionDescriptorRef<'a>>)
        ensures
            r is Some <==> index < self.extensions().len(),
            r matches Some(e) ==> e.pool() == *self && e.index() == index && e.wf(),
    {
        proof {
            use_type_invariant(self);
        }
        if index < self.extensions.len() {
            Some(ExtensionDescriptorRef { pool: self, index })
        } else {
            None
        }
    }
}

/// A message type of a pool.
#[derive(Clone, Copy, Debug, PartialEq, Eq)]
pub struct MessageDescriptorRef<'a> {
    pool: &'a DescriptorPool,
    index: usize,
}

/// An enum type of a pool.
#[derive(Clone, Copy, Debug, PartialEq, Eq)]
pub struct EnumDescriptorRef<'a> {
    pool: &'a DescriptorPool,
    index: usize,
}

/// An ordinary field of a message type.
#[derive(Clone, Copy, Debug, PartialEq, Eq)]
pub struct FieldDescriptorRef<'a> {
    message: MessageDescriptorRef<'a>,
    index: usize,
}

/// An extension field of a pool.
#[derive(Clone, Copy, Debug, PartialEq, Eq)]
pub struct ExtensionDescriptorRef<'a> {
    pool: &'a DescriptorPool,
    index: usize,
}

/// One oneof group of a message type: the fields of the message that carry
/// the group's number.
#[derive(Clone, Copy, Debug, PartialEq, Eq)]
pub struct OneofDescriptorRef<'a> {
    message: MessageDescriptorRef<'a>,
    group: u32,
}

/// The declared type of a field, with message and enum types resolved to
/// handles.
#[derive(Clone, Copy, Debug, PartialEq, Eq)]
pub enum KindRef<'a> {
    Double,
    Float,
    Int32,
    Int64,
    Uint32,
    Uint64,
    Sint32,
    Sint64,
    Fixed32,
    Fixed64,
    Sfixed32,
    Sfixed64,
    Bool,
    String,
    Bytes,
    Message(MessageDescriptorRef<'a>),
    Enum(EnumDescriptorRef<'a>),
}

/// The handle-carrying form of a kind of `pool`.
pub open spec fn resolve_kind<'a>(pool: DescriptorPool, kind: Kind) -> KindRef<'a> {
    match kind {
        Kind::Double => KindRef::Double,
        Kind::Float => KindRef::Float,
        Kind::Int32 => KindRef::Int32,
        Kind::Int64 => KindRef::Int64,
        Kind::Uint32 => KindRef::Uint32,
        Kind::Uint64 => KindRef::Uint64,
        Kind::Sint32 => KindRef::Sint32,
        Kind::Sint64 => KindRef::Sint64,
        Kind::Fixed32 => KindRef::Fixed32,
        Kind::Fixed64 => KindRef::Fixed64,
        Kind::Sfixed32 => KindRef::Sfixed32,
        Kind::Sfixed64 => KindRef::Sfixed64,
        Kind::Bool => KindRef::Bool,
        Kind::String => KindRef::String,
        Kind::Bytes => KindRef::Bytes,
        Kind::Message(i) => KindRef::Message(MessageDescriptorRef::at(pool, i)),
        Kind::Enum(i) => KindRef::Enum(EnumDescriptorRef::at(pool, i)),
    }
}

fn resolve<'a>(pool: &'a DescriptorPool, kind: Kind) -> (r: KindRef<'a>)
    requires
        pool.wf(),
        kind_in_range(kind, pool.messages().len() as int, pool.enums().len() as int),
    ensures
        r == resolve_kind(*pool, kind),
        r.wf(),
{
    match kind {
        Kind::Double => KindRef::Double,
        Kind::Float => KindRef::Float,
        Kind::Int32 => KindRef::Int32,
        Kind::Int64 => KindRef::Int64,
        Kind::Uint32 => KindRef::Uint32,
        Kind::Uint64 => KindRef::Uint64,
        Kind::Sint32 => KindRef::Sint32,
        Kind::Sint64 => KindRef::Sint64,
        Kind::Fixed32 => KindRef::Fixed32,
        Kind::Fixed64 => KindRef::Fixed64,
        Kind::Sfixed32 => KindRef::Sfixed32,
        Kind::Sfixed64 => KindRef::Sfixed64,
        Kind::Bool => KindRef::Bool,
        Kind::String => KindRef::String,
        Kind::Bytes => KindRef::Bytes,
        Kind::Message(i) => KindRef::Message(MessageDescriptorRef { pool, index: i }),
        Kind::Enum(i) => KindRef::Enum(EnumDescriptorRef { pool, index: i }),
    }
}

impl<'a> KindRef<'a> {
    /// The handles that the kind carries are well formed.
    pub open spec fn wf(&self) -> bool {
        match *self {
            KindRef::Message(m) => m.wf(),
            KindRef::Enum(e) => e.wf(),
            _ => true,
        }
    }

    /// The kind is one that values are packed for on the wire when repeated:
    /// every scalar but `string` and `bytes`.
    pub open spec fn packable(&self) -> bool {
        !(*self is String || *self is Bytes || *self is Message)
    }
}

impl<'a> MessageDescriptorRef<'a> {
    #[verifier::type_invariant]
    spec fn inv(self) -> bool {
        self.wf()
    }

    /// The handle for the message type at `index` of `pool`.
    pub closed spec fn at(pool: DescriptorPool, index: usize) -> Self {
        MessageDescriptorRef { pool: &pool, index }
    }

    /// The pool that defines the message type.
    pub closed spec fn pool(&self) -> DescriptorPool {
        *self.pool
    }

    /// The position of the message type in its pool.
    pub closed spec fn index(&self) -> usize {
        self.index
    }

    /// A handle is the one made of its pool and its position.
    pub proof fn lemma_at(self)
        ensures
            self == Self::at(self.pool(), self.index()),
    {
    }

    /// The handle names a message type of a well-formed pool. Every handle
    /// that executable code holds is well formed.
    pub open spec fn wf(&self) -> bool {
        &&& self.pool().wf()
        &&& self.index() < self.pool().messages().len()
    }

    /// The definition that the handle stands for.
    pub open spec fn data(&self) -> MessageData {
        self.pool().messages()[self.index() as int]
    }

    /// The fully qualified name of the message type.
    pub open spec fn full_name_spec(&self) -> Seq<char> {
        self.data().full_name@
    }

    /// The position among the message's fields of the one numbered `number`.
    pub open spec fn field_index(&self, number: u32) -> Option<int> {
        if exists|i: int| 0 <= i < self.data().fields@.len() && self.data().fields@[i].number == number {
            Some(
                choose|i: int|
                    0 <= i < self.data().fields@.len() && self.data().fields@[i].number == number,
            )
        } else {
            None
        }
    }

    /// The position among the pool's extensions of the first one that extends
    /// this message under `number`.
    pub open spec fn extension_index(&self, number: u32) -> Option<int> {
        let exts = self.pool().extensions();
        if exists|i: int| self.extends_at(i, number) {
            Some(choose|i: int| self.extends_at(i, number) && forall|j: int| 0 <= j < i ==> !self.extends_at(j, number))
        } else {
            None
        }
    }

    /// The pool's extension at position `i` extends this message under
    /// `number`.
    pub open spec fn extends_at(&self, i: int, number: u32) -> bool {
        let exts = self.pool().extensions();
        0 <= i < exts.len() && exts[i].extendee == self.index() && exts[i].number == number
    }

    /// The number is that of a field or of an extension of the message.
    pub open spec fn declares(&self, number: u32) -> bool {
        self.field_index(number) is Some || self.extension_index(number) is Some
    }

    /// The smallest number from `from` on that the message declares, as a
    /// field or as an extension.
    pub fn next_declared(&self, from: u32) -> (r: Option<u32>)
        ensures
            match r {
                Some(k) => from <= k && self.declares(k) && forall|n: u32|
                    from <= n < k ==> !self.declares(n),
                None => forall|n: u32| from <= n ==> !self.declares(n),
            },
    {
        proof {
            use_type_invariant(self);
        }
        let pool: &'a DescriptorPool = self.pool;
        let fields = &pool.messages[self.index].fields;
        let mut best: Option<u32> = None;
        let mut i: usize = 0;
        while i < fields.len()
            invariant
                i <= fields.len(),
                fields@ == self.data().fields@,
                best matches Some(k) ==> from <= k && exists|w: int|
                    0 <= w < fields@.len() && (#[trigger] fields@[w]).number == k,
                forall|w: int|
                    0 <= w < i && from <= (#[trigger] fields@[w]).number ==> best is Some
                        && best->Some_0 <= fields@[w].number,
            decreases fields.len() - i,
        {
            let number: u32 = fields[i].number;
            if number >= from {
                let better = match best {
                    Some(k) => number < k,
                    None => true,
                };
                if better {
                    best = Some(number);
                }
            }
            i += 1;
        }
        let ghost of_fields = best;
        let mut k: usize = 0;
        while k < pool.extensions.len()
            invariant
                k <= pool.extensions.len(),
                pool.extensions@ == self.pool().extensions(),
                of_fields matches Some(f) ==> best is Some && best->Some_0 <= f,
                best matches Some(b) ==> from <= b && (of_fields == Some(b) || exists|w: int|
                    #[trigger] self.extends_at(w, b)),
                forall|w: int, n: u32|
                    0 <= w < k && from <= n && #[trigger] self.extends_at(w, n) ==> best is Some
                        && best->Some_0 <= n,
            decreases pool.extensions.len() - k,
        {
            let e = &pool.extensions[k];
            if e.extendee == self.index && e.number >= from {
                assert(self.extends_at(k as int, e.number));
                let better = match best {
                    Some(b) => e.number < b,
                    None => true,
                };
                if better {
                    best = Some(e.number);
                }
            }
            k += 1;
        }
        proof {
            assert forall|n: u32| from <= n && self.declares(n) implies best is Some && best->Some_0
                <= n by {
                if self.field_index(n) is Some {
                    let w = choose|w: int| 0 <= w < fields@.len() && fields@[w].number == n;
                    assert(from <= fields@[w].number);
                } else {
                    let w = choose|w: int| self.extends_at(w, n);
                    assert(self.extends_at(w, n));
                }
            }
            if let Some(b) = best {
                if of_fields == Some(b) {
                    assert(self.field_index(b) is Some);
                } else {
                    assert(self.extension_index(b) is Some);
                }
            }
        }
        best
    }

    /// The pool that defines the message type.
    pub fn parent_pool(&self) -> (r: &'a DescriptorPool)
        ensures
            *r == self.pool(),
            r.wf(),
    {
        proof {
            use_type_invariant(self);
        }
        self.pool
    }

    /// The position of the message type in its pool.
    pub fn position(&self) -> (r: usize)
        ensures
            r == self.index(),
    {
        self.index
    }

    /// The fully qualified name of the message type.
    pub fn full_name(&self) -> (r: &'a str)
        ensures
            r@ == self.full_name_spec(),
    {
        proof {
            use_type_invariant(self);
        }
        let pool: &'a DescriptorPool = self.pool;
        pool.messages[self.index].full_name.as_str()
    }

    /// Whether the message stands for the entries of a map field.
    pub fn is_map_entry(&self) -> (r: bool)
        ensures
            r == self.data().is_map_entry,
    {
        proof {
            use_type_invariant(self);
        }
        self.pool.messages[self.index].is_map_entry
    }

    /// The kind of the keys of the map whose entries the message stands for.
    pub open spec fn map_key_kind_spec(&self) -> KindRef<'a> {
        resolve_kind(self.pool(), self.data().fields@[0].kind)
    }

    /// The kind of the values of the map whose entries the message stands
    /// for.
    pub open spec fn map_value_kind_spec(&self) -> KindRef<'a> {
        resolve_kind(self.pool(), self.data().fields@[1].kind)
    }

    /// The kind of the keys of the map whose entries the message stands for.
    pub fn map_entry_key_kind(&self) -> (r: KindRef<'a>)
        requires
            self.data().is_map_entry,
        ensures
            r == self.map_key_kind_spec(),
            r.wf(),
    {
        proof {
            use_type_invariant(self);
            assert(message_wf(
                self.data(),
                self.pool().messages().len() as int,
                self.pool().enums().len() as int,
            ));
        }
        let pool: &'a DescriptorPool = self.pool;
        resolve(pool, pool.messages[self.index].fields[0].kind)
    }

    /// The kind of the values of the map whose entries the message stands
    /// for.
    pub fn map_entry_value_kind(&self) -> (r: KindRef<'a>)
        requires
            self.data().is_map_entry,
        ensures
            r == self.map_value_kind_spec(),
            r.wf(),
    {
        proof {
            use_type_invariant(self);
            assert(message_wf(
                self.data(),
                self.pool().messages().len() as int,
                self.pool().enums().len() as int,
            ));
        }
        let pool: &'a DescriptorPool = self.pool;
        resolve(pool, pool.messages[self.index].fields[1].kind)
    }

    /// The number of fields that the message declares.
    pub fn field_count(&self) -> (n: usize)
        ensures
            n == self.data().fields@.len(),
    {
        proof {
            use_type_invariant(self);
        }
        self.pool.messages[self.index].fields.len()
    }

    /// The field at position `index` of the message's declaration.
    pub fn field_at(&self, index: usize) -> (r: Option<FieldDescriptorRef<'a>>)
        ensures
            r is Some <==> index < self.data().fields@.len(),
            r matches Some(f) ==> f.message() == *self && f.index() == index && f.wf(),
    {
        proof {
            use_type_invariant(self);
        }
        if index < self.pool.messages[self.index].fields.len() {
            Some(FieldDescriptorRef { message: *self, index })
        } else {
            None
        }
    }

    /// The field at position `i` goes by `name`, as declared or in JSON.
    pub open spec fn field_goes_by(&self, i: int, name: Seq<char>) -> bool {
        let fields = self.data().fields@;
        0 <= i < fields.len() && (fields[i].json_name@ == name || fields[i].name@ == name)
    }

    /// The position of the first field that goes by `name`.
    pub open spec fn field_named(&self, name: Seq<char>) -> Option<int> {
        if exists|i: int| self.field_goes_by(i, name) {
            Some(
                choose|i: int|
                    self.field_goes_by(i, name) && forall|j: int|
                        0 <= j < i ==> !self.field_goes_by(j, name),
            )
        } else {
            None
        }
    }

    /// The pool's extension at position `i` extends this message and goes by
    /// `name`, in full or in JSON.
    pub open spec fn extension_goes_by(&self, i: int, name: Seq<char>) -> bool {
        let exts = self.pool().extensions();
        0 <= i < exts.len() && exts[i].extendee == self.index() && (exts[i].json_name@ == name
            || exts[i].full_name@ == name)
    }

    /// The position in the pool of the first extension of this message that
    /// goes by `name`.
    pub open spec fn extension_named(&self, name: Seq<char>) -> Option<int> {
        if exists|i: int| self.extension_goes_by(i, name) {
            Some(
                choose|i: int|
                    self.extension_goes_by(i, name) && forall|j: int|
                        0 <= j < i ==> !self.extension_goes_by(j, name),
            )
        } else {
            None
        }
    }

    /// The first field of the message that goes by `name`, as declared or in
    /// JSON.
    pub fn get_field_by_any_name(&self, name: &str) -> (r: Option<FieldDescriptorRef<'a>>)
        ensures
            match r {
                Some(f) => f.wf() && f.message() == *self && self.field_named(name@) == Some(
                    f.index() as int,
                ),
                None => self.field_named(name@) is None,
            },
    {
        proof {
            use_type_invariant(self);
        }
        let pool: &'a DescriptorPool = self.pool;
        let fields = &pool.messages[self.index].fields;
        let mut i: usize = 0;
        while i < fields.len()
            invariant
                i <= fields.len(),
                self.wf(),
                fields@ == self.data().fields@,
                forall|a: int| 0 <= a < i ==> !self.field_goes_by(a, name@),
            decreases fields.len() - i,
        {
            if crate::text::str_eq(fields[i].json_name.as_str(), name) || crate::text::str_eq(
                fields[i].name.as_str(),
                name,
            ) {
                proof {
                    assert(self.field_goes_by(i as int, name@));
                    let w = self.field_named(name@)->Some_0;
                    assert(w == i) by {
                        if i < w {
                            assert(!self.field_goes_by(i as int, name@));
                        }
                    }
                }
                return Some(FieldDescriptorRef { message: *self, index: i });
            }
            i += 1;
        }
        None
    }

    /// The first extension of the message in the pool that goes by `name`, in
    /// full or in JSON.
    pub fn get_extension_by_any_name(&self, name: &str) -> (r: Option<ExtensionDescriptorRef<'a>>)
        ensures
            match r {
                Some(e) => e.wf() && e.pool() == self.pool() && self.extension_named(name@) == Some(
                    e.index() as int,
                ),
                None => self.extension_named(name@) is None,
            },
    {
        proof {
            use_type_invariant(self);
        }
        let pool: &'a DescriptorPool = self.pool;
        let mut i: usize = 0;
        while i < pool.extensions.len()
            invariant
                i <= pool.extensions.len(),
                self.wf(),
                *pool == self.pool(),
                pool.extensions@ == self.pool().extensions(),
                forall|a: int| 0 <= a < i ==> !self.extension_goes_by(a, name@),
            decreases pool.extensions.len() - i,
        {
            let e = &pool.extensions[i];
            if e.extendee == self.index && (crate::text::str_eq(e.json_name.as_str(), name)
                || crate::text::str_eq(e.full_name.as_str(), name)) {
                proof {
                    assert(self.extension_goes_by(i as int, name@));
                    let w = self.extension_named(name@)->Some_0;
                    assert(w == i) by {
                        if i < w {
                            assert(!self.extension_goes_by(i as int, name@));
                        }
                    }
                }
                return Some(ExtensionDescriptorRef { pool, index: i });
            }
            i += 1;
        }
        None
    }

    /// The field of the message numbered `number`, if there is one.
    pub fn get_field(&self, number: u32) -> (r: Option<FieldDescriptorRef<'a>>)
        ensures
            match r {
                Some(f) => f.wf() && f.message() == *self && self.field_index(number) == Some(
                    f.index() as int,
                ) && f.data().number == number,
                None => self.field_index(number) is None,
            },
    {
        proof {
            use_type_invariant(self);
        }
        let fields = &self.pool.messages[self.index].fields;
        let mut i: usize = 0;
        while i < fields.len()
            invariant
                i <= fields.len(),
                self.wf(),
                fields@ == self.data().fields@,
                forall|a: int| 0 <= a < i ==> (#[trigger] fields@[a]).number != number,
            decreases fields.len() - i,
        {
            if fields[i].number == number {
                proof {
                    assert(message_wf(self.data(), self.pool().messages().len() as int, self.pool().enums().len() as int));
                    let w = self.field_index(number)->Some_0;
                    assert(self.data().fields@[i as int].number == number);
                    assert(w == i) by {
                        if w < i {
                            assert(fields@[w].number == fields@[i as int].number);
                        } else if i < w {
                            assert(fields@[i as int].number == fields@[w].number);
                        }
                    }
                }
                return Some(FieldDescriptorRef { message: *self, index: i });
            }
            i += 1;
        }
        None
    }

    /// The extension of the message numbered `number`, if the pool holds one.
    pub fn get_extension(&self, number: u32) -> (r: Option<ExtensionDescriptorRef<'a>>)
        ensures
            match r {
                Some(e) => e.wf() && e.pool() == self.pool() && self.extension_index(number) == Some(
                    e.index() as int,
                ) && e.data().number == number && e.data().extendee == self.index(),
                None => self.extension_index(number) is None,
            },
    {
        proof {
            use_type_invariant(self);
        }
        let pool: &'a DescriptorPool = self.pool;
        let mut i: usize = 0;
        while i < pool.extensions.len()
            invariant
                i <= pool.extensions.len(),
                self.wf(),
                *pool == self.pool(),
                pool.extensions@ == self.pool().extensions(),
                forall|a: int| 0 <= a < i ==> !self.extends_at(a, number),
            decreases pool.extensions.len() - i,
        {
            let e = &pool.extensions[i];
            if e.extendee == self.index && e.number == number {
                proof {
                    assert(self.extends_at(i as int, number));
                    let w = self.extension_index(number)->Some_0;
                    assert(self.extends_at(w, number) && forall|j: int| 0 <= j < w ==> !self.extends_at(j, number));
                    assert(w == i) by {
                        if i < w {
                            assert(!self.extends_at(i as int, number));
                        }
                    }
                }
                return Some(ExtensionDescriptorRef { pool, index: i });
            }
            i += 1;
        }
        None
    }
}

impl<'a> EnumDescriptorRef<'a> {
    #[verifier::type_invariant]
    spec fn inv(self) -> bool {
        self.wf()
    }

    /// The handle for the enum type at `index` of `pool`.
    pub closed spec fn at(pool: DescriptorPool, index: usize) -> Self {
        EnumDescriptorRef { pool: &pool, index }
    }

    /// The pool that defines the enum type.
    pub closed spec fn pool(&self) -> DescriptorPool {
        *self.pool
    }

    /// The position of the enum type in its pool.
    pub closed spec fn index(&self) -> usize {
        self.index
    }

    /// The handle names an enum type of a well-formed pool.
    pub open spec fn wf(&self) -> bool {
        &&& self.pool().wf()
        &&& self.index() < self.pool().enums().len()
    }

    /// The definition that the handle stands for.
    pub open spec fn data(&self) -> EnumData {
        self.pool().enums()[self.index() as int]
    }

    /// The number of the enum's default value: that of the value declared
    /// first, and 0 for an enum without values.
    pub open spec fn default_number_spec(&self) -> i32 {
        if self.data().values@.len() > 0 {
            self.data().values@[0].number
        } else {
            0
        }
    }

    /// The position of the first declared value numbered `number`.
    pub open spec fn value_index(&self, number: i32) -> Option<int> {
        let values = self.data().values@;
        if exists|i: int| 0 <= i < values.len() && values[i].number == number {
            Some(
                choose|i: int|
                    0 <= i < values.len() && values[i].number == number && forall|j: int|
                        0 <= j < i ==> values[j].number != number,
            )
        } else {
            None
        }
    }

    /// The position of the first declared value named `name`.
    pub open spec fn name_index(&self, name: Seq<char>) -> Option<int> {
        let values = self.data().values@;
        if exists|i: int| 0 <= i < values.len() && values[i].name@ == name {
            Some(
                choose|i: int|
                    0 <= i < values.len() && values[i].name@ == name && forall|j: int|
                        0 <= j < i ==> values[j].name@ != name,
            )
        } else {
            None
        }
    }

    /// The fully qualified name of the enum type.
    pub fn full_name(&self) -> (r: &'a str)
        ensures
            r@ == self.data().full_name@,
    {
        proof {
            use_type_invariant(self);
        }
        let pool: &'a DescriptorPool = self.pool;
        pool.enums[self.index].full_name.as_str()
    }

    /// The number of the enum's default value.
    pub fn default_number(&self) -> (r: i32)
        ensures
            r == self.default_number_spec(),
    {
        proof {
            use_type_invariant(self);
        }
        let values = &self.pool.enums[self.index].values;
        if values.len() > 0 {
            values[0].number
        } else {
            0
        }
    }

    /// The number of the first declared value named `name`, if any.
    pub fn get_value_by_name(&self, name: &str) -> (r: Option<i32>)
        ensures
            match r {
                Some(number) => self.name_index(name@) matches Some(i) && number
                    == self.data().values@[i].number,
                None => self.name_index(name@) is None,
            },
    {
        proof {
            use_type_invariant(self);
        }
        let pool: &'a DescriptorPool = self.pool;
        let values = &pool.enums[self.index].values;
        let mut i: usize = 0;
        while i < values.len()
            invariant
                i <= values.len(),
                values@ == self.data().values@,
                forall|a: int| 0 <= a < i ==> (#[trigger] values@[a]).name@ != name@,
            decreases values.len() - i,
        {
            if crate::text::str_eq(values[i].name.as_str(), name) {
                proof {
                    let w = self.name_index(name@)->Some_0;
                    assert(values@[i as int].name@ == name@);
                    assert(w == i) by {
                        if w < i {
                            assert(values@[w].name@ != name@);
                        }
                    }
                }
                return Some(values[i].number);
            }
            i += 1;
        }
        None
    }

    /// The name of the first declared value numbered `number`, if any.
    pub fn get_value_name(&self, number: i32) -> (r: Option<&'a str>)
        ensures
            match r {
                Some(name) => self.value_index(number) matches Some(i) && name@
                    == self.data().values@[i].name@,
                None => self.value_index(number) is None,
            },
    {
        proof {
            use_type_invariant(self);
        }
        let pool: &'a DescriptorPool = self.pool;
        let values = &pool.enums[self.index].values;
        let mut i: usize = 0;
        while i < values.len()
            invariant
                i <= values.len(),
                values@ == self.data().values@,
                forall|a: int| 0 <= a < i ==> (#[trigger] values@[a]).number != number,
            decreases values.len() - i,
        {
            if values[i].number == number {
                proof {
                    let w = self.value_index(number)->Some_0;
                    assert(values@[i as int].number == number);
                    assert(w == i) by {
                        if w < i {
                            assert(values@[w].number != number);
                        }
                    }
                }
                return Some(values[i].name.as_str());
            }
            i += 1;
        }
        None
    }
}

impl<'a> FieldDescriptorRef<'a> {
    #[verifier::type_invariant]
    spec fn inv(self) -> bool {
        self.wf()
    }

    /// The message type that declares the field.
    pub closed spec fn message(&self) -> MessageDescriptorRef<'a> {
        self.message
    }

    /// The position of the field in the message's declaration.
    pub closed spec fn index(&self) -> usize {
        self.index
    }

    /// The handle for the field at position `index` of `message`.
    pub closed spec fn at(message: MessageDescriptorRef<'a>, index: usize) -> Self {
        FieldDescriptorRef { message, index }
    }

    /// A handle is the one made of its message and its position.
    pub broadcast proof fn lemma_at(self)
        ensures
            #![trigger self.message()]
            #![trigger self.index()]
            self == Self::at(self.message(), self.index()),
    {
    }

    /// The parts of a handle made of a message and a position.
    pub broadcast proof fn lemma_at_parts(message: MessageDescriptorRef<'a>, index: usize)
        ensures
            (#[trigger] Self::at(message, index)).message() == message,
            Self::at(message, index).index() == index,
    {
    }

    /// The handle names a field of a message type of a well-formed pool.
    pub open spec fn wf(&self) -> bool {
        &&& self.message().wf()
        &&& self.index() < self.message().data().fields@.len()
    }

    /// The definition that the handle stands for.
    pub open spec fn data(&self) -> FieldData {
        self.message().data().fields@[self.index() as int]
    }

    /// The field's kind, with message and enum types resolved in the pool.
    pub open spec fn resolved_kind(&self) -> KindRef<'a> {
        resolve_kind(self.message().pool(), self.data().kind)
    }

    /// The field is repeated and its type is a map entry.
    pub open spec fn holds_map(&self) -> bool {
        &&& self.data().cardinality == Cardinality::Repeated
        &&& self.data().kind matches Kind::Message(i)
        &&& self.message().pool().messages()[i as int].is_map_entry
    }

    /// The field is repeated and not a map.
    pub open spec fn holds_list(&self) -> bool {
        self.data().cardinality == Cardinality::Repeated && !self.holds_map()
    }

    /// The field distinguishes being unset from holding its default value:
    /// a singular field that tracks presence by declaration, belongs to a
    /// oneof, or holds a message.
    pub open spec fn tracks_presence(&self) -> bool {
        &&& self.data().cardinality != Cardinality::Repeated
        &&& (self.data().explicit_presence || self.data().oneof is Some || self.data().kind is Message)
    }

    /// The oneof group that the field belongs to.
    pub open spec fn oneof(&self) -> Option<OneofDescriptorRef<'a>> {
        match self.data().oneof {
            Some(group) => Some(OneofDescriptorRef::of(self.message(), group)),
            None => None,
        }
    }

    pub fn number(&self) -> (r: u32)
        ensures
            r == self.data().number,
    {
        proof {
            use_type_invariant(self);
        }
        self.message.pool.messages[self.message.index].fields[self.index].number
    }

    /// The name of the field as declared.
    pub fn name(&self) -> (r: &'a str)
        ensures
            r@ == self.data().name@,
    {
        proof {
            use_type_invariant(self);
        }
        let pool: &'a DescriptorPool = self.message.pool;
        pool.messages[self.message.index].fields[self.index].name.as_str()
    }

    /// The name of the field in JSON.
    pub fn json_name(&self) -> (r: &'a str)
        ensures
            r@ == self.data().json_name@,
    {
        proof {
            use_type_invariant(self);
        }
        let pool: &'a DescriptorPool = self.message.pool;
        pool.messages[self.message.index].fields[self.index].json_name.as_str()
    }

    /// The message type that declares the field.
    pub fn parent_message(&self) -> (r: MessageDescriptorRef<'a>)
        ensures
            r == self.message(),
            r.wf(),
    {
        proof {
            use_type_invariant(self);
        }
        self.message
    }

    pub fn kind(&self) -> (r: KindRef<'a>)
        ensures
            r == self.resolved_kind(),
            r.wf(),
    {
        proof {
            use_type_invariant(self);
            assert(message_wf(
                self.message().data(),
                self.message().pool().messages().len() as int,
                self.message().pool().enums().len() as int,
            ));
        }
        let pool: &'a DescriptorPool = self.message.pool;
        resolve(pool, pool.messages[self.message.index].fields[self.index].kind)
    }

    pub fn cardinality(&self) -> (r: Cardinality)
        ensures
            r == self.data().cardinality,
    {
        proof {
            use_type_invariant(self);
        }
        self.message.pool.messages[self.message.index].fields[self.index].cardinality
    }

    pub fn is_group(&self) -> (r: bool)
        ensures
            r == self.data().is_group,
    {
        proof {
            use_type_invariant(self);
        }
        self.message.pool.messages[self.message.index].fields[self.index].is_group
    }

    pub fn is_map(&self) -> (r: bool)
        ensures
            r == self.holds_map(),
    {
        proof {
            use_type_invariant(self);
            assert(message_wf(
                self.message().data(),
                self.message().pool().messages().len() as int,
                self.message().pool().enums().len() as int,
            ));
        }
        let pool: &'a DescriptorPool = self.message.pool;
        let data = &pool.messages[self.message.index].fields[self.index];
        match data.kind {
            Kind::Message(i) => is_repeated(data.cardinality) && pool.messages[i].is_map_entry,
            _ => false,
        }
    }

    pub fn is_list(&self) -> (r: bool)
        ensures
            r == self.holds_list(),
    {
        is_repeated(self.cardinality()) && !self.is_map()
    }

    pub fn is_packed(&self) -> (r: bool)
        ensures
            r == self.data().is_packed,
    {
        proof {
            use_type_invariant(self);
        }
        self.message.pool.messages[self.message.index].fields[self.index].is_packed
    }

    pub fn is_packable(&self) -> (r: bool)
        ensures
            r == self.resolved_kind().packable(),
    {
        match self.kind() {
            KindRef::String | KindRef::Bytes | KindRef::Message(_) => false,
            _ => true,
        }
    }

    pub fn supports_presence(&self) -> (r: bool)
        ensures
            r == self.tracks_presence(),
    {
        proof {
            use_type_invariant(self);
        }
        let data = &self.message.pool.messages[self.message.index].fields[self.index];
        let is_message = match data.kind {
            Kind::Message(_) => true,
            _ => false,
        };
        !is_repeated(data.cardinality) && (data.explicit_presence || data.oneof.is_some() || is_message)
    }

    /// The number of the oneof group that the field belongs to.
    pub fn oneof_group(&self) -> (r: Option<u32>)
        ensures
            r == self.data().oneof,
    {
        proof {
            use_type_invariant(self);
        }
        self.message.pool.messages[self.message.index].fields[self.index].oneof
    }

    /// The oneof group that the field belongs to.
    pub fn containing_oneof(&self) -> (r: Option<OneofDescriptorRef<'a>>)
        ensures
            r == self.oneof(),
            r matches Some(o) ==> o.wf(),
    {
        proof {
            use_type_invariant(self);
        }
        match self.message.pool.messages[self.message.index].fields[self.index].oneof {
            Some(group) => Some(OneofDescriptorRef { message: self.message, group }),
            None => None,
        }
    }
}

impl<'a> OneofDescriptorRef<'a> {
    #[verifier::type_invariant]
    spec fn inv(self) -> bool {
        self.wf()
    }

    /// The message type that declares the group.
    pub closed spec fn message(&self) -> MessageDescriptorRef<'a> {
        self.message
    }

    /// The number by which the message's fields name the group.
    pub closed spec fn group(&self) -> u32 {
        self.group
    }

    /// The handle for the group numbered `group` of `message`.
    pub closed spec fn of(message: MessageDescriptorRef<'a>, group: u32) -> Self {
        OneofDescriptorRef { message, group }
    }

    /// A handle is the one made of its message and its group number.
    pub broadcast proof fn lemma_of(self)
        ensures
            #![trigger self.message()]
            #![trigger self.group()]
            self == Self::of(self.message(), self.group()),
    {
    }

    /// The parts of a handle made of a message and a group number.
    pub broadcast proof fn lemma_of_parts(message: MessageDescriptorRef<'a>, group: u32)
        ensures
            (#[trigger] Self::of(message, group)).message() == message,
            Self::of(message, group).group() == group,
    {
    }

    /// The field numbers of the group's members.
    pub open spec fn numbers(&self) -> Set<u32> {
        Set::new(
            |n: u32|
                exists|i: int|
                    self.has_member(i) && (#[trigger] self.message().data().fields@[i]).number == n,
        )
    }

    pub open spec fn wf(&self) -> bool {
        self.message().wf()
    }

    /// The field at position `i` of the message belongs to the group.
    pub open spec fn has_member(&self, i: int) -> bool {
        let fields = self.message().data().fields@;
        0 <= i < fields.len() && fields[i].oneof == Some(self.group())
    }

    /// The members of the group, in the order of their declaration in the
    /// message.
    pub fn fields(&self) -> (r: Vec<FieldDescriptorRef<'a>>)
        ensures
            forall|k: int|
                0 <= k < r@.len() ==> {
                    &&& (#[trigger] r@[k]).wf()
                    &&& r@[k].message() == self.message()
                    &&& self.has_member(r@[k].index() as int)
                },
            forall|k: int, l: int| 0 <= k < l < r@.len() ==> r@[k].index() < r@[l].index(),
            forall|i: int|
                self.has_member(i) ==> exists|k: int|
                    0 <= k < r@.len() && (#[trigger] r@[k]).index() == i,
    {
        proof {
            use_type_invariant(self);
        }
        let fields = &self.message.pool.messages[self.message.index].fields;
        let mut out: Vec<FieldDescriptorRef<'a>> = Vec::new();
        let mut i: usize = 0;
        while i < fields.len()
            invariant
                i <= fields.len(),
                self.wf(),
                fields@ == self.message().data().fields@,
                forall|k: int|
                    0 <= k < out@.len() ==> {
                        &&& (#[trigger] out@[k]).wf()
                        &&& out@[k].message() == self.message()
                        &&& self.has_member(out@[k].index() as int)
                        &&& out@[k].index() < i
                    },
                forall|k: int, l: int| 0 <= k < l < out@.len() ==> out@[k].index() < out@[l].index(),
                forall|a: int|
                    0 <= a < i && self.has_member(a) ==> exists|k: int|
                        0 <= k < out@.len() && (#[trigger] out@[k]).index() == a,
            decreases fields.len() - i,
        {
            let member = match fields[i].oneof {
                Some(g) => g == self.group,
                None => false,
            };
            if member {
                let ghost before = out@;
                out.push(FieldDescriptorRef { message: self.message, index: i });
                proof {
                    assert forall|a: int| 0 <= a < i + 1 && self.has_member(a) implies exists|k: int|
                        0 <= k < out@.len() && (#[trigger] out@[k]).index() == a by {
                        if a < i {
                            let k = choose|k: int| 0 <= k < before.len() && (#[trigger] before[k]).index() == a;
                            assert(out@[k] == before[k]);
                        } else {
                            assert(out@[out@.len() - 1].index() == a);
                        }
                    }
                }
            }
            i += 1;
        }
        out
    }
}

impl<'a> ExtensionDescriptorRef<'a> {
    #[verifier::type_invariant]
    spec fn inv(self) -> bool {
        self.wf()
    }

    /// The pool that defines the extension.
    pub closed spec fn pool(&self) -> DescriptorPool {
        *self.pool
    }

    /// The position of the extension in its pool.
    pub closed spec fn index(&self) -> usize {
        self.index
    }

    /// The handle for the extension at position `index` of `pool`.
    pub closed spec fn at(pool: DescriptorPool, index: usize) -> Self {
        ExtensionDescriptorRef { pool: &pool, index }
    }

    /// A handle is the one made of its pool and its position.
    pub broadcast proof fn lemma_at(self)
        ensures
            #![trigger self.pool()]
            #![trigger self.index()]
            self == Self::at(self.pool(), self.index()),
    {
    }

    /// The parts of a handle made of a pool and a position.
    pub broadcast proof fn lemma_at_parts(pool: DescriptorPool, index: usize)
        ensures
            (#[trigger] Self::at(pool, index)).pool() == pool,
            Self::at(pool, index).index() == index,
    {
    }

    /// The handle names an extension of a well-formed pool.
    pub open spec fn wf(&self) -> bool {
        &&& self.pool().wf()
        &&& self.index() < self.pool().extensions().len()
    }

    /// The definition that the handle stands for.
    pub open spec fn data(&self) -> ExtensionData {
        self.pool().extensions()[self.index() as int]
    }

    /// The extension's kind, with message and enum types resolved in the
    /// pool.
    pub open spec fn resolved_kind(&self) -> KindRef<'a> {
        resolve_kind(self.pool(), self.data().kind)
    }

    /// The extension is repeated and its type is a map entry.
    pub open spec fn holds_map(&self) -> bool {
        &&& self.data().cardinality == Cardinality::Repeated
        &&& self.data().kind matches Kind::Message(i)
        &&& self.pool().messages()[i as int].is_map_entry
    }

    /// The extension is repeated and not a map.
    pub open spec fn holds_list(&self) -> bool {
        self.data().cardinality == Cardinality::Repeated && !self.holds_map()
    }

    /// A singular extension distinguishes being unset from holding its
    /// default value.
    pub open spec fn tracks_presence(&self) -> bool {
        self.data().cardinality != Cardinality::Repeated
    }

    pub fn number(&self) -> (r: u32)
        ensures
            r == self.data().number,
    {
        proof {
            use_type_invariant(self);
        }
        self.pool.extensions[self.index].number
    }

    /// The fully qualified name of the extension.
    pub fn full_name(&self) -> (r: &'a str)
        ensures
            r@ == self.data().full_name@,
    {
        proof {
            use_type_invariant(self);
        }
        let pool: &'a DescriptorPool = self.pool;
        pool.extensions[self.index].full_name.as_str()
    }

    /// The name of the extension in JSON.
    pub fn json_name(&self) -> (r: &'a str)
        ensures
            r@ == self.data().json_name@,
    {
        proof {
            use_type_invariant(self);
        }
        let pool: &'a DescriptorPool = self.pool;
        pool.extensions[self.index].json_name.as_str()
    }

    /// The position in the pool of the message type that the extension
    /// extends.
    pub fn extendee_position(&self) -> (r: usize)
        ensures
            r == self.data().extendee,
    {
        proof {
            use_type_invariant(self);
        }
        self.pool.extensions[self.index].extendee
    }

    /// The message type that the extension extends.
    pub fn containing_message(&self) -> (r: MessageDescriptorRef<'a>)
        ensures
            r == MessageDescriptorRef::at(self.pool(), self.data().extendee),
            r.wf(),
    {
        proof {
            use_type_invariant(self);
            use_type_invariant(self.pool);
        }
        let pool: &'a DescriptorPool = self.pool;
        MessageDescriptorRef { pool, index: pool.extensions[self.index].extendee }
    }

    pub fn kind(&self) -> (r: KindRef<'a>)
        ensures
            r == self.resolved_kind(),
            r.wf(),
    {
        proof {
            use_type_invariant(self);
        }
        let pool: &'a DescriptorPool = self.pool;
        resolve(pool, pool.extensions[self.index].kind)
    }

    pub fn cardinality(&self) -> (r: Cardinality)
        ensures
            r == self.data().cardinality,
    {
        proof {
            use_type_invariant(self);
        }
        self.pool.extensions[self.index].cardinality
    }

    pub fn is_group(&self) -> (r: bool)
        ensures
            r == self.data().is_group,
    {
        proof {
            use_type_invariant(self);
        }
        self.pool.extensions[self.index].is_group
    }

    pub fn is_map(&self) -> (r: bool)
        ensures
            r == self.holds_map(),
    {
        proof {
            use_type_invariant(self);
        }
        let pool: &'a DescriptorPool = self.pool;
        let data = &pool.extensions[self.index];
        match data.kind {
            Kind::Message(i) => is_repeated(data.cardinality) && pool.messages[i].is_map_entry,
            _ => false,
        }
    }

    pub fn is_list(&self) -> (r: bool)
        ensures
            r == self.holds_list(),
    {
        is_repeated(self.cardinality()) && !self.is_map()
    }

    pub fn is_packed(&self) -> (r: bool)
        ensures
            r == self.data().is_packed,
    {
        proof {
            use_type_invariant(self);
        }
        self.pool.extensions[self.index].is_packed
    }

    pub fn is_packable(&self) -> (r: bool)
        ensures
            r == self.resolved_kind().packable(),
    {
        match self.kind() {
            KindRef::String | KindRef::Bytes | KindRef::Message(_) => false,
            _ => true,
        }
    }

    pub fn supports_presence(&self) -> (r: bool)
        ensures
            r == self.tracks_presence(),
    {
        !is_repeated(self.cardinality())
    }
}

} // verus!
