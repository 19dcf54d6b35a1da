//! JSON values, as the mapping writes and reads them.

use vstd::prelude::*;

verus! {

/// A JSON number, by the readings that are known of it: as a signed and as an
/// unsigned 64-bit integer, where it is one, and as the bit pattern of the
/// nearest IEEE 754 double and single. A number that the mapping writes holds
/// the reading that its field gives; a number that was read from text holds
/// every reading that it has.
#[derive(Clone, Copy, Debug, PartialEq, Eq, Structural)]
pub struct JsonNumber {
    pub int: Option<i64>,
    pub uint: Option<u64>,
    pub double: Option<u64>,
    pub single: Option<u32>,
}

/// One member of a JSON object.
#[derive(Debug, PartialEq)]
pub struct JsonMember {
    pub name: String,
    pub value: JsonValue,
}

/// A JSON value. An object holds its members in the order in which they are
/// written.
#[derive(Debug, PartialEq)]
pub enum JsonValue {
    Null,
    Bool(bool),
    Number(JsonNumber),
    String(String),
    Array(Vec<JsonValue>),
    Object(Vec<JsonMember>),
}

/// What a JSON value holds.
pub enum JsonView {
    Null,
    Bool(bool),
    Number(JsonNumber),
    String(Seq<char>),
    Array(Seq<JsonView>),
    Object(Seq<(Seq<char>, JsonView)>),
}

/// What `j` holds.
pub open spec fn json_view(j: JsonValue) -> JsonView
    decreases j,
{
    match j {
        JsonValue::Null => JsonView::Null,
        JsonValue::Bool(b) => JsonView::Bool(b),
        JsonValue::Number(n) => JsonView::Number(n),
        JsonValue::String(s) => JsonView::String(s@),
        JsonValue::Array(items) => JsonView::Array(
            Seq::new(
                items@.len(),
                |i: int|
                    if 0 <= i < items@.len() {
                        json_view(items@[i])
                    } else {
                        JsonView::Null
                    },
            ),
        ),
        JsonValue::Object(members) => JsonView::Object(
            Seq::new(
                members@.len(),
                |i: int|
                    if 0 <= i < members@.len() {
                        (members@[i].name@, json_view(members@[i].value))
                    } else {
                        (Seq::empty(), JsonView::Null)
                    },
            ),
        ),
    }
}

impl View for JsonValue {
    type V = JsonView;

    open spec fn view(&self) -> JsonView {
        json_view(*self)
    }
}

/// What the members of an object hold, in order.
pub open spec fn member_views(members: Seq<JsonMember>) -> Seq<(Seq<char>, JsonView)> {
    Seq::new(members.len(), |i: int| (members[i].name@, members[i].value@))
}

/// What the items of an array hold, in order.
pub open spec fn array_views(items: Seq<JsonValue>) -> Seq<JsonView> {
    Seq::new(items.len(), |i: int| items[i]@)
}

/// The number with the one reading `n` as a signed integer, and as an
/// unsigned one where `n` is not negative.
pub open spec fn number_of_int(n: i64) -> JsonNumber {
    JsonNumber {
        int: Some(n),
        uint: if n >= 0 {
            Some(n as u64)
        } else {
            None
        },
        double: None,
        single: None,
    }
}

/// The number with the reading `n` as an unsigned integer, and as a signed
/// one where `n` is small enough.
pub open spec fn number_of_uint(n: u64) -> JsonNumber {
    JsonNumber {
        int: if n <= i64::MAX {
            Some(n as i64)
        } else {
            None
        },
        uint: Some(n),
        double: None,
        single: None,
    }
}

/// The number with the one reading `bits` as a double.
pub open spec fn number_of_double(bits: u64) -> JsonNumber {
    JsonNumber { int: None, uint: None, double: Some(bits), single: None }
}

/// The number with the one reading `bits` as a single.
pub open spec fn number_of_single(bits: u32) -> JsonNumber {
    JsonNumber { int: None, uint: None, double: None, single: Some(bits) }
}

impl JsonNumber {
    /// The number `n`.
    pub fn from_i64(n: i64) -> (r: JsonNumber)
        ensures
            r == number_of_int(n),
    {
        JsonNumber {
            int: Some(n),
            uint: if n >= 0 {
                Some(n as u64)
            } else {
                None
            },
            double: None,
            single: None,
        }
    }

    /// The number `n`.
    pub fn from_u64(n: u64) -> (r: JsonNumber)
        ensures
            r == number_of_uint(n),
    {
        JsonNumber {
            int: if n <= 0x7fff_ffff_ffff_ffff {
                Some(n as i64)
            } else {
                None
            },
            uint: Some(n),
            double: None,
            single: None,
        }
    }

    /// The number that the double with the bit pattern `bits` stands for.
    pub fn from_double_bits(bits: u64) -> (r: JsonNumber)
        ensures
            r == number_of_double(bits),
    {
        JsonNumber { int: None, uint: None, double: Some(bits), single: None }
    }

    /// The number that the single with the bit pattern `bits` stands for.
    pub fn from_single_bits(bits: u32) -> (r: JsonNumber)
        ensures
            r == number_of_single(bits),
    {
        JsonNumber { int: None, uint: None, double: None, single: Some(bits) }
    }
}

impl JsonValue {
    /// The array of `items`.
    pub fn array(items: Vec<JsonValue>) -> (r: JsonValue)
        ensures
            r@ == JsonView::Array(array_views(items@)),
    {
        let r = JsonValue::Array(items);
        assert(r@->Array_0 =~= array_views(items@));
        r
    }

    /// The object of `members`.
    pub fn object(members: Vec<JsonMember>) -> (r: JsonValue)
        ensures
            r@ == JsonView::Object(member_views(members@)),
    {
        let r = JsonValue::Object(members);
        assert(r@->Object_0 =~= member_views(members@));
        r
    }

    /// The items of an array, or `None` for another value.
    pub fn as_array(&self) -> (r: Option<&Vec<JsonValue>>)
        ensures
            match r {
                Some(items) => self@ == JsonView::Array(array_views(items@)) && forall|i: int|
                    0 <= i < items@.len() ==> decreases_to!(self@ => (#[trigger] items@[i])@),
                None => !(self@ is Array),
            },
    {
        match self {
            JsonValue::Array(items) => {
                assert(self@->Array_0 =~= array_views(items@));
                assert forall|i: int| 0 <= i < items@.len() implies decreases_to!(self@ => (
                #[trigger] items@[i])@) by {
                    assert(self@->Array_0[i] == items@[i]@);
                }
                Some(items)
            },
            _ => None,
        }
    }

    /// The members of an object, taken out of it, or `None` for another
    /// value.
    pub fn into_object(self) -> (r: Option<Vec<JsonMember>>)
        ensures
            match r {
                Some(members) => self@ == JsonView::Object(member_views(members@)),
                None => !(self@ is Object),
            },
    {
        match self {
            JsonValue::Object(members) => {
                assert(self@->Object_0 =~= member_views(members@));
                Some(members)
            },
            _ => None,
        }
    }

    /// The members of an object, or `None` for another value.
    pub fn as_object(&self) -> (r: Option<&Vec<JsonMember>>)
        ensures
            match r {
                Some(members) => self@ == JsonView::Object(member_views(members@)) && forall|i: int|
                    0 <= i < members@.len() ==> decreases_to!(self@ => (#[trigger] members@[i]).value@),
                None => !(self@ is Object),
            },
    {
        match self {
            JsonValue::Object(members) => {
                assert(self@->Object_0 =~= member_views(members@));
                assert forall|i: int| 0 <= i < members@.len() implies decreases_to!(self@ => (
                #[trigger] members@[i]).value@) by {
                    assert(self@->Object_0[i].1 == members@[i].value@);
                }
                Some(members)
            },
            _ => None,
        }
    }
}

} // verus!
