//! Reading a message from JSON.

use vstd::prelude::*;
use vstd::string::StringExecFns;
use crate::descriptor::{
    EnumDescriptorRef, ExtensionDescriptorRef, FieldDescriptorRef, KindRef, MessageDescriptorRef,
};
use crate::fields::{decoded, set_spec, FieldDescriptorLike};
use crate::json::codec::{base64_bytes, base64_decode, timestamp_from_str, timestamp_of_text};
use crate::json::mask::{snake_of, split, split_at_commas, to_snake};
use crate::json::time::{
    duration_from_str, duration_of_text, is_strict_rfc3339, strict_rfc3339,
};
use crate::json::{
    check_duration, check_timestamp, duration_in_range, is_well_known_type, timestamp_in_range,
    well_known_type, Duration, Timestamp,
};
use crate::json::text::{integer_value, magnitude, parse_integer};
use crate::json::value::{JsonMember, JsonNumber, JsonValue, JsonView};
use crate::json::any::{find_payload_type, payload_type};
use crate::json::DeserializeOptions;
use crate::wire::encode::{encode_message, wire_of_message};
use crate::message::DynamicMessage;
use crate::text::str_eq;
use crate::value::{
    entry_views, valid_for_kind, valid_key_for_kind, valid_map_entries, valid_value_spec,
    value_views, EntryView, MapEntry, MapKey, MapKeyView, MessageView, Value, ValueView,
};

verus! {

/// Why a message could not be read from JSON.
#[derive(Clone, Copy, Debug, PartialEq, Eq, Structural)]
pub enum DeserializeError {
    /// A JSON value does not have the shape that the kind of its field asks
    /// for, or a map holds a key twice.
    InvalidValue,
    /// A member of an object names no field, and such members are denied.
    UnknownField,
    /// Two members of an object name members of one oneof group.
    AmbiguousOneof,
    /// A string names no value of its enum.
    UnknownEnumName,
    /// A duration is outside the range of the mapping.
    DurationOutOfRange,
    /// A timestamp is outside the range of the mapping.
    TimestampOutOfRange,
    /// The type URL of an `Any` names no message type of the pool.
    UnsupportedType,
}

/// `r` is the outcome `expected`: the same error, or a value that holds what
/// is expected.
pub open spec fn read_value<'a>(r: Result<Value<'a>, DeserializeError>, expected: Result<
    ValueView<'a>,
    DeserializeError,
>) -> bool {
    match r {
        Ok(v) => expected == Ok::<ValueView<'a>, DeserializeError>(v@),
        Err(e) => expected == Err::<ValueView<'a>, DeserializeError>(e),
    }
}

/// The integer that the readings of a number give: the signed one, or else
/// the unsigned one.
pub open spec fn number_integer(n: JsonNumber) -> Option<int> {
    match n.int {
        Some(i) => Some(i as int),
        None => match n.uint {
            Some(u) => Some(u as int),
            None => None,
        },
    }
}

/// The integer between `min` and `max` that a JSON value stands for: a
/// number with an integer reading, or a string that holds decimal text.
pub open spec fn integer_of_json(j: JsonView, min: int, max: int) -> Option<int> {
    let found = match j {
        JsonView::Number(n) => number_integer(n),
        JsonView::String(s) => integer_value(s),
        _ => None,
    };
    match found {
        Some(v) => if min <= v <= max {
            Some(v)
        } else {
            None
        },
        None => None,
    }
}

/// The single that a JSON value stands for: a number with a reading as a
/// single, or one of the strings `NaN`, `Infinity` and `-Infinity`.
pub open spec fn single_of_json(j: JsonView) -> Option<u32> {
    match j {
        JsonView::Number(n) => n.single,
        JsonView::String(s) => if s == "NaN"@ {
            Some(0x7fc0_0000u32)
        } else if s == "Infinity"@ {
            Some(0x7f80_0000u32)
        } else if s == "-Infinity"@ {
            Some(0xff80_0000u32)
        } else {
            None
        },
        _ => None,
    }
}

/// The double that a JSON value stands for: a number with a reading as a
/// double, or one of the strings `NaN`, `Infinity` and `-Infinity`.
pub open spec fn double_of_json(j: JsonView) -> Option<u64> {
    match j {
        JsonView::Number(n) => n.double,
        JsonView::String(s) => if s == "NaN"@ {
            Some(0x7ff8_0000_0000_0000u64)
        } else if s == "Infinity"@ {
            Some(0x7ff0_0000_0000_0000u64)
        } else if s == "-Infinity"@ {
            Some(0xfff0_0000_0000_0000u64)
        } else {
            None
        },
        _ => None,
    }
}

/// The enum value that a JSON value stands for: the value that the string
/// names, or the number; `null` stands for the value of `NullValue`.
#[verifier::opaque]
pub open spec fn enum_of_json(j: JsonView, e: EnumDescriptorRef) -> Result<i32, DeserializeError> {
    match j {
        JsonView::String(s) => match e.name_index(s) {
            Some(i) => Ok(e.data().values@[i].number),
            None => Err(DeserializeError::UnknownEnumName),
        },
        JsonView::Null => if e.data().full_name@ == "google.protobuf.NullValue"@ {
            Ok(0i32)
        } else {
            Err(DeserializeError::InvalidValue)
        },
        _ => match integer_of_json(j, i32::MIN as int, i32::MAX as int) {
            Some(n) => Ok(n as i32),
            None => Err(DeserializeError::InvalidValue),
        },
    }
}

/// The single value of a kind other than message that a JSON value stands
/// for.
#[verifier::opaque]
pub open spec fn scalar_of_json<'a>(j: JsonView, kind: KindRef<'a>) -> Result<
    ValueView<'a>,
    DeserializeError,
> {
    match kind {
        KindRef::Double => match double_of_json(j) {
            Some(bits) => Ok(ValueView::F64(bits)),
            None => Err(DeserializeError::InvalidValue),
        },
        KindRef::Float => match single_of_json(j) {
            Some(bits) => Ok(ValueView::F32(bits)),
            None => Err(DeserializeError::InvalidValue),
        },
        KindRef::Int32 | KindRef::Sint32 | KindRef::Sfixed32 => match integer_of_json(
            j,
            i32::MIN as int,
            i32::MAX as int,
        ) {
            Some(n) => Ok(ValueView::I32(n as i32)),
            None => Err(DeserializeError::InvalidValue),
        },
        KindRef::Int64 | KindRef::Sint64 | KindRef::Sfixed64 => match integer_of_json(
            j,
            i64::MIN as int,
            i64::MAX as int,
        ) {
            Some(n) => Ok(ValueView::I64(n as i64)),
            None => Err(DeserializeError::InvalidValue),
        },
        KindRef::Uint32 | KindRef::Fixed32 => match integer_of_json(j, 0, u32::MAX as int) {
            Some(n) => Ok(ValueView::U32(n as u32)),
            None => Err(DeserializeError::InvalidValue),
        },
        KindRef::Uint64 | KindRef::Fixed64 => match integer_of_json(j, 0, u64::MAX as int) {
            Some(n) => Ok(ValueView::U64(n as u64)),
            None => Err(DeserializeError::InvalidValue),
        },
        KindRef::Bool => match j {
            JsonView::Bool(b) => Ok(ValueView::Bool(b)),
            _ => Err(DeserializeError::InvalidValue),
        },
        KindRef::String => match j {
            JsonView::String(s) => Ok(ValueView::String(s)),
            _ => Err(DeserializeError::InvalidValue),
        },
        KindRef::Bytes => match j {
            JsonView::String(s) => match base64_bytes(s) {
                Some(bytes) => Ok(ValueView::Bytes(bytes)),
                None => Err(DeserializeError::InvalidValue),
            },
            _ => Err(DeserializeError::InvalidValue),
        },
        KindRef::Enum(e) => match enum_of_json(j, e) {
            Ok(n) => Ok(ValueView::EnumNumber(n)),
            Err(e) => Err(e),
        },
        KindRef::Message(_) => Err(DeserializeError::InvalidValue),
    }
}

/// The map key of `kind` that the name of a member stands for.
#[verifier::opaque]
pub open spec fn key_of_text<'a>(name: Seq<char>, kind: KindRef<'a>) -> Option<MapKeyView> {
    match kind {
        KindRef::Bool => if name == "true"@ {
            Some(MapKeyView::Bool(true))
        } else if name == "false"@ {
            Some(MapKeyView::Bool(false))
        } else {
            None
        },
        KindRef::Int32 | KindRef::Sint32 | KindRef::Sfixed32 => match integer_of_json(
            JsonView::String(name),
            i32::MIN as int,
            i32::MAX as int,
        ) {
            Some(n) => Some(MapKeyView::I32(n as i32)),
            None => None,
        },
        KindRef::Int64 | KindRef::Sint64 | KindRef::Sfixed64 => match integer_of_json(
            JsonView::String(name),
            i64::MIN as int,
            i64::MAX as int,
        ) {
            Some(n) => Some(MapKeyView::I64(n as i64)),
            None => None,
        },
        KindRef::Uint32 | KindRef::Fixed32 => match integer_of_json(
            JsonView::String(name),
            0,
            u32::MAX as int,
        ) {
            Some(n) => Some(MapKeyView::U32(n as u32)),
            None => None,
        },
        KindRef::Uint64 | KindRef::Fixed64 => match integer_of_json(
            JsonView::String(name),
            0,
            u64::MAX as int,
        ) {
            Some(n) => Some(MapKeyView::U64(n as u64)),
            None => None,
        },
        KindRef::String => Some(MapKeyView::String(name)),
        _ => None,
    }
}

/// The number of items of an array, or of members of an object.
pub open spec fn json_size(j: JsonView) -> nat {
    match j {
        JsonView::Array(items) => items.len(),
        JsonView::Object(members) => members.len(),
        _ => 0,
    }
}

/// The single value of `kind` that a JSON value stands for: the message for
/// a message kind, else the scalar.
pub open spec fn value_of_json<'a>(j: JsonView, kind: KindRef<'a>, options: DeserializeOptions) -> Result<
    ValueView<'a>,
    DeserializeError,
>
    decreases j, json_size(j) + 5,
{
    match kind {
        KindRef::Message(desc) => match message_of_json(j, desc, options) {
            Ok(m) => Ok(ValueView::Message(m)),
            Err(e) => Err(e),
        },
        _ => scalar_of_json(j, kind),
    }
}

/// The values that the first `n` items of the array `j` stand for, in order;
/// the first error where one of them stands for none.
pub open spec fn items_of_json<'a>(
    j: JsonView,
    n: nat,
    kind: KindRef<'a>,
    options: DeserializeOptions,
) -> Result<Seq<ValueView<'a>>, DeserializeError>
    decreases j, n,
{
    if n == 0 || !(j is Array) || n > j->Array_0.len() {
        Ok(Seq::empty())
    } else {
        match items_of_json(j, (n - 1) as nat, kind, options) {
            Err(e) => Err(e),
            Ok(front) => match value_of_json(j->Array_0[n - 1], kind, options) {
                Err(e) => Err(e),
                Ok(v) => Ok(front.push(v)),
            },
        }
    }
}

/// `key` is among the keys of `entries`.
pub open spec fn holds_key<'a>(entries: Seq<(MapKeyView, ValueView<'a>)>, key: MapKeyView) -> bool {
    exists|i: int| 0 <= i < entries.len() && (#[trigger] entries[i]).0 == key
}

/// The map entries that the first `n` members of the object `j` stand for,
/// in order, read by the map entry type `entry`; the first error where a
/// name stands for no key, a key comes twice, or a value cannot be read.
pub open spec fn entries_of_json<'a>(
    j: JsonView,
    n: nat,
    entry: MessageDescriptorRef<'a>,
    options: DeserializeOptions,
) -> Result<Seq<(MapKeyView, ValueView<'a>)>, DeserializeError>
    decreases j, n,
{
    if n == 0 || !(j is Object) || n > j->Object_0.len() {
        Ok(Seq::empty())
    } else {
        match entries_of_json(j, (n - 1) as nat, entry, options) {
            Err(e) => Err(e),
            Ok(front) => match key_of_text(j->Object_0[n - 1].0, entry.map_key_kind_spec()) {
                None => Err(DeserializeError::InvalidValue),
                Some(key) => if holds_key(front, key) {
                    Err(DeserializeError::InvalidValue)
                } else {
                    match value_of_json(j->Object_0[n - 1].1, entry.map_value_kind_spec(), options) {
                        Err(e) => Err(e),
                        Ok(v) => Ok(front.push((key, v))),
                    }
                },
            },
        }
    }
}

/// The value of a field that a JSON value stands for: a list for an array,
/// a map for an object, else a single value.
pub open spec fn field_value_of_json<'a>(
    j: JsonView,
    kind: KindRef<'a>,
    is_list: bool,
    is_map: bool,
    options: DeserializeOptions,
) -> Result<ValueView<'a>, DeserializeError>
    decreases j, json_size(j) + 6,
{
    if is_list {
        match j {
            JsonView::Array(items) => match items_of_json(j, items.len(), kind, options) {
                Ok(read) => Ok(ValueView::List(read)),
                Err(e) => Err(e),
            },
            _ => Err(DeserializeError::InvalidValue),
        }
    } else if is_map {
        match (j, kind) {
            (JsonView::Object(members), KindRef::Message(entry)) => if entry.data().is_map_entry {
                match entries_of_json(j, members.len(), entry, options) {
                    Ok(read) => Ok(ValueView::Entries(read)),
                    Err(e) => Err(e),
                }
            } else {
                Err(DeserializeError::InvalidValue)
            },
            _ => Err(DeserializeError::InvalidValue),
        }
    } else {
        value_of_json(j, kind, options)
    }
}

/// A member of the oneof group of `field` holds a decoded value.
pub open spec fn oneof_taken<'a>(m: Map<u32, EntryView<'a>>, field: FieldDescriptorRef<'a>) -> bool {
    let fields = field.message().data().fields@;
    field.data().oneof is Some && exists|i: int|
        0 <= i < fields.len() && (#[trigger] fields[i]).oneof == field.data().oneof && decoded(
            m,
            fields[i].number,
        ) is Some
}

/// A field of the kind reads `null` as a value: a singular field that holds
/// a `Value`. For every other field, `null` leaves the field unset.
pub open spec fn reads_null<'a>(kind: KindRef<'a>, is_list: bool, is_map: bool) -> bool {
    &&& !is_list
    &&& !is_map
    &&& kind matches KindRef::Message(desc)
    &&& desc.full_name_spec() == "google.protobuf.Value"@
}

/// What a message of type `desc` that holds `state` holds after a member of
/// an object was read. The member names a field, as declared or in JSON, or
/// else an extension, in full or in JSON; a member that names neither is an
/// error where such members are denied, and is passed over otherwise. A
/// member that is `null` leaves its field unset. A member of a oneof group
/// is an error where a member of the group was read before. The value that
/// is read is written to the field.
pub open spec fn member_of_json<'a>(
    state: Map<u32, EntryView<'a>>,
    name: Seq<char>,
    value: JsonView,
    desc: MessageDescriptorRef<'a>,
    options: DeserializeOptions,
) -> Result<Map<u32, EntryView<'a>>, DeserializeError>
    decreases value, json_size(value) + 7,
{
    match desc.field_named(name) {
        Some(i) => {
            let field = FieldDescriptorRef::at(desc, i as usize);
            if value is Null && !reads_null(field.resolved_kind(), field.holds_list(), field.holds_map()) {
                Ok(state)
            } else if oneof_taken(state, field) {
                Err(DeserializeError::AmbiguousOneof)
            } else {
                match field_value_of_json(
                    value,
                    field.resolved_kind(),
                    field.holds_list(),
                    field.holds_map(),
                    options,
                ) {
                    Err(e) => Err(e),
                    Ok(v) => Ok(set_spec(state, field, v)),
                }
            }
        },
        None => match desc.extension_named(name) {
            Some(k) => {
                let extension = ExtensionDescriptorRef::at(desc.pool(), k as usize);
                if value is Null && !reads_null(
                    extension.resolved_kind(),
                    extension.holds_list(),
                    extension.holds_map(),
                ) {
                    Ok(state)
                } else {
                    match field_value_of_json(
                        value,
                        extension.resolved_kind(),
                        extension.holds_list(),
                        extension.holds_map(),
                        options,
                    ) {
                        Err(e) => Err(e),
                        Ok(v) => Ok(set_spec(state, extension, v)),
                    }
                }
            },
            None => if options.denies_unknown_fields() {
                Err(DeserializeError::UnknownField)
            } else {
                Ok(state)
            },
        },
    }
}

/// What a message of type `desc` holds after the first `n` members of the
/// object `j` were read, in order; the first error where one of them cannot
/// be read.
pub open spec fn fields_of_json<'a>(
    j: JsonView,
    n: nat,
    desc: MessageDescriptorRef<'a>,
    options: DeserializeOptions,
) -> Result<Map<u32, EntryView<'a>>, DeserializeError>
    decreases j, n,
{
    if n == 0 || !(j is Object) || n > j->Object_0.len() {
        Ok(Map::empty())
    } else {
        match fields_of_json(j, (n - 1) as nat, desc, options) {
            Err(e) => Err(e),
            Ok(state) => member_of_json(
                state,
                j->Object_0[n - 1].0,
                j->Object_0[n - 1].1,
                desc,
                options,
            ),
        }
    }
}

/// The message of type `desc` that an object stands for, member by member.
pub open spec fn object_of_json<'a>(
    j: JsonView,
    desc: MessageDescriptorRef<'a>,
    options: DeserializeOptions,
) -> Result<MessageView<'a>, DeserializeError>
    decreases j, json_size(j) + 1,
{
    match j {
        JsonView::Object(members) => match fields_of_json(j, members.len(), desc, options) {
            Ok(fields) => Ok(MessageView { desc, fields }),
            Err(e) => Err(e),
        },
        _ => Err(DeserializeError::InvalidValue),
    }
}

/// The position of the first of the first `n` members that is named `name`.
pub open spec fn first_named(members: Seq<(Seq<char>, JsonView)>, name: Seq<char>, n: nat) -> Option<
    int,
>
    decreases n,
{
    if n == 0 || n > members.len() {
        None
    } else {
        match first_named(members, name, (n - 1) as nat) {
            Some(i) => Some(i),
            None => if members[n - 1].0 == name {
                Some(n - 1)
            } else {
                None
            },
        }
    }
}

/// What a message of type `desc` holds after the first `n` members of the
/// object `j` were read, in order, but for those named `@type`.
pub open spec fn payload_fields_of_json<'a>(
    j: JsonView,
    n: nat,
    desc: MessageDescriptorRef<'a>,
    options: DeserializeOptions,
) -> Result<Map<u32, EntryView<'a>>, DeserializeError>
    decreases j, n,
{
    if n == 0 || !(j is Object) || n > j->Object_0.len() {
        Ok(Map::empty())
    } else {
        match payload_fields_of_json(j, (n - 1) as nat, desc, options) {
            Err(e) => Err(e),
            Ok(state) => if j->Object_0[n - 1].0 == "@type"@ {
                Ok(state)
            } else {
                member_of_json(state, j->Object_0[n - 1].0, j->Object_0[n - 1].1, desc, options)
            },
        }
    }
}

/// The payload of type `desc` that the object of an `Any` holds in its
/// members beside `@type`.
pub open spec fn payload_of_json<'a>(
    j: JsonView,
    desc: MessageDescriptorRef<'a>,
    options: DeserializeOptions,
) -> Result<MessageView<'a>, DeserializeError>
    decreases j, json_size(j) + 1,
{
    match j {
        JsonView::Object(members) => match payload_fields_of_json(j, members.len(), desc, options) {
            Ok(fields) => Ok(MessageView { desc, fields }),
            Err(e) => Err(e),
        },
        _ => Err(DeserializeError::InvalidValue),
    }
}

/// The message of type `desc`, an `Any`, that holds the type URL as field 1
/// and the binary form of the payload as field 2.
pub open spec fn any_holding<'a>(desc: MessageDescriptorRef<'a>, url: Seq<char>, bytes: Seq<u8>) -> Result<
    MessageView<'a>,
    DeserializeError,
> {
    match (desc.field_index(1), desc.field_index(2)) {
        (Some(a), Some(b)) => {
            let url_field = FieldDescriptorRef::at(desc, a as usize);
            let bytes_field = FieldDescriptorRef::at(desc, b as usize);
            if crate::fields::valid_for(url_field, ValueView::String(url)) && crate::fields::valid_for(
                bytes_field,
                ValueView::Bytes(bytes),
            ) {
                Ok(
                    MessageView {
                        desc,
                        fields: set_spec(
                            set_spec(Map::empty(), url_field, ValueView::String(url)),
                            bytes_field,
                            ValueView::Bytes(bytes),
                        ),
                    },
                )
            } else {
                Err(DeserializeError::InvalidValue)
            }
        },
        _ => Err(DeserializeError::InvalidValue),
    }
}

/// The `Any` that the payload and its type URL make: it holds the payload in
/// its binary form. `InvalidValue` where the payload has none.
pub open spec fn any_of_payload<'a>(
    desc: MessageDescriptorRef<'a>,
    url: Seq<char>,
    payload: Result<MessageView<'a>, DeserializeError>,
) -> Result<MessageView<'a>, DeserializeError> {
    match payload {
        Err(e) => Err(e),
        Ok(p) => match wire_of_message(p) {
            None => Err(DeserializeError::InvalidValue),
            Some(bytes) => any_holding(desc, url, bytes),
        },
    }
}

/// The `Any` that an object stands for. Its member `@type` holds the type
/// URL, which names a message type of the pool. The payload is read from the
/// member `value` where that type is a well-known one, else from the other
/// members of the object. `UnsupportedType` where the pool holds no type of
/// that name.
pub open spec fn any_of_json<'a>(
    j: JsonView,
    desc: MessageDescriptorRef<'a>,
    options: DeserializeOptions,
) -> Result<MessageView<'a>, DeserializeError>
    decreases j, json_size(j) + 2,
{
    match j {
        JsonView::Object(members) => match first_named(members, "@type"@, members.len()) {
            Some(i) => if 0 <= i < members.len() && members[i].1 is String {
                let url = members[i].1->String_0;
                match payload_type(desc.pool(), url) {
                    None => Err(DeserializeError::UnsupportedType),
                    Some(inner) => if well_known_type(inner.full_name_spec()) {
                        match first_named(members, "value"@, members.len()) {
                            Some(k) => if 0 <= k < members.len() {
                                any_of_payload(
                                    desc,
                                    url,
                                    message_of_json(j->Object_0[k].1, inner, options),
                                )
                            } else {
                                Err(DeserializeError::InvalidValue)
                            },
                            None => Err(DeserializeError::InvalidValue),
                        }
                    } else {
                        any_of_payload(desc, url, payload_of_json(j, inner, options))
                    },
                }
            } else {
                Err(DeserializeError::InvalidValue)
            },
            None => Err(DeserializeError::InvalidValue),
        },
        _ => Err(DeserializeError::InvalidValue),
    }
}

/// The message of type `desc` that holds `v` for `field` and nothing else.
pub open spec fn message_with<'a>(
    desc: MessageDescriptorRef<'a>,
    field: FieldDescriptorRef<'a>,
    v: ValueView<'a>,
) -> MessageView<'a> {
    MessageView { desc, fields: set_spec(Map::empty(), field, v) }
}

/// The message of type `desc` whose field numbered `number`, a singular
/// field of a kind other than message, holds the scalar that `j` stands for.
pub open spec fn scalar_message_of_json<'a>(
    j: JsonView,
    desc: MessageDescriptorRef<'a>,
    number: u32,
) -> Result<MessageView<'a>, DeserializeError> {
    match desc.field_index(number) {
        Some(i) => {
            let field = FieldDescriptorRef::at(desc, i as usize);
            if field.holds_list() || field.holds_map() || field.resolved_kind() is Message {
                Err(DeserializeError::InvalidValue)
            } else {
                match scalar_of_json(j, field.resolved_kind()) {
                    Ok(v) => Ok(message_with(desc, field, v)),
                    Err(e) => Err(e),
                }
            }
        },
        None => Err(DeserializeError::InvalidValue),
    }
}

/// The message of type `desc` whose first field, a map, holds the entries
/// that the members of the object `j` stand for.
pub open spec fn struct_of_json<'a>(
    j: JsonView,
    desc: MessageDescriptorRef<'a>,
    options: DeserializeOptions,
) -> Result<MessageView<'a>, DeserializeError>
    decreases j, json_size(j) + 1,
{
    match (j, desc.field_index(1)) {
        (JsonView::Object(members), Some(i)) => {
            let field = FieldDescriptorRef::at(desc, i as usize);
            match field.resolved_kind() {
                KindRef::Message(entry) => if field.holds_map() && entry.data().is_map_entry {
                    match entries_of_json(j, members.len(), entry, options) {
                        Ok(read) => Ok(message_with(desc, field, ValueView::Entries(read))),
                        Err(e) => Err(e),
                    }
                } else {
                    Err(DeserializeError::InvalidValue)
                },
                _ => Err(DeserializeError::InvalidValue),
            }
        },
        _ => Err(DeserializeError::InvalidValue),
    }
}

/// The message of type `desc` whose first field, a list, holds the values
/// that the items of the array `j` stand for.
pub open spec fn list_of_json<'a>(
    j: JsonView,
    desc: MessageDescriptorRef<'a>,
    options: DeserializeOptions,
) -> Result<MessageView<'a>, DeserializeError>
    decreases j, json_size(j) + 1,
{
    match (j, desc.field_index(1)) {
        (JsonView::Array(items), Some(i)) => {
            let field = FieldDescriptorRef::at(desc, i as usize);
            if field.holds_list() {
                match items_of_json(j, items.len(), field.resolved_kind(), options) {
                    Ok(read) => Ok(message_with(desc, field, ValueView::List(read))),
                    Err(e) => Err(e),
                }
            } else {
                Err(DeserializeError::InvalidValue)
            }
        },
        _ => Err(DeserializeError::InvalidValue),
    }
}

/// The message of type `desc` whose field numbered `number`, a singular
/// field that holds a message, holds `inner`.
pub open spec fn nesting_message<'a>(
    desc: MessageDescriptorRef<'a>,
    number: u32,
    inner: MessageView<'a>,
) -> Result<MessageView<'a>, DeserializeError> {
    match desc.field_index(number) {
        Some(i) => {
            let field = FieldDescriptorRef::at(desc, i as usize);
            if field.holds_list() || field.holds_map() || !valid_for_kind(
                ValueView::Message(inner),
                field.resolved_kind(),
            ) {
                Err(DeserializeError::InvalidValue)
            } else {
                Ok(message_with(desc, field, ValueView::Message(inner)))
            }
        },
        None => Err(DeserializeError::InvalidValue),
    }
}

/// The message type of the field of `desc` numbered `number`.
pub open spec fn nested_type<'a>(desc: MessageDescriptorRef<'a>, number: u32) -> Option<
    MessageDescriptorRef<'a>,
> {
    match desc.field_index(number) {
        Some(i) => match FieldDescriptorRef::at(desc, i as usize).resolved_kind() {
            KindRef::Message(inner) => Some(inner),
            _ => None,
        },
        None => None,
    }
}

/// The message of type `desc` that holds `seconds` in its first field and
/// `nanos` in its second; an error where the type does not declare the two
/// as singular integers of 64 and of 32 bits.
pub open spec fn timed_message<'a>(desc: MessageDescriptorRef<'a>, seconds: i64, nanos: i32) -> Result<
    MessageView<'a>,
    DeserializeError,
> {
    match (desc.field_index(1), desc.field_index(2)) {
        (Some(i), Some(k)) => {
            let first = FieldDescriptorRef::at(desc, i as usize);
            let second = FieldDescriptorRef::at(desc, k as usize);
            if crate::fields::valid_for(first, ValueView::I64(seconds)) && crate::fields::valid_for(
                second,
                ValueView::I32(nanos),
            ) {
                Ok(
                    MessageView {
                        desc,
                        fields: set_spec(
                            set_spec(Map::empty(), first, ValueView::I64(seconds)),
                            second,
                            ValueView::I32(nanos),
                        ),
                    },
                )
            } else {
                Err(DeserializeError::InvalidValue)
            }
        },
        _ => Err(DeserializeError::InvalidValue),
    }
}

/// The duration that a JSON value stands for: a string that holds the text
/// of a duration within the range of the mapping.
pub open spec fn duration_of_json<'a>(j: JsonView, desc: MessageDescriptorRef<'a>) -> Result<
    MessageView<'a>,
    DeserializeError,
> {
    match j {
        JsonView::String(s) => match duration_of_text(s) {
            Some((seconds, nanos)) => if duration_in_range(Duration { seconds, nanos }) {
                timed_message(desc, seconds, nanos)
            } else {
                Err(DeserializeError::DurationOutOfRange)
            },
            None => Err(DeserializeError::InvalidValue),
        },
        _ => Err(DeserializeError::InvalidValue),
    }
}

/// The timestamp that a JSON value stands for: a string that holds the
/// strict RFC 3339 text of a point in time in the years 0001 to 9999.
pub open spec fn timestamp_of_json<'a>(j: JsonView, desc: MessageDescriptorRef<'a>) -> Result<
    MessageView<'a>,
    DeserializeError,
> {
    match j {
        JsonView::String(s) => if strict_rfc3339(s) {
            match timestamp_of_text(s) {
                Some((seconds, nanos)) => if timestamp_in_range(Timestamp { seconds, nanos }) {
                    timed_message(desc, seconds, nanos)
                } else {
                    Err(DeserializeError::TimestampOutOfRange)
                },
                None => Err(DeserializeError::InvalidValue),
            }
        } else {
            Err(DeserializeError::InvalidValue)
        },
        _ => Err(DeserializeError::InvalidValue),
    }
}

/// The paths that the first `n` of the parts stand for; none where one of
/// the parts holds an underscore.
pub open spec fn mask_paths_read(parts: Seq<Seq<char>>, n: nat) -> Option<Seq<Seq<char>>>
    decreases n,
{
    if n == 0 {
        Some(Seq::empty())
    } else {
        match mask_paths_read(parts, (n - 1) as nat) {
            None => None,
            Some(front) => match snake_of(parts[n - 1]) {
                Some(path) => Some(front.push(path)),
                None => None,
            },
        }
    }
}

/// The strings as values.
pub open spec fn string_values<'a>(texts: Seq<Seq<char>>) -> Seq<ValueView<'a>> {
    Seq::new(texts.len(), |i: int| ValueView::String(texts[i]))
}

/// The field mask that a JSON value stands for: a string of paths in
/// lowerCamelCase, joined by commas, which the first field of `desc`, a list
/// of strings, holds.
pub open spec fn field_mask_of_json<'a>(j: JsonView, desc: MessageDescriptorRef<'a>) -> Result<
    MessageView<'a>,
    DeserializeError,
> {
    match (j, desc.field_index(1)) {
        (JsonView::String(s), Some(i)) => {
            let field = FieldDescriptorRef::at(desc, i as usize);
            if !(field.holds_list() && field.resolved_kind() is String) {
                Err(DeserializeError::InvalidValue)
            } else {
                match mask_paths_read(split(s), split(s).len()) {
                    Some(paths) => Ok(
                        message_with(desc, field, ValueView::List(string_values(paths))),
                    ),
                    None => Err(DeserializeError::InvalidValue),
                }
            }
        },
        _ => Err(DeserializeError::InvalidValue),
    }
}

/// The `Value` of type `desc` that a JSON value stands for: `null`, a
/// number, a string and a boolean are held by the fields numbered 1 to 4; an
/// object is held as a `Struct` by the field numbered 5, and an array as a
/// `ListValue` by the field numbered 6.
pub open spec fn value_message_of_json<'a>(
    j: JsonView,
    desc: MessageDescriptorRef<'a>,
    options: DeserializeOptions,
) -> Result<MessageView<'a>, DeserializeError>
    decreases j, json_size(j) + 2,
{
    match j {
        JsonView::Null => scalar_message_of_json(j, desc, 1),
        JsonView::Number(_) => scalar_message_of_json(j, desc, 2),
        JsonView::String(_) => scalar_message_of_json(j, desc, 3),
        JsonView::Bool(_) => scalar_message_of_json(j, desc, 4),
        JsonView::Object(_) => match nested_type(desc, 5) {
            Some(inner) => match struct_of_json(j, inner, options) {
                Ok(m) => nesting_message(desc, 5, m),
                Err(e) => Err(e),
            },
            None => Err(DeserializeError::InvalidValue),
        },
        JsonView::Array(_) => match nested_type(desc, 6) {
            Some(inner) => match list_of_json(j, inner, options) {
                Ok(m) => nesting_message(desc, 6, m),
                Err(e) => Err(e),
            },
            None => Err(DeserializeError::InvalidValue),
        },
    }
}

/// The message of a well-known type that a JSON value stands for. A
/// duration and a timestamp are read from text. A wrapper is read from the
/// value that it wraps, a `Struct` from an object, a `ListValue` from an
/// array, and a `Value` from any JSON value. A `FieldMask` is read from the
/// text of its paths, `Empty` as an object, and an `Any` from the object that
/// holds its type URL and its payload.
pub open spec fn well_known_of_json<'a>(
    j: JsonView,
    desc: MessageDescriptorRef<'a>,
    options: DeserializeOptions,
) -> Result<MessageView<'a>, DeserializeError>
    decreases j, json_size(j) + 3,
{
    let name = desc.full_name_spec();
    if name == "google.protobuf.Duration"@ {
        duration_of_json(j, desc)
    } else if name == "google.protobuf.Timestamp"@ {
        timestamp_of_json(j, desc)
    } else if name == "google.protobuf.Empty"@ {
        object_of_json(j, desc, options)
    } else if name == "google.protobuf.Any"@ {
        any_of_json(j, desc, options)
    } else if name == "google.protobuf.FieldMask"@ {
        field_mask_of_json(j, desc)
    } else if name == "google.protobuf.Value"@ {
        value_message_of_json(j, desc, options)
    } else if name == "google.protobuf.Struct"@ {
        struct_of_json(j, desc, options)
    } else if name == "google.protobuf.ListValue"@ {
        list_of_json(j, desc, options)
    } else {
        scalar_message_of_json(j, desc, 1)
    }
}

/// The message of type `desc` that a JSON value stands for: that of the
/// well-known type, where `desc` is one; else what the members of the object
/// give, read in order.
pub open spec fn message_of_json<'a>(
    j: JsonView,
    desc: MessageDescriptorRef<'a>,
    options: DeserializeOptions,
) -> Result<MessageView<'a>, DeserializeError>
    decreases j, json_size(j) + 4,
{
    if well_known_type(desc.full_name_spec()) {
        well_known_of_json(j, desc, options)
    } else {
        object_of_json(j, desc, options)
    }
}

/// The integer between `min` and `max` that a JSON value stands for, by its
/// sign and its size.
fn read_integer(j: &JsonValue, min: i64, max: u64) -> (r: Option<(bool, u64)>)
    requires
        min <= 0,
    ensures
        match r {
            Some((negative, size)) => {
                &&& integer_of_json(j@, min as int, max as int) == Some(
                    if negative {
                        -(size as int)
                    } else {
                        size as int
                    },
                )
                &&& negative ==> size > 0
            },
            None => integer_of_json(j@, min as int, max as int) is None,
        },
{
    match j {
        JsonValue::Number(n) => match n.int {
            Some(i) => if i < 0 {
                if i >= min {
                    Some((true, magnitude(i)))
                } else {
                    None
                }
            } else if i as u64 <= max {
                Some((false, i as u64))
            } else {
                None
            },
            None => match n.uint {
                Some(u) => if u <= max {
                    Some((false, u))
                } else {
                    None
                },
                None => None,
            },
        },
        JsonValue::String(s) => parse_integer(s.as_str(), min, max),
        _ => None,
    }
}

/// The signed integer of the given sign and size.
fn signed(negative: bool, size: u64) -> (r: i64)
    requires
        i64::MIN <= (if negative {
            -(size as int)
        } else {
            size as int
        }) <= i64::MAX,
    ensures
        r == if negative {
            -(size as int)
        } else {
            size as int
        },
{
    if negative {
        if size == 0x8000_0000_0000_0000 {
            i64::MIN
        } else {
            -(size as i64)
        }
    } else {
        size as i64
    }
}

fn read_single(j: &JsonValue) -> (r: Option<u32>)
    ensures
        r == single_of_json(j@),
{
    match j {
        JsonValue::Number(n) => n.single,
        JsonValue::String(s) => if str_eq(s.as_str(), "NaN") {
            Some(0x7fc0_0000)
        } else if str_eq(s.as_str(), "Infinity") {
            Some(0x7f80_0000)
        } else if str_eq(s.as_str(), "-Infinity") {
            Some(0xff80_0000)
        } else {
            None
        },
        _ => None,
    }
}

fn read_double(j: &JsonValue) -> (r: Option<u64>)
    ensures
        r == double_of_json(j@),
{
    match j {
        JsonValue::Number(n) => n.double,
        JsonValue::String(s) => if str_eq(s.as_str(), "NaN") {
            Some(0x7ff8_0000_0000_0000)
        } else if str_eq(s.as_str(), "Infinity") {
            Some(0x7ff0_0000_0000_0000)
        } else if str_eq(s.as_str(), "-Infinity") {
            Some(0xfff0_0000_0000_0000)
        } else {
            None
        },
        _ => None,
    }
}

fn read_enum(j: &JsonValue, e: &EnumDescriptorRef) -> (r: Result<i32, DeserializeError>)
    ensures
        r == enum_of_json(j@, *e),
{
    reveal(enum_of_json);
    match j {
        JsonValue::String(s) => match e.get_value_by_name(s.as_str()) {
            Some(n) => Ok(n),
            None => Err(DeserializeError::UnknownEnumName),
        },
        JsonValue::Null => if str_eq(e.full_name(), "google.protobuf.NullValue") {
            Ok(0)
        } else {
            Err(DeserializeError::InvalidValue)
        },
        _ => match read_integer(j, -0x8000_0000, 0x7fff_ffff) {
            Some((negative, size)) => Ok(signed(negative, size) as i32),
            None => Err(DeserializeError::InvalidValue),
        },
    }
}

/// Reads a single value of a kind other than message.
pub fn deserialize_scalar<'a>(j: &JsonValue, kind: &KindRef<'a>) -> (r: Result<
    Value<'a>,
    DeserializeError,
>)
    ensures
        read_value(r, scalar_of_json(j@, *kind)),
        r matches Ok(v) ==> valid_for_kind(v@, *kind),
{
    reveal(scalar_of_json);
    match kind {
        KindRef::Double => match read_double(j) {
            Some(bits) => Ok(Value::F64(bits)),
            None => Err(DeserializeError::InvalidValue),
        },
        KindRef::Float => match read_single(j) {
            Some(bits) => Ok(Value::F32(bits)),
            None => Err(DeserializeError::InvalidValue),
        },
        KindRef::Int32 | KindRef::Sint32 | KindRef::Sfixed32 => match read_integer(
            j,
            -0x8000_0000,
            0x7fff_ffff,
        ) {
            Some((negative, size)) => Ok(Value::I32(signed(negative, size) as i32)),
            None => Err(DeserializeError::InvalidValue),
        },
        KindRef::Int64 | KindRef::Sint64 | KindRef::Sfixed64 => match read_integer(
            j,
            i64::MIN,
            0x7fff_ffff_ffff_ffff,
        ) {
            Some((negative, size)) => Ok(Value::I64(signed(negative, size))),
            None => Err(DeserializeError::InvalidValue),
        },
        KindRef::Uint32 | KindRef::Fixed32 => match read_integer(j, 0, 0xffff_ffff) {
            Some((_, size)) => Ok(Value::U32(size as u32)),
            None => Err(DeserializeError::InvalidValue),
        },
        KindRef::Uint64 | KindRef::Fixed64 => match read_integer(j, 0, 0xffff_ffff_ffff_ffff) {
            Some((_, size)) => Ok(Value::U64(size)),
            None => Err(DeserializeError::InvalidValue),
        },
        KindRef::Bool => match j {
            JsonValue::Bool(b) => Ok(Value::Bool(*b)),
            _ => Err(DeserializeError::InvalidValue),
        },
        KindRef::String => match j {
            JsonValue::String(s) => Ok(Value::String(s.clone())),
            _ => Err(DeserializeError::InvalidValue),
        },
        KindRef::Bytes => match j {
            JsonValue::String(s) => match base64_decode(s.as_str()) {
                Some(bytes) => Ok(Value::Bytes(bytes)),
                None => Err(DeserializeError::InvalidValue),
            },
            _ => Err(DeserializeError::InvalidValue),
        },
        KindRef::Enum(e) => match read_enum(j, e) {
            Ok(n) => Ok(Value::EnumNumber(n)),
            Err(e) => Err(e),
        },
        KindRef::Message(_) => Err(DeserializeError::InvalidValue),
    }
}

/// The map key of `kind` that the name of a member stands for.
pub fn parse_key<'a>(name: &str, kind: &KindRef<'a>) -> (r: Option<MapKey>)
    ensures
        match r {
            Some(key) => key_of_text(name@, *kind) == Some(key@) && valid_key_for_kind(key@, *kind),
            None => key_of_text(name@, *kind) is None,
        },
{
    reveal(key_of_text);
    match kind {
        KindRef::Bool => if str_eq(name, "true") {
            Some(MapKey::Bool(true))
        } else if str_eq(name, "false") {
            Some(MapKey::Bool(false))
        } else {
            None
        },
        KindRef::Int32 | KindRef::Sint32 | KindRef::Sfixed32 => match parse_integer(
            name,
            -0x8000_0000,
            0x7fff_ffff,
        ) {
            Some((negative, size)) => Some(MapKey::I32(signed(negative, size) as i32)),
            None => None,
        },
        KindRef::Int64 | KindRef::Sint64 | KindRef::Sfixed64 => match parse_integer(
            name,
            i64::MIN,
            0x7fff_ffff_ffff_ffff,
        ) {
            Some((negative, size)) => Some(MapKey::I64(signed(negative, size))),
            None => None,
        },
        KindRef::Uint32 | KindRef::Fixed32 => match parse_integer(name, 0, 0xffff_ffff) {
            Some((_, size)) => Some(MapKey::U32(size as u32)),
            None => None,
        },
        KindRef::Uint64 | KindRef::Fixed64 => match parse_integer(name, 0, 0xffff_ffff_ffff_ffff) {
            Some((_, size)) => Some(MapKey::U64(size)),
            None => None,
        },
        KindRef::String => Some(MapKey::String(String::from_str(name))),
        _ => None,
    }
}

/// Reads a single value of `kind`.
#[verifier::spinoff_prover]
#[verifier::rlimit(100)]
pub fn deserialize_value<'a>(j: &JsonValue, kind: &KindRef<'a>, options: &DeserializeOptions) -> (r:
    Result<Value<'a>, DeserializeError>)
    ensures
        read_value(r, value_of_json(j@, *kind, *options)),
        r matches Ok(v) ==> valid_for_kind(v@, *kind),
    decreases j@, 5nat,
{
    match kind {
        KindRef::Message(desc) => match deserialize_message(*desc, j, options) {
            Ok(message) => {
                let v = Value::Message(message);
                assert(v@ == ValueView::Message(message@));
                Ok(v)
            },
            Err(e) => Err(e),
        },
        _ => deserialize_scalar(j, kind),
    }
}

/// An error in reading the first items of an array is the error in reading
/// all of them.
pub proof fn lemma_items_error<'a>(
    j: JsonView,
    n: nat,
    len: nat,
    kind: KindRef<'a>,
    options: DeserializeOptions,
)
    requires
        j is Array,
        n <= len == j->Array_0.len(),
        items_of_json(j, n, kind, options) is Err,
    ensures
        items_of_json(j, len, kind, options) == items_of_json(j, n, kind, options),
    decreases len - n,
{
    if n < len {
        lemma_items_error(j, n + 1, len, kind, options);
    }
}

/// An error in reading the first members of an object as map entries is the
/// error in reading all of them.
pub proof fn lemma_entries_error<'a>(
    j: JsonView,
    n: nat,
    len: nat,
    entry: MessageDescriptorRef<'a>,
    options: DeserializeOptions,
)
    requires
        j is Object,
        n <= len == j->Object_0.len(),
        entries_of_json(j, n, entry, options) is Err,
    ensures
        entries_of_json(j, len, entry, options) == entries_of_json(j, n, entry, options),
    decreases len - n,
{
    if n < len {
        lemma_entries_error(j, n + 1, len, entry, options);
    }
}

/// An error in reading the first members of an object as fields is the error
/// in reading all of them.
pub proof fn lemma_fields_error<'a>(
    j: JsonView,
    n: nat,
    len: nat,
    desc: MessageDescriptorRef<'a>,
    options: DeserializeOptions,
)
    requires
        j is Object,
        n <= len == j->Object_0.len(),
        fields_of_json(j, n, desc, options) is Err,
    ensures
        fields_of_json(j, len, desc, options) == fields_of_json(j, n, desc, options),
    decreases len - n,
{
    if n < len {
        lemma_fields_error(j, n + 1, len, desc, options);
    }
}

/// Reads the items of the array `j`.
fn deserialize_items<'a>(
    j: &JsonValue,
    items: &Vec<JsonValue>,
    kind: &KindRef<'a>,
    options: &DeserializeOptions,
) -> (r: Result<Vec<Value<'a>>, DeserializeError>)
    requires
        j@ == JsonView::Array(crate::json::value::array_views(items@)),
        forall|i: int| 0 <= i < items@.len() ==> decreases_to!(j@ => (#[trigger] items@[i])@),
    ensures
        match r {
            Ok(out) => items_of_json(j@, items@.len(), *kind, *options) == Ok::<
                Seq<ValueView<'a>>,
                DeserializeError,
            >(value_views(out@)) && forall|i: int|
                0 <= i < out@.len() ==> valid_for_kind((#[trigger] out@[i])@, *kind),
            Err(e) => items_of_json(j@, items@.len(), *kind, *options) == Err::<
                Seq<ValueView<'a>>,
                DeserializeError,
            >(e),
        },
    decreases j@, 0nat,
{
    let mut out: Vec<Value<'a>> = Vec::new();
    let mut i: usize = 0;
    assert(value_views(out@) =~= Seq::empty());
    while i < items.len()
        invariant
            i <= items.len(),
            j@ == JsonView::Array(crate::json::value::array_views(items@)),
            forall|k: int| 0 <= k < items@.len() ==> decreases_to!(j@ => (#[trigger] items@[k])@),
            items_of_json(j@, i as nat, *kind, *options) == Ok::<
                Seq<ValueView<'a>>,
                DeserializeError,
            >(value_views(out@)),
            forall|k: int| 0 <= k < out@.len() ==> valid_for_kind((#[trigger] out@[k])@, *kind),
        decreases items.len() - i,
    {
            assert(j@->Array_0[i as int] == items@[i as int]@);
        match deserialize_value(&items[i], kind, options) {
            Err(e) => {
                proof {
                    assert(items_of_json(j@, (i + 1) as nat, *kind, *options) == Err::<
                        Seq<ValueView<'a>>,
                        DeserializeError,
                    >(e));
                    lemma_items_error(j@, (i + 1) as nat, items@.len() as nat, *kind, *options);
                }
                return Err(e);
            },
            Ok(v) => {
                let ghost before = out@;
                out.push(v);
                assert(value_views(out@) =~= value_views(before).push(v@));
                assert(items_of_json(j@, (i + 1) as nat, *kind, *options) == Ok::<
                    Seq<ValueView<'a>>,
                    DeserializeError,
                >(value_views(out@)));
            },
        }
        i += 1;
    }
    Ok(out)
}

/// Whether `key` is among the keys of `entries`.
fn has_key<'a>(entries: &Vec<MapEntry<'a>>, key: &MapKey) -> (r: bool)
    ensures
        r == holds_key(entry_views(entries@), key@),
{
    let mut i: usize = 0;
    while i < entries.len()
        invariant
            i <= entries.len(),
            forall|k: int| 0 <= k < i ==> (#[trigger] entry_views(entries@)[k]).0 != key@,
        decreases entries.len() - i,
    {
        if entries[i].key.same_key(key) {
            assert(entry_views(entries@)[i as int].0 == key@);
            return true;
        }
        i += 1;
    }
    false
}

/// Reads the members of the object `j` as the entries of a map.
fn deserialize_entries<'a>(
    j: &JsonValue,
    members: &Vec<JsonMember>,
    entry: &MessageDescriptorRef<'a>,
    options: &DeserializeOptions,
) -> (r: Result<Vec<MapEntry<'a>>, DeserializeError>)
    requires
        entry.data().is_map_entry,
        j@ == JsonView::Object(crate::json::value::member_views(members@)),
        forall|i: int| 0 <= i < members@.len() ==> decreases_to!(j@ => (#[trigger] members@[i]).value@),
    ensures
        match r {
            Ok(out) => entries_of_json(j@, members@.len(), *entry, *options) == Ok::<
                Seq<(MapKeyView, ValueView<'a>)>,
                DeserializeError,
            >(entry_views(out@)) && valid_map_entries(entry_views(out@), *entry),
            Err(e) => entries_of_json(j@, members@.len(), *entry, *options) == Err::<
                Seq<(MapKeyView, ValueView<'a>)>,
                DeserializeError,
            >(e),
        },
    decreases j@, 0nat,
{
    let key_kind = entry.map_entry_key_kind();
    let value_kind = entry.map_entry_value_kind();
    let mut out: Vec<MapEntry<'a>> = Vec::new();
    let mut i: usize = 0;
    assert(entry_views(out@) =~= Seq::empty());
    while i < members.len()
        invariant
            i <= members.len(),
            entry.data().is_map_entry,
            key_kind == entry.map_key_kind_spec(),
            value_kind == entry.map_value_kind_spec(),
            j@ == JsonView::Object(crate::json::value::member_views(members@)),
            forall|k: int|
                0 <= k < members@.len() ==> decreases_to!(j@ => (#[trigger] members@[k]).value@),
            entries_of_json(j@, i as nat, *entry, *options) == Ok::<
                Seq<(MapKeyView, ValueView<'a>)>,
                DeserializeError,
            >(entry_views(out@)),
            valid_map_entries(entry_views(out@), *entry),
        decreases members.len() - i,
    {
            assert(j@->Object_0[i as int] == (members@[i as int].name@, members@[i as int].value@));
        let ghost before = out@;
        let step: Result<MapEntry<'a>, DeserializeError> = match parse_key(
            members[i].name.as_str(),
            &key_kind,
        ) {
            None => Err(DeserializeError::InvalidValue),
            Some(key) => if has_key(&out, &key) {
                Err(DeserializeError::InvalidValue)
            } else {
                match deserialize_value(&members[i].value, &value_kind, options) {
                    Err(e) => Err(e),
                    Ok(value) => Ok(MapEntry { key, value }),
                }
            },
        };
        match step {
            Err(e) => {
                proof {
                    assert(entries_of_json(j@, (i + 1) as nat, *entry, *options) == Err::<
                        Seq<(MapKeyView, ValueView<'a>)>,
                        DeserializeError,
                    >(e));
                    lemma_entries_error(j@, (i + 1) as nat, members@.len() as nat, *entry, *options);
                }
                return Err(e);
            },
            Ok(read) => {
                out.push(read);
                proof {
                    let added = (read.key@, read.value@);
                    assert(entry_views(out@) =~= entry_views(before).push(added));
                    assert(entries_of_json(j@, (i + 1) as nat, *entry, *options) == Ok::<
                        Seq<(MapKeyView, ValueView<'a>)>,
                        DeserializeError,
                    >(entry_views(out@)));
                    let views = entry_views(out@);
                    assert forall|a: int, b: int| 0 <= a < b < views.len() implies (
                    #[trigger] views[a]).0 != (#[trigger] views[b]).0 by {
                        if b < before.len() {
                            assert(views[a] == entry_views(before)[a]);
                            assert(views[b] == entry_views(before)[b]);
                        } else {
                            assert(views[a] == entry_views(before)[a]);
                        }
                    }
                    assert forall|k: int| 0 <= k < views.len() implies {
                        &&& valid_key_for_kind((#[trigger] views[k]).0, entry.map_key_kind_spec())
                        &&& valid_for_kind(views[k].1, entry.map_value_kind_spec())
                    } by {
                        if k < before.len() {
                            assert(views[k] == entry_views(before)[k]);
                        }
                    }
                }
            },
        }
        i += 1;
    }
    Ok(out)
}

/// Reads the value of a field of `kind`.
pub fn deserialize_field_value<'a>(
    j: &JsonValue,
    kind: &KindRef<'a>,
    is_list: bool,
    is_map: bool,
    options: &DeserializeOptions,
) -> (r: Result<Value<'a>, DeserializeError>)
    ensures
        read_value(r, field_value_of_json(j@, *kind, is_list, is_map, *options)),
        r matches Ok(v) ==> valid_value_spec(v@, *kind, is_list, is_map),
    decreases j@, 6nat,
{
    if is_list {
        match j.as_array() {
            Some(items) => match deserialize_items(j, items, kind, options) {
                Ok(out) => {
                    let v = Value::List(out);
                    assert(v@->List_0 =~= value_views(out@));
                    Ok(v)
                },
                Err(e) => Err(e),
            },
            None => Err(DeserializeError::InvalidValue),
        }
    } else if is_map {
        match j.as_object() {
            Some(members) => match kind {
                KindRef::Message(entry) => {
                    if !entry.is_map_entry() {
                        return Err(DeserializeError::InvalidValue);
                    }
                    match deserialize_entries(j, members, entry, options) {
                        Ok(out) => {
                            let v = Value::Entries(out);
                            assert(v@->Entries_0 =~= entry_views(out@));
                            Ok(v)
                        },
                        Err(e) => Err(e),
                    }
                },
                _ => Err(DeserializeError::InvalidValue),
            },
            None => Err(DeserializeError::InvalidValue),
        }
    } else {
        deserialize_value(j, kind, options)
    }
}

/// Whether a member of the oneof group of `field` holds a decoded value.
fn oneof_is_taken<'a>(message: &DynamicMessage<'a>, field: &FieldDescriptorRef<'a>) -> (r: bool)
    requires
        field.message() == message.desc,
    ensures
        r == oneof_taken(message.fields@, *field),
{
    let group = match field.oneof_group() {
        None => {
            return false;
        },
        Some(group) => group,
    };
    let desc = message.desc;
    let count = desc.field_count();
    let mut i: usize = 0;
    while i < count
        invariant
            i <= count == desc.data().fields@.len(),
            field.message() == desc,
            desc == message.desc,
            field.data().oneof == Some(group),
            forall|k: int|
                0 <= k < i ==> !((#[trigger] desc.data().fields@[k]).oneof == Some(group) && decoded(
                    message.fields@,
                    desc.data().fields@[k].number,
                ) is Some),
        decreases count - i,
    {
        match desc.field_at(i) {
            None => {},
            Some(member) => {
                let same = match member.oneof_group() {
                    Some(g) => g == group,
                    None => false,
                };
                if same && message.fields.get_value(member.number()).is_some() {
                    assert(desc.data().fields@[i as int].oneof == field.data().oneof);
                    return true;
                }
            },
        }
        i += 1;
    }
    false
}

/// Whether a field of the kind reads `null` as a value.
fn is_null_read<'a>(kind: &KindRef<'a>, is_list: bool, is_map: bool) -> (r: bool)
    ensures
        r == reads_null(*kind, is_list, is_map),
{
    match kind {
        KindRef::Message(desc) => !is_list && !is_map && str_eq(
            desc.full_name(),
            "google.protobuf.Value",
        ),
        _ => false,
    }
}

/// Reads one member of an object into `message`.
#[verifier::spinoff_prover]
#[verifier::rlimit(100)]
fn deserialize_member<'a>(
    message: &mut DynamicMessage<'a>,
    member: &JsonMember,
    options: &DeserializeOptions,
) -> (r: Result<(), DeserializeError>)
    ensures
        final(message).desc == old(message).desc,
        match r {
            Ok(()) => member_of_json(
                old(message).fields@,
                member.name@,
                member.value@,
                old(message).desc,
                *options,
            ) == Ok::<Map<u32, EntryView<'a>>, DeserializeError>(final(message).fields@),
            Err(e) => member_of_json(
                old(message).fields@,
                member.name@,
                member.value@,
                old(message).desc,
                *options,
            ) == Err::<Map<u32, EntryView<'a>>, DeserializeError>(e),
        },
    decreases member.value@, 7nat,
{
    let desc = message.desc;
    let is_null = match &member.value {
        JsonValue::Null => true,
        _ => false,
    };
    if let Some(field) = desc.get_field_by_any_name(member.name.as_str()) {
        proof {
            field.lemma_at();
        }
        if is_null && !is_null_read(&field.kind(), field.is_list(), field.is_map()) {
            return Ok(());
        }
        if oneof_is_taken(message, &field) {
            return Err(DeserializeError::AmbiguousOneof);
        }
        match deserialize_field_value(
            &member.value,
            &field.kind(),
            field.is_list(),
            field.is_map(),
            options,
        ) {
            Err(e) => Err(e),
            Ok(v) => {
                message.fields.set(field, v);
                Ok(())
            },
        }
    } else if let Some(extension) = desc.get_extension_by_any_name(member.name.as_str()) {
        proof {
            extension.lemma_at();
        }
        if is_null && !is_null_read(&extension.kind(), extension.is_list(), extension.is_map()) {
            return Ok(());
        }
        match deserialize_field_value(
            &member.value,
            &extension.kind(),
            extension.is_list(),
            extension.is_map(),
            options,
        ) {
            Err(e) => Err(e),
            Ok(v) => {
                message.fields.set(extension, v);
                Ok(())
            },
        }
    } else if options.is_deny_unknown_fields() {
        Err(DeserializeError::UnknownField)
    } else {
        Ok(())
    }
}

/// Reads a message of type `desc` from an object, member by member.
#[verifier::spinoff_prover]
#[verifier::rlimit(100)]
fn deserialize_object<'a>(
    desc: MessageDescriptorRef<'a>,
    j: &JsonValue,
    options: &DeserializeOptions,
) -> (r: Result<DynamicMessage<'a>, DeserializeError>)
    ensures
        match r {
            Ok(message) => object_of_json(j@, desc, *options) == Ok::<
                MessageView<'a>,
                DeserializeError,
            >(message@) && message.desc == desc,
            Err(e) => object_of_json(j@, desc, *options) == Err::<MessageView<'a>, DeserializeError>(
                e,
            ),
        },
    decreases j@, 1nat,
{
    let members = match j.as_object() {
        Some(members) => members,
        None => {
            return Err(DeserializeError::InvalidValue);
        },
    };
    let mut message = DynamicMessage::new(desc);
    assert(message.fields@ == message@.fields);
    let mut i: usize = 0;
    while i < members.len()
        invariant
            i <= members.len(),
            message.desc == desc,
            j@ == JsonView::Object(crate::json::value::member_views(members@)),
            forall|k: int|
                0 <= k < members@.len() ==> decreases_to!(j@ => (#[trigger] members@[k]).value@),
            fields_of_json(j@, i as nat, desc, *options) == Ok::<
                Map<u32, EntryView<'a>>,
                DeserializeError,
            >(message.fields@),
        decreases members.len() - i,
    {
            assert(j@->Object_0[i as int] == (members@[i as int].name@, members@[i as int].value@));
        match deserialize_member(&mut message, &members[i], options) {
            Err(e) => {
                proof {
                    assert(fields_of_json(j@, (i + 1) as nat, desc, *options) == Err::<
                        Map<u32, EntryView<'a>>,
                        DeserializeError,
                    >(e));
                    lemma_fields_error(j@, (i + 1) as nat, members@.len() as nat, desc, *options);
                }
                return Err(e);
            },
            Ok(()) => {
                assert(fields_of_json(j@, (i + 1) as nat, desc, *options) == Ok::<
                    Map<u32, EntryView<'a>>,
                    DeserializeError,
                >(message.fields@));
            },
        }
        i += 1;
    }
    assert(message@ == (MessageView { desc, fields: message.fields@ }));
    Ok(message)
}


/// `r` is the outcome `expected`: the same error, or a message of type
/// `desc` that holds what is expected.
pub open spec fn read_message<'a>(
    r: Result<DynamicMessage<'a>, DeserializeError>,
    desc: MessageDescriptorRef<'a>,
    expected: Result<MessageView<'a>, DeserializeError>,
) -> bool {
    match r {
        Ok(message) => expected == Ok::<MessageView<'a>, DeserializeError>(message@) && message.desc
            == desc,
        Err(e) => expected == Err::<MessageView<'a>, DeserializeError>(e),
    }
}

/// The message of type `desc` that holds `v` for `field` and nothing else.
fn message_holding<'a>(desc: MessageDescriptorRef<'a>, field: FieldDescriptorRef<'a>, v: Value<'a>) -> (r:
    DynamicMessage<'a>)
    requires
        crate::fields::valid_for(field, v@),
    ensures
        r.desc == desc,
        r@ == message_with(desc, field, v@),
{
    let mut message = DynamicMessage::new(desc);
    assert(message.fields@ == message@.fields);
    message.fields.set(field, v);
    assert(message@ == (MessageView { desc, fields: message.fields@ }));
    message
}

/// Reads a message whose field numbered `number` holds the scalar that `j`
/// stands for.
fn deserialize_scalar_message<'a>(desc: MessageDescriptorRef<'a>, j: &JsonValue, number: u32) -> (r:
    Result<DynamicMessage<'a>, DeserializeError>)
    ensures
        read_message(r, desc, scalar_message_of_json(j@, desc, number)),
{
    match desc.get_field(number) {
        Some(field) => {
            proof {
                field.lemma_at();
            }
            let kind = field.kind();
            let nested = match kind {
                KindRef::Message(_) => true,
                _ => false,
            };
            if field.is_list() || field.is_map() || nested {
                Err(DeserializeError::InvalidValue)
            } else {
                match deserialize_scalar(j, &kind) {
                    Ok(v) => Ok(message_holding(desc, field, v)),
                    Err(e) => Err(e),
                }
            }
        },
        None => Err(DeserializeError::InvalidValue),
    }
}

/// Reads a message whose first field, a map, holds the members of the
/// object `j`.
#[verifier::spinoff_prover]
#[verifier::rlimit(100)]
fn deserialize_struct<'a>(desc: MessageDescriptorRef<'a>, j: &JsonValue, options: &DeserializeOptions) -> (r:
    Result<DynamicMessage<'a>, DeserializeError>)
    ensures
        read_message(r, desc, struct_of_json(j@, desc, *options)),
    decreases j@, 1nat,
{
    let members = match j.as_object() {
        Some(members) => members,
        None => {
            return Err(DeserializeError::InvalidValue);
        },
    };
    match desc.get_field(1) {
        Some(field) => {
            proof {
                field.lemma_at();
            }
            match field.kind() {
                KindRef::Message(entry) => if field.is_map() && entry.is_map_entry() {
                    match deserialize_entries(j, members, &entry, options) {
                        Ok(out) => {
                            let v = Value::Entries(out);
                            assert(v@->Entries_0 =~= entry_views(out@));
                            Ok(message_holding(desc, field, v))
                        },
                        Err(e) => Err(e),
                    }
                } else {
                    Err(DeserializeError::InvalidValue)
                },
                _ => Err(DeserializeError::InvalidValue),
            }
        },
        None => Err(DeserializeError::InvalidValue),
    }
}

/// Reads a message whose first field, a list, holds the items of the array
/// `j`.
#[verifier::spinoff_prover]
#[verifier::rlimit(100)]
fn deserialize_list<'a>(desc: MessageDescriptorRef<'a>, j: &JsonValue, options: &DeserializeOptions) -> (r:
    Result<DynamicMessage<'a>, DeserializeError>)
    ensures
        read_message(r, desc, list_of_json(j@, desc, *options)),
    decreases j@, 1nat,
{
    let items = match j.as_array() {
        Some(items) => items,
        None => {
            return Err(DeserializeError::InvalidValue);
        },
    };
    match desc.get_field(1) {
        Some(field) => {
            proof {
                field.lemma_at();
            }
            if field.is_list() {
                match deserialize_items(j, items, &field.kind(), options) {
                    Ok(out) => {
                        let v = Value::List(out);
                        assert(v@->List_0 =~= value_views(out@));
                        Ok(message_holding(desc, field, v))
                    },
                    Err(e) => Err(e),
                }
            } else {
                Err(DeserializeError::InvalidValue)
            }
        },
        None => Err(DeserializeError::InvalidValue),
    }
}

/// The message of type `desc` whose field numbered `number` holds `inner`.
fn nest<'a>(desc: MessageDescriptorRef<'a>, number: u32, inner: DynamicMessage<'a>) -> (r: Result<
    DynamicMessage<'a>,
    DeserializeError,
>)
    ensures
        read_message(r, desc, nesting_message(desc, number, inner@)),
{
    match desc.get_field(number) {
        Some(field) => {
            proof {
                field.lemma_at();
            }
            let v = Value::Message(inner);
            assert(v@ == ValueView::Message(inner@));
            if field.is_list() || field.is_map() || !v.is_valid_for_kind(&field.kind()) {
                Err(DeserializeError::InvalidValue)
            } else {
                Ok(message_holding(desc, field, v))
            }
        },
        None => Err(DeserializeError::InvalidValue),
    }
}

/// The message type of the field of `desc` numbered `number`.
fn nested_type_of<'a>(desc: MessageDescriptorRef<'a>, number: u32) -> (r: Option<
    MessageDescriptorRef<'a>,
>)
    ensures
        r == nested_type(desc, number),
{
    match desc.get_field(number) {
        Some(field) => {
            proof {
                field.lemma_at();
            }
            match field.kind() {
                KindRef::Message(inner) => Some(inner),
                _ => None,
            }
        },
        None => None,
    }
}

/// The message of type `desc` that holds `seconds` in its first field and
/// `nanos` in its second.
fn timed<'a>(desc: MessageDescriptorRef<'a>, seconds: i64, nanos: i32) -> (r: Result<
    DynamicMessage<'a>,
    DeserializeError,
>)
    ensures
        read_message(r, desc, timed_message(desc, seconds, nanos)),
{
    match (desc.get_field(1), desc.get_field(2)) {
        (Some(first), Some(second)) => {
            proof {
                first.lemma_at();
                second.lemma_at();
            }
            let whole = Value::I64(seconds);
            let part = Value::I32(nanos);
            if first.is_valid(&whole) && second.is_valid(&part) {
                let mut message = DynamicMessage::new(desc);
                assert(message.fields@ == message@.fields);
                message.fields.set(first, whole);
                message.fields.set(second, part);
                assert(message@ == (MessageView { desc, fields: message.fields@ }));
                Ok(message)
            } else {
                Err(DeserializeError::InvalidValue)
            }
        },
        _ => Err(DeserializeError::InvalidValue),
    }
}

fn deserialize_duration<'a>(desc: MessageDescriptorRef<'a>, j: &JsonValue) -> (r: Result<
    DynamicMessage<'a>,
    DeserializeError,
>)
    ensures
        read_message(r, desc, duration_of_json(j@, desc)),
{
    match j {
        JsonValue::String(s) => match duration_from_str(s.as_str()) {
            Some((seconds, nanos)) => if check_duration(&Duration { seconds, nanos }).is_ok() {
                timed(desc, seconds, nanos)
            } else {
                Err(DeserializeError::DurationOutOfRange)
            },
            None => Err(DeserializeError::InvalidValue),
        },
        _ => Err(DeserializeError::InvalidValue),
    }
}

fn deserialize_timestamp<'a>(desc: MessageDescriptorRef<'a>, j: &JsonValue) -> (r: Result<
    DynamicMessage<'a>,
    DeserializeError,
>)
    ensures
        read_message(r, desc, timestamp_of_json(j@, desc)),
{
    match j {
        JsonValue::String(s) => if is_strict_rfc3339(s.as_str()) {
            match timestamp_from_str(s.as_str()) {
                Some((seconds, nanos)) => if check_timestamp(&Timestamp { seconds, nanos }).is_ok() {
                    timed(desc, seconds, nanos)
                } else {
                    Err(DeserializeError::TimestampOutOfRange)
                },
                None => Err(DeserializeError::InvalidValue),
            }
        } else {
            Err(DeserializeError::InvalidValue)
        },
        _ => Err(DeserializeError::InvalidValue),
    }
}

/// An error in reading the first parts of a field mask is an error in
/// reading all of them.
proof fn lemma_mask_paths_read_error(parts: Seq<Seq<char>>, n: nat, len: nat)
    requires
        n <= len,
        mask_paths_read(parts, n) is None,
    ensures
        mask_paths_read(parts, len) is None,
    decreases len - n,
{
    if n < len {
        lemma_mask_paths_read_error(parts, n + 1, len);
    }
}

/// The paths that the parts of a field mask stand for, as values.
fn read_mask_paths<'a>(parts: &Vec<String>) -> (r: Option<Vec<Value<'a>>>)
    ensures
        match r {
            Some(out) => mask_paths_read(parts@.map_values(|s: String| s@), parts@.len()) matches Some(
                paths,
            ) && value_views(out@) == string_values::<'a>(paths),
            None => mask_paths_read(parts@.map_values(|s: String| s@), parts@.len()) is None,
        },
{
    let ghost views = parts@.map_values(|s: String| s@);
    let ghost mut paths: Seq<Seq<char>> = Seq::empty();
    let mut out: Vec<Value<'a>> = Vec::new();
    let mut i: usize = 0;
    assert(value_views(out@) =~= string_values::<'a>(paths));
    while i < parts.len()
        invariant
            i <= parts.len(),
            views == parts@.map_values(|s: String| s@),
            mask_paths_read(views, i as nat) == Some(paths),
            out@.len() == paths.len(),
            forall|k: int| 0 <= k < out@.len() ==> (#[trigger] out@[k])@ == ValueView::<'a>::String(
                paths[k],
            ),
        decreases parts.len() - i,
    {
        let ghost before = paths;
        assert(views[i as int] == parts@[i as int]@);
        match to_snake(parts[i].as_str()) {
            Some(path) => {
                let v = Value::String(path);
                out.push(v);
                proof {
                    paths = before.push(path@);
                }
            },
            None => {
                proof {
                    assert(mask_paths_read(views, (i + 1) as nat) is None);
                    lemma_mask_paths_read_error(views, (i + 1) as nat, parts@.len() as nat);
                }
                return None;
            },
        }
        i += 1;
    }
    assert(value_views(out@) =~= string_values::<'a>(paths));
    Some(out)
}

fn deserialize_field_mask<'a>(desc: MessageDescriptorRef<'a>, j: &JsonValue) -> (r: Result<
    DynamicMessage<'a>,
    DeserializeError,
>)
    ensures
        read_message(r, desc, field_mask_of_json(j@, desc)),
{
    let text = match j {
        JsonValue::String(s) => s,
        _ => {
            return Err(DeserializeError::InvalidValue);
        },
    };
    let field = match desc.get_field(1) {
        Some(field) => field,
        None => {
            return Err(DeserializeError::InvalidValue);
        },
    };
    proof {
        field.lemma_at();
    }
    let kind = field.kind();
    let strings = match kind {
        KindRef::String => true,
        _ => false,
    };
    if !(field.is_list() && strings) {
        return Err(DeserializeError::InvalidValue);
    }
    let parts = split_at_commas(text.as_str());
    match read_mask_paths(&parts) {
        Some(out) => {
            let v = Value::List(out);
            assert(v@->List_0 =~= value_views(out@));
            assert forall|k: int| 0 <= k < v@->List_0.len() implies valid_for_kind(
                #[trigger] v@->List_0[k],
                kind,
            ) by {
                assert(v@->List_0[k] is String);
            }
            Ok(message_holding(desc, field, v))
        },
        None => Err(DeserializeError::InvalidValue),
    }
}

/// Reads a `Value` from any JSON value.
fn deserialize_value_message<'a>(
    desc: MessageDescriptorRef<'a>,
    j: &JsonValue,
    options: &DeserializeOptions,
) -> (r: Result<DynamicMessage<'a>, DeserializeError>)
    ensures
        read_message(r, desc, value_message_of_json(j@, desc, *options)),
    decreases j@, 2nat,
{
    match j {
        JsonValue::Null => deserialize_scalar_message(desc, j, 1),
        JsonValue::Number(_) => deserialize_scalar_message(desc, j, 2),
        JsonValue::String(_) => deserialize_scalar_message(desc, j, 3),
        JsonValue::Bool(_) => deserialize_scalar_message(desc, j, 4),
        JsonValue::Object(_) => match nested_type_of(desc, 5) {
            Some(inner) => match deserialize_struct(inner, j, options) {
                Ok(m) => nest(desc, 5, m),
                Err(e) => Err(e),
            },
            None => Err(DeserializeError::InvalidValue),
        },
        JsonValue::Array(_) => match nested_type_of(desc, 6) {
            Some(inner) => match deserialize_list(inner, j, options) {
                Ok(m) => nest(desc, 6, m),
                Err(e) => Err(e),
            },
            None => Err(DeserializeError::InvalidValue),
        },
    }
}

/// Once a member of the name is found among the first members, it is the
/// one found among all.
pub proof fn lemma_first_named_stays(
    members: Seq<(Seq<char>, JsonView)>,
    name: Seq<char>,
    n: nat,
    len: nat,
)
    requires
        n <= len <= members.len(),
        first_named(members, name, n) is Some,
    ensures
        first_named(members, name, len) == first_named(members, name, n),
    decreases len - n,
{
    if n < len {
        lemma_first_named_stays(members, name, n + 1, len);
    }
}

/// The first member that is named `name`.
fn find_member<'m>(members: &'m Vec<JsonMember>, name: &str) -> (r: Option<usize>)
    ensures
        match r {
            Some(i) => i < members@.len() && first_named(
                crate::json::value::member_views(members@),
                name@,
                members@.len() as nat,
            ) == Some(i as int),
            None => first_named(
                crate::json::value::member_views(members@),
                name@,
                members@.len() as nat,
            ) is None,
        },
{
    let ghost views = crate::json::value::member_views(members@);
    let mut i: usize = 0;
    while i < members.len()
        invariant
            i <= members@.len(),
            views == crate::json::value::member_views(members@),
            first_named(views, name@, i as nat) is None,
        decreases members@.len() - i,
    {
        assert(views[i as int].0 == members@[i as int].name@);
        if str_eq(members[i].name.as_str(), name) {
            proof {
                assert(first_named(views, name@, (i + 1) as nat) == Some(i as int));
                lemma_first_named_stays(views, name@, (i + 1) as nat, members@.len() as nat);
            }
            return Some(i);
        }
        i += 1;
    }
    None
}

/// An error in reading the first members of an object as the fields of a
/// payload is the error in reading all of them.
pub proof fn lemma_payload_error<'a>(
    j: JsonView,
    n: nat,
    len: nat,
    desc: MessageDescriptorRef<'a>,
    options: DeserializeOptions,
)
    requires
        j is Object,
        n <= len == j->Object_0.len(),
        payload_fields_of_json(j, n, desc, options) is Err,
    ensures
        payload_fields_of_json(j, len, desc, options) == payload_fields_of_json(j, n, desc, options),
    decreases len - n,
{
    if n < len {
        lemma_payload_error(j, n + 1, len, desc, options);
    }
}

/// Reads the payload of an `Any` from the members of its object beside
/// `@type`.
#[verifier::spinoff_prover]
#[verifier::rlimit(100)]
fn deserialize_payload<'a>(
    desc: MessageDescriptorRef<'a>,
    j: &JsonValue,
    options: &DeserializeOptions,
) -> (r: Result<DynamicMessage<'a>, DeserializeError>)
    ensures
        read_message(r, desc, payload_of_json(j@, desc, *options)),
    decreases j@, 1nat,
{
    let members = match j.as_object() {
        Some(members) => members,
        None => {
            return Err(DeserializeError::InvalidValue);
        },
    };
    let mut message = DynamicMessage::new(desc);
    assert(message.fields@ == message@.fields);
    let mut i: usize = 0;
    while i < members.len()
        invariant
            i <= members.len(),
            message.desc == desc,
            j@ == JsonView::Object(crate::json::value::member_views(members@)),
            forall|k: int|
                0 <= k < members@.len() ==> decreases_to!(j@ => (#[trigger] members@[k]).value@),
            payload_fields_of_json(j@, i as nat, desc, *options) == Ok::<
                Map<u32, EntryView<'a>>,
                DeserializeError,
            >(message.fields@),
        decreases members.len() - i,
    {
        assert(j@->Object_0[i as int] == (members@[i as int].name@, members@[i as int].value@));
        if !str_eq(members[i].name.as_str(), "@type") {
            match deserialize_member(&mut message, &members[i], options) {
                Err(e) => {
                    proof {
                        assert(payload_fields_of_json(j@, (i + 1) as nat, desc, *options) == Err::<
                            Map<u32, EntryView<'a>>,
                            DeserializeError,
                        >(e));
                        lemma_payload_error(j@, (i + 1) as nat, members@.len() as nat, desc, *options);
                    }
                    return Err(e);
                },
                Ok(()) => {},
            }
        }
        assert(payload_fields_of_json(j@, (i + 1) as nat, desc, *options) == Ok::<
            Map<u32, EntryView<'a>>,
            DeserializeError,
        >(message.fields@));
        i += 1;
    }
    assert(message@ == (MessageView { desc, fields: message.fields@ }));
    Ok(message)
}

/// The `Any` that holds the payload under the type URL.
fn wrap_payload<'a>(
    desc: MessageDescriptorRef<'a>,
    url: &str,
    payload: Result<DynamicMessage<'a>, DeserializeError>,
) -> (r: Result<DynamicMessage<'a>, DeserializeError>)
    ensures
        read_message(
            r,
            desc,
            any_of_payload(
                desc,
                url@,
                match payload {
                    Ok(p) => Ok(p@),
                    Err(e) => Err(e),
                },
            ),
        ),
{
    broadcast use {FieldDescriptorRef::lemma_at, FieldDescriptorRef::lemma_at_parts};

    let payload = match payload {
        Ok(payload) => payload,
        Err(e) => {
            return Err(e);
        },
    };
    let bytes = match encode_message(&payload) {
        Some(bytes) => bytes,
        None => {
            return Err(DeserializeError::InvalidValue);
        },
    };
    let url_field = match desc.get_field(1) {
        Some(field) => field,
        None => {
            return Err(DeserializeError::InvalidValue);
        },
    };
    let bytes_field = match desc.get_field(2) {
        Some(field) => field,
        None => {
            return Err(DeserializeError::InvalidValue);
        },
    };
    let url_value = Value::String(String::from_str(url));
    let bytes_value = Value::Bytes(bytes);
    if !url_field.is_valid(&url_value) || !bytes_field.is_valid(&bytes_value) {
        return Err(DeserializeError::InvalidValue);
    }
    let mut message = DynamicMessage::new(desc);
    assert(message.fields@ == message@.fields);
    message.fields.set(url_field, url_value);
    message.fields.set(bytes_field, bytes_value);
    assert(message@ == (MessageView { desc, fields: message.fields@ }));
    Ok(message)
}

/// Reads an `Any` from the object that holds its type URL and its payload.
pub fn deserialize_any<'a>(
    desc: MessageDescriptorRef<'a>,
    j: &JsonValue,
    options: &DeserializeOptions,
) -> (r: Result<DynamicMessage<'a>, DeserializeError>)
    ensures
        read_message(r, desc, any_of_json(j@, desc, *options)),
    decreases j@, 2nat,
{
    let members = match j.as_object() {
        Some(members) => members,
        None => {
            return Err(DeserializeError::InvalidValue);
        },
    };
    let at = match find_member(members, "@type") {
        Some(at) => at,
        None => {
            return Err(DeserializeError::InvalidValue);
        },
    };
    assert(j@->Object_0[at as int] == (members@[at as int].name@, members@[at as int].value@));
    let url = match &members[at].value {
        JsonValue::String(url) => url.as_str(),
        _ => {
            return Err(DeserializeError::InvalidValue);
        },
    };
    let inner = match find_payload_type(desc.parent_pool(), url) {
        Some(inner) => inner,
        None => {
            return Err(DeserializeError::UnsupportedType);
        },
    };
    if is_well_known_type(inner.full_name()) {
        match find_member(members, "value") {
            Some(k) => {
                assert(j@->Object_0[k as int] == (members@[k as int].name@, members@[k as int].value@));
                let payload = deserialize_message(inner, &members[k].value, options);
                wrap_payload(desc, url, payload)
            },
            None => Err(DeserializeError::InvalidValue),
        }
    } else {
        let payload = deserialize_payload(inner, j, options);
        wrap_payload(desc, url, payload)
    }
}

/// Reads a message of a well-known type.
fn deserialize_well_known<'a>(
    desc: MessageDescriptorRef<'a>,
    j: &JsonValue,
    options: &DeserializeOptions,
) -> (r: Result<DynamicMessage<'a>, DeserializeError>)
    ensures
        read_message(r, desc, well_known_of_json(j@, desc, *options)),
    decreases j@, 3nat,
{
    let name = desc.full_name();
    if str_eq(name, "google.protobuf.Duration") {
        deserialize_duration(desc, j)
    } else if str_eq(name, "google.protobuf.Timestamp") {
        deserialize_timestamp(desc, j)
    } else if str_eq(name, "google.protobuf.Empty") {
        deserialize_object(desc, j, options)
    } else if str_eq(name, "google.protobuf.Any") {
        deserialize_any(desc, j, options)
    } else if str_eq(name, "google.protobuf.FieldMask") {
        deserialize_field_mask(desc, j)
    } else if str_eq(name, "google.protobuf.Value") {
        deserialize_value_message(desc, j, options)
    } else if str_eq(name, "google.protobuf.Struct") {
        deserialize_struct(desc, j, options)
    } else if str_eq(name, "google.protobuf.ListValue") {
        deserialize_list(desc, j, options)
    } else {
        deserialize_scalar_message(desc, j, 1)
    }
}

/// Reads a message of type `desc` from JSON.
pub fn deserialize_message<'a>(
    desc: MessageDescriptorRef<'a>,
    j: &JsonValue,
    options: &DeserializeOptions,
) -> (r: Result<DynamicMessage<'a>, DeserializeError>)
    ensures
        read_message(r, desc, message_of_json(j@, desc, *options)),
    decreases j@, 4nat,
{
    if is_well_known_type(desc.full_name()) {
        deserialize_well_known(desc, j, options)
    } else {
        deserialize_object(desc, j, options)
    }
}

} // verus!
