//! Writing a message as JSON.

use vstd::prelude::*;
use vstd::string::StringExecFns;
use crate::descriptor::{
    EnumDescriptorRef, ExtensionDescriptorRef, FieldDescriptorRef, KindRef, MessageDescriptorRef,
};
use crate::fields::{
    all_declared, decoded, has_spec, item_views, walk_of, FieldDescriptorLike, ItemView,
    ValueAndDescriptor,
};
use crate::json::codec::{base64_encode, base64_text, timestamp_text, timestamp_to_string};
use crate::json::mask::{camel_of, join, joined, to_camel};
use crate::json::time::{
    duration_text, duration_to_string, normal_duration, normal_timestamp, normalize_duration,
    normalize_timestamp,
};
use crate::json::{
    check_duration, check_timestamp, duration_in_range, is_well_known_type, timestamp_in_range,
    well_known_type, Duration, Timestamp, MAX_TIMESTAMP_SECONDS, MIN_TIMESTAMP_SECONDS,
};
use crate::json::text::{decimal, signed_decimal, signed_to_string, unsigned_to_string};
use crate::json::value::{
    member_views, number_of_double, number_of_int, number_of_single, number_of_uint, JsonMember,
    JsonNumber, JsonValue, JsonView,
};
use crate::json::any::{
    find_payload_type, held_bytes, held_text, payload_type, read_bytes, read_text,
};
use crate::json::SerializeOptions;
use crate::wire::decode::{decode_fields, message_of_wire};
use crate::message::DynamicMessage;
use crate::text::str_eq;
use crate::value::{default_for_kind, EntryView, MapKey, MapKeyView, MessageView, Value, ValueView};

verus! {

/// Why a message could not be written as JSON.
#[derive(Clone, Copy, Debug, PartialEq, Eq, Structural)]
pub enum SerializeError {
    /// A value does not have the shape that its field declares, the store
    /// holds a value under a number that the type does not declare, or the
    /// bytes of an `Any` are not the binary form of its payload.
    InvalidValue,
    /// An enum value has no declared name, and names were asked for.
    UnknownEnumValue(i32),
    /// A duration is outside the range of the mapping.
    DurationOutOfRange,
    /// A timestamp is outside the range of the mapping.
    TimestampOutOfRange,
    /// The type URL of an `Any` names no message type of the pool.
    UnsupportedType,
}

/// `r` is the outcome `expected`: the same error, or a value that holds what
/// is expected.
pub open spec fn wrote(r: Result<JsonValue, SerializeError>, expected: Result<
    JsonView,
    SerializeError,
>) -> bool {
    match r {
        Ok(j) => expected == Ok::<JsonView, SerializeError>(j@),
        Err(e) => expected == Err::<JsonView, SerializeError>(e),
    }
}

/// The bit pattern is that of a single that is no number.
pub open spec fn single_is_nan(bits: u32) -> bool {
    (bits >> 23) & 0xff == 0xff && bits & 0x7f_ffff != 0
}

/// The bit pattern is that of an infinite single.
pub open spec fn single_is_infinite(bits: u32) -> bool {
    (bits >> 23) & 0xff == 0xff && bits & 0x7f_ffff == 0
}

/// The bit pattern is that of a double that is no number.
pub open spec fn double_is_nan(bits: u64) -> bool {
    (bits >> 52) & 0x7ff == 0x7ff && bits & 0xf_ffff_ffff_ffff != 0
}

/// The bit pattern is that of an infinite double.
pub open spec fn double_is_infinite(bits: u64) -> bool {
    (bits >> 52) & 0x7ff == 0x7ff && bits & 0xf_ffff_ffff_ffff == 0
}

/// The JSON of a single: a number, or one of the strings `NaN`, `Infinity`
/// and `-Infinity` for what no JSON number can stand for.
pub open spec fn json_of_single(bits: u32) -> JsonView {
    if single_is_nan(bits) {
        JsonView::String("NaN"@)
    } else if single_is_infinite(bits) {
        if bits >> 31 == 0 {
            JsonView::String("Infinity"@)
        } else {
            JsonView::String("-Infinity"@)
        }
    } else {
        JsonView::Number(number_of_single(bits))
    }
}

/// The JSON of a double: a number, or one of the strings `NaN`, `Infinity`
/// and `-Infinity` for what no JSON number can stand for.
pub open spec fn json_of_double(bits: u64) -> JsonView {
    if double_is_nan(bits) {
        JsonView::String("NaN"@)
    } else if double_is_infinite(bits) {
        if bits >> 63 == 0 {
            JsonView::String("Infinity"@)
        } else {
            JsonView::String("-Infinity"@)
        }
    } else {
        JsonView::Number(number_of_double(bits))
    }
}

/// The JSON of an enum value: `null` for a value of `NullValue`; else the
/// number where numbers are asked for; else the first name that the enum
/// declares for the number, and an error where it declares none.
pub open spec fn json_of_enum(e: EnumDescriptorRef, n: i32, options: SerializeOptions) -> Result<
    JsonView,
    SerializeError,
> {
    if e.data().full_name@ == "google.protobuf.NullValue"@ {
        Ok(JsonView::Null)
    } else if options.uses_enum_numbers() {
        Ok(JsonView::Number(number_of_int(n as i64)))
    } else {
        match e.value_index(n) {
            Some(i) => Ok(JsonView::String(e.data().values@[i].name@)),
            None => Err(SerializeError::UnknownEnumValue(n)),
        }
    }
}

/// The JSON of a single value of a kind other than message: numbers for the
/// 32-bit integers; numbers or, where strings are asked for, the decimal text
/// for the 64-bit integers; the base64 text for bytes.
pub open spec fn json_of_scalar<'a>(
    v: ValueView<'a>,
    kind: KindRef<'a>,
    options: SerializeOptions,
) -> Result<JsonView, SerializeError> {
    match kind {
        KindRef::Double => match v {
            ValueView::F64(bits) => Ok(json_of_double(bits)),
            _ => Err(SerializeError::InvalidValue),
        },
        KindRef::Float => match v {
            ValueView::F32(bits) => Ok(json_of_single(bits)),
            _ => Err(SerializeError::InvalidValue),
        },
        KindRef::Int32 | KindRef::Sint32 | KindRef::Sfixed32 => match v {
            ValueView::I32(n) => Ok(JsonView::Number(number_of_int(n as i64))),
            _ => Err(SerializeError::InvalidValue),
        },
        KindRef::Int64 | KindRef::Sint64 | KindRef::Sfixed64 => match v {
            ValueView::I64(n) => Ok(
                if options.stringifies_64_bit_integers() {
                    JsonView::String(signed_decimal(n as int))
                } else {
                    JsonView::Number(number_of_int(n))
                },
            ),
            _ => Err(SerializeError::InvalidValue),
        },
        KindRef::Uint32 | KindRef::Fixed32 => match v {
            ValueView::U32(n) => Ok(JsonView::Number(number_of_uint(n as u64))),
            _ => Err(SerializeError::InvalidValue),
        },
        KindRef::Uint64 | KindRef::Fixed64 => match v {
            ValueView::U64(n) => Ok(
                if options.stringifies_64_bit_integers() {
                    JsonView::String(decimal(n as nat))
                } else {
                    JsonView::Number(number_of_uint(n))
                },
            ),
            _ => Err(SerializeError::InvalidValue),
        },
        KindRef::Bool => match v {
            ValueView::Bool(b) => Ok(JsonView::Bool(b)),
            _ => Err(SerializeError::InvalidValue),
        },
        KindRef::String => match v {
            ValueView::String(s) => Ok(JsonView::String(s)),
            _ => Err(SerializeError::InvalidValue),
        },
        KindRef::Bytes => match v {
            ValueView::Bytes(b) => Ok(JsonView::String(base64_text(b))),
            _ => Err(SerializeError::InvalidValue),
        },
        KindRef::Enum(e) => match v {
            ValueView::EnumNumber(n) => json_of_enum(e, n, options),
            _ => Err(SerializeError::InvalidValue),
        },
        KindRef::Message(_) => Err(SerializeError::InvalidValue),
    }
}

/// The name that a map key has as a member of a JSON object.
pub open spec fn key_text(key: MapKeyView) -> Seq<char> {
    match key {
        MapKeyView::Bool(b) => if b {
            "true"@
        } else {
            "false"@
        },
        MapKeyView::I32(n) => signed_decimal(n as int),
        MapKeyView::I64(n) => signed_decimal(n as int),
        MapKeyView::U32(n) => decimal(n as nat),
        MapKeyView::U64(n) => decimal(n as nat),
        MapKeyView::String(s) => s,
    }
}

/// The JSON of a single value of `kind`: that of the message for a message,
/// else that of the scalar.
pub open spec fn json_of_value<'a>(
    v: ValueView<'a>,
    kind: KindRef<'a>,
    options: SerializeOptions,
) -> Result<JsonView, SerializeError>
    decreases options.any_nesting_limit(), v, 0nat,
{
    match kind {
        KindRef::Message(_) => match v {
            ValueView::Message(m) => json_of_message(m, options),
            _ => Err(SerializeError::InvalidValue),
        },
        _ => json_of_scalar(v, kind, options),
    }
}

/// The JSON of the first `n` items of the list `v`, in order; the first error
/// where one of them cannot be written.
pub open spec fn json_of_items<'a>(
    v: ValueView<'a>,
    n: nat,
    kind: KindRef<'a>,
    options: SerializeOptions,
) -> Result<Seq<JsonView>, SerializeError>
    decreases options.any_nesting_limit(), v, n,
{
    if n == 0 || !(v is List) || n > v->List_0.len() {
        Ok(Seq::empty())
    } else {
        match json_of_items(v, (n - 1) as nat, kind, options) {
            Err(e) => Err(e),
            Ok(front) => match json_of_value(v->List_0[n - 1], kind, options) {
                Err(e) => Err(e),
                Ok(j) => Ok(front.push(j)),
            },
        }
    }
}

/// The JSON members of the first `n` entries of the map `v`, in order; the
/// first error where one of them cannot be written.
pub open spec fn json_of_entries<'a>(
    v: ValueView<'a>,
    n: nat,
    kind: KindRef<'a>,
    options: SerializeOptions,
) -> Result<Seq<(Seq<char>, JsonView)>, SerializeError>
    decreases options.any_nesting_limit(), v, n,
{
    if n == 0 || !(v is Entries) || n > v->Entries_0.len() {
        Ok(Seq::empty())
    } else {
        match json_of_entries(v, (n - 1) as nat, kind, options) {
            Err(e) => Err(e),
            Ok(front) => match json_of_value(v->Entries_0[n - 1].1, kind, options) {
                Err(e) => Err(e),
                Ok(j) => Ok(front.push((key_text(v->Entries_0[n - 1].0), j))),
            },
        }
    }
}

/// The JSON of the value of a field: an array for a list, an object keyed by
/// the text of the keys for a map, else the JSON of the single value.
pub open spec fn json_of_field_value<'a>(
    v: ValueView<'a>,
    kind: KindRef<'a>,
    is_list: bool,
    is_map: bool,
    options: SerializeOptions,
) -> Result<JsonView, SerializeError>
    decreases options.any_nesting_limit(), v, 1nat + (if v is List {
        v->List_0.len()
    } else if v is Entries {
        v->Entries_0.len()
    } else {
        0
    }),
{
    if is_list {
        match v {
            ValueView::List(items) => match json_of_items(v, items.len(), kind, options) {
                Ok(written) => Ok(JsonView::Array(written)),
                Err(e) => Err(e),
            },
            _ => Err(SerializeError::InvalidValue),
        }
    } else if is_map {
        match (v, kind) {
            (ValueView::Entries(entries), KindRef::Message(entry)) => if entry.data().is_map_entry {
                match json_of_entries(v, entries.len(), entry.map_value_kind_spec(), options) {
                    Ok(written) => Ok(JsonView::Object(written)),
                    Err(e) => Err(e),
                }
            } else {
                Err(SerializeError::InvalidValue)
            },
            _ => Err(SerializeError::InvalidValue),
        }
    } else {
        json_of_value(v, kind, options)
    }
}

/// The JSON of a field that holds no value and is no single message: the
/// empty array for a list, the empty object for a map, else the JSON of the
/// default of its kind.
pub open spec fn json_of_bare_default<'a>(
    kind: KindRef<'a>,
    is_list: bool,
    is_map: bool,
    options: SerializeOptions,
) -> Result<JsonView, SerializeError> {
    if is_list {
        Ok(JsonView::Array(Seq::empty()))
    } else if is_map {
        Ok(JsonView::Object(Seq::empty()))
    } else {
        json_of_scalar(default_for_kind(kind), kind, options)
    }
}

/// The JSON of a message field that holds no value: that of the message
/// without fields. For a message of no well-known type that is the object
/// without members: the fields of a message that is not there are not
/// written, whatever the options say of fields that are not set.
pub open spec fn json_of_unset<'a>(desc: MessageDescriptorRef<'a>, options: SerializeOptions) -> Result<
    JsonView,
    SerializeError,
> {
    let name = desc.full_name_spec();
    let nothing = MessageView { desc, fields: Map::empty() };
    if !well_known_type(name) || name == "google.protobuf.Empty"@ || name
        == "google.protobuf.Any"@ {
        Ok(JsonView::Object(Seq::empty()))
    } else if name == "google.protobuf.Duration"@ {
        json_of_duration(nothing)
    } else if name == "google.protobuf.Timestamp"@ {
        json_of_timestamp(nothing)
    } else if name == "google.protobuf.FieldMask"@ {
        json_of_field_mask(nothing)
    } else if name == "google.protobuf.Value"@ {
        Ok(JsonView::Null)
    } else {
        match desc.field_index(1) {
            Some(i) => {
                let field = FieldDescriptorRef::at(desc, i as usize);
                if !field.is_list_spec() && !field.is_map_spec() && field.kind_spec() is Message {
                    Err(SerializeError::InvalidValue)
                } else {
                    json_of_bare_default(
                        field.kind_spec(),
                        field.is_list_spec(),
                        field.is_map_spec(),
                        options,
                    )
                }
            },
            None => Err(SerializeError::InvalidValue),
        }
    }
}

/// The JSON of a field that holds no value: the empty array for a list, the
/// empty object for a map, for a message that of the message without fields,
/// else the JSON of the default of its kind.
pub open spec fn json_of_default<'a>(
    kind: KindRef<'a>,
    is_list: bool,
    is_map: bool,
    options: SerializeOptions,
) -> Result<JsonView, SerializeError> {
    if !is_list && !is_map && kind is Message {
        json_of_unset(kind->Message_0, options)
    } else {
        json_of_bare_default(kind, is_list, is_map, options)
    }
}

/// The JSON of what the message holds for a field that is written.
pub open spec fn json_of_held<'a, D: FieldDescriptorLike<'a>>(
    m: MessageView<'a>,
    desc: D,
    options: SerializeOptions,
) -> Result<JsonView, SerializeError>
    decreases options.any_nesting_limit(), m, 0nat,
{
    match decoded(m.fields, desc.number_spec()) {
        Some(v) => json_of_field_value(
            m.fields[desc.number_spec()]->Value_0,
            desc.kind_spec(),
            desc.is_list_spec(),
            desc.is_map_spec(),
            options,
        ),
        None => json_of_default(desc.kind_spec(), desc.is_list_spec(), desc.is_map_spec(), options),
    }
}

/// The name under which a field is written: its JSON name or, where the
/// declared names are asked for, its name.
pub open spec fn member_name(field: FieldDescriptorRef, options: SerializeOptions) -> Seq<char> {
    if options.uses_proto_field_name() {
        field.data().name@
    } else {
        field.data().json_name@
    }
}

/// The member that is written for an item of the walk over the message's
/// store: for a value, the JSON of what the message holds for its field or
/// extension, under the name of that; nothing for undecoded entries.
pub open spec fn json_of_item<'a>(m: MessageView<'a>, item: ItemView<'a>, options: SerializeOptions) -> Result<
    Option<(Seq<char>, JsonView)>,
    SerializeError,
>
    decreases options.any_nesting_limit(), m, 1nat,
{
    match item {
        ItemView::Field(_, field) => match json_of_held(m, field, options) {
            Ok(j) => Ok(Some((member_name(field, options), j))),
            Err(e) => Err(e),
        },
        ItemView::Extension(_, extension) => match json_of_held(m, extension, options) {
            Ok(j) => Ok(Some((extension.data().json_name@, j))),
            Err(e) => Err(e),
        },
        ItemView::Unknown(_, _) => Ok(None),
    }
}

/// The members that are written for the first `n` items of the walk over the
/// message's store, in the order of the walk: ascending field numbers.
pub open spec fn json_of_walk<'a>(m: MessageView<'a>, n: nat, options: SerializeOptions) -> Result<
    Seq<(Seq<char>, JsonView)>,
    SerializeError,
>
    decreases options.any_nesting_limit(), m, n + 2,
{
    let items = walk_of(m.fields, m.desc);
    if n == 0 || n > items.len() {
        Ok(Seq::empty())
    } else {
        match json_of_walk(m, (n - 1) as nat, options) {
            Err(e) => Err(e),
            Ok(front) => match json_of_item(m, items[n - 1], options) {
                Err(e) => Err(e),
                Ok(Some(member)) => Ok(front.push(member)),
                Ok(None) => Ok(front),
            },
        }
    }
}

/// The member that is written under `number` where fields that are not set
/// are written too: the JSON of what the message holds for the field of that
/// number or, where its type has none, for its extension of that number, and
/// that of the default where it holds nothing; no member for a number that
/// the type does not declare.
pub open spec fn json_of_declared<'a>(m: MessageView<'a>, number: u32, options: SerializeOptions) -> Result<
    Option<(Seq<char>, JsonView)>,
    SerializeError,
>
    decreases options.any_nesting_limit(), m, 1nat,
{
    match m.desc.field_index(number) {
        Some(i) => {
            let field = FieldDescriptorRef::at(m.desc, i as usize);
            match json_of_held(m, field, options) {
                Ok(j) => Ok(Some((member_name(field, options), j))),
                Err(e) => Err(e),
            }
        },
        None => match m.desc.extension_index(number) {
            Some(k) => {
                let extension = ExtensionDescriptorRef::at(m.desc.pool(), k as usize);
                match json_of_held(m, extension, options) {
                    Ok(j) => Ok(Some((extension.data().json_name@, j))),
                    Err(e) => Err(e),
                }
            },
            None => Ok(None),
        },
    }
}

/// The members that are written under the numbers below `n` where fields
/// that are not set are written too, in ascending order of the numbers.
pub open spec fn json_of_numbers<'a>(m: MessageView<'a>, n: nat, options: SerializeOptions) -> Result<
    Seq<(Seq<char>, JsonView)>,
    SerializeError,
>
    decreases options.any_nesting_limit(), m, n + 2,
{
    if n == 0 {
        Ok(Seq::empty())
    } else {
        match json_of_numbers(m, (n - 1) as nat, options) {
            Err(e) => Err(e),
            Ok(front) => match json_of_declared(m, (n - 1) as u32, options) {
                Err(e) => Err(e),
                Ok(Some(member)) => Ok(front.push(member)),
                Ok(None) => Ok(front),
            },
        }
    }
}

/// The members of the object that a message of no well-known type is
/// written as. Where fields that are not set are skipped, they are those of
/// the walk over its store; else there is one for every field and extension
/// that its type declares. Either way they stand in ascending order of the
/// field numbers.
pub open spec fn json_of_members<'a>(m: MessageView<'a>, options: SerializeOptions) -> Result<
    Seq<(Seq<char>, JsonView)>,
    SerializeError,
>
    decreases options.any_nesting_limit(), m, walk_of(m.fields, m.desc).len() + 0x1_0000_0000 + 3,
{
    if options.skips_default_fields() {
        json_of_walk(m, walk_of(m.fields, m.desc).len(), options)
    } else {
        json_of_numbers(m, 0x1_0000_0000, options)
    }
}

/// The integer that the message holds under `number`, read as 64 bits wide:
/// zero where it holds no decoded value, and nothing where it holds a value
/// of another shape.
pub open spec fn held_i64<'a>(m: Map<u32, EntryView<'a>>, number: u32) -> Option<i64> {
    match decoded(m, number) {
        None => Some(0i64),
        Some(ValueView::I64(n)) => Some(n),
        Some(_) => None,
    }
}

/// The integer that the message holds under `number`, read as 32 bits wide:
/// zero where it holds no decoded value, and nothing where it holds a value
/// of another shape.
pub open spec fn held_i32<'a>(m: Map<u32, EntryView<'a>>, number: u32) -> Option<i32> {
    match decoded(m, number) {
        None => Some(0i32),
        Some(ValueView::I32(n)) => Some(n),
        Some(_) => None,
    }
}

/// The JSON of a duration: the text of its seconds with the suffix `s`,
/// after a second was moved between its parts where they differ in sign. A
/// duration outside the range of the mapping is an error.
pub open spec fn json_of_duration<'a>(m: MessageView<'a>) -> Result<JsonView, SerializeError> {
    match (held_i64(m.fields, 1), held_i32(m.fields, 2)) {
        (Some(seconds), Some(nanos)) => {
            let duration = Duration { seconds, nanos };
            if !duration_in_range(duration) {
                Err(SerializeError::DurationOutOfRange)
            } else {
                Ok(JsonView::String(duration_text(normal_duration(duration))))
            }
        },
        _ => Err(SerializeError::InvalidValue),
    }
}

/// The JSON of a timestamp: its RFC 3339 text, after whole seconds were
/// moved between its parts so that the nanoseconds lie within one second. A
/// timestamp outside the years 0001 to 9999, before or after that, is an
/// error.
pub open spec fn json_of_timestamp<'a>(m: MessageView<'a>) -> Result<JsonView, SerializeError> {
    match (held_i64(m.fields, 1), held_i32(m.fields, 2)) {
        (Some(seconds), Some(nanos)) => {
            let normal = normal_timestamp(seconds as int, nanos as int);
            if !timestamp_in_range(Timestamp { seconds, nanos }) || !(MIN_TIMESTAMP_SECONDS
                <= normal.0 <= MAX_TIMESTAMP_SECONDS) {
                Err(SerializeError::TimestampOutOfRange)
            } else {
                Ok(JsonView::String(timestamp_text(normal.0 as i64, normal.1 as i32)))
            }
        },
        _ => Err(SerializeError::InvalidValue),
    }
}

/// The first `n` of the paths in lowerCamelCase; none where one of them is no
/// string, or cannot be written in lowerCamelCase.
pub open spec fn mask_paths<'a>(items: Seq<ValueView<'a>>, n: nat) -> Option<Seq<Seq<char>>>
    decreases n,
{
    if n == 0 {
        Some(Seq::empty())
    } else {
        match mask_paths(items, (n - 1) as nat) {
            None => None,
            Some(front) => match items[n - 1] {
                ValueView::String(s) => match camel_of(s) {
                    Some(text) => Some(front.push(text)),
                    None => None,
                },
                _ => None,
            },
        }
    }
}

/// The JSON of a field mask: the paths that it holds under the number 1, in
/// lowerCamelCase and joined by commas. A path that cannot be written in
/// lowerCamelCase and read back is an error.
pub open spec fn json_of_field_mask<'a>(m: MessageView<'a>) -> Result<JsonView, SerializeError> {
    match decoded(m.fields, 1) {
        None => Ok(JsonView::String(Seq::empty())),
        Some(ValueView::List(items)) => match mask_paths(items, items.len()) {
            Some(paths) => Ok(JsonView::String(joined(paths, paths.len()))),
            None => Err(SerializeError::InvalidValue),
        },
        Some(_) => Err(SerializeError::InvalidValue),
    }
}

/// The JSON of what the message holds for the field numbered `number`; an
/// error where its type declares no such field.
pub open spec fn json_of_numbered<'a>(
    m: MessageView<'a>,
    number: u32,
    options: SerializeOptions,
) -> Result<JsonView, SerializeError>
    decreases options.any_nesting_limit(), m, 1nat,
{
    match m.desc.field_index(number) {
        Some(i) => json_of_held(m, FieldDescriptorRef::at(m.desc, i as usize), options),
        None => Err(SerializeError::InvalidValue),
    }
}

/// The number of the first of the six kinds of a `Value` for which the
/// message holds a decoded value.
pub open spec fn kind_held<'a>(m: Map<u32, EntryView<'a>>) -> Option<u32> {
    if decoded(m, 1) is Some {
        Some(1u32)
    } else if decoded(m, 2) is Some {
        Some(2u32)
    } else if decoded(m, 3) is Some {
        Some(3u32)
    } else if decoded(m, 4) is Some {
        Some(4u32)
    } else if decoded(m, 5) is Some {
        Some(5u32)
    } else if decoded(m, 6) is Some {
        Some(6u32)
    } else {
        None
    }
}

/// The JSON of an `Any` that holds `payload` under the URL `type_url`: an
/// object whose first member, `@type`, holds the URL. Behind it stand the
/// members of the payload's own object or, for a payload of a well-known
/// type, whose JSON need not be an object, one member `value` with that
/// JSON.
pub open spec fn json_of_any<'a>(
    type_url: Seq<char>,
    payload: MessageView<'a>,
    options: SerializeOptions,
) -> Result<JsonView, SerializeError>
    decreases options.any_nesting_limit(), payload, walk_of(payload.fields, payload.desc).len()
        + 0x1_0000_0000 + 5,
{
    match json_of_message(payload, options) {
        Err(e) => Err(e),
        Ok(j) => if well_known_type(payload.desc.full_name_spec()) {
            Ok(JsonView::Object(seq![("@type"@, JsonView::String(type_url)), ("value"@, j)]))
        } else {
            match j {
                JsonView::Object(members) => Ok(
                    JsonView::Object(seq![("@type"@, JsonView::String(type_url))] + members),
                ),
                _ => Err(SerializeError::InvalidValue),
            }
        },
    }
}

/// The JSON of a message of type `Any`: that of the payload which its bytes
/// are the binary form of, read as the message type of the pool that the
/// type URL names. `UnsupportedType` where the pool holds no such type;
/// `InvalidValue` where the message does not hold a text and bytes, the
/// bytes are not the binary form of a message of the type, or no further
/// `Any` may stand inside.
pub open spec fn json_of_any_held<'a>(m: MessageView<'a>, options: SerializeOptions) -> Result<
    JsonView,
    SerializeError,
>
    decreases options.any_nesting_limit(), m, 1nat,
{
    match (held_text(m.fields, 1), held_bytes(m.fields, 2)) {
        (Some(url), Some(bytes)) => match payload_type(m.desc.pool(), url) {
            None => Err(SerializeError::UnsupportedType),
            Some(desc) => match message_of_wire(bytes, desc) {
                None => Err(SerializeError::InvalidValue),
                Some(payload) => if options.nested().any_nesting_limit()
                    < options.any_nesting_limit() {
                    json_of_any(url, payload, options.nested())
                } else {
                    Err(SerializeError::InvalidValue)
                },
            },
        },
        _ => Err(SerializeError::InvalidValue),
    }
}

/// The JSON of a message of a well-known type. A duration and a timestamp
/// are written as text. A wrapper is written as the value that it wraps, a
/// `Struct` as the object of its fields, a `ListValue` as the array of its
/// values, and a `Value` as the JSON of the kind that it holds. A
/// `FieldMask` is written as the text of its paths, `Empty` as the empty
/// object, and an `Any` as the JSON of its payload with the type URL.
pub open spec fn json_of_well_known<'a>(m: MessageView<'a>, options: SerializeOptions) -> Result<
    JsonView,
    SerializeError,
>
    decreases options.any_nesting_limit(), m, 2nat,
{
    let name = m.desc.full_name_spec();
    if name == "google.protobuf.Duration"@ {
        json_of_duration(m)
    } else if name == "google.protobuf.Timestamp"@ {
        json_of_timestamp(m)
    } else if name == "google.protobuf.Empty"@ {
        Ok(JsonView::Object(Seq::empty()))
    } else if name == "google.protobuf.Any"@ {
        json_of_any_held(m, options)
    } else if name == "google.protobuf.FieldMask"@ {
        json_of_field_mask(m)
    } else if name == "google.protobuf.Value"@ {
        match kind_held(m.fields) {
            Some(number) => json_of_numbered(m, number, options),
            None => Err(SerializeError::InvalidValue),
        }
    } else {
        json_of_numbered(m, 1, options)
    }
}

/// The JSON of a message: that of its well-known type, where it has one;
/// else the object of its members, in ascending order of the field numbers.
/// Undecoded entries are not written. A decoded value under a number that the
/// message's type does not declare is an error.
pub open spec fn json_of_message<'a>(m: MessageView<'a>, options: SerializeOptions) -> Result<
    JsonView,
    SerializeError,
>
    decreases options.any_nesting_limit(), m, walk_of(m.fields, m.desc).len() + 0x1_0000_0000 + 4,
{
    if well_known_type(m.desc.full_name_spec()) {
        json_of_well_known(m, options)
    } else if !all_declared(m.fields, m.desc) {
        Err(SerializeError::InvalidValue)
    } else {
        match json_of_members(m, options) {
            Err(e) => Err(e),
            Ok(members) => Ok(JsonView::Object(members)),
        }
    }
}

fn string_value(text: &str) -> (r: JsonValue)
    ensures
        r@ == JsonView::String(text@),
{
    JsonValue::String(String::from_str(text))
}

fn serialize_single(bits: u32) -> (r: JsonValue)
    ensures
        r@ == json_of_single(bits),
{
    if (bits >> 23) & 0xff == 0xff {
        if bits & 0x7f_ffff != 0 {
            string_value("NaN")
        } else if bits >> 31 == 0 {
            string_value("Infinity")
        } else {
            string_value("-Infinity")
        }
    } else {
        JsonValue::Number(JsonNumber::from_single_bits(bits))
    }
}

fn serialize_double(bits: u64) -> (r: JsonValue)
    ensures
        r@ == json_of_double(bits),
{
    if (bits >> 52) & 0x7ff == 0x7ff {
        if bits & 0xf_ffff_ffff_ffff != 0 {
            string_value("NaN")
        } else if bits >> 63 == 0 {
            string_value("Infinity")
        } else {
            string_value("-Infinity")
        }
    } else {
        JsonValue::Number(JsonNumber::from_double_bits(bits))
    }
}

fn serialize_enum(e: &EnumDescriptorRef, n: i32, options: &SerializeOptions) -> (r: Result<
    JsonValue,
    SerializeError,
>)
    ensures
        wrote(r, json_of_enum(*e, n, *options)),
{
    if str_eq(e.full_name(), "google.protobuf.NullValue") {
        Ok(JsonValue::Null)
    } else if options.is_use_enum_numbers() {
        Ok(JsonValue::Number(JsonNumber::from_i64(n as i64)))
    } else {
        match e.get_value_name(n) {
            Some(name) => Ok(string_value(name)),
            None => Err(SerializeError::UnknownEnumValue(n)),
        }
    }
}

/// Writes a single value of a kind other than message.
pub fn serialize_scalar<'a>(v: &Value<'a>, kind: &KindRef<'a>, options: &SerializeOptions) -> (r:
    Result<JsonValue, SerializeError>)
    ensures
        wrote(r, json_of_scalar(v@, *kind, *options)),
{
    match kind {
        KindRef::Double => match v {
            Value::F64(bits) => Ok(serialize_double(*bits)),
            _ => Err(SerializeError::InvalidValue),
        },
        KindRef::Float => match v {
            Value::F32(bits) => Ok(serialize_single(*bits)),
            _ => Err(SerializeError::InvalidValue),
        },
        KindRef::Int32 | KindRef::Sint32 | KindRef::Sfixed32 => match v {
            Value::I32(n) => Ok(JsonValue::Number(JsonNumber::from_i64(*n as i64))),
            _ => Err(SerializeError::InvalidValue),
        },
        KindRef::Int64 | KindRef::Sint64 | KindRef::Sfixed64 => match v {
            Value::I64(n) => if options.is_stringify_64_bit_integers() {
                Ok(JsonValue::String(signed_to_string(*n)))
            } else {
                Ok(JsonValue::Number(JsonNumber::from_i64(*n)))
            },
            _ => Err(SerializeError::InvalidValue),
        },
        KindRef::Uint32 | KindRef::Fixed32 => match v {
            Value::U32(n) => Ok(JsonValue::Number(JsonNumber::from_u64(*n as u64))),
            _ => Err(SerializeError::InvalidValue),
        },
        KindRef::Uint64 | KindRef::Fixed64 => match v {
            Value::U64(n) => if options.is_stringify_64_bit_integers() {
                Ok(JsonValue::String(unsigned_to_string(*n)))
            } else {
                Ok(JsonValue::Number(JsonNumber::from_u64(*n)))
            },
            _ => Err(SerializeError::InvalidValue),
        },
        KindRef::Bool => match v {
            Value::Bool(b) => Ok(JsonValue::Bool(*b)),
            _ => Err(SerializeError::InvalidValue),
        },
        KindRef::String => match v {
            Value::String(s) => Ok(string_value(s.as_str())),
            _ => Err(SerializeError::InvalidValue),
        },
        KindRef::Bytes => match v {
            Value::Bytes(b) => Ok(JsonValue::String(base64_encode(b))),
            _ => Err(SerializeError::InvalidValue),
        },
        KindRef::Enum(e) => match v {
            Value::EnumNumber(n) => serialize_enum(e, *n, options),
            _ => Err(SerializeError::InvalidValue),
        },
        KindRef::Message(_) => Err(SerializeError::InvalidValue),
    }
}

/// The name that a map key has as a member of a JSON object.
pub fn key_to_string(key: &MapKey) -> (r: String)
    ensures
        r@ == key_text(key@),
{
    match key {
        MapKey::Bool(b) => if *b {
            String::from_str("true")
        } else {
            String::from_str("false")
        },
        MapKey::I32(n) => signed_to_string(*n as i64),
        MapKey::I64(n) => signed_to_string(*n),
        MapKey::U32(n) => unsigned_to_string(*n as u64),
        MapKey::U64(n) => unsigned_to_string(*n),
        MapKey::String(s) => s.clone(),
    }
}

/// Writes a single value of `kind`.
pub fn serialize_value<'a>(v: &Value<'a>, kind: &KindRef<'a>, options: &SerializeOptions) -> (r:
    Result<JsonValue, SerializeError>)
    ensures
        wrote(r, json_of_value(v@, *kind, *options)),
    decreases options.any_nesting_limit(), v@, 0nat,
{
    match kind {
        KindRef::Message(_) => match v {
            Value::Message(message) => serialize_message(message, options),
            _ => Err(SerializeError::InvalidValue),
        },
        _ => serialize_scalar(v, kind, options),
    }
}

/// Writes the items of the list `v`.
fn serialize_items<'a>(
    v: &Value<'a>,
    items: &Vec<Value<'a>>,
    kind: &KindRef<'a>,
    options: &SerializeOptions,
) -> (r: Result<Vec<JsonValue>, SerializeError>)
    requires
        *v matches Value::List(held) && held == *items,
    ensures
        match r {
            Ok(out) => json_of_items(v@, items@.len(), *kind, *options) == Ok::<
                Seq<JsonView>,
                SerializeError,
            >(crate::json::value::array_views(out@)),
            Err(e) => json_of_items(v@, items@.len(), *kind, *options) == Err::<
                Seq<JsonView>,
                SerializeError,
            >(e),
        },
    decreases options.any_nesting_limit(), v@, 0nat,
{
    let mut out: Vec<JsonValue> = Vec::new();
    let mut i: usize = 0;
    assert(crate::json::value::array_views(out@) =~= Seq::empty());
    assert(v@->List_0.len() == items@.len());
    assert forall|k: int| 0 <= k < items@.len() implies (#[trigger] v@->List_0[k]) == items@[k]@ by {}
    while i < items.len()
        invariant
            i <= items.len(),
            v@ is List,
            v@->List_0.len() == items@.len(),
            forall|k: int| 0 <= k < items@.len() ==> (#[trigger] v@->List_0[k]) == items@[k]@,
            json_of_items(v@, i as nat, *kind, *options) == Ok::<Seq<JsonView>, SerializeError>(
                crate::json::value::array_views(out@),
            ),
        decreases items.len() - i,
    {
        assert(v@->List_0[i as int] == items@[i as int]@);
        match serialize_value(&items[i], kind, options) {
            Err(e) => {
                proof {
                    assert(json_of_items(v@, (i + 1) as nat, *kind, *options) == Err::<
                        Seq<JsonView>,
                        SerializeError,
                    >(e));
                    lemma_items_error(v@, (i + 1) as nat, items@.len() as nat, *kind, *options);
                }
                return Err(e);
            },
            Ok(j) => {
                let ghost before = out@;
                out.push(j);
                assert(crate::json::value::array_views(out@) =~= crate::json::value::array_views(
                    before,
                ).push(j@));
                assert(json_of_items(v@, (i + 1) as nat, *kind, *options) == Ok::<
                    Seq<JsonView>,
                    SerializeError,
                >(crate::json::value::array_views(out@)));
            },
        }
        i += 1;
    }
    Ok(out)
}

/// Writes the entries of the map `v`, whose values are of `kind`.
fn serialize_entries<'a>(
    v: &Value<'a>,
    entries: &Vec<crate::value::MapEntry<'a>>,
    kind: &KindRef<'a>,
    options: &SerializeOptions,
) -> (r: Result<Vec<JsonMember>, SerializeError>)
    requires
        *v matches Value::Entries(held) && held == *entries,
    ensures
        match r {
            Ok(out) => json_of_entries(v@, entries@.len(), *kind, *options) == Ok::<
                Seq<(Seq<char>, JsonView)>,
                SerializeError,
            >(member_views(out@)),
            Err(e) => json_of_entries(v@, entries@.len(), *kind, *options) == Err::<
                Seq<(Seq<char>, JsonView)>,
                SerializeError,
            >(e),
        },
    decreases options.any_nesting_limit(), v@, 0nat,
{
    let mut out: Vec<JsonMember> = Vec::new();
    let mut i: usize = 0;
    assert(member_views(out@) =~= Seq::empty());
    assert(v@->Entries_0.len() == entries@.len());
    assert forall|k: int| 0 <= k < entries@.len() implies (#[trigger] v@->Entries_0[k]) == (
        entries@[k].key@,
        entries@[k].value@,
    ) by {}
    while i < entries.len()
        invariant
            i <= entries.len(),
            v@ is Entries,
            v@->Entries_0.len() == entries@.len(),
            forall|k: int|
                0 <= k < entries@.len() ==> (#[trigger] v@->Entries_0[k]) == (
                    entries@[k].key@,
                    entries@[k].value@,
                ),
            json_of_entries(v@, i as nat, *kind, *options) == Ok::<
                Seq<(Seq<char>, JsonView)>,
                SerializeError,
            >(member_views(out@)),
        decreases entries.len() - i,
    {
        assert(v@->Entries_0[i as int] == (entries@[i as int].key@, entries@[i as int].value@));
        match serialize_value(&entries[i].value, kind, options) {
            Err(e) => {
                proof {
                    assert(json_of_entries(v@, (i + 1) as nat, *kind, *options) == Err::<
                        Seq<(Seq<char>, JsonView)>,
                        SerializeError,
                    >(e));
                    lemma_entries_error(v@, (i + 1) as nat, entries@.len() as nat, *kind, *options);
                }
                return Err(e);
            },
            Ok(j) => {
                let ghost before = out@;
                out.push(JsonMember { name: key_to_string(&entries[i].key), value: j });
                assert(member_views(out@) =~= member_views(before).push(
                    (key_text(entries@[i as int].key@), j@),
                ));
                assert(json_of_entries(v@, (i + 1) as nat, *kind, *options) == Ok::<
                    Seq<(Seq<char>, JsonView)>,
                    SerializeError,
                >(member_views(out@)));
            },
        }
        i += 1;
    }
    Ok(out)
}

/// Writes the value of a field of `kind`.
pub fn serialize_field_value<'a>(
    v: &Value<'a>,
    kind: &KindRef<'a>,
    is_list: bool,
    is_map: bool,
    options: &SerializeOptions,
) -> (r: Result<JsonValue, SerializeError>)
    ensures
        wrote(r, json_of_field_value(v@, *kind, is_list, is_map, *options)),
    decreases options.any_nesting_limit(), v@, 1nat,
{
    if is_list {
        match v {
            Value::List(items) => {
                assert(v@->List_0.len() == items@.len());
                match serialize_items(v, items, kind, options) {
                    Ok(out) => Ok(JsonValue::array(out)),
                    Err(e) => Err(e),
                }
            },
            _ => Err(SerializeError::InvalidValue),
        }
    } else if is_map {
        match v {
            Value::Entries(entries) => match kind {
                KindRef::Message(entry) => {
                    if !entry.is_map_entry() {
                        return Err(SerializeError::InvalidValue);
                    }
                    let value_kind = entry.map_entry_value_kind();
                    assert(v@->Entries_0.len() == entries@.len());
                    match serialize_entries(v, entries, &value_kind, options) {
                        Ok(out) => Ok(JsonValue::object(out)),
                        Err(e) => Err(e),
                    }
                },
                _ => Err(SerializeError::InvalidValue),
            },
            _ => Err(SerializeError::InvalidValue),
        }
    } else {
        serialize_value(v, kind, options)
    }
}

/// An error in writing the first items of a list is the error in writing all
/// of them.
pub proof fn lemma_items_error<'a>(
    v: ValueView<'a>,
    n: nat,
    len: nat,
    kind: KindRef<'a>,
    options: SerializeOptions,
)
    requires
        v is List,
        n <= len == v->List_0.len(),
        json_of_items(v, n, kind, options) is Err,
    ensures
        json_of_items(v, len, kind, options) == json_of_items(v, n, kind, options),
    decreases len - n,
{
    if n < len {
        lemma_items_error(v, n + 1, len, kind, options);
    }
}

/// An error in writing the first entries of a map is the error in writing all
/// of them.
pub proof fn lemma_entries_error<'a>(
    v: ValueView<'a>,
    n: nat,
    len: nat,
    kind: KindRef<'a>,
    options: SerializeOptions,
)
    requires
        v is Entries,
        n <= len == v->Entries_0.len(),
        json_of_entries(v, n, kind, options) is Err,
    ensures
        json_of_entries(v, len, kind, options) == json_of_entries(v, n, kind, options),
    decreases len - n,
{
    if n < len {
        lemma_entries_error(v, n + 1, len, kind, options);
    }
}

/// Writes the value of a field that holds none and is no single message.
pub fn serialize_bare_default<'a>(
    kind: &KindRef<'a>,
    is_list: bool,
    is_map: bool,
    options: &SerializeOptions,
) -> (r: Result<JsonValue, SerializeError>)
    ensures
        wrote(r, json_of_bare_default(*kind, is_list, is_map, *options)),
{
    if is_list {
        let r = JsonValue::array(Vec::new());
        assert(r@->Array_0 =~= Seq::empty());
        Ok(r)
    } else if is_map {
        let r = JsonValue::object(Vec::new());
        assert(r@->Object_0 =~= Seq::empty());
        Ok(r)
    } else {
        match kind {
            KindRef::Message(_) => Err(SerializeError::InvalidValue),
            _ => serialize_scalar(&Value::default_value(kind), kind, options),
        }
    }
}

/// Writes a message field that holds no value.
pub fn serialize_unset<'a>(desc: MessageDescriptorRef<'a>, options: &SerializeOptions) -> (r: Result<
    JsonValue,
    SerializeError,
>)
    ensures
        wrote(r, json_of_unset(desc, *options)),
{
    broadcast use {FieldDescriptorRef::lemma_at, FieldDescriptorRef::lemma_at_parts};

    let name = desc.full_name();
    if !is_well_known_type(name) || str_eq(name, "google.protobuf.Empty") || str_eq(
        name,
        "google.protobuf.Any",
    ) {
        let r = JsonValue::object(Vec::new());
        assert(r@->Object_0 =~= Seq::empty());
        Ok(r)
    } else if str_eq(name, "google.protobuf.Duration") {
        serialize_duration(&DynamicMessage::new(desc))
    } else if str_eq(name, "google.protobuf.Timestamp") {
        serialize_timestamp(&DynamicMessage::new(desc))
    } else if str_eq(name, "google.protobuf.FieldMask") {
        serialize_field_mask(&DynamicMessage::new(desc))
    } else if str_eq(name, "google.protobuf.Value") {
        Ok(JsonValue::Null)
    } else {
        match desc.get_field(1) {
            Some(field) => {
                let kind = field.kind();
                let single = match kind {
                    KindRef::Message(_) => !field.is_list() && !field.is_map(),
                    _ => false,
                };
                if single {
                    Err(SerializeError::InvalidValue)
                } else {
                    serialize_bare_default(&kind, field.is_list(), field.is_map(), options)
                }
            },
            None => Err(SerializeError::InvalidValue),
        }
    }
}

/// Writes the value of a field that holds none.
pub fn serialize_default<'a>(
    kind: &KindRef<'a>,
    is_list: bool,
    is_map: bool,
    options: &SerializeOptions,
) -> (r: Result<JsonValue, SerializeError>)
    ensures
        wrote(r, json_of_default(*kind, is_list, is_map, *options)),
{
    match kind {
        KindRef::Message(desc) => if !is_list && !is_map {
            serialize_unset(*desc, options)
        } else {
            serialize_bare_default(kind, is_list, is_map, options)
        },
        _ => serialize_bare_default(kind, is_list, is_map, options),
    }
}

/// An error in writing the first items of the walk over a message is the
/// error in writing all of them.
pub proof fn lemma_walk_error<'a>(m: MessageView<'a>, n: nat, len: nat, options: SerializeOptions)
    requires
        n <= len <= walk_of(m.fields, m.desc).len(),
        json_of_walk(m, n, options) is Err,
    ensures
        json_of_walk(m, len, options) == json_of_walk(m, n, options),
    decreases len - n,
{
    if n < len {
        lemma_walk_error(m, n + 1, len, options);
    }
}

/// An error in writing the members under the first numbers is the error in
/// writing those under more.
pub proof fn lemma_numbers_error<'a>(m: MessageView<'a>, n: nat, len: nat, options: SerializeOptions)
    requires
        n <= len,
        json_of_numbers(m, n, options) is Err,
    ensures
        json_of_numbers(m, len, options) == json_of_numbers(m, n, options),
    decreases len - n,
{
    if n < len {
        lemma_numbers_error(m, n + 1, len, options);
    }
}

/// Numbers that the message's type does not declare add no member.
pub proof fn lemma_numbers_gap<'a>(m: MessageView<'a>, from: nat, to: nat, options: SerializeOptions)
    requires
        from <= to <= 0x1_0000_0000,
        forall|n: u32| from <= n < to ==> !m.desc.declares(n),
    ensures
        json_of_numbers(m, to, options) == json_of_numbers(m, from, options),
    decreases to - from,
{
    if from < to {
        lemma_numbers_gap(m, from, (to - 1) as nat, options);
        assert(!m.desc.declares((to - 1) as u32));
        assert(json_of_declared(m, (to - 1) as u32, options) == Ok::<
            Option<(Seq<char>, JsonView)>,
            SerializeError,
        >(None));
    }
}

/// Writes what the message holds for a field that is written.
fn serialize_held<'a, D: FieldDescriptorLike<'a>>(
    message: &DynamicMessage<'a>,
    desc: D,
    options: &SerializeOptions,
) -> (r: Result<JsonValue, SerializeError>)
    ensures
        wrote(r, json_of_held(message@, desc, *options)),
    decreases options.any_nesting_limit(), message@, 0nat,
{
    let kind = desc.kind();
    assert(message@.fields == message.fields@);
    match message.fields.get_value(desc.number()) {
        Some(value) => {
            assert(value@ == message@.fields[desc.number_spec()]->Value_0);
            serialize_field_value(value, &kind, desc.is_list(), desc.is_map(), options)
        },
        None => serialize_default(&kind, desc.is_list(), desc.is_map(), options),
    }
}

/// The integer that the message holds under `number`, read as 64 bits wide.
fn read_i64<'a>(message: &DynamicMessage<'a>, number: u32) -> (r: Option<i64>)
    ensures
        r == held_i64(message@.fields, number),
{
    assert(message@.fields == message.fields@);
    match message.fields.get_value(number) {
        None => Some(0),
        Some(Value::I64(n)) => Some(*n),
        Some(_) => None,
    }
}

/// The integer that the message holds under `number`, read as 32 bits wide.
fn read_i32<'a>(message: &DynamicMessage<'a>, number: u32) -> (r: Option<i32>)
    ensures
        r == held_i32(message@.fields, number),
{
    assert(message@.fields == message.fields@);
    match message.fields.get_value(number) {
        None => Some(0),
        Some(Value::I32(n)) => Some(*n),
        Some(_) => None,
    }
}

fn serialize_duration<'a>(message: &DynamicMessage<'a>) -> (r: Result<JsonValue, SerializeError>)
    ensures
        wrote(r, json_of_duration(message@)),
{
    match (read_i64(message, 1), read_i32(message, 2)) {
        (Some(seconds), Some(nanos)) => {
            let duration = Duration { seconds, nanos };
            if check_duration(&duration).is_err() {
                Err(SerializeError::DurationOutOfRange)
            } else {
                Ok(JsonValue::String(duration_to_string(&normalize_duration(&duration))))
            }
        },
        _ => Err(SerializeError::InvalidValue),
    }
}

fn serialize_timestamp<'a>(message: &DynamicMessage<'a>) -> (r: Result<JsonValue, SerializeError>)
    ensures
        wrote(r, json_of_timestamp(message@)),
{
    match (read_i64(message, 1), read_i32(message, 2)) {
        (Some(seconds), Some(nanos)) => {
            if check_timestamp(&Timestamp { seconds, nanos }).is_err() {
                return Err(SerializeError::TimestampOutOfRange);
            }
            let (s, n) = normalize_timestamp(seconds, nanos);
            if check_timestamp(&Timestamp { seconds: s, nanos: n }).is_err() {
                Err(SerializeError::TimestampOutOfRange)
            } else {
                Ok(JsonValue::String(timestamp_to_string(s, n)))
            }
        },
        _ => Err(SerializeError::InvalidValue),
    }
}

/// An error in writing the first paths of a field mask is an error in
/// writing all of them.
proof fn lemma_mask_paths_error<'a>(items: Seq<ValueView<'a>>, n: nat, len: nat)
    requires
        n <= len,
        mask_paths(items, n) is None,
    ensures
        mask_paths(items, len) is None,
    decreases len - n,
{
    if n < len {
        lemma_mask_paths_error(items, n + 1, len);
    }
}

/// The paths of a field mask in lowerCamelCase.
fn write_mask_paths<'a>(items: &Vec<Value<'a>>) -> (r: Option<Vec<String>>)
    ensures
        match r {
            Some(out) => mask_paths(crate::value::value_views(items@), items@.len()) == Some(
                out@.map_values(|s: String| s@),
            ) && out@.len() == items@.len(),
            None => mask_paths(crate::value::value_views(items@), items@.len()) is None,
        },
{
    let ghost views = crate::value::value_views(items@);
    let mut out: Vec<String> = Vec::new();
    let mut i: usize = 0;
    assert(out@.map_values(|s: String| s@) =~= Seq::empty());
    while i < items.len()
        invariant
            i <= items.len(),
            views == crate::value::value_views(items@),
            out@.len() == i,
            mask_paths(views, i as nat) == Some(out@.map_values(|s: String| s@)),
        decreases items.len() - i,
    {
        let ghost before = out@.map_values(|s: String| s@);
        assert(views[i as int] == items@[i as int]@);
        let step = match &items[i] {
            Value::String(s) => to_camel(s.as_str()),
            _ => None,
        };
        match step {
            Some(text) => {
                out.push(text);
                assert(out@.map_values(|s: String| s@) =~= before.push(text@));
            },
            None => {
                proof {
                    assert(mask_paths(views, (i + 1) as nat) is None);
                    lemma_mask_paths_error(views, (i + 1) as nat, items@.len() as nat);
                }
                return None;
            },
        }
        i += 1;
    }
    Some(out)
}

fn serialize_field_mask<'a>(message: &DynamicMessage<'a>) -> (r: Result<JsonValue, SerializeError>)
    ensures
        wrote(r, json_of_field_mask(message@)),
{
    assert(message@.fields == message.fields@);
    match message.fields.get_value(1) {
        None => Ok(JsonValue::String(String::new())),
        Some(Value::List(items)) => {
            let ghost views = message@.fields[1]->Value_0->List_0;
            assert(views =~= crate::value::value_views(items@));
            match write_mask_paths(items) {
                Some(out) => Ok(JsonValue::String(join(&out))),
                None => Err(SerializeError::InvalidValue),
            }
        },
        Some(_) => Err(SerializeError::InvalidValue),
    }
}

/// Writes what the message holds for the field numbered `number`.
fn serialize_numbered<'a>(message: &DynamicMessage<'a>, number: u32, options: &SerializeOptions) -> (r:
    Result<JsonValue, SerializeError>)
    ensures
        wrote(r, json_of_numbered(message@, number, *options)),
    decreases options.any_nesting_limit(), message@, 1nat,
{
    assert(message@.desc == message.desc);
    match message.desc.get_field(number) {
        Some(field) => {
            proof {
                field.lemma_at();
            }
            serialize_held(message, field, options)
        },
        None => Err(SerializeError::InvalidValue),
    }
}

/// The number of the first of the six kinds of a `Value` for which the
/// message holds a decoded value.
fn find_kind_held<'a>(message: &DynamicMessage<'a>) -> (r: Option<u32>)
    ensures
        r == kind_held(message@.fields),
{
    assert(message@.fields == message.fields@);
    if message.fields.get_value(1).is_some() {
        Some(1)
    } else if message.fields.get_value(2).is_some() {
        Some(2)
    } else if message.fields.get_value(3).is_some() {
        Some(3)
    } else if message.fields.get_value(4).is_some() {
        Some(4)
    } else if message.fields.get_value(5).is_some() {
        Some(5)
    } else if message.fields.get_value(6).is_some() {
        Some(6)
    } else {
        None
    }
}

/// Writes an `Any` that holds `payload` under the URL `type_url`.
pub fn serialize_any<'a>(type_url: &str, payload: &DynamicMessage<'a>, options: &SerializeOptions) -> (r:
    Result<JsonValue, SerializeError>)
    ensures
        wrote(r, json_of_any(type_url@, payload@, *options)),
    decreases options.any_nesting_limit(), payload@, 6nat,
{
    assert(payload@.desc == payload.desc);
    let j = match serialize_message(payload, options) {
        Ok(j) => j,
        Err(e) => {
            return Err(e);
        },
    };
    let mut members: Vec<JsonMember> = Vec::new();
    members.push(JsonMember { name: String::from_str("@type"), value: string_value(type_url) });
    if is_well_known_type(payload.desc.full_name()) {
        members.push(JsonMember { name: String::from_str("value"), value: j });
        let r = JsonValue::object(members);
        assert(r@->Object_0 =~= seq![("@type"@, JsonView::String(type_url@)), ("value"@, j@)]);
        Ok(r)
    } else {
        match j.into_object() {
            Some(mut inner) => {
                let ghost held = member_views(inner@);
                members.append(&mut inner);
                let r = JsonValue::object(members);
                assert(r@->Object_0 =~= seq![("@type"@, JsonView::String(type_url@))] + held);
                Ok(r)
            },
            None => Err(SerializeError::InvalidValue),
        }
    }
}

/// Writes a message of type `Any`.
fn serialize_any_held<'a>(message: &DynamicMessage<'a>, options: &SerializeOptions) -> (r: Result<
    JsonValue,
    SerializeError,
>)
    ensures
        wrote(r, json_of_any_held(message@, *options)),
    decreases options.any_nesting_limit(), message@, 1nat,
{
    assert(message@.desc == message.desc);
    let url = match read_text(message, 1) {
        Some(url) => url,
        None => {
            return Err(SerializeError::InvalidValue);
        },
    };
    let bytes = match read_bytes(message, 2) {
        Some(bytes) => bytes,
        None => {
            return Err(SerializeError::InvalidValue);
        },
    };
    let desc = match find_payload_type(message.desc.parent_pool(), url) {
        Some(desc) => desc,
        None => {
            return Err(SerializeError::UnsupportedType);
        },
    };
    let payload = match decode_fields(bytes, desc) {
        Some(payload) => payload,
        None => {
            return Err(SerializeError::InvalidValue);
        },
    };
    if options.get_any_nesting() == 0 {
        proof {
            options.lemma_nested();
        }
        return Err(SerializeError::InvalidValue);
    }
    let inner = options.for_payload();
    serialize_any(url, &payload, &inner)
}

/// Writes a message of a well-known type.
fn serialize_well_known<'a>(message: &DynamicMessage<'a>, options: &SerializeOptions) -> (r: Result<
    JsonValue,
    SerializeError,
>)
    ensures
        wrote(r, json_of_well_known(message@, *options)),
    decreases options.any_nesting_limit(), message@, 2nat,
{
    assert(message@.desc == message.desc);
    let name = message.desc.full_name();
    if str_eq(name, "google.protobuf.Duration") {
        serialize_duration(message)
    } else if str_eq(name, "google.protobuf.Timestamp") {
        serialize_timestamp(message)
    } else if str_eq(name, "google.protobuf.Empty") {
        let r = JsonValue::object(Vec::new());
        assert(r@->Object_0 =~= Seq::empty());
        Ok(r)
    } else if str_eq(name, "google.protobuf.Any") {
        serialize_any_held(message, options)
    } else if str_eq(name, "google.protobuf.FieldMask") {
        serialize_field_mask(message)
    } else if str_eq(name, "google.protobuf.Value") {
        match find_kind_held(message) {
            Some(number) => serialize_numbered(message, number, options),
            None => Err(SerializeError::InvalidValue),
        }
    } else {
        serialize_numbered(message, 1, options)
    }
}

/// Writes a message as JSON.
pub fn serialize_message<'a>(message: &DynamicMessage<'a>, options: &SerializeOptions) -> (r:
    Result<JsonValue, SerializeError>)
    ensures
        wrote(r, json_of_message(message@, *options)),
    decreases options.any_nesting_limit(), message@, 5nat,
{
    assert(message@.desc == message.desc);
    if is_well_known_type(message.desc.full_name()) {
        serialize_well_known(message, options)
    } else {
        serialize_fields(message, options)
    }
}

/// Writes the member of a field or of an extension.
fn serialize_member<'a, D: FieldDescriptorLike<'a>>(
    message: &DynamicMessage<'a>,
    desc: D,
    name: &str,
    options: &SerializeOptions,
) -> (r: Result<JsonMember, SerializeError>)
    ensures
        match r {
            Ok(member) => json_of_held(message@, desc, *options) == Ok::<JsonView, SerializeError>(
                member.value@,
            ) && member.name@ == name@,
            Err(e) => json_of_held(message@, desc, *options) == Err::<JsonView, SerializeError>(e),
        },
    decreases options.any_nesting_limit(), message@, 1nat,
{
    match serialize_held(message, desc, options) {
        Ok(j) => Ok(JsonMember { name: String::from_str(name), value: j }),
        Err(e) => Err(e),
    }
}

/// The name under which a field is written.
fn name_of<'a>(field: &FieldDescriptorRef<'a>, options: &SerializeOptions) -> (r: &'a str)
    ensures
        r@ == member_name(*field, *options),
{
    if options.is_use_proto_field_name() {
        field.name()
    } else {
        field.json_name()
    }
}

/// Writes the member of an item of the walk over the message's store.
fn serialize_item<'s, 'a>(
    message: &DynamicMessage<'a>,
    item: &ValueAndDescriptor<'s, 'a>,
    options: &SerializeOptions,
) -> (r: Result<Option<JsonMember>, SerializeError>)
    ensures
        match r {
            Ok(Some(member)) => json_of_item(message@, item@, *options) == Ok::<
                Option<(Seq<char>, JsonView)>,
                SerializeError,
            >(Some((member.name@, member.value@))),
            Ok(None) => json_of_item(message@, item@, *options) == Ok::<
                Option<(Seq<char>, JsonView)>,
                SerializeError,
            >(None),
            Err(e) => json_of_item(message@, item@, *options) == Err::<
                Option<(Seq<char>, JsonView)>,
                SerializeError,
            >(e),
        },
    decreases options.any_nesting_limit(), message@, 2nat,
{
    match item {
        ValueAndDescriptor::Field(_, field) => {
            match serialize_member(message, *field, name_of(field, options), options) {
                Ok(member) => Ok(Some(member)),
                Err(e) => Err(e),
            }
        },
        ValueAndDescriptor::Extension(_, extension) => {
            match serialize_member(message, *extension, extension.json_name(), options) {
                Ok(member) => Ok(Some(member)),
                Err(e) => Err(e),
            }
        },
        ValueAndDescriptor::Unknown(_, _) => Ok(None),
    }
}

/// Writes the members of the items of the walk over the message's store.
fn serialize_walk<'s, 'a>(
    message: &DynamicMessage<'a>,
    items: &Vec<ValueAndDescriptor<'s, 'a>>,
    options: &SerializeOptions,
) -> (r: Result<Vec<JsonMember>, SerializeError>)
    requires
        item_views(items@) == walk_of(message@.fields, message@.desc),
    ensures
        match r {
            Ok(out) => json_of_walk(message@, items@.len() as nat, *options) == Ok::<
                Seq<(Seq<char>, JsonView)>,
                SerializeError,
            >(member_views(out@)),
            Err(e) => json_of_walk(message@, items@.len() as nat, *options) == Err::<
                Seq<(Seq<char>, JsonView)>,
                SerializeError,
            >(e),
        },
    decreases options.any_nesting_limit(), message@, 3nat,
{
    let mut out: Vec<JsonMember> = Vec::new();
    let ghost walk = walk_of(message@.fields, message@.desc);
    let mut i: usize = 0;
    assert(member_views(out@) =~= Seq::empty());
    while i < items.len()
        invariant
            i <= items@.len(),
            walk == walk_of(message@.fields, message@.desc),
            item_views(items@) == walk,
            json_of_walk(message@, i as nat, *options) == Ok::<
                Seq<(Seq<char>, JsonView)>,
                SerializeError,
            >(member_views(out@)),
        decreases items@.len() - i,
    {
        assert(walk[i as int] == items@[i as int]@);
        match serialize_item(message, &items[i], options) {
            Err(e) => {
                proof {
                    assert(json_of_walk(message@, (i + 1) as nat, *options) == Err::<
                        Seq<(Seq<char>, JsonView)>,
                        SerializeError,
                    >(e));
                    lemma_walk_error(message@, (i + 1) as nat, items@.len() as nat, *options);
                }
                return Err(e);
            },
            Ok(Some(member)) => {
                let ghost before = out@;
                let ghost added = (member.name@, member.value@);
                out.push(member);
                assert(member_views(out@) =~= member_views(before).push(added));
            },
            Ok(None) => {},
        }
        i += 1;
    }
    Ok(out)
}

/// Writes the member that stands under a number which the message's type
/// declares.
fn serialize_declared<'a>(message: &DynamicMessage<'a>, number: u32, options: &SerializeOptions) -> (r:
    Result<Option<JsonMember>, SerializeError>)
    ensures
        match r {
            Ok(Some(member)) => json_of_declared(message@, number, *options) == Ok::<
                Option<(Seq<char>, JsonView)>,
                SerializeError,
            >(Some((member.name@, member.value@))),
            Ok(None) => json_of_declared(message@, number, *options) == Ok::<
                Option<(Seq<char>, JsonView)>,
                SerializeError,
            >(None),
            Err(e) => json_of_declared(message@, number, *options) == Err::<
                Option<(Seq<char>, JsonView)>,
                SerializeError,
            >(e),
        },
    decreases options.any_nesting_limit(), message@, 2nat,
{
    broadcast use {
        FieldDescriptorRef::lemma_at,
        FieldDescriptorRef::lemma_at_parts,
        ExtensionDescriptorRef::lemma_at,
        ExtensionDescriptorRef::lemma_at_parts,
    };

    assert(message@.desc == message.desc);
    if let Some(field) = message.desc.get_field(number) {
        match serialize_member(message, field, name_of(&field, options), options) {
            Ok(member) => Ok(Some(member)),
            Err(e) => Err(e),
        }
    } else if let Some(extension) = message.desc.get_extension(number) {
        match serialize_member(message, extension, extension.json_name(), options) {
            Ok(member) => Ok(Some(member)),
            Err(e) => Err(e),
        }
    } else {
        Ok(None)
    }
}

/// Writes a member for every field and extension that the message's type
/// declares, in ascending order of their numbers.
fn serialize_numbers<'a>(message: &DynamicMessage<'a>, options: &SerializeOptions) -> (r: Result<
    Vec<JsonMember>,
    SerializeError,
>)
    ensures
        match r {
            Ok(out) => json_of_numbers(message@, 0x1_0000_0000, *options) == Ok::<
                Seq<(Seq<char>, JsonView)>,
                SerializeError,
            >(member_views(out@)),
            Err(e) => json_of_numbers(message@, 0x1_0000_0000, *options) == Err::<
                Seq<(Seq<char>, JsonView)>,
                SerializeError,
            >(e),
        },
    decreases options.any_nesting_limit(), message@, 3nat,
{
    let mut out: Vec<JsonMember> = Vec::new();
    let mut from: u64 = 0;
    assert(member_views(out@) =~= Seq::empty());
    assert(message@.desc == message.desc);
    while from < 0x1_0000_0000
        invariant
            from <= 0x1_0000_0000,
            message@.desc == message.desc,
            json_of_numbers(message@, from as nat, *options) == Ok::<
                Seq<(Seq<char>, JsonView)>,
                SerializeError,
            >(member_views(out@)),
        decreases 0x1_0000_0000 - from,
    {
        match message.desc.next_declared(from as u32) {
            None => {
                proof {
                    lemma_numbers_gap(message@, from as nat, 0x1_0000_0000, *options);
                }
                from = 0x1_0000_0000;
            },
            Some(number) => {
                proof {
                    lemma_numbers_gap(message@, from as nat, number as nat, *options);
                }
                match serialize_declared(message, number, options) {
                    Err(e) => {
                        proof {
                            assert(json_of_numbers(message@, (number + 1) as nat, *options) == Err::<
                                Seq<(Seq<char>, JsonView)>,
                                SerializeError,
                            >(e));
                            lemma_numbers_error(
                                message@,
                                (number + 1) as nat,
                                0x1_0000_0000,
                                *options,
                            );
                        }
                        return Err(e);
                    },
                    Ok(Some(member)) => {
                        let ghost before = out@;
                        let ghost added = (member.name@, member.value@);
                        out.push(member);
                        assert(member_views(out@) =~= member_views(before).push(added));
                    },
                    Ok(None) => {},
                }
                from = number as u64 + 1;
            },
        }
    }
    Ok(out)
}

/// Writes a message as the object of its members.
fn serialize_fields<'a>(message: &DynamicMessage<'a>, options: &SerializeOptions) -> (r: Result<
    JsonValue,
    SerializeError,
>)
    ensures
        !well_known_type(message@.desc.full_name_spec()) ==> wrote(
            r,
            json_of_message(message@, *options),
        ),
    decreases options.any_nesting_limit(), message@, 4nat,
{
    assert(message@.desc == message.desc && message@.fields == message.fields@);
    let items = match message.fields.try_iter(message.desc) {
        Some(items) => items,
        None => {
            return Err(SerializeError::InvalidValue);
        },
    };
    let members = if options.is_skip_default_fields() {
        serialize_walk(message, &items, options)
    } else {
        serialize_numbers(message, options)
    };
    match members {
        Ok(out) => Ok(JsonValue::object(out)),
        Err(e) => Err(e),
    }
}

} // verus!
