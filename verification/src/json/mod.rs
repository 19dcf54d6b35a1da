//! The canonical JSON mapping of messages: the options that steer it, the
//! names of the message types that have a mapping of their own, and the
//! ranges that durations and timestamps must keep.

pub mod any;
pub mod any_laws;
pub mod codec;
pub mod de;
pub mod known_laws;
pub mod laws;
pub mod mask;
pub mod mask_laws;
pub mod native_laws;
pub mod round_trip;
pub mod ser;
pub mod text;
pub mod time;
pub mod time_laws;
pub mod value;
pub mod walk_laws;

use vstd::prelude::*;
use crate::text::str_eq;

verus! {

/// Options to control serialization of messages.
#[derive(Debug, Clone)]
pub struct SerializeOptions {
    stringify_64_bit_integers: bool,
    use_enum_numbers: bool,
    use_proto_field_name: bool,
    skip_default_fields: bool,
    any_nesting: u32,
}

/// The number of `Any` that may stand one inside the other where nothing
/// else is asked for.
pub const DEFAULT_ANY_NESTING: u32 = 32;

/// Options to control deserialization of messages.
#[derive(Debug, Clone)]
pub struct DeserializeOptions {
    deny_unknown_fields: bool,
}

impl DeserializeOptions {
    /// Whether unknown message fields are an error.
    pub closed spec fn denies_unknown_fields(&self) -> bool {
        self.deny_unknown_fields
    }

    /// Options that agree in every switch are the same options.
    pub proof fn lemma_same_options(a: Self, b: Self)
        requires
            a.denies_unknown_fields() == b.denies_unknown_fields(),
        ensures
            a == b,
    {
    }

    /// Creates a new instance of [`DeserializeOptions`], with the default
    /// options chosen to conform to the standard JSON mapping.
    pub fn new() -> (r: Self)
        ensures
            r.denies_unknown_fields(),
    {
        DeserializeOptions { deny_unknown_fields: true }
    }

    /// Whether to error during deserialization when encountering unknown
    /// message fields.
    ///
    /// The default value is `true`.
    pub fn deny_unknown_fields(self, yes: bool) -> (r: Self)
        ensures
            r.denies_unknown_fields() == yes,
    {
        let mut options = self;
        options.deny_unknown_fields = yes;
        options
    }

    /// Whether unknown message fields are an error.
    pub fn is_deny_unknown_fields(&self) -> (r: bool)
        ensures
            r == self.denies_unknown_fields(),
    {
        self.deny_unknown_fields
    }
}

impl Default for DeserializeOptions {
    fn default() -> (r: Self)
        ensures
            r.denies_unknown_fields(),
    {
        Self::new()
    }
}

impl SerializeOptions {
    /// Whether 64-bit integers are written as strings.
    pub closed spec fn stringifies_64_bit_integers(&self) -> bool {
        self.stringify_64_bit_integers
    }

    /// Whether enum values are written as numbers.
    pub closed spec fn uses_enum_numbers(&self) -> bool {
        self.use_enum_numbers
    }

    /// Whether fields are named as declared rather than in lowerCamelCase.
    pub closed spec fn uses_proto_field_name(&self) -> bool {
        self.use_proto_field_name
    }

    /// Whether fields that are not set are left out.
    pub closed spec fn skips_default_fields(&self) -> bool {
        self.skip_default_fields
    }

    /// How many `Any` may stand one inside the other: the payload of an
    /// `Any` is written with one less.
    pub closed spec fn any_nesting_limit(&self) -> nat {
        self.any_nesting as nat
    }

    /// The options that the payload of an `Any` is written with: the same
    /// switches, and one `Any` less to stand inside.
    pub closed spec fn nested(&self) -> Self {
        SerializeOptions {
            stringify_64_bit_integers: self.stringify_64_bit_integers,
            use_enum_numbers: self.use_enum_numbers,
            use_proto_field_name: self.use_proto_field_name,
            skip_default_fields: self.skip_default_fields,
            any_nesting: if self.any_nesting > 0 {
                (self.any_nesting - 1) as u32
            } else {
                0
            },
        }
    }

    /// The options for a payload keep the switches and allow one `Any` less.
    pub proof fn lemma_nested(self)
        ensures
            self.nested().stringifies_64_bit_integers() == self.stringifies_64_bit_integers(),
            self.nested().uses_enum_numbers() == self.uses_enum_numbers(),
            self.nested().uses_proto_field_name() == self.uses_proto_field_name(),
            self.nested().skips_default_fields() == self.skips_default_fields(),
            self.any_nesting_limit() > 0 ==> self.nested().any_nesting_limit()
                == self.any_nesting_limit() - 1,
    {
    }

    /// Options that agree in every switch and in the limit are the same
    /// options.
    pub proof fn lemma_same_options(a: Self, b: Self)
        requires
            a.stringifies_64_bit_integers() == b.stringifies_64_bit_integers(),
            a.uses_enum_numbers() == b.uses_enum_numbers(),
            a.uses_proto_field_name() == b.uses_proto_field_name(),
            a.skips_default_fields() == b.skips_default_fields(),
            a.any_nesting_limit() == b.any_nesting_limit(),
        ensures
            a == b,
    {
    }

    /// Creates a new instance of [`SerializeOptions`], with the default
    /// options chosen to conform to the standard JSON mapping.
    pub fn new() -> (r: Self)
        ensures
            r.stringifies_64_bit_integers(),
            !r.uses_enum_numbers(),
            !r.uses_proto_field_name(),
            r.skips_default_fields(),
            r.any_nesting_limit() == DEFAULT_ANY_NESTING,
    {
        SerializeOptions {
            stringify_64_bit_integers: true,
            use_enum_numbers: false,
            use_proto_field_name: false,
            skip_default_fields: true,
            any_nesting: DEFAULT_ANY_NESTING,
        }
    }

    /// Whether to encode 64-bit integral types as strings.
    ///
    /// The mapping asks for strings, so that no precision is lost where a
    /// number is read as a double. If this option is disabled, all numbers
    /// are written as numbers.
    ///
    /// The default value is `true`.
    pub fn stringify_64_bit_integers(self, yes: bool) -> (r: Self)
        ensures
            r.stringifies_64_bit_integers() == yes,
            r.uses_enum_numbers() == self.uses_enum_numbers(),
            r.uses_proto_field_name() == self.uses_proto_field_name(),
            r.skips_default_fields() == self.skips_default_fields(),
            r.any_nesting_limit() == self.any_nesting_limit(),
    {
        let mut options = self;
        options.stringify_64_bit_integers = yes;
        options
    }

    /// Whether to encode enum values as their numeric value.
    ///
    /// If `true`, enum values are written as their numbers. Otherwise, they
    /// are written as the name that the enum declares for them.
    ///
    /// The default value is `false`.
    pub fn use_enum_numbers(self, yes: bool) -> (r: Self)
        ensures
            r.stringifies_64_bit_integers() == self.stringifies_64_bit_integers(),
            r.uses_enum_numbers() == yes,
            r.uses_proto_field_name() == self.uses_proto_field_name(),
            r.skips_default_fields() == self.skips_default_fields(),
            r.any_nesting_limit() == self.any_nesting_limit(),
    {
        let mut options = self;
        options.use_enum_numbers = yes;
        options
    }

    /// Whether to use the declared field name instead of the lowerCamelCase
    /// name in JSON field names.
    ///
    /// The default value is `false`.
    pub fn use_proto_field_name(self, yes: bool) -> (r: Self)
        ensures
            r.stringifies_64_bit_integers() == self.stringifies_64_bit_integers(),
            r.uses_enum_numbers() == self.uses_enum_numbers(),
            r.uses_proto_field_name() == yes,
            r.skips_default_fields() == self.skips_default_fields(),
            r.any_nesting_limit() == self.any_nesting_limit(),
    {
        let mut options = self;
        options.use_proto_field_name = yes;
        options
    }

    /// Whether to skip fields which have their default value.
    ///
    /// If `true`, fields that are not set are not written. If `false`, they
    /// are written with their default value.
    ///
    /// The default value is `true`.
    pub fn skip_default_fields(self, yes: bool) -> (r: Self)
        ensures
            r.stringifies_64_bit_integers() == self.stringifies_64_bit_integers(),
            r.uses_enum_numbers() == self.uses_enum_numbers(),
            r.uses_proto_field_name() == self.uses_proto_field_name(),
            r.skips_default_fields() == yes,
            r.any_nesting_limit() == self.any_nesting_limit(),
    {
        let mut options = self;
        options.skip_default_fields = yes;
        options
    }

    /// How many `Any` may stand one inside the other. A message that nests
    /// them deeper is not written.
    ///
    /// The default value is [`DEFAULT_ANY_NESTING`].
    pub fn any_nesting(self, limit: u32) -> (r: Self)
        ensures
            r.stringifies_64_bit_integers() == self.stringifies_64_bit_integers(),
            r.uses_enum_numbers() == self.uses_enum_numbers(),
            r.uses_proto_field_name() == self.uses_proto_field_name(),
            r.skips_default_fields() == self.skips_default_fields(),
            r.any_nesting_limit() == limit,
    {
        let mut options = self;
        options.any_nesting = limit;
        options
    }

    /// How many `Any` may stand one inside the other.
    pub fn get_any_nesting(&self) -> (r: u32)
        ensures
            r == self.any_nesting_limit(),
    {
        self.any_nesting
    }

    /// The options that the payload of an `Any` is written with.
    pub fn for_payload(&self) -> (r: Self)
        ensures
            r == self.nested(),
            self.any_nesting_limit() > 0 ==> r.any_nesting_limit() < self.any_nesting_limit(),
    {
        SerializeOptions {
            stringify_64_bit_integers: self.stringify_64_bit_integers,
            use_enum_numbers: self.use_enum_numbers,
            use_proto_field_name: self.use_proto_field_name,
            skip_default_fields: self.skip_default_fields,
            any_nesting: if self.any_nesting > 0 {
                self.any_nesting - 1
            } else {
                0
            },
        }
    }

    /// Whether 64-bit integers are written as strings.
    pub fn is_stringify_64_bit_integers(&self) -> (r: bool)
        ensures
            r == self.stringifies_64_bit_integers(),
    {
        self.stringify_64_bit_integers
    }

    /// Whether enum values are written as numbers.
    pub fn is_use_enum_numbers(&self) -> (r: bool)
        ensures
            r == self.uses_enum_numbers(),
    {
        self.use_enum_numbers
    }

    /// Whether fields are named as declared.
    pub fn is_use_proto_field_name(&self) -> (r: bool)
        ensures
            r == self.uses_proto_field_name(),
    {
        self.use_proto_field_name
    }

    /// Whether fields that are not set are left out.
    pub fn is_skip_default_fields(&self) -> (r: bool)
        ensures
            r == self.skips_default_fields(),
    {
        self.skip_default_fields
    }
}

impl Default for SerializeOptions {
    fn default() -> (r: Self)
        ensures
            r.stringifies_64_bit_integers(),
            !r.uses_enum_numbers(),
            !r.uses_proto_field_name(),
            r.skips_default_fields(),
            r.any_nesting_limit() == DEFAULT_ANY_NESTING,
    {
        Self::new()
    }
}

/// The largest number of seconds, of either sign, that a duration may hold:
/// about 10,000 years.
pub const MAX_DURATION_SECONDS: i64 = 315_576_000_000;

/// The largest number of nanoseconds, of either sign, that a duration may
/// hold.
pub const MAX_DURATION_NANOS: i32 = 999_999_999;

/// The first second of the year 0001, counted from the Unix epoch.
pub const MIN_TIMESTAMP_SECONDS: i64 = -62135596800;

/// The last second of the year 9999, counted from the Unix epoch.
pub const MAX_TIMESTAMP_SECONDS: i64 = 253402300799;

/// A span of time: whole seconds and a fraction in nanoseconds.
#[derive(Clone, Copy, Debug, PartialEq, Eq, Structural)]
pub struct Duration {
    pub seconds: i64,
    pub nanos: i32,
}

/// A point in time: whole seconds since the Unix epoch and a fraction in
/// nanoseconds.
#[derive(Clone, Copy, Debug, PartialEq, Eq, Structural)]
pub struct Timestamp {
    pub seconds: i64,
    pub nanos: i32,
}

/// The name is that of a message type with a JSON mapping of its own.
pub open spec fn well_known_type(full_name: Seq<char>) -> bool {
    ||| full_name == "google.protobuf.Any"@
    ||| full_name == "google.protobuf.Timestamp"@
    ||| full_name == "google.protobuf.Duration"@
    ||| full_name == "google.protobuf.Struct"@
    ||| full_name == "google.protobuf.FloatValue"@
    ||| full_name == "google.protobuf.DoubleValue"@
    ||| full_name == "google.protobuf.Int32Value"@
    ||| full_name == "google.protobuf.Int64Value"@
    ||| full_name == "google.protobuf.UInt32Value"@
    ||| full_name == "google.protobuf.UInt64Value"@
    ||| full_name == "google.protobuf.BoolValue"@
    ||| full_name == "google.protobuf.StringValue"@
    ||| full_name == "google.protobuf.BytesValue"@
    ||| full_name == "google.protobuf.FieldMask"@
    ||| full_name == "google.protobuf.ListValue"@
    ||| full_name == "google.protobuf.Value"@
    ||| full_name == "google.protobuf.Empty"@
}

/// Whether the name is that of a message type with a JSON mapping of its own.
pub fn is_well_known_type(full_name: &str) -> (r: bool)
    ensures
        r == well_known_type(full_name@),
{
    str_eq(full_name, "google.protobuf.Any") || str_eq(full_name, "google.protobuf.Timestamp")
        || str_eq(full_name, "google.protobuf.Duration") || str_eq(
        full_name,
        "google.protobuf.Struct",
    ) || str_eq(full_name, "google.protobuf.FloatValue") || str_eq(
        full_name,
        "google.protobuf.DoubleValue",
    ) || str_eq(full_name, "google.protobuf.Int32Value") || str_eq(
        full_name,
        "google.protobuf.Int64Value",
    ) || str_eq(full_name, "google.protobuf.UInt32Value") || str_eq(
        full_name,
        "google.protobuf.UInt64Value",
    ) || str_eq(full_name, "google.protobuf.BoolValue") || str_eq(
        full_name,
        "google.protobuf.StringValue",
    ) || str_eq(full_name, "google.protobuf.BytesValue") || str_eq(
        full_name,
        "google.protobuf.FieldMask",
    ) || str_eq(full_name, "google.protobuf.ListValue") || str_eq(full_name, "google.protobuf.Value")
        || str_eq(full_name, "google.protobuf.Empty")
}

/// The duration keeps the range of the JSON mapping: at most
/// 315,576,000,000 seconds and at most 999,999,999 nanoseconds, of either
/// sign.
pub open spec fn duration_in_range(duration: Duration) -> bool {
    &&& -MAX_DURATION_SECONDS <= duration.seconds <= MAX_DURATION_SECONDS
    &&& -MAX_DURATION_NANOS <= duration.nanos <= MAX_DURATION_NANOS
}

/// The timestamp lies in the years 0001 to 9999.
pub open spec fn timestamp_in_range(timestamp: Timestamp) -> bool {
    MIN_TIMESTAMP_SECONDS <= timestamp.seconds <= MAX_TIMESTAMP_SECONDS
}

/// Accepts a duration that keeps the range of the JSON mapping.
pub fn check_duration(duration: &Duration) -> (r: Result<(), &'static str>)
    ensures
        r is Ok <==> duration_in_range(*duration),
        r matches Err(reason) ==> reason@ == "duration out of range"@,
{
    if duration.seconds > MAX_DURATION_SECONDS || duration.seconds < -MAX_DURATION_SECONDS
        || duration.nanos > MAX_DURATION_NANOS || duration.nanos < -MAX_DURATION_NANOS {
        Err("duration out of range")
    } else {
        Ok(())
    }
}

/// Accepts a timestamp that lies in the years 0001 to 9999.
pub fn check_timestamp(timestamp: &Timestamp) -> (r: Result<(), &'static str>)
    ensures
        r is Ok <==> timestamp_in_range(*timestamp),
        r matches Err(reason) ==> reason@ == "timestamp out of range"@,
{
    if timestamp.seconds < MIN_TIMESTAMP_SECONDS || MAX_TIMESTAMP_SECONDS < timestamp.seconds {
        Err("timestamp out of range")
    } else {
        Ok(())
    }
}

} // verus!
