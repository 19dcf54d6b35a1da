//! Text encodings that the mapping takes from other crates.

use vstd::prelude::*;

verus! {

/// The standard base64 text of a byte string, with padding.
pub uninterp spec fn base64_text(bytes: Seq<u8>) -> Seq<char>;

/// The byte string that a text stands for in standard base64, if it stands
/// for one.
pub uninterp spec fn base64_bytes(text: Seq<char>) -> Option<Seq<u8>>;

/// `base64::encode`: the text of `bytes` in the standard alphabet, padded.
/// The call does not fail: the length of the text is computed in `usize`,
/// which holds it for every vector that can be allocated.
#[verifier::external_body]
pub(crate) fn base64_encode(bytes: &Vec<u8>) -> (r: String)
    ensures
        r@ == base64_text(bytes@),
{
    base64::encode(bytes)
}

/// `base64::decode`: the bytes that `text` stands for in the standard
/// alphabet, or `None` for a text that is not base64.
#[verifier::external_body]
pub(crate) fn base64_decode(text: &str) -> (r: Option<Vec<u8>>)
    ensures
        match r {
            Some(bytes) => base64_bytes(text@) == Some(bytes@),
            None => base64_bytes(text@) is None,
        },
{
    base64::decode(text).ok()
}

/// The RFC 3339 text of the point in time that lies `seconds` seconds and
/// `nanos` nanoseconds after the Unix epoch, in UTC.
pub uninterp spec fn timestamp_text(seconds: i64, nanos: i32) -> Seq<char>;

/// The point in time that an RFC 3339 text stands for, as seconds and
/// nanoseconds after the Unix epoch, if it stands for one.
pub uninterp spec fn timestamp_of_text(text: Seq<char>) -> Option<(i64, i32)>;

/// `Display` of `prost_types::Timestamp`: the date and time in UTC, with the
/// suffix `Z`, for a point in time whose seconds lie in the years 0001 to
/// 9999. It carries nanoseconds outside one second into the seconds before
/// it prints.
#[verifier::external_body]
pub(crate) fn timestamp_to_string(seconds: i64, nanos: i32) -> (r: String)
    requires
        -62135596800 <= seconds <= 253402300799,
    ensures
        r@ == timestamp_text(seconds, nanos),
{
    prost_types::Timestamp { seconds, nanos }.to_string()
}

/// `FromStr` of `prost_types::Timestamp`, for a text that has the shape of a
/// strict RFC 3339 date and time: the point in time that the text stands
/// for, or `None` where it stands for none.
#[verifier::external_body]
pub(crate) fn timestamp_from_str(text: &str) -> (r: Option<(i64, i32)>)
    requires
        crate::json::time::strict_rfc3339(text@),
    ensures
        r == timestamp_of_text(text@),
{
    match text.parse::<prost_types::Timestamp>() {
        Ok(timestamp) => Some((timestamp.seconds, timestamp.nanos)),
        Err(_) => None,
    }
}

} // verus!
