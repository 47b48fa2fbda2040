//! Transcript timestamps, read with `chrono` and carried as milliseconds
//! since the Unix epoch.
use vstd::prelude::*;
use crate::json::Json;

verus! {

/// What `str::parse::<chrono::DateTime<chrono::Utc>>` reads from a text (an
/// RFC 3339 date and time with an offset), as milliseconds since the Unix
/// epoch; `None` when the text is not such a timestamp.
pub uninterp spec fn utc_millis(text: Seq<char>) -> Option<i64>;

/// Reads an RFC 3339 timestamp with `chrono`. Digits below the millisecond
/// are not carried.
#[verifier::external_body]
pub(crate) fn parse_utc_millis(text: &str) -> (r: Option<i64>)
    ensures
        r == utc_millis(text@),
{
    match text.parse::<chrono::DateTime<chrono::Utc>>() {
        Ok(t) => Some(t.timestamp_millis()),
        Err(_) => None,
    }
}

/// The `timestamp` of a transcript line, when it is a string that reads as a
/// timestamp.
pub open spec fn line_timestamp(v: Json) -> Option<i64> {
    match v.str_field("timestamp"@) {
        Some(t) => utc_millis(t),
        None => None,
    }
}

pub fn parse_codex_timestamp(value: &Json) -> (r: Option<i64>)
    ensures
        r == line_timestamp(*value),
{
    match value.get_str("timestamp") {
        Some(t) => parse_utc_millis(t),
        None => None,
    }
}

/// `(later - earlier).num_milliseconds()` for two texts that `str::parse::
/// <chrono::DateTime<chrono::Utc>>` reads: the time between them in whole
/// milliseconds, computed by `chrono` at full precision.
pub uninterp spec fn utc_millis_between(earlier: Seq<char>, later: Seq<char>) -> i64;

/// The milliseconds from one readable timestamp to another, as `chrono`
/// subtracts them (`DateTime - DateTime`, then `TimeDelta::num_milliseconds`).
#[verifier::external_body]
pub(crate) fn millis_between(earlier: &str, later: &str) -> (r: i64)
    requires
        utc_millis(earlier@) is Some,
        utc_millis(later@) is Some,
    ensures
        r == utc_millis_between(earlier@, later@),
{
    match (earlier.parse::<chrono::DateTime<chrono::Utc>>(), later.parse::<chrono::DateTime<chrono::Utc>>()) {
        (Ok(a), Ok(b)) => (b - a).num_milliseconds(),
        _ => 0,
    }
}

} // verus!
