//! Instants as the viewer stores and shows them, read and written with chrono.

use vstd::prelude::*;

use chrono::TimeZone;

verus! {

/// What `chrono::DateTime::parse_from_rfc3339` and `timestamp_micros` give
/// for a text: its instant in microseconds, or nothing when it is no RFC 3339
/// timestamp.
pub uninterp spec fn rfc3339_micros(text: Seq<char>) -> Option<i64>;

/// Calls `chrono::DateTime::parse_from_rfc3339` and reads the instant with
/// `timestamp_micros`; claims the result is the named value of the text.
#[verifier::external_body]
pub(crate) fn parse_rfc3339_micros(value: &str) -> (r: Option<i64>)
    ensures
        r == rfc3339_micros(value@),
{
    chrono::DateTime::parse_from_rfc3339(value).ok().map(|time| time.timestamp_micros())
}

/// The instant of a stored timestamp in microseconds; 0 when it does not parse.
pub open spec fn micros_spec(text: Seq<char>) -> i64 {
    match rfc3339_micros(text) {
        Some(m) => m,
        None => 0,
    }
}

/// The instant of a stored timestamp in microseconds; 0 when it does not parse.
pub fn micros(value: &str) -> (r: i64)
    ensures
        r == micros_spec(value@),
{
    match parse_rfc3339_micros(value) {
        Some(m) => m,
        None => 0,
    }
}

/// How many sub-second digits an RFC 3339 text shows, as
/// `chrono::SecondsFormat` chooses them.
#[derive(Clone, Copy, Debug, PartialEq, Eq, Structural)]
pub enum SubsecondDigits {
    Secs,
    Millis,
    Micros,
    Nanos,
    Auto,
}

/// What `chrono::Utc.timestamp_micros(..).single()` followed by
/// `to_rfc3339_opts(digits, use_z)` gives for an instant: its RFC 3339 text
/// with those sub-second digits and, when `use_z`, `Z` for the offset; or
/// nothing when the instant is out of range.
pub uninterp spec fn rfc3339_text(micros: i64, digits: SubsecondDigits, use_z: bool) -> Option<Seq<char>>;

/// Calls `chrono::Utc.timestamp_micros` and formats the instant with
/// `to_rfc3339_opts`; claims the result is the named text of the instant.
#[verifier::external_body]
fn format_rfc3339_opts(value: i64, digits: SubsecondDigits, use_z: bool) -> (r: Option<String>)
    ensures
        r is None <==> rfc3339_text(value, digits, use_z) is None,
        r matches Some(s) ==> rfc3339_text(value, digits, use_z) == Some(s@),
{
    let format = match digits {
        SubsecondDigits::Secs => chrono::SecondsFormat::Secs,
        SubsecondDigits::Millis => chrono::SecondsFormat::Millis,
        SubsecondDigits::Micros => chrono::SecondsFormat::Micros,
        SubsecondDigits::Nanos => chrono::SecondsFormat::Nanos,
        SubsecondDigits::Auto => chrono::SecondsFormat::AutoSi,
    };
    chrono::Utc.timestamp_micros(value).single().map(|time| time.to_rfc3339_opts(format, use_z))
}

/// The text written for an instant; the epoch when it is out of range.
pub open spec fn format_time_spec(value: i64) -> Seq<char> {
    match rfc3339_text(value, SubsecondDigits::Micros, true) {
        Some(t) => t,
        None => "1970-01-01T00:00:00Z"@,
    }
}

/// The RFC 3339 text of an instant in microseconds, with microsecond
/// precision and `Z`; the epoch when the instant is out of range.
pub fn format_time(value: i64) -> (r: String)
    ensures
        r@ == format_time_spec(value),
{
    match format_rfc3339_opts(value, SubsecondDigits::Micros, true) {
        Some(s) => s,
        None => "1970-01-01T00:00:00Z".to_string(),
    }
}

/// What `chrono::DateTime::<Utc>::from_timestamp_micros` followed by
/// `to_rfc3339()` gives for an instant: its RFC 3339 text with automatic
/// sub-second digits and a `+00:00` offset, or nothing when out of range.
pub uninterp spec fn rfc3339_auto_text(micros: i64) -> Option<Seq<char>>;

/// Calls `chrono::DateTime::<Utc>::from_timestamp_micros` and formats the
/// instant with `to_rfc3339`; claims the result is the named text.
#[verifier::external_body]
pub(crate) fn format_rfc3339_auto(value: i64) -> (r: Option<String>)
    ensures
        r is None <==> rfc3339_auto_text(value) is None,
        r matches Some(s) ==> rfc3339_auto_text(value) == Some(s@),
{
    chrono::DateTime::<chrono::Utc>::from_timestamp_micros(value).map(|time| time.to_rfc3339())
}

/// What `chrono::NaiveDateTime::parse_from_str(text, format)` followed by
/// `and_utc().timestamp_micros()` gives: the instant, read as UTC, or nothing
/// when the text does not match the format.
pub uninterp spec fn naive_datetime_micros(text: Seq<char>, format: Seq<char>) -> Option<i64>;

/// Calls `chrono::NaiveDateTime::parse_from_str` and reads the result as UTC
/// microseconds; claims the result is the named value.
#[verifier::external_body]
pub(crate) fn parse_naive_micros(text: &str, format: &str) -> (r: Option<i64>)
    ensures
        r == naive_datetime_micros(text@, format@),
{
    chrono::NaiveDateTime::parse_from_str(text, format).ok().map(|value| value.and_utc().timestamp_micros())
}

} // verus!
