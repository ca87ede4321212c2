//! Instants of time, read and written in one fixed format.

use std::fmt::Write;
use vstd::prelude::*;
use vstd::string::*;

verus! {

#[verifier::external_type_specification]
#[verifier::external_body]
pub struct ExParseError(chrono::format::ParseError);

/// The format in which timestamps are read and written: a date, the letter
/// `T`, and a time of day, as in `2024-05-01T12:00:00`.
pub const TIMESTAMP_FORMAT: &'static str = "%Y-%m-%dT%H:%M:%S";

/// An instant in UTC: the whole seconds since 1970-01-01T00:00:00, leap
/// seconds not counted, and the nanoseconds since the last whole second. A
/// leap second is the second before it with a thousand million nanoseconds
/// or more.
#[derive(Clone, Copy, Debug, PartialEq, Eq, Structural)]
pub struct Timestamp {
    pub secs: i64,
    pub nanos: u32,
}

/// A text that is no timestamp.
#[derive(Debug)]
pub struct TimestampError {
    /// The text that was to be read.
    pub text: String,
    /// What the parser said of it.
    pub cause: chrono::format::ParseError,
}

/// The instant that `text` denotes when read as a date and time without a
/// zone under `format` and taken as UTC; `None` where it cannot be read so.
pub uninterp spec fn parsed_instant(text: Seq<char>, format: Seq<char>) -> Option<Timestamp>;

/// The text that `format` gives for the instant `t`; empty where no date
/// has this instant or the format cannot be written.
pub uninterp spec fn formatted_instant(t: Timestamp, format: Seq<char>) -> Seq<char>;

/// `chrono::NaiveDateTime::parse_from_str` reads a date and time without a
/// zone from a text under a format, and fails where the text does not fit
/// the format or names no existing date and time. The value is taken as UTC
/// and handed out as `DateTime::timestamp` and
/// `DateTime::timestamp_subsec_nanos` give it. The contract only names the
/// outcome as a function of text and format.
#[verifier::external_body]
fn instant_from_str(text: &str, format: &str) -> (r: Result<Timestamp, chrono::format::ParseError>)
    ensures
        r is Ok <==> parsed_instant(text@, format@) is Some,
        r matches Ok(t) ==> parsed_instant(text@, format@) == Some(t),
{
    let t = chrono::NaiveDateTime::parse_from_str(text, format)?.and_utc();
    Ok(Timestamp { secs: t.timestamp(), nanos: t.timestamp_subsec_nanos() })
}

/// `chrono::DateTime::format` writes an instant under a format. The instant
/// is first made by `DateTime::from_timestamp`, which gives none for seconds
/// out of range or nanoseconds that fit no second; the text then stays
/// empty, as it does where the format cannot be written. The contract only
/// names the text as a function of instant and format.
#[verifier::external_body]
fn instant_to_string(t: Timestamp, format: &str) -> (text: String)
    ensures
        text@ == formatted_instant(t, format@),
{
    let mut text = String::new();
    if let Some(instant) = chrono::DateTime::from_timestamp(t.secs, t.nanos) {
        let _ = write!(text, "{}", instant.format(format));
    }
    text
}

/// Reads a timestamp of the form `2024-05-01T12:00:00` as an instant in
/// UTC.
pub fn parse_timestamp(s: &str) -> (r: Result<Timestamp, TimestampError>)
    ensures
        r is Ok <==> parsed_instant(s@, TIMESTAMP_FORMAT@) is Some,
        r matches Ok(t) ==> parsed_instant(s@, TIMESTAMP_FORMAT@) == Some(t),
        r matches Err(e) ==> e.text@ == s@,
{
    match instant_from_str(s, TIMESTAMP_FORMAT) {
        Ok(t) => Ok(t),
        Err(cause) => Err(TimestampError { text: s.to_owned(), cause }),
    }
}

/// Writes an instant in the form `2024-05-01T12:00:00`.
pub fn format_timestamp(t: Timestamp) -> (text: String)
    ensures
        text@ == formatted_instant(t, TIMESTAMP_FORMAT@),
{
    instant_to_string(t, TIMESTAMP_FORMAT)
}

} // verus!
