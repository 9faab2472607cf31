//! Reading the dates of an import.
use vstd::prelude::*;
use crate::errors::MyCustomError;
use crate::models::Timestamp;

verus! {

/// The format of a date with fractional seconds.
pub const DATE_FORMAT_FRACTION: &'static str = "%Y-%m-%d %H:%M:%S.%f %z %Z";

/// The format of a date with whole seconds.
pub const DATE_FORMAT_PLAIN: &'static str = "%Y-%m-%d %H:%M:%S %z %Z";

/// What `chrono::DateTime::parse_from_str` gives for a text and a format,
/// in UTC: the seconds since the Unix epoch and the nanoseconds past that
/// second; `None` where it fails.
pub uninterp spec fn parsed_date(text: Seq<char>, format: Seq<char>) -> Option<(i64, u32)>;

/// Calls `DateTime::parse_from_str`, converts the result to UTC and takes its
/// seconds since the epoch and the nanoseconds past them. The result is named
/// by `parsed_date`, a function of the text and the format alone.
#[verifier::external_body]
fn parse_date_with(text: &str, format: &str) -> (r: Option<(i64, u32)>)
    ensures
        r == parsed_date(text@, format@),
{
    match chrono::DateTime::parse_from_str(text, format) {
        Ok(d) => {
            let utc = chrono::DateTime::<chrono::Utc>::from(d);
            Some((utc.timestamp(), utc.timestamp_subsec_nanos()))
        },
        Err(_) => None,
    }
}

/// The moment that seconds and nanoseconds give.
pub open spec fn stamp_of(p: (i64, u32)) -> Timestamp {
    Timestamp { secs: p.0, nanos: p.1 }
}

/// The date a text gives: read with fractional seconds, else with whole
/// seconds.
pub open spec fn date_value(text: Seq<char>) -> Option<Timestamp> {
    match parsed_date(text, DATE_FORMAT_FRACTION@) {
        Some(d) => Some(stamp_of(d)),
        None => match parsed_date(text, DATE_FORMAT_PLAIN@) {
            Some(d) => Some(stamp_of(d)),
            None => None,
        },
    }
}

/// Reads a date of an import; `ParseError` where neither format fits.
pub fn get_date(date_str: &str) -> (r: Result<Option<Timestamp>, MyCustomError>)
    ensures
        match date_value(date_str@) {
            Some(d) => r == Ok::<Option<Timestamp>, MyCustomError>(Some(d)),
            None => r matches Err(e) && e is ParseError,
        },
{
    match parse_date_with(date_str, DATE_FORMAT_FRACTION) {
        Some((secs, nanos)) => Ok(Some(Timestamp { secs, nanos })),
        None => match parse_date_with(date_str, DATE_FORMAT_PLAIN) {
            Some((secs, nanos)) => Ok(Some(Timestamp { secs, nanos })),
            None => Err(MyCustomError::ParseError),
        },
    }
}

} // verus!
