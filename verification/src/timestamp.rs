//! Reading the timestamp column of a sample row.

use vstd::prelude::*;

verus! {

/// A point in time: whole seconds since 1970-01-01 00:00:00 UTC, leap seconds not
/// counted, and the nanoseconds past that second. During a leap second `nanos` is
/// 1,000,000,000 or more.
#[derive(Clone, Copy, Debug, PartialEq, Eq, Structural)]
pub struct Timestamp {
    pub seconds: i64,
    pub nanos: u32,
}

/// The layout of the timestamp column: `YYYY-MM-DD HH:MM:SS`.
pub open spec fn timestamp_format() -> Seq<char> {
    "%Y-%m-%d %H:%M:%S"@
}

/// What `chrono` reads from `text` under the strftime-style `format`, taken as a
/// time in UTC: seconds since the epoch and nanoseconds past the second, or `None`
/// where the text does not fit the format or names no valid date and time.
pub uninterp spec fn parsed_datetime(text: Seq<char>, format: Seq<char>) -> Option<(i64, u32)>;

/// The timestamp that a parser result stands for.
pub open spec fn timestamp_of(parsed: Option<(i64, u32)>) -> Option<Timestamp> {
    match parsed {
        Some((seconds, nanos)) => Some(Timestamp { seconds, nanos }),
        None => None,
    }
}

/// Calls `chrono::NaiveDateTime::parse_from_str` and reads the result as UTC with
/// `and_utc`, `timestamp` and `timestamp_subsec_nanos`. The parser reads nothing but
/// its two arguments, so its result is named `parsed_datetime`; a parse error becomes
/// `None`.
#[verifier::external_body]
fn parse_datetime(text: &str, format: &str) -> (parsed: Option<(i64, u32)>)
    ensures
        parsed == parsed_datetime(text@, format@),
{
    match chrono::NaiveDateTime::parse_from_str(text, format) {
        Ok(time) => Some((time.and_utc().timestamp(), time.and_utc().timestamp_subsec_nanos())),
        Err(_) => None,
    }
}

/// Reads a timestamp of the form `YYYY-MM-DD HH:MM:SS`, taken as UTC.
pub fn parse_timestamp(text: &str) -> (stamp: Option<Timestamp>)
    ensures
        stamp == timestamp_of(parsed_datetime(text@, timestamp_format())),
{
    match parse_datetime(text, "%Y-%m-%d %H:%M:%S") {
        Some((seconds, nanos)) => Some(Timestamp { seconds, nanos }),
        None => None,
    }
}

} // verus!
