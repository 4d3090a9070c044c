//! Writing points in time.

use chrono::{DateTime, NaiveDateTime, Utc};
use vstd::prelude::*;

verus! {

/// A date and a time of day.
#[verifier::external_type_specification]
#[verifier::external_body]
pub struct ExNaiveDateTime(NaiveDateTime);

/// The date and the time of day, in UTC, so many seconds after the epoch; none where
/// the date is out of range.
pub uninterp spec fn utc_date_time(seconds: i64) -> Option<NaiveDateTime>;

/// A date and a time of day, written after a pattern.
pub uninterp spec fn written_time(time: NaiveDateTime, pattern: Seq<char>) -> Seq<char>;

/// How points in time are written.
pub open spec fn time_pattern() -> Seq<char> {
    "%Y-%m-%d %H:%M:%S"@
}

/// `DateTime::from_timestamp` on whole seconds, as a date and a time of day.
#[verifier::external_body]
fn utc_time(seconds: i64) -> (time: Option<NaiveDateTime>)
    ensures
        time == utc_date_time(seconds),
{
    DateTime::<Utc>::from_timestamp(seconds, 0).map(|time| time.naive_utc())
}

/// `NaiveDateTime::format` and what it writes. Some patterns make it panic; the one for
/// points in time does not.
#[verifier::external_body]
fn write_time(time: &NaiveDateTime, pattern: &str) -> (text: String)
    requires
        pattern@ == time_pattern(),
    ensures
        text@ == written_time(*time, pattern@),
{
    time.format(pattern).to_string()
}

/// The date and the time of day, so many seconds after the epoch, where that is
/// known and in range.
pub fn format_time(seconds: Option<i64>) -> (text: String)
    ensures
        text@ == match seconds {
            Some(known) => match utc_date_time(known) {
                Some(time) => written_time(time, time_pattern()),
                None => "Unavailable"@,
            },
            None => "Unavailable"@,
        },
{
    match seconds {
        Some(known) => match utc_time(known) {
            Some(time) => write_time(&time, "%Y-%m-%d %H:%M:%S"),
            None => "Unavailable".to_owned(),
        },
        None => "Unavailable".to_owned(),
    }
}

} // verus!
