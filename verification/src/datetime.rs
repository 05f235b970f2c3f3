//! Calendar dates and times of inspections, and how the importer reads
//! them from the published results.

use vstd::prelude::*;
use vstd::string::*;
use crate::text::{text_or_empty, text_or_empty_spec, trim, trimmed};

verus! {

/// A date and time of day without a time zone.
#[derive(Clone, Copy, Debug, PartialEq, Eq, Structural)]
pub struct DateTime {
    pub year: i32,
    pub month: u32,
    pub day: u32,
    pub hour: u32,
    pub minute: u32,
    pub second: u32,
    /// Nanoseconds past the second; from one billion on it stands for a leap
    /// second.
    pub nanosecond: u32,
}

/// Whether `year` is a leap year of the proleptic Gregorian calendar.
pub open spec fn is_leap_year(year: int) -> bool {
    (year % 4 == 0 && year % 100 != 0) || year % 400 == 0
}

/// The number of days of `month` in `year`.
pub open spec fn days_in_month(year: int, month: int) -> int {
    if month == 2 {
        if is_leap_year(year) {
            29
        } else {
            28
        }
    } else if month == 4 || month == 6 || month == 9 || month == 11 {
        30
    } else {
        31
    }
}

impl DateTime {
    /// Whether the fields name a day of the calendar and a time of that day.
    pub open spec fn is_valid(self) -> bool {
        &&& 1 <= self.month <= 12
        &&& 1 <= self.day <= days_in_month(self.year as int, self.month as int)
        &&& self.hour < 24
        &&& self.minute < 60
        &&& self.second < 60
        &&& self.nanosecond < 2_000_000_000
    }
}

/// What `chrono::NaiveDateTime::parse_from_str` returns for the text `s` and
/// the format `fmt`: the date and time it reads, or `None` where it fails.
pub uninterp spec fn naive_datetime_parse(s: Seq<char>, fmt: Seq<char>) -> Option<DateTime>;

/// Reads `s` by the strftime-style format `fmt` with
/// `chrono::NaiveDateTime::parse_from_str`. Trusted: the result is the one
/// that `naive_datetime_parse` names, and a date and time that chrono
/// returns is always a valid one (chrono's `NaiveDate` holds only existing
/// days, and its `NaiveTime` only times of the day).
#[verifier::external_body]
fn parse_from_str(s: &str, fmt: &str) -> (r: Option<DateTime>)
    ensures
        r == naive_datetime_parse(s@, fmt@),
        r matches Some(d) ==> d.is_valid(),
{
    match chrono::NaiveDateTime::parse_from_str(s, fmt) {
        Ok(t) => Some(DateTime {
            year: chrono::Datelike::year(&t),
            month: chrono::Datelike::month(&t),
            day: chrono::Datelike::day(&t),
            hour: chrono::Timelike::hour(&t),
            minute: chrono::Timelike::minute(&t),
            second: chrono::Timelike::second(&t),
            nanosecond: chrono::Timelike::nanosecond(&t),
        }),
        Err(_) => None,
    }
}

/// The format in which the published results write an inspection date,
/// once the importer has added the time of day.
pub open spec fn inspection_date_format() -> Seq<char> {
    "%m/%d/%Y %H:%M"@
}

/// The date that stands for an inspection whose date cannot be read:
/// 1999-09-05 23:56:04.
pub open spec fn fallback_inspection_date() -> DateTime {
    DateTime { year: 1999, month: 9, day: 5, hour: 23, minute: 56, second: 4, nanosecond: 0 }
}

/// The text that the importer reads an inspection date from: the published
/// date, trimmed, with the time of day ` 7:15` added.
pub open spec fn inspection_date_text_spec(date: Option<String>) -> Seq<char> {
    trimmed(text_or_empty_spec(date)) + " 7:15"@
}

/// The text that the importer reads an inspection date from.
pub fn inspection_date_text(date: &Option<String>) -> (r: String)
    ensures
        r@ == inspection_date_text_spec(*date),
{
    let raw = text_or_empty(date);
    let mut text = trim(raw.as_str());
    text.append(" 7:15");
    text
}

/// The date read, or the fallback date where reading failed.
pub open spec fn date_or_fallback_spec(parsed: Option<DateTime>) -> DateTime {
    match parsed {
        Some(d) => d,
        None => fallback_inspection_date(),
    }
}

/// The date read, or the fallback date where reading failed.
pub fn date_or_fallback(parsed: Option<DateTime>) -> (r: DateTime)
    ensures
        r == date_or_fallback_spec(parsed),
{
    match parsed {
        Some(d) => d,
        None => DateTime { year: 1999, month: 9, day: 5, hour: 23, minute: 56, second: 4, nanosecond: 0 },
    }
}

/// The date and time of an inspection as the importer records it.
pub open spec fn inspection_date_spec(date: Option<String>) -> DateTime {
    date_or_fallback_spec(
        naive_datetime_parse(inspection_date_text_spec(date), inspection_date_format()),
    )
}

/// The date and time of an inspection as the importer records it: the
/// published date at 7:15, or the fallback date where it cannot be read.
pub fn inspection_date(date: &Option<String>) -> (r: DateTime)
    ensures
        r == inspection_date_spec(*date),
        r.is_valid(),
{
    let text = inspection_date_text(date);
    let parsed = parse_from_str(text.as_str(), "%m/%d/%Y %H:%M");
    date_or_fallback(parsed)
}

} // verus!
