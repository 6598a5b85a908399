//! A calendar-date value model.
//!
//! A [`Date`] holds the year, month and day as plain integers; recognising a
//! date in a text field is done by the `chrono` crate behind a trusted
//! wrapper, and everything after that call is verified. On valid calendar
//! dates the chronological order is exactly the lexicographic order on
//! `(year, month, day)`, which is what this crate uses.

use vstd::prelude::*;

verus! {

/// A calendar date, as plain year / month / day numbers.
#[derive(Debug, Clone, Copy, PartialEq, Eq, Structural)]
pub struct Date {
    pub year: i32,
    pub month: u32,
    pub day: u32,
}

impl Date {
    /// Month and day are in their calendar ranges.
    pub open spec fn wf(self) -> bool {
        &&& 1 <= self.month <= 12
        &&& 1 <= self.day <= 31
    }
}

/// Strict chronological order: lexicographic on (year, month, day).
pub open spec fn date_lt(a: Date, b: Date) -> bool {
    ||| a.year < b.year
    ||| (a.year == b.year && a.month < b.month)
    ||| (a.year == b.year && a.month == b.month && a.day < b.day)
}

/// What `chrono` parses a field into under a given format: year, month and
/// day of the recognised date, or nothing when the text does not match the
/// format.
pub uninterp spec fn date_from_str(s: Seq<char>, fmt: Seq<char>) -> Option<(i32, u32, u32)>;

/// Relies on chrono's `NaiveDate::parse_from_str` together with the
/// `Datelike` accessors `year`, `month` and `day`: a parsed value is a valid
/// calendar date, so its month is in 1..=12 and its day in 1..=31.
#[verifier::external_body]
fn parse_date_raw(s: &str, fmt: &str) -> (r: Option<(i32, u32, u32)>)
    ensures
        r == date_from_str(s@, fmt@),
        r matches Some(t) ==> 1 <= t.1 <= 12 && 1 <= t.2 <= 31,
{
    match chrono::NaiveDate::parse_from_str(s, fmt) {
        Ok(d) => Some((chrono::Datelike::year(&d), chrono::Datelike::month(&d), chrono::Datelike::day(&d))),
        Err(_) => None,
    }
}

/// The date denoted by a text field: the first of the three accepted
/// patterns that matches wins.
pub open spec fn spec_date_of_field(s: Seq<char>) -> Option<(i32, u32, u32)> {
    if date_from_str(s, "%Y-%m-%d"@) is Some {
        date_from_str(s, "%Y-%m-%d"@)
    } else if date_from_str(s, "%Y/%m/%d"@) is Some {
        date_from_str(s, "%Y/%m/%d"@)
    } else {
        date_from_str(s, "%Y\u{5e74}%m\u{6708}%d\u{65e5}"@)
    }
}

/// Parse a text field as a date, trying the dash-separated, slash-separated
/// and localized year/month/day patterns in that order.
pub fn date_from_field(s: &str) -> (r: Option<Date>)
    ensures
        (r is Some) == (spec_date_of_field(s@) is Some),
        r matches Some(d) ==> d.wf() && (spec_date_of_field(s@) matches Some(t) && d.year == t.0
            && d.month == t.1 && d.day == t.2),
{
    let attempt = match parse_date_raw(s, "%Y-%m-%d") {
        Some(t) => Some(t),
        None => match parse_date_raw(s, "%Y/%m/%d") {
            Some(t) => Some(t),
            None => parse_date_raw(s, "%Y\u{5e74}%m\u{6708}%d\u{65e5}"),
        },
    };
    match attempt {
        Some((y, m, d)) => Some(Date { year: y, month: m, day: d }),
        None => None,
    }
}

} // verus!
