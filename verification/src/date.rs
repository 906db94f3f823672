//! Calendar dates as plain values, with the calendar work done by chrono
//! behind trusted wrappers.

use vstd::prelude::*;
use chrono::Datelike;

verus! {

/// A calendar date: year, month and day, compared field by field.
#[derive(Clone, Copy, PartialEq, Eq, Structural, Debug)]
pub struct Date {
    pub year: i32,
    pub month: u8,
    pub day: u8,
}

impl Date {
    /// The bounds a calendar date satisfies.
    pub open spec fn valid(&self) -> bool {
        1 <= self.month <= 12 && 1 <= self.day <= 31
    }

    /// Dates ordered by year, then month, then day.
    pub open spec fn spec_le(&self, other: &Date) -> bool {
        ||| self.year < other.year
        ||| (self.year == other.year && self.month < other.month)
        ||| (self.year == other.year && self.month == other.month && self.day <= other.day)
    }

    pub fn le(&self, other: &Date) -> (r: bool)
        ensures
            r == self.spec_le(other),
    {
        if self.year != other.year {
            self.year < other.year
        } else if self.month != other.month {
            self.month < other.month
        } else {
            self.day <= other.day
        }
    }
}

/// What chrono's `NaiveDate::parse_from_str` yields for a given string under
/// the `%Y-%m-%d` format: year, month and day, or nothing when the text does
/// not parse as a calendar date.
pub uninterp spec fn date_of(s: Seq<char>) -> Option<(int, int, int)>;

/// Relies on chrono's `NaiveDate::parse_from_str` with format `%Y-%m-%d`,
/// whose result depends on the input characters alone, and on a `NaiveDate`
/// holding only valid calendar dates: month in 1..=12, day in 1..=31.
#[verifier::external_body]
pub fn parse_date(s: &str) -> (r: Option<Date>)
    ensures
        match r {
            Some(d) => date_of(s@) == Some((d.year as int, d.month as int, d.day as int))
                && d.valid(),
            None => date_of(s@) is None,
        },
{
    match chrono::NaiveDate::parse_from_str(s, "%Y-%m-%d") {
        Ok(d) => Some(Date { year: d.year(), month: d.month() as u8, day: d.day() as u8 }),
        Err(_) => None,
    }
}

/// Relies on chrono's `Utc::now().date_naive()`: the current date, some valid
/// calendar date; nothing else is assumed of it.
#[verifier::external_body]
pub fn today() -> (r: Date)
    ensures
        r.valid(),
{
    let d = chrono::Utc::now().date_naive();
    Date { year: d.year(), month: d.month() as u8, day: d.day() as u8 }
}

} // verus!
