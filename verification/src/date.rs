//! Calendar dates in UTC, as the day that a block's timestamp falls on.

use chrono::{Datelike, NaiveDate, TimeZone, Utc};
use crate::error::ProcessError;
use vstd::prelude::*;

verus! {

/// A day of the proleptic Gregorian calendar.
#[derive(Clone, Copy, Debug, PartialEq, Eq, Structural)]
pub struct CalendarDate {
    pub year: i32,
    pub month: u32,
    pub day: u32,
}

/// Year, month and day of the UTC calendar day that holds the instant
/// `timestamp` seconds after the Unix epoch, as chrono computes them.
pub uninterp spec fn utc_ymd(timestamp: u32) -> (i32, u32, u32);

/// The text that chrono displays for the day with this year, month and day,
/// or `None` where the calendar has no such day.
pub uninterp spec fn iso_date_text(year: i32, month: u32, day: u32) -> Option<Seq<char>>;

/// The number of days from the day `earlier` to the day `later`, each given
/// by year, month and day, as chrono counts them: negative where `later` is
/// the earlier day, `None` where the calendar lacks one of the two.
pub uninterp spec fn calendar_days_between(later: (i32, u32, u32), earlier: (i32, u32, u32)) -> Option<
    i64,
>;

/// The UTC calendar date of a timestamp.
pub open spec fn utc_date(timestamp: u32) -> CalendarDate {
    CalendarDate { year: utc_ymd(timestamp).0, month: utc_ymd(timestamp).1, day: utc_ymd(timestamp).2 }
}

/// Whether no timestamp from `timestamp` on falls on an earlier day than
/// `date`.
pub open spec fn no_earlier_day_after(timestamp: u32, date: CalendarDate) -> bool {
    forall|later: u32| timestamp <= later ==> !(#[trigger] utc_date(later)).earlier_than(date)
}

impl CalendarDate {
    /// Whether `self` is an earlier day than `other`: by year, then month,
    /// then day.
    pub open spec fn earlier_than(self, other: CalendarDate) -> bool {
        self.year < other.year || (self.year == other.year && (self.month < other.month || (
        self.month == other.month && self.day < other.day)))
    }

    /// Whether `self` is an earlier day than `other`.
    pub fn is_before(&self, other: &CalendarDate) -> (before: bool)
        ensures
            before == self.earlier_than(*other),
    {
        self.year < other.year || (self.year == other.year && (self.month < other.month || (
        self.month == other.month && self.day < other.day)))
    }

    /// The number of days from `earlier` to `self`.
    pub open spec fn days_after(self, earlier: CalendarDate) -> Option<i64> {
        calendar_days_between(
            (self.year, self.month, self.day),
            (earlier.year, earlier.month, earlier.day),
        )
    }

    /// The number of days from `earlier` to `self`.
    ///
    /// Trusted: builds both days with chrono's `NaiveDate::from_ymd_opt`,
    /// takes `signed_duration_since` of them and its `num_days`. The contract
    /// only gives the outcome its name; `None` is a day that chrono refuses.
    #[verifier::external_body]
    pub(crate) fn days_since(&self, earlier: &CalendarDate) -> (days: Option<i64>)
        ensures
            days == calendar_days_between(
                (self.year, self.month, self.day),
                (earlier.year, earlier.month, earlier.day),
            ),
    {
        let later = NaiveDate::from_ymd_opt(self.year, self.month, self.day)?;
        let earlier = NaiveDate::from_ymd_opt(earlier.year, earlier.month, earlier.day)?;
        Some(later.signed_duration_since(earlier).num_days())
    }

    /// The key under which results for this date are stored.
    pub open spec fn key(self) -> Option<Seq<char>> {
        iso_date_text(self.year, self.month, self.day)
    }

    /// The date as text, `YYYY-MM-DD` for the years 0 to 9999.
    ///
    /// Trusted: builds the day with chrono's `NaiveDate::from_ymd_opt` and
    /// renders it with the `Display` impl of `NaiveDate`. The contract only
    /// gives the outcome its name; `None` is a day that chrono refuses.
    #[verifier::external_body]
    pub(crate) fn iso_string(&self) -> (text: Option<String>)
        ensures
            match text {
                Some(s) => iso_date_text(self.year, self.month, self.day) == Some(s@),
                None => iso_date_text(self.year, self.month, self.day).is_none(),
            },
    {
        match NaiveDate::from_ymd_opt(self.year, self.month, self.day) {
            Some(date) => Some(date.to_string()),
            None => None,
        }
    }
}

/// The UTC calendar date of a block timestamp.
///
/// Trusted: calls chrono's `Utc.timestamp_opt` with zero nanoseconds, takes
/// `date_naive` of the single instant it yields, and reads `year`, `month`
/// and `day` off it. Every `u32` number of seconds is in chrono's range, so
/// the call yields an instant. The contract gives the outcome its name, and
/// says that no later timestamp falls on an earlier day: chrono takes the
/// day from the whole days in the seconds and counts the days forward
/// through the calendar.
#[verifier::external_body]
pub fn timestamp_to_naive_date(timestamp: u32) -> (date: CalendarDate)
    ensures
        (date.year, date.month, date.day) == utc_ymd(timestamp),
        no_earlier_day_after(timestamp, date),
{
    let day = Utc.timestamp_opt(i64::from(timestamp), 0).unwrap().date_naive();
    CalendarDate { year: day.year(), month: day.month(), day: day.day() }
}

/// The key under which results for a date are stored: the date as text.
/// A date that the calendar lacks has none.
pub fn date_key(date: &CalendarDate) -> (key: Result<String, ProcessError>)
    ensures
        match date.key() {
            Some(text) => key.is_ok() && key.unwrap()@ == text,
            None => key == Err::<String, ProcessError>(ProcessError::InvalidDate),
        },
{
    match date.iso_string() {
        Some(text) => Ok(text),
        None => Err(ProcessError::InvalidDate),
    }
}

} // verus!
