//! Calendar dates of the proleptic Gregorian calendar.
//!
//! A [`Date`] is a plain year/month/day triple ordered chronologically. Day
//! arithmetic, parsing and printing are delegated to `chrono`; everything
//! else is decided here.

use crate::text::digit_char;
use chrono::Datelike;
use vstd::prelude::*;

verus! {

/// Earliest year a [`Date`] may carry.
pub const MIN_YEAR: i32 = -262143;

/// Latest year a [`Date`] may carry.
pub const MAX_YEAR: i32 = 262142;

/// A calendar day without a time of day.
#[derive(Clone, Copy, Debug, PartialEq, Eq, Structural)]
pub struct Date {
    pub year: i32,
    pub month: u32,
    pub day: u32,
}

/// Whether `year` has a 29th of February.
pub open spec fn is_leap_year(year: int) -> bool {
    year % 4 == 0 && (year % 100 != 0 || year % 400 == 0)
}

/// Number of days of `month` in `year`; meaningful for months 1 to 12.
pub open spec fn days_in_month(year: int, month: int) -> int {
    if month == 2 {
        if is_leap_year(year) {
            29
        } else {
            28
        }
    } else if month == 4 || month == 6 || month == 9 || month == 11 {
        30
    } else {
        31
    }
}

/// The date that lies `days` days before `date`, as `chrono` computes it;
/// `None` where `chrono` yields no date.
pub uninterp spec fn days_earlier(date: Date, days: u64) -> Option<Date>;

/// The date that `chrono` reads from `text` under the pattern `%Y-%m-%d`;
/// `None` where it rejects the text.
pub uninterp spec fn iso_date_of(text: Seq<char>) -> Option<Date>;

/// The text that `chrono` prints for `date`; `None` where `chrono` does not
/// take the triple for a date.
pub uninterp spec fn iso_text_of(date: Date) -> Option<Seq<char>>;

/// A date of a year from 0 to 9999 as `chrono` prints it: four digits of
/// the year, a hyphen, two digits of the month, a hyphen, two digits of the
/// day.
pub open spec fn plain_date_text(date: Date) -> Seq<char> {
    let year = date.year as int;
    let month = date.month as int;
    let day = date.day as int;
    seq![
        digit_char(year / 1000),
        digit_char(year / 100 % 10),
        digit_char(year / 10 % 10),
        digit_char(year % 10),
        '-',
        digit_char(month / 10),
        digit_char(month % 10),
        '-',
        digit_char(day / 10),
        digit_char(day % 10),
    ]
}

/// `chrono::ParseError`, the reason `chrono` gives for refusing a text.
/// Nothing is said of what it holds.
#[verifier::external_type_specification]
#[verifier::external_body]
pub struct ExParseError(chrono::ParseError);

impl Date {
    /// The triple names a day that exists, in a year within range.
    pub open spec fn is_calendar_date(self) -> bool {
        &&& MIN_YEAR <= self.year <= MAX_YEAR
        &&& 1 <= self.month <= 12
        &&& 1 <= self.day <= days_in_month(self.year as int, self.month as int)
    }

    /// Strictly earlier than `other`.
    pub open spec fn precedes(self, other: Date) -> bool {
        self.year < other.year || (self.year == other.year && (self.month < other.month || (
        self.month == other.month && self.day < other.day)))
    }

    /// Same year and same month number as `other`.
    pub open spec fn same_month(self, other: Date) -> bool {
        self.year == other.year && self.month == other.month
    }

    /// Builds the date `year`-`month`-`day`, if such a day exists.
    pub fn from_ymd(year: i32, month: u32, day: u32) -> (r: Option<Date>)
        ensures
            r is Some <==> (Date { year, month, day }).is_calendar_date(),
            r is Some ==> r == Some(Date { year, month, day }),
    {
        if year < MIN_YEAR || year > MAX_YEAR || month < 1 || month > 12 || day < 1 {
            return None;
        }
        let shifted: i32 = year + 262400;
        assert(shifted as int % 4 == year as int % 4);
        assert(shifted as int % 100 == year as int % 100);
        assert(shifted as int % 400 == year as int % 400);
        let leap: bool = shifted % 4 == 0 && (shifted % 100 != 0 || shifted % 400 == 0);
        let last: u32 = if month == 2 {
            if leap {
                29
            } else {
                28
            }
        } else if month == 4 || month == 6 || month == 9 || month == 11 {
            30
        } else {
            31
        };
        if day > last {
            return None;
        }
        Some(Date { year, month, day })
    }

    /// The year.
    pub fn year(&self) -> (y: i32)
        ensures
            y == self.year,
    {
        self.year
    }

    /// The month, from 1 to 12.
    pub fn month(&self) -> (m: u32)
        ensures
            m == self.month,
    {
        self.month
    }

    /// The day of the month, from 1.
    pub fn day(&self) -> (d: u32)
        ensures
            d == self.day,
    {
        self.day
    }

    /// Strictly earlier than `other`.
    pub fn is_before(&self, other: &Date) -> (b: bool)
        ensures
            b == self.precedes(*other),
    {
        self.year < other.year || (self.year == other.year && (self.month < other.month || (
        self.month == other.month && self.day < other.day)))
    }

    /// Same year and same month number as `other`.
    pub fn in_month_of(&self, other: &Date) -> (b: bool)
        ensures
            b == self.same_month(*other),
    {
        self.year == other.year && self.month == other.month
    }

    /// The current day on the local clock.
    pub fn today() -> (d: Date)
        ensures
            d.is_calendar_date(),
    {
        local_today()
    }
}

/// Calls `chrono::Local::now`, `DateTime::naive_local` and
/// `NaiveDateTime::date`, and copies year, month and day out of the result.
/// The contract claims only that `chrono` hands back a day that exists, which
/// holds of every `NaiveDate`.
#[verifier::external_body]
fn local_today() -> (d: Date)
    ensures
        d.is_calendar_date(),
{
    let now = chrono::Local::now().naive_local().date();
    Date { year: now.year(), month: now.month(), day: now.day() }
}

/// Calls `chrono::NaiveDate::from_ymd_opt` and
/// `chrono::NaiveDate::checked_sub_days`. The contract names the outcome
/// [`days_earlier`], claims that a date handed back is a day that exists,
/// and claims that a date is handed back where a day that exists, in a year
/// after the earliest, is moved by no more than 365 days: that leads no
/// further than into the year before, which `chrono` can still name.
#[verifier::external_body]
pub(crate) fn checked_days_earlier(date: Date, days: u64) -> (r: Option<Date>)
    ensures
        r == days_earlier(date, days),
        r matches Some(d) ==> d.is_calendar_date(),
        date.is_calendar_date() && date.year > MIN_YEAR && days <= 365 ==> r is Some,
{
    let start = chrono::NaiveDate::from_ymd_opt(date.year, date.month, date.day)?;
    let moved = start.checked_sub_days(chrono::Days::new(days))?;
    Some(Date { year: moved.year(), month: moved.month(), day: moved.day() })
}

/// Calls `chrono::NaiveDate::parse_from_str` with the pattern `%Y-%m-%d`.
/// The contract names the accepted date [`iso_date_of`], says that the call
/// fails exactly where that name is `None`, and claims that an accepted date
/// is a day that exists.
#[verifier::external_body]
pub(crate) fn parse_ymd(text: &str) -> (r: Result<Date, chrono::ParseError>)
    ensures
        r is Ok <==> iso_date_of(text@) is Some,
        r matches Ok(d) ==> iso_date_of(text@) == Some(d) && d.is_calendar_date(),
{
    match chrono::NaiveDate::parse_from_str(text, "%Y-%m-%d") {
        Ok(d) => Ok(Date { year: d.year(), month: d.month(), day: d.day() }),
        Err(e) => Err(e),
    }
}

/// Calls `chrono::NaiveDate::from_ymd_opt` and the `Display` impl of
/// `chrono::NaiveDate`. The contract names the printed text [`iso_text_of`],
/// claims that `chrono` takes exactly the days that exist for dates, and
/// claims that it prints a date of a year from 0 to 9999 as
/// [`plain_date_text`] says.
#[verifier::external_body]
pub(crate) fn printed_ymd(date: Date) -> (r: Option<String>)
    ensures
        r is Some <==> iso_text_of(date) is Some,
        r matches Some(s) ==> Some(s@) == iso_text_of(date),
        r is Some <==> date.is_calendar_date(),
        r matches Some(s) ==> (0 <= date.year <= 9999 ==> s@ == plain_date_text(date)),
{
    match chrono::NaiveDate::from_ymd_opt(date.year, date.month, date.day) {
        Some(d) => Some(d.to_string()),
        None => None,
    }
}

} // verus!
