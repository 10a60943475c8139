//! Calendar days as values: construction from year, month and day or from a
//! Unix timestamp, the weekday, and the neighbouring days. The calendar
//! arithmetic itself is done by the `chrono` crate.

use crate::calendar::{
    first_day_number, last_day_number, lemma_order_by_day_number, lemma_valid_day_numbers, ymd,
    Date, SECONDS_PER_DAY, UNIX_EPOCH_DAY,
};
use crate::text::{decimal, decimal_text, signed_decimal, signed_decimal_text};
use chrono::{Datelike, NaiveDate, TimeZone, Utc};
use vstd::prelude::*;

verus! {

/// Why a value was not accepted as a calendar day.
#[derive(Clone, Copy, Debug, PartialEq, Eq)]
pub enum DateError {
    /// No such day exists, or its year is out of range.
    InvalidDate { year: i32, month: u32, day: u32 },
    /// The timestamp lies on a day out of range.
    TimestampOutOfRange { seconds: i64 },
}

impl DateError {
    /// The words of the error, with the values that were not accepted.
    pub open spec fn message_chars(self) -> Seq<char> {
        match self {
            DateError::InvalidDate { year, month, day } => "no such day: "@ + signed_decimal(
                year as int,
            ) + "-"@ + decimal(month as nat) + "-"@ + decimal(day as nat),
            DateError::TimestampOutOfRange { seconds } => "timestamp out of range: "@
                + signed_decimal(seconds as int),
        }
    }

    /// The error in words, naming the values that were not accepted.
    pub fn message(&self) -> (text: String)
        ensures
            text@ == self.message_chars(),
    {
        match self {
            DateError::InvalidDate { year, month, day } => {
                let mut text = String::from_str("no such day: ");
                text.append(signed_decimal_text(*year as i64).as_str());
                text.append("-");
                text.append(decimal_text(*month as u64).as_str());
                text.append("-");
                text.append(decimal_text(*day as u64).as_str());
                text
            },
            DateError::TimestampOutOfRange { seconds } => {
                let mut text = String::from_str("timestamp out of range: ");
                text.append(signed_decimal_text(*seconds).as_str());
                text
            },
        }
    }
}

/// One day of the calendar. Every value is a day that exists.
#[derive(Clone, Copy, Debug, PartialEq, Eq, PartialOrd, Ord, Hash)]
pub struct CalendarDay {
    year: i32,
    month: u32,
    day: u32,
}

impl View for CalendarDay {
    type V = Date;

    closed spec fn view(&self) -> Date {
        ymd(self.year as int, self.month as int, self.day as int)
    }
}

/// The number of the day on which a Unix timestamp falls in UTC.
pub open spec fn timestamp_day_number(seconds: int) -> int {
    UNIX_EPOCH_DAY + seconds / (SECONDS_PER_DAY as int)
}

/// Asks `chrono::NaiveDate::from_ymd_opt` whether a day exists. It is taken
/// to accept exactly the days of the proleptic Gregorian calendar whose year
/// lies between `MIN_YEAR` and `MAX_YEAR`.
#[verifier::external_body]
fn chrono_has_day(year: i32, month: u32, day: u32) -> (known: bool)
    ensures
        known == ymd(year as int, month as int, day as int).valid(),
{
    NaiveDate::from_ymd_opt(year, month, day).is_some()
}

/// `chrono::Datelike::weekday` of a `NaiveDate`, as
/// `chrono::Weekday::num_days_from_sunday` numbers it. It is taken to be the
/// weekday of the proleptic Gregorian calendar, in which day 1 is a Monday.
#[verifier::external_body]
fn chrono_weekday(d: &CalendarDay) -> (w: u32)
    requires
        d@.valid(),
    ensures
        w == d@.weekday(),
{
    NaiveDate::from_ymd_opt(d.year, d.month, d.day).unwrap().weekday().num_days_from_sunday()
}

/// A `NaiveDate` minus `chrono::Duration::days(1)`: the day before. The
/// subtraction panics below chrono's first day, which `requires` leaves out.
#[verifier::external_body]
pub(crate) fn chrono_day_before(d: &CalendarDay) -> (r: CalendarDay)
    requires
        d@.valid(),
        d@.day_number() > first_day_number(),
    ensures
        r@.valid(),
        r@.day_number() == d@.day_number() - 1,
{
    let prev = NaiveDate::from_ymd_opt(d.year, d.month, d.day).unwrap() - chrono::Duration::days(1);
    CalendarDay { year: prev.year(), month: prev.month(), day: prev.day() }
}

/// A `NaiveDate` plus `chrono::Duration::days(1)`: the day after. The
/// addition panics above chrono's last day, which `requires` leaves out.
#[verifier::external_body]
pub(crate) fn chrono_day_after(d: &CalendarDay) -> (r: CalendarDay)
    requires
        d@.valid(),
        d@.day_number() < last_day_number(),
    ensures
        r@.valid(),
        r@.day_number() == d@.day_number() + 1,
{
    let next = NaiveDate::from_ymd_opt(d.year, d.month, d.day).unwrap() + chrono::Duration::days(1);
    CalendarDay { year: next.year(), month: next.month(), day: next.day() }
}

/// `chrono::TimeZone::timestamp_opt` on `Utc` with no nanoseconds, then
/// `chrono::DateTime::date_naive`: the UTC day of a Unix timestamp. It is
/// taken to count whole days of 86400 seconds from 1 January 1970, rounding
/// down, and to give nothing exactly when that day is out of range.
#[verifier::external_body]
fn chrono_utc_day(seconds: i64) -> (r: Option<CalendarDay>)
    ensures
        match r {
            Some(d) => d@.valid() && d@.day_number() == timestamp_day_number(seconds as int),
            None => !(first_day_number() <= timestamp_day_number(seconds as int)
                <= last_day_number()),
        },
{
    match Utc.timestamp_opt(seconds, 0).single() {
        Some(moment) => {
            let date = moment.date_naive();
            Some(CalendarDay { year: date.year(), month: date.month(), day: date.day() })
        },
        None => None,
    }
}

impl CalendarDay {
    /// Every calendar day exists and lies in a year within range.
    #[verifier::type_invariant]
    pub open spec fn well_formed(self) -> bool {
        self@.valid()
    }

    /// The day with the given year, month and day of the month, if there is
    /// one; else the error names the three values.
    pub fn new(year: i32, month: u32, day: u32) -> (r: Result<CalendarDay, DateError>)
        ensures
            r is Ok <==> ymd(year as int, month as int, day as int).valid(),
            r matches Ok(d) ==> d@ == ymd(year as int, month as int, day as int),
            r matches Err(e) ==> e == (DateError::InvalidDate { year, month, day }),
    {
        if chrono_has_day(year, month, day) {
            Ok(CalendarDay { year, month, day })
        } else {
            Err(DateError::InvalidDate { year, month, day })
        }
    }

    /// The UTC day on which a Unix timestamp falls, if that day is within
    /// range; else the error names the timestamp.
    pub fn from_timestamp(seconds: i64) -> (r: Result<CalendarDay, DateError>)
        ensures
            r is Ok <==> first_day_number() <= timestamp_day_number(seconds as int)
                <= last_day_number(),
            r matches Ok(d) ==> d@.valid() && d@.day_number() == timestamp_day_number(
                seconds as int,
            ),
            r matches Err(e) ==> e == (DateError::TimestampOutOfRange { seconds }),
    {
        match chrono_utc_day(seconds) {
            Some(d) => {
                proof {
                    lemma_valid_day_numbers(d@);
                }
                Ok(d)
            },
            None => Err(DateError::TimestampOutOfRange { seconds }),
        }
    }

    /// The year.
    pub fn year(&self) -> (y: i32)
        ensures
            y == self@.year,
    {
        self.year
    }

    /// The month, from 1 to 12.
    pub fn month(&self) -> (m: u32)
        ensures
            m == self@.month,
            1 <= m <= 12,
    {
        proof {
            use_type_invariant(self);
        }
        self.month
    }

    /// The day of the month, from 1.
    pub fn day(&self) -> (d: u32)
        ensures
            d == self@.day,
            1 <= d <= 31,
    {
        proof {
            use_type_invariant(self);
        }
        self.day
    }

    /// The day of the week, from 0 for Sunday to 6 for Saturday.
    pub fn weekday(&self) -> (w: u32)
        ensures
            w == self@.weekday(),
            w < 7,
    {
        proof {
            use_type_invariant(self);
        }
        chrono_weekday(self)
    }

    /// Whether this day comes before the other.
    pub fn is_before(&self, other: &CalendarDay) -> (b: bool)
        ensures
            b == self@.before(other@),
            b == (self@.day_number() < other@.day_number()),
    {
        proof {
            use_type_invariant(self);
            use_type_invariant(other);
            lemma_order_by_day_number(self@, other@);
        }
        self.year < other.year || (self.year == other.year && (self.month < other.month || (
        self.month == other.month && self.day < other.day)))
    }

    /// Whether this day is the other or comes before it.
    pub fn is_on_or_before(&self, other: &CalendarDay) -> (b: bool)
        ensures
            b == (self@ == other@ || self@.before(other@)),
            b == (self@.day_number() <= other@.day_number()),
    {
        !other.is_before(self)
    }

    /// Two days with the same year, month and day are the same value.
    pub proof fn lemma_known_by_view(self, other: CalendarDay)
        requires
            self@ == other@,
        ensures
            self == other,
    {
    }
}

} // verus!
