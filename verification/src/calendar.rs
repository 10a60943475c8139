//! The proleptic Gregorian calendar as arithmetic on integers: which dates
//! exist, how the days are numbered, and on which weekday a day falls.

use vstd::prelude::*;

verus! {

/// The earliest year a calendar day can lie in.
pub const MIN_YEAR: i32 = -262143;

/// The latest year a calendar day can lie in.
pub const MAX_YEAR: i32 = 262142;

/// The day number of 1 January 1970, the day on which Unix time starts.
pub const UNIX_EPOCH_DAY: i64 = 719163;

/// Seconds in a day.
pub const SECONDS_PER_DAY: i64 = 86400;

/// Leap years are the multiples of 4 that are no multiples of 100, and the
/// multiples of 400.
pub open spec fn is_leap_year(year: int) -> bool {
    year % 4 == 0 && (year % 100 != 0 || year % 400 == 0)
}

/// Number of days in a year.
pub open spec fn days_in_year(year: int) -> int {
    if is_leap_year(year) {
        366
    } else {
        365
    }
}

/// Number of days in a month of a year.
pub open spec fn days_in_month(year: int, month: int) -> int {
    if month == 2 {
        if is_leap_year(year) {
            29
        } else {
            28
        }
    } else if month == 4 || month == 6 || month == 9 || month == 11 {
        30
    } else {
        31
    }
}

/// Number of days of a year that lie before the first of a month.
#[verifier::opaque]
pub open spec fn days_before_month(year: int, month: int) -> int
    decreases month,
{
    if month <= 1 {
        0
    } else {
        days_before_month(year, month - 1) + days_in_month(year, month - 1)
    }
}

/// Number of days between 1 January of year 1 and 1 January of a year;
/// negative for years before year 1.
#[verifier::opaque]
pub open spec fn days_before_year(year: int) -> int {
    let past = year - 1;
    365 * past + past / 4 - past / 100 + past / 400
}

/// A date as three integers. Not every triple is a date: see `valid`.
pub struct Date {
    pub year: int,
    pub month: int,
    pub day: int,
}

impl Date {
    /// The triple names a day that exists, in a year within range.
    pub open spec fn valid(self) -> bool {
        &&& MIN_YEAR <= self.year <= MAX_YEAR
        &&& 1 <= self.month <= 12
        &&& 1 <= self.day <= days_in_month(self.year, self.month)
    }

    /// The day's number, counting 1 January of year 1 as day 1.
    pub open spec fn day_number(self) -> int {
        days_before_year(self.year) + days_before_month(self.year, self.month) + self.day
    }

    /// The day of the week, from 0 for Sunday to 6 for Saturday.
    pub open spec fn weekday(self) -> int {
        self.day_number() % 7
    }

    /// Calendar order: by year, then month, then day.
    pub open spec fn before(self, other: Date) -> bool {
        ||| self.year < other.year
        ||| self.year == other.year && self.month < other.month
        ||| self.year == other.year && self.month == other.month && self.day < other.day
    }
}

/// The date with the given year, month and day.
pub open spec fn ymd(year: int, month: int, day: int) -> Date {
    Date { year, month, day }
}

/// The number of the first day within range, 1 January of `MIN_YEAR`.
pub open spec fn first_day_number() -> int {
    ymd(MIN_YEAR as int, 1, 1).day_number()
}

/// The number of the last day within range, 31 December of `MAX_YEAR`.
pub open spec fn last_day_number() -> int {
    ymd(MAX_YEAR as int, 12, 31).day_number()
}

/// The number of 1 January of a year.
pub open spec fn year_start(year: int) -> int {
    ymd(year, 1, 1).day_number()
}

/// The number of 31 December of a year.
pub open spec fn year_end(year: int) -> int {
    ymd(year, 12, 31).day_number()
}

/// The days before each month, written out.
pub proof fn lemma_days_before_month(year: int, month: int)
    requires
        1 <= month <= 13,
    ensures
        days_before_month(year, month) == (if month == 1 {
            0int
        } else if month == 2 {
            31
        } else {
            let leap: int = if is_leap_year(year) {
                1
            } else {
                0
            };
            leap + (if month == 3 {
                59int
            } else if month == 4 {
                90
            } else if month == 5 {
                120
            } else if month == 6 {
                151
            } else if month == 7 {
                181
            } else if month == 8 {
                212
            } else if month == 9 {
                243
            } else if month == 10 {
                273
            } else if month == 11 {
                304
            } else if month == 12 {
                334
            } else {
                365
            })
        }),
        month <= 12 ==> days_before_month(year, month + 1) == days_before_month(year, month)
            + days_in_month(year, month),
        days_before_month(year, 13) == days_in_year(year),
{
    reveal_with_fuel(days_before_month, 14);
}

/// A year is as long as the step from its first day to the next year's.
pub proof fn lemma_year_length(year: int)
    ensures
        days_before_year(year + 1) == days_before_year(year) + days_in_year(year),
{
    reveal(days_before_year);
    let past = year - 1;
    assert(year / 4 - past / 4 == (if year % 4 == 0 {
        1int
    } else {
        0
    }));
    assert(year / 100 - past / 100 == (if year % 100 == 0 {
        1int
    } else {
        0
    }));
    assert(year / 400 - past / 400 == (if year % 400 == 0 {
        1int
    } else {
        0
    }));
    assert(year % 400 == 0 ==> year % 100 == 0);
    assert(year % 100 == 0 ==> year % 4 == 0);
}

/// A year's days follow directly on those of the year before.
pub proof fn lemma_year_follows_year(year: int)
    ensures
        year_start(year + 1) == year_end(year) + 1,
        year_end(year) == year_start(year) + days_in_year(year) - 1,
{
    lemma_year_length(year);
    lemma_days_before_month(year, 12);
    lemma_days_before_month(year, 1);
    lemma_days_before_month(year + 1, 1);
}

/// Later years start later, by 365 or 366 days for each year between.
pub proof fn lemma_years_in_order(a: int, b: int)
    requires
        a <= b,
    ensures
        year_start(a) + 365 * (b - a) <= year_start(b),
        year_start(b) <= year_start(a) + 366 * (b - a),
    decreases b - a,
{
    if a < b {
        lemma_years_in_order(a, b - 1);
        lemma_year_follows_year(b - 1);
    }
}

/// The days of a date's year enclose the date.
pub proof fn lemma_day_within_year(d: Date)
    requires
        1 <= d.month <= 12,
        1 <= d.day <= days_in_month(d.year, d.month),
    ensures
        year_start(d.year) <= d.day_number() <= year_end(d.year),
{
    lemma_days_before_month(d.year, d.month);
    lemma_days_before_month(d.year, 1);
    lemma_days_before_month(d.year, 12);
}

/// Day numbers follow calendar order.
pub proof fn lemma_before_is_smaller_number(a: Date, b: Date)
    requires
        1 <= a.month <= 12,
        1 <= a.day <= days_in_month(a.year, a.month),
        1 <= b.month <= 12,
        1 <= b.day <= days_in_month(b.year, b.month),
        a.before(b),
    ensures
        a.day_number() < b.day_number(),
{
    if a.year < b.year {
        lemma_day_within_year(a);
        lemma_day_within_year(b);
        lemma_year_follows_year(a.year);
        lemma_years_in_order(a.year + 1, b.year);
    } else {
        lemma_days_before_month(a.year, a.month);
        lemma_days_before_month(b.year, b.month);
    }
}

/// Two dates are in calendar order exactly when their numbers are in
/// order, and a date is known by its number.
pub proof fn lemma_order_by_day_number(a: Date, b: Date)
    requires
        1 <= a.month <= 12,
        1 <= a.day <= days_in_month(a.year, a.month),
        1 <= b.month <= 12,
        1 <= b.day <= days_in_month(b.year, b.month),
    ensures
        a.before(b) <==> a.day_number() < b.day_number(),
        a == b <==> a.day_number() == b.day_number(),
{
    if a.before(b) {
        lemma_before_is_smaller_number(a, b);
    } else if b.before(a) {
        lemma_before_is_smaller_number(b, a);
    } else {
        assert(a.year == b.year && a.month == b.month && a.day == b.day);
    }
}

/// A date's year, read off its number: the year whose days enclose it.
pub proof fn lemma_year_of_day_number(d: Date, year: int)
    requires
        1 <= d.month <= 12,
        1 <= d.day <= days_in_month(d.year, d.month),
    ensures
        year_start(year) <= d.day_number() <= year_end(year) <==> d.year == year,
{
    lemma_day_within_year(d);
    if d.year < year {
        lemma_year_follows_year(d.year);
        lemma_years_in_order(d.year + 1, year);
    } else if year < d.year {
        lemma_year_follows_year(year);
        lemma_years_in_order(year + 1, d.year);
    }
}

/// Valid dates are exactly those numbered from the first day to the last.
pub proof fn lemma_valid_day_numbers(d: Date)
    requires
        1 <= d.month <= 12,
        1 <= d.day <= days_in_month(d.year, d.month),
    ensures
        d.valid() <==> first_day_number() <= d.day_number() <= last_day_number(),
{
    let lo = ymd(MIN_YEAR as int, 1, 1);
    let hi = ymd(MAX_YEAR as int, 12, 31);
    lemma_order_by_day_number(lo, d);
    lemma_order_by_day_number(d, hi);
}

} // verus!
