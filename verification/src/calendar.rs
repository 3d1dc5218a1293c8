//! Calendar dates of the proleptic Gregorian calendar, over the range of
//! years that chrono's `NaiveDate` represents, and the day arithmetic on
//! them that chrono performs.

use chrono::Datelike;
use chrono::NaiveDate;
use vstd::prelude::*;

verus! {

/// The earliest year a date may have.
pub const MIN_YEAR: i32 = -262143;

/// The latest year a date may have.
pub const MAX_YEAR: i32 = 262142;

/// Leap years of the Gregorian calendar, year 0 and the years before it
/// included (year 0 is 1 BCE).
pub open spec fn is_leap_year(year: int) -> bool {
    (year % 4 == 0 && year % 100 != 0) || year % 400 == 0
}

/// The number of days of month `month` (1 to 12) of `year`.
pub open spec fn days_in_month(year: int, month: int) -> int {
    if month == 2 {
        if is_leap_year(year) {
            29
        } else {
            28
        }
    } else if month == 4 || month == 6 || month == 9 || month == 11 {
        30
    } else {
        31
    }
}

/// Whether year, month and day name a day that exists, in the range of
/// years that a date may have.
pub open spec fn is_valid_date(year: int, month: int, day: int) -> bool {
    &&& MIN_YEAR <= year <= MAX_YEAR
    &&& 1 <= month <= 12
    &&& 1 <= day <= days_in_month(year, month)
}

/// The number of days of `year` before the first day of `month`.
pub open spec fn days_before_month(year: int, month: int) -> int {
    let common: int = if month <= 1 {
        0
    } else if month == 2 {
        31
    } else if month == 3 {
        59
    } else if month == 4 {
        90
    } else if month == 5 {
        120
    } else if month == 6 {
        151
    } else if month == 7 {
        181
    } else if month == 8 {
        212
    } else if month == 9 {
        243
    } else if month == 10 {
        273
    } else if month == 11 {
        304
    } else {
        334
    };
    common + if month > 2 && is_leap_year(year) {
        1int
    } else {
        0int
    }
}

/// The number of days from the first day of year 1 to the first day of
/// `year` (negative for the years before year 1).
pub open spec fn days_before_year(year: int) -> int {
    let p = year - 1;
    365 * p + p / 4 - p / 100 + p / 400
}

/// The serial number of a day: 1 for January 1 of year 1, and one more
/// for each following day.
pub open spec fn day_number(year: int, month: int, day: int) -> int {
    days_before_year(year) + days_before_month(year, month) + day
}

/// The serial number of the first day a date may have.
pub open spec fn first_day_number() -> int {
    day_number(MIN_YEAR as int, 1, 1)
}

/// The serial number of the last day a date may have.
pub open spec fn last_day_number() -> int {
    day_number(MAX_YEAR as int, 12, 31)
}

/// A calendar date: year, month (1 to 12) and day of the month.
#[derive(Debug, Clone, Copy, PartialEq, Eq, Structural)]
pub struct CalendarDate {
    year: i32,
    month: u32,
    day: u32,
}

impl CalendarDate {
    /// The year.
    pub closed spec fn spec_year(&self) -> int {
        self.year as int
    }

    /// The month, 1 to 12.
    pub closed spec fn spec_month(&self) -> int {
        self.month as int
    }

    /// The day of the month.
    pub closed spec fn spec_day(&self) -> int {
        self.day as int
    }

    /// Whether the date exists. Every date that the library makes does.
    #[verifier::type_invariant]
    pub open spec fn is_valid(&self) -> bool {
        is_valid_date(self.spec_year(), self.spec_month(), self.spec_day())
    }

    /// The serial number of the date's day.
    pub open spec fn spec_day_number(&self) -> int {
        day_number(self.spec_year(), self.spec_month(), self.spec_day())
    }

    /// The date of `year`, `month`, `day`, if that day exists (`None` for
    /// 2023-04-31, a month 0 or a year out of range).
    pub fn new(year: i32, month: u32, day: u32) -> (r: Option<CalendarDate>)
        ensures
            r is Some <==> is_valid_date(year as int, month as int, day as int),
            r matches Some(d) ==> d.spec_year() == year && d.spec_month() == month && d.spec_day()
                == day,
    {
        if date_exists(year, month, day) {
            Some(CalendarDate { year, month, day })
        } else {
            None
        }
    }

    /// The date's day falls in the range of serial numbers a date may have.
    pub proof fn lemma_in_range(&self)
        requires
            self.is_valid(),
        ensures
            first_day_number() <= self.spec_day_number() <= last_day_number(),
    {
        lemma_day_number_order(MIN_YEAR as int, 1, 1, self.spec_year(), self.spec_month(), self.spec_day());
        lemma_day_number_order(self.spec_year(), self.spec_month(), self.spec_day(), MAX_YEAR as int, 12, 31);
    }

    /// The year.
    pub fn year(&self) -> (r: i32)
        ensures
            r == self.spec_year(),
    {
        self.year
    }

    /// The month, 1 to 12.
    pub fn month(&self) -> (r: u32)
        ensures
            r == self.spec_month(),
    {
        self.month
    }

    /// The day of the month.
    pub fn day(&self) -> (r: u32)
        ensures
            r == self.spec_day(),
    {
        self.day
    }
}

/// The first day of `year + 1` comes 365 days after the first day of
/// `year`, 366 when `year` is a leap year.
pub proof fn lemma_year_length(year: int)
    ensures
        days_before_year(year + 1) == days_before_year(year) + 365 + if is_leap_year(year) {
            1int
        } else {
            0int
        },
{
    let p = year - 1;
    assert(year / 4 - p / 4 == if year % 4 == 0 { 1int } else { 0int });
    assert(year / 100 - p / 100 == if year % 100 == 0 { 1int } else { 0int });
    assert(year / 400 - p / 400 == if year % 400 == 0 { 1int } else { 0int });
    assert(year % 400 == 0 ==> year % 100 == 0);
    assert(year % 100 == 0 ==> year % 4 == 0);
}

/// The first days of the years come in the order of the years.
proof fn lemma_year_start_monotonic(a: int, b: int)
    requires
        a <= b,
    ensures
        days_before_year(a) <= days_before_year(b),
    decreases b - a,
{
    if a < b {
        lemma_year_start_monotonic(a, b - 1);
        lemma_year_length(b - 1);
    }
}

/// The days of a year are numbered after the days of the years before it
/// and before those of the years after it.
proof fn lemma_day_in_year(year: int, month: int, day: int)
    requires
        1 <= month <= 12,
        1 <= day <= days_in_month(year, month),
    ensures
        days_before_year(year) < day_number(year, month, day) <= days_before_year(year + 1),
{
    lemma_year_length(year);
}

/// Days that exist are numbered in calendar order: an earlier year, or
/// the same year and an earlier month, or the same month and an earlier
/// day, gives a smaller serial number.
pub proof fn lemma_day_number_order(y1: int, m1: int, d1: int, y2: int, m2: int, d2: int)
    requires
        1 <= m1 <= 12,
        1 <= d1 <= days_in_month(y1, m1),
        1 <= m2 <= 12,
        1 <= d2 <= days_in_month(y2, m2),
        y1 < y2 || (y1 == y2 && m1 < m2) || (y1 == y2 && m1 == m2 && d1 <= d2),
    ensures
        day_number(y1, m1, d1) <= day_number(y2, m2, d2),
        (y1, m1, d1) != (y2, m2, d2) ==> day_number(y1, m1, d1) < day_number(y2, m2, d2),
{
    if y1 < y2 {
        lemma_day_in_year(y1, m1, d1);
        lemma_day_in_year(y2, m2, d2);
        lemma_year_start_monotonic(y1 + 1, y2);
    }
}

/// Two dates that exist and have the same serial number are the same
/// date.
pub proof fn lemma_day_number_injective(a: CalendarDate, b: CalendarDate)
    requires
        a.is_valid(),
        b.is_valid(),
        a.spec_day_number() == b.spec_day_number(),
    ensures
        a == b,
{
    let (y1, m1, d1) = (a.spec_year(), a.spec_month(), a.spec_day());
    let (y2, m2, d2) = (b.spec_year(), b.spec_month(), b.spec_day());
    if y1 < y2 || (y1 == y2 && m1 < m2) || (y1 == y2 && m1 == m2 && d1 <= d2) {
        lemma_day_number_order(y1, m1, d1, y2, m2, d2);
    } else {
        lemma_day_number_order(y2, m2, d2, y1, m1, d1);
    }
}

/// Whether chrono's `NaiveDate::from_ymd_opt` makes a date of these
/// values. Its documentation and source give `None` exactly where the day
/// does not exist in the proleptic Gregorian calendar or the year lies
/// outside `MIN_YEAR ..= MAX_YEAR`; that is what the contract claims.
#[verifier::external_body]
fn date_exists(year: i32, month: u32, day: u32) -> (r: bool)
    ensures
        r == is_valid_date(year as int, month as int, day as int),
{
    NaiveDate::from_ymd_opt(year, month, day).is_some()
}

/// The number of days from `b` to `a`, by chrono's
/// `NaiveDate::signed_duration_since` and `TimeDelta::num_days`. The
/// contract claims that this is the difference of the days' serial numbers
/// in the proleptic Gregorian calendar, as chrono documents it.
#[verifier::external_body]
pub(crate) fn days_between(a: &CalendarDate, b: &CalendarDate) -> (r: i64)
    requires
        a.is_valid(),
        b.is_valid(),
    ensures
        r == a.spec_day_number() - b.spec_day_number(),
{
    let x = NaiveDate::from_ymd_opt(a.year, a.month, a.day).unwrap();
    let y = NaiveDate::from_ymd_opt(b.year, b.month, b.day).unwrap();
    x.signed_duration_since(y).num_days()
}

/// The date `days` days after `d` (before it, for a negative count), by
/// chrono's `NaiveDate + TimeDelta::days`. That addition panics when the
/// result lies outside the dates chrono represents, so `requires` keeps it
/// inside; the contract claims the date whose serial number is that of `d`
/// plus `days`.
#[verifier::external_body]
pub(crate) fn add_days(d: &CalendarDate, days: i64) -> (r: CalendarDate)
    requires
        d.is_valid(),
        first_day_number() <= d.spec_day_number() + days <= last_day_number(),
    ensures
        r.is_valid(),
        r.spec_day_number() == d.spec_day_number() + days,
{
    let x = NaiveDate::from_ymd_opt(d.year, d.month, d.day).unwrap() + chrono::Duration::days(days);
    CalendarDate { year: x.year(), month: x.month(), day: x.day() }
}

} // verus!
