//! Dates of the proleptic Gregorian calendar, their order, and the count of
//! days between them.
//!
//! The calendar is chrono's. Whether a date exists, and which date lies a
//! number of days before another, are asked of chrono, by two small
//! functions whose contracts are believed and not proved. They are stated
//! over the day count that this module defines; what the module proves of
//! dates, it proves from them.

use chrono::{Datelike, Days, NaiveDate};
use vstd::prelude::*;

verus! {

/// The first year that a [`Date`] can lie in.
pub const MIN_YEAR: i32 = -262143;

/// The last year that a [`Date`] can lie in.
pub const MAX_YEAR: i32 = 262142;

pub open spec fn is_leap_year(year: int) -> bool {
    year % 4 == 0 && (year % 100 != 0 || year % 400 == 0)
}

/// Length of a month; `month` counts from 1.
pub open spec fn days_in_month(year: int, month: int) -> int {
    if month == 2 {
        if is_leap_year(year) {
            29
        } else {
            28
        }
    } else if month == 4 || month == 6 || month == 9 || month == 11 {
        30
    } else {
        31
    }
}

/// Whether year, month and day name a day of the calendar within the supported years.
pub open spec fn is_calendar_date(year: int, month: int, day: int) -> bool {
    &&& MIN_YEAR <= year <= MAX_YEAR
    &&& 1 <= month <= 12
    &&& 1 <= day <= days_in_month(year, month)
}

/// Number of days in the years from year 1 up to, and without, `year`
/// (negative for years before year 1).
pub open spec fn days_before_year(year: int) -> int {
    let y = year - 1;
    365 * y + y / 4 - y / 100 + y / 400
}

/// Number of days of `year` that lie before the first day of `month`.
pub open spec fn days_before_month(year: int, month: int) -> int {
    let common: int = if month <= 1 {
        0
    } else if month == 2 {
        31
    } else if month == 3 {
        59
    } else if month == 4 {
        90
    } else if month == 5 {
        120
    } else if month == 6 {
        151
    } else if month == 7 {
        181
    } else if month == 8 {
        212
    } else if month == 9 {
        243
    } else if month == 10 {
        273
    } else if month == 11 {
        304
    } else {
        334
    };
    if month > 2 && is_leap_year(year) {
        common + 1
    } else {
        common
    }
}

/// The day's number in the calendar, where 1 January of year 1 is day 1.
pub open spec fn day_number(year: int, month: int, day: int) -> int {
    days_before_year(year) + days_before_month(year, month) + day
}

/// The number of the earliest supported day.
pub open spec fn earliest_day_number() -> int {
    day_number(MIN_YEAR as int, 1, 1)
}

/// A calendar date as three numbers; the mathematical view of a [`Date`].
pub struct CivilDate {
    pub year: int,
    pub month: int,
    pub day: int,
}

impl CivilDate {
    pub open spec fn is_valid(self) -> bool {
        is_calendar_date(self.year, self.month, self.day)
    }

    pub open spec fn day_number(self) -> int {
        day_number(self.year, self.month, self.day)
    }

    /// Strict order by year, then month, then day.
    pub open spec fn is_before(self, other: CivilDate) -> bool {
        self.year < other.year || (self.year == other.year && (self.month < other.month || (
        self.month == other.month && self.day < other.day)))
    }
}

/// A quotient by 4, 100 or 400 grows by one from `year - 1` to `year` where
/// `year` is a multiple, and stays where it is not.
proof fn lemma_quotient_steps(year: int)
    ensures
        year / 4 - (year - 1) / 4 == if year % 4 == 0 {
            1int
        } else {
            0int
        },
        year / 100 - (year - 1) / 100 == if year % 100 == 0 {
            1int
        } else {
            0int
        },
        year / 400 - (year - 1) / 400 == if year % 400 == 0 {
            1int
        } else {
            0int
        },
        year % 400 == 0 ==> year % 100 == 0,
        year % 100 == 0 ==> year % 4 == 0,
{
}

/// A year has 365 days, or 366 if it is a leap year.
pub proof fn lemma_year_length(year: int)
    ensures
        days_before_year(year + 1) == days_before_year(year) + if is_leap_year(year) {
            366int
        } else {
            365int
        },
{
    lemma_quotient_steps(year);
}

/// The months of a year hold 365 days, or 366 in a leap year, and no month
/// ends after the year does.
pub proof fn lemma_months_fill_the_year(year: int, month: int)
    requires
        1 <= month <= 12,
    ensures
        days_before_month(year, month) + days_in_month(year, month) <= days_before_month(year, 12)
            + days_in_month(year, 12),
        days_before_month(year, 12) + days_in_month(year, 12) == if is_leap_year(year) {
            366int
        } else {
            365int
        },
{
}

/// Later years start on later days.
pub proof fn lemma_years_in_order(from: int, to: int)
    requires
        from <= to,
    ensures
        days_before_year(from) <= days_before_year(to),
    decreases to - from,
{
    if from < to {
        lemma_years_in_order(from, to - 1);
        lemma_year_length(to - 1);
    }
}

/// The days of a year are numbered after those of the year before and up to
/// the start of the next.
pub proof fn lemma_day_number_within_year(year: int, month: int, day: int)
    requires
        1 <= month <= 12,
        1 <= day <= days_in_month(year, month),
    ensures
        days_before_year(year) < day_number(year, month, day) <= days_before_year(year + 1),
{
    lemma_year_length(year);
    lemma_months_fill_the_year(year, month);
}

/// An earlier date has a smaller day number.
pub proof fn lemma_day_number_increases(a: CivilDate, b: CivilDate)
    requires
        a.is_valid(),
        b.is_valid(),
        a.is_before(b),
    ensures
        a.day_number() < b.day_number(),
{
    if a.year < b.year {
        lemma_day_number_within_year(a.year, a.month, a.day);
        lemma_day_number_within_year(b.year, b.month, b.day);
        lemma_years_in_order(a.year + 1, b.year);
    }
}

/// Day numbers order valid dates as year, month and day do, and tell them apart.
pub proof fn lemma_day_number_order(a: CivilDate, b: CivilDate)
    requires
        a.is_valid(),
        b.is_valid(),
    ensures
        a.day_number() < b.day_number() <==> a.is_before(b),
        a.day_number() == b.day_number() <==> a == b,
{
    if a.is_before(b) {
        lemma_day_number_increases(a, b);
    }
    if b.is_before(a) {
        lemma_day_number_increases(b, a);
    }
}

/// No supported date lies before 1 January of the first supported year.
pub proof fn lemma_earliest_day(a: CivilDate)
    requires
        a.is_valid(),
    ensures
        earliest_day_number() <= a.day_number(),
{
    let first = CivilDate { year: MIN_YEAR as int, month: 1, day: 1 };
    lemma_day_number_order(first, a);
}

/// A day of the calendar, from 1 January of `MIN_YEAR` to 31 December of `MAX_YEAR`.
#[derive(Clone, Copy, Debug, PartialEq, Eq, Structural)]
pub struct Date {
    year: i32,
    month: u32,
    day: u32,
}

impl View for Date {
    type V = CivilDate;

    closed spec fn view(&self) -> CivilDate {
        CivilDate { year: self.year as int, month: self.month as int, day: self.day as int }
    }
}

/// Asks `chrono::NaiveDate::from_ymd_opt` whether year, month and day name a
/// date. Trusted: chrono has a date for exactly the days of the proleptic
/// Gregorian calendar in the years `MIN_YEAR` to `MAX_YEAR`.
#[verifier::external_body]
fn naive_date_exists(year: i32, month: u32, day: u32) -> (found: bool)
    ensures
        found == is_calendar_date(year as int, month as int, day as int),
{
    NaiveDate::from_ymd_opt(year, month, day).is_some()
}

/// Steps `days` days back from a date with `chrono::NaiveDate::checked_sub_days`
/// and reads the result with `Datelike::year`, `month` and `day`. Trusted:
/// chrono returns the date whose day number is smaller by `days`, and returns
/// nothing exactly when that day lies before the earliest supported date.
#[verifier::external_body]
fn naive_date_minus_days(year: i32, month: u32, day: u32, days: u64) -> (earlier: Option<
    (i32, u32, u32),
>)
    requires
        is_calendar_date(year as int, month as int, day as int),
    ensures
        earlier is Some <==> day_number(year as int, month as int, day as int) - days
            >= earliest_day_number(),
        earlier matches Some(ymd) ==> is_calendar_date(ymd.0 as int, ymd.1 as int, ymd.2 as int)
            && day_number(ymd.0 as int, ymd.1 as int, ymd.2 as int) == day_number(
            year as int,
            month as int,
            day as int,
        ) - days,
{
    let start = NaiveDate::from_ymd_opt(year, month, day)?.checked_sub_days(Days::new(days))?;
    Some((start.year(), start.month(), start.day()))
}

/// Moving a year by 656 periods of 400 years moves its quotients by whole
/// numbers and leaves its remainders, so that the leap year rule can be
/// worked out on numbers that are not negative.
proof fn lemma_moved_year(year: int)
    ensures
        (year + 262_400) / 4 == year / 4 + 65_600,
        (year + 262_400) / 100 == year / 100 + 2_624,
        (year + 262_400) / 400 == year / 400 + 656,
        (year + 262_400) % 4 == year % 4,
        (year + 262_400) % 100 == year % 100,
        (year + 262_400) % 400 == year % 400,
{
}

fn leap_year(year: i32) -> (leap: bool)
    requires
        MIN_YEAR <= year <= MAX_YEAR,
    ensures
        leap == is_leap_year(year as int),
{
    proof {
        lemma_moved_year(year as int);
    }
    let moved: i64 = year as i64 + 262_400;
    moved % 4 == 0 && (moved % 100 != 0 || moved % 400 == 0)
}

fn count_days_before_year(year: i32) -> (days: i64)
    requires
        MIN_YEAR <= year <= MAX_YEAR,
    ensures
        days == days_before_year(year as int),
{
    proof {
        lemma_moved_year(year - 1);
    }
    let moved: i64 = year as i64 - 1 + 262_400;
    let leap_days: i64 = moved / 4 - moved / 100 + moved / 400 - 63_632;
    365 * (year as i64 - 1) + leap_days
}

fn count_days_before_month(year: i32, month: u32) -> (days: i64)
    requires
        MIN_YEAR <= year <= MAX_YEAR,
        1 <= month <= 12,
    ensures
        days == days_before_month(year as int, month as int),
{
    let common: i64 = if month == 1 {
        0
    } else if month == 2 {
        31
    } else if month == 3 {
        59
    } else if month == 4 {
        90
    } else if month == 5 {
        120
    } else if month == 6 {
        151
    } else if month == 7 {
        181
    } else if month == 8 {
        212
    } else if month == 9 {
        243
    } else if month == 10 {
        273
    } else if month == 11 {
        304
    } else {
        334
    };
    if month > 2 && leap_year(year) {
        common + 1
    } else {
        common
    }
}

impl Date {
    /// The invariant of the type: a `Date` is a day of the calendar.
    #[verifier::type_invariant]
    pub open spec fn is_calendar_day(self) -> bool {
        self@.is_valid()
    }

    /// The date with the given year, month and day, if the calendar has one.
    pub fn from_ymd_opt(year: i32, month: u32, day: u32) -> (date: Option<Date>)
        ensures
            date is Some <==> is_calendar_date(year as int, month as int, day as int),
            date matches Some(d) ==> d@ == (CivilDate {
                year: year as int,
                month: month as int,
                day: day as int,
            }),
    {
        if naive_date_exists(year, month, day) {
            Some(Date { year, month, day })
        } else {
            None
        }
    }

    /// The earliest supported date: 1 January of `MIN_YEAR`.
    pub fn earliest() -> (date: Date)
        ensures
            date@ == (CivilDate { year: MIN_YEAR as int, month: 1, day: 1 }),
            date@.day_number() == earliest_day_number(),
    {
        Date { year: MIN_YEAR, month: 1, day: 1 }
    }

    pub fn year(&self) -> (year: i32)
        ensures
            year == self@.year,
            MIN_YEAR <= year <= MAX_YEAR,
    {
        proof {
            use_type_invariant(self);
        }
        self.year
    }

    pub fn month(&self) -> (month: u32)
        ensures
            month == self@.month,
            1 <= month <= 12,
    {
        proof {
            use_type_invariant(self);
        }
        self.month
    }

    pub fn day(&self) -> (day: u32)
        ensures
            day == self@.day,
            1 <= day <= days_in_month(self@.year, self@.month),
    {
        proof {
            use_type_invariant(self);
        }
        self.day
    }

    /// The day's number in the calendar, where 1 January of year 1 is day 1.
    pub fn day_number(&self) -> (number: i64)
        ensures
            number == self@.day_number(),
    {
        proof {
            use_type_invariant(self);
        }
        let before_year: i64 = count_days_before_year(self.year);
        let before_month: i64 = count_days_before_month(self.year, self.month);
        before_year + before_month + self.day as i64
    }

    /// Whether this date is `other` or lies before it.
    pub fn is_on_or_before(&self, other: &Date) -> (holds: bool)
        ensures
            holds == (self@.day_number() <= other@.day_number()),
            holds == !other@.is_before(self@),
    {
        proof {
            use_type_invariant(self);
            use_type_invariant(other);
            lemma_day_number_order(self@, other@);
            lemma_day_number_order(other@, self@);
        }
        if self.year != other.year {
            self.year < other.year
        } else if self.month != other.month {
            self.month < other.month
        } else {
            self.day <= other.day
        }
    }

    /// The date `days` days before this one, unless that day lies before the
    /// earliest supported date.
    pub fn minus_days(&self, days: u64) -> (earlier: Option<Date>)
        ensures
            earlier is Some <==> self@.day_number() - days >= earliest_day_number(),
            earlier matches Some(d) ==> d@.is_valid() && d@.day_number() == self@.day_number()
                - days,
    {
        proof {
            use_type_invariant(self);
        }
        match naive_date_minus_days(self.year, self.month, self.day, days) {
            Some(ymd) => Some(Date { year: ymd.0, month: ymd.1, day: ymd.2 }),
            None => None,
        }
    }

    /// The date `days` days before this one, or the earliest supported date
    /// if that day lies before it.
    pub fn minus_days_saturating(&self, days: u64) -> (earlier: Date)
        ensures
            earlier@.is_valid(),
            earlier@.day_number() == if self@.day_number() - days >= earliest_day_number() {
                self@.day_number() - days
            } else {
                earliest_day_number()
            },
    {
        match self.minus_days(days) {
            Some(earlier) => earlier,
            None => Date::earliest(),
        }
    }
}

} // verus!
