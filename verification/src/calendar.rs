//! The calendar: dates, and the days between them.

use vstd::prelude::*;

verus! {

/// A year, a month and a day of the Gregorian calendar.
pub struct Date {
    pub year: int,
    pub month: int,
    pub day: int,
}

pub open spec fn is_leap_year(year: int) -> bool {
    year % 4 == 0 && (year % 100 != 0 || year % 400 == 0)
}

pub open spec fn month_length(year: int, month: int) -> int {
    if month == 2 {
        if is_leap_year(year) {
            29
        } else {
            28
        }
    } else if month == 4 || month == 6 || month == 9 || month == 11 {
        30
    } else {
        31
    }
}

pub open spec fn is_date(date: Date) -> bool {
    1 <= date.month <= 12 && 1 <= date.day <= month_length(date.year, date.month)
}

/// The days from the start of 1970 to the start of `year`: 365 for each year, and one for each
/// leap year.
pub open spec fn days_before_year(year: int) -> int {
    365 * (year - 1970) + leap_years_before(year) - leap_years_before(1970)
}

/// How many of the years from 1 to the one before `year` are leap years.
pub open spec fn leap_years_before(year: int) -> int {
    (year - 1) / 4 - (year - 1) / 100 + (year - 1) / 400
}

/// The days from the start of `year` to the start of `month` in it.
pub open spec fn days_before_month(year: int, month: int) -> int
    decreases month,
{
    if month <= 1 {
        0
    } else {
        days_before_month(year, month - 1) + month_length(year, month - 1)
    }
}

/// The days from 1970-01-01 to a date.
pub open spec fn day_number(date: Date) -> int {
    days_before_year(date.year) + days_before_month(date.year, date.month) + date.day - 1
}

/// Whether date `a` comes before date `b`.
pub open spec fn is_before(a: Date, b: Date) -> bool {
    a.year < b.year || (a.year == b.year && (a.month < b.month || (a.month == b.month && a.day
        < b.day)))
}

/// The date that follows a date.
pub open spec fn next_date(date: Date) -> Date {
    if date.day < month_length(date.year, date.month) {
        Date { year: date.year, month: date.month, day: date.day + 1 }
    } else if date.month < 12 {
        Date { year: date.year, month: date.month + 1, day: 1 }
    } else {
        Date { year: date.year + 1, month: 1, day: 1 }
    }
}

/// A year has 365 days, and a leap year one more.
proof fn lemma_year_length(year: int)
    ensures
        days_before_month(year, 12) + 31 == if is_leap_year(year) {
            366
        } else {
            365int
        },
        days_before_year(year + 1) == days_before_year(year) + days_before_month(year, 12) + 31,
{
    reveal_with_fuel(days_before_month, 12);
}

proof fn lemma_later_year(a: int, b: int)
    requires
        a <= b,
    ensures
        days_before_year(a) <= days_before_year(b),
    decreases b - a,
{
    if a < b {
        lemma_later_year(a, b - 1);
        lemma_year_length(b - 1);
    }
}

proof fn lemma_later_month(year: int, a: int, b: int)
    requires
        1 <= a < b,
    ensures
        0 <= days_before_month(year, a),
        days_before_month(year, a) + month_length(year, a) <= days_before_month(year, b),
    decreases b,
{
    if a < b - 1 {
        lemma_later_month(year, a, b - 1);
    } else if a > 1 {
        lemma_later_month(year, a - 1, a);
    }
}

/// A later date has a greater number.
pub proof fn law_later_dates_have_greater_numbers(a: Date, b: Date)
    requires
        is_date(a),
        is_date(b),
        is_before(a, b),
    ensures
        day_number(a) < day_number(b),
{
    if a.year < b.year {
        lemma_year_length(a.year);
        lemma_later_year(a.year + 1, b.year);
        if a.month < 12 {
            lemma_later_month(a.year, a.month, 12);
        }
        lemma_later_month(b.year, b.month, 13);
    } else if a.month < b.month {
        lemma_later_month(a.year, a.month, b.month);
    }
}

/// No two dates have the same number.
pub proof fn law_dates_have_their_own_numbers(a: Date, b: Date)
    requires
        is_date(a),
        is_date(b),
        day_number(a) == day_number(b),
    ensures
        a == b,
{
    if is_before(a, b) {
        law_later_dates_have_greater_numbers(a, b);
    } else if is_before(b, a) {
        law_later_dates_have_greater_numbers(b, a);
    }
}

/// The numbers of dates follow one another as the dates do.
pub proof fn law_next_date_has_next_number(date: Date)
    requires
        is_date(date),
    ensures
        is_date(next_date(date)),
        day_number(next_date(date)) == day_number(date) + 1,
{
    if date.month == 12 {
        lemma_year_length(date.year);
    }
}

} // verus!
