//! The Gregorian calendar, counted in days.
use vstd::prelude::*;

verus! {

/// A date, as year, month and day of the month.
#[verifier::ext_equal]
pub struct Date {
    pub year: int,
    pub month: int,
    pub day: int,
}

/// Whether a year has a 29th of February.
pub open spec fn is_leap(year: int) -> bool {
    year % 4 == 0 && (year % 100 != 0 || year % 400 == 0)
}

/// How many days a month has.
pub open spec fn days_in_month(year: int, month: int) -> int {
    if month == 2 {
        if is_leap(year) {
            29
        } else {
            28
        }
    } else if month == 4 || month == 6 || month == 9 || month == 11 {
        30
    } else {
        31
    }
}

/// How many days of a year lie before a month.
pub open spec fn days_before_month(year: int, month: int) -> int
    decreases month,
{
    if month <= 1 {
        0
    } else {
        days_before_month(year, month - 1) + days_in_month(year, month - 1)
    }
}

/// How many days lie between the first day of the year 1 and that of a year.
pub open spec fn days_before_year(year: int) -> int {
    365 * (year - 1) + (year - 1) / 4 - (year - 1) / 100 + (year - 1) / 400
}

/// The date is one of the calendar.
pub open spec fn is_date(date: Date) -> bool {
    &&& 1 <= date.year
    &&& 1 <= date.month <= 12
    &&& 1 <= date.day <= days_in_month(date.year, date.month)
}

/// How many days lie between the first of January 1970 and a date.
pub open spec fn day_number(date: Date) -> int {
    days_before_year(date.year) - 719162 + days_before_month(date.year, date.month) + date.day - 1
}

/// The date so many days after the first of January 1970.
pub open spec fn date_of(days: int) -> Date {
    choose|date: Date| is_date(date) && #[trigger] day_number(date) == days
}

/// A year is as long as its days.
proof fn lemma_year_length(year: int)
    requires
        1 <= year,
    ensures
        days_before_year(year + 1) == days_before_year(year) + if is_leap(year) {
            366int
        } else {
            365int
        },
{
}

/// Later years begin later.
proof fn lemma_years_grow(a: int, b: int)
    requires
        1 <= a <= b,
    ensures
        days_before_year(a) + 365 * (b - a) <= days_before_year(b) <= days_before_year(a) + 366 * (
        b - a),
    decreases b - a,
{
    if a < b {
        lemma_years_grow(a, b - 1);
        lemma_year_length(b - 1);
    }
}

/// How the months of a year lie.
proof fn lemma_months(year: int)
    ensures
        days_before_month(year, 1) == 0,
        days_before_month(year, 2) == 31,
        days_before_month(year, 3) == 31 + days_in_month(year, 2),
        days_before_month(year, 4) == 62 + days_in_month(year, 2),
        days_before_month(year, 5) == 92 + days_in_month(year, 2),
        days_before_month(year, 6) == 123 + days_in_month(year, 2),
        days_before_month(year, 7) == 153 + days_in_month(year, 2),
        days_before_month(year, 8) == 184 + days_in_month(year, 2),
        days_before_month(year, 9) == 215 + days_in_month(year, 2),
        days_before_month(year, 10) == 245 + days_in_month(year, 2),
        days_before_month(year, 11) == 276 + days_in_month(year, 2),
        days_before_month(year, 12) == 306 + days_in_month(year, 2),
{
    reveal_with_fuel(days_before_month, 13);
}

/// The days of a year lie within it.
proof fn lemma_day_of_year(date: Date)
    requires
        is_date(date),
    ensures
        days_before_year(date.year) - 719162 <= day_number(date) < days_before_year(date.year + 1)
            - 719162,
{
    lemma_months(date.year);
    lemma_year_length(date.year);
}

/// No two dates lie the same number of days after the first of January 1970.
pub proof fn lemma_dates_differ(a: Date, b: Date)
    requires
        is_date(a),
        is_date(b),
        day_number(a) == day_number(b),
    ensures
        a == b,
{
    lemma_day_of_year(a);
    lemma_day_of_year(b);
    if a.year < b.year {
        lemma_years_grow(a.year + 1, b.year);
    } else if b.year < a.year {
        lemma_years_grow(b.year + 1, a.year);
    }
    lemma_months(a.year);
}

/// Counting days to a date and back gives the date.
pub proof fn lemma_date_of(date: Date)
    requires
        is_date(date),
    ensures
        date_of(day_number(date)) == date,
{
    lemma_dates_differ(date, date_of(day_number(date)));
}

/// The years of the dates close to the first of January 1970.
pub proof fn lemma_year_bounds(date: Date)
    requires
        is_date(date),
        -1 <= day_number(date) <= 213506,
    ensures
        1969 <= date.year <= 2556,
{
    lemma_day_of_year(date);
    if date.year < 1969 {
        lemma_years_grow(date.year + 1, 1969);
    }
    if date.year > 2556 {
        lemma_years_grow(2557, date.year);
    }
}

/// Every day from the first of the year 1 on has a date.
pub proof fn lemma_every_day_has_a_date(days: int)
    requires
        days >= -719162,
    ensures
        is_date(date_of(days)),
        day_number(date_of(days)) == days,
    decreases days + 719162,
{
    if days == -719162 {
        let date = Date { year: 1, month: 1, day: 1 };
        assert(is_date(date) && day_number(date) == days);
    } else {
        lemma_every_day_has_a_date(days - 1);
        let before = date_of(days - 1);
        lemma_months(before.year);
        lemma_year_length(before.year);
        let date = if before.day < days_in_month(before.year, before.month) {
            Date { day: before.day + 1, ..before }
        } else if before.month < 12 {
            Date { month: before.month + 1, day: 1, ..before }
        } else {
            Date { year: before.year + 1, month: 1, day: 1 }
        };
        lemma_months(date.year);
        assert(is_date(date) && day_number(date) == days);
    }
}

/// Of two dates, the one that lies earlier has the lower year, or the lower month
/// of the same year, or the lower day of the same month.
pub proof fn lemma_earlier_date(a: Date, b: Date)
    requires
        is_date(a),
        is_date(b),
        day_number(a) < day_number(b),
    ensures
        a.year < b.year || (a.year == b.year && (a.month < b.month || (a.month == b.month && a.day
            < b.day))),
{
    lemma_day_of_year(a);
    lemma_day_of_year(b);
    if b.year < a.year {
        lemma_years_grow(b.year + 1, a.year);
    }
    if a.year == b.year {
        lemma_months(a.year);
    }
}

} // verus!
