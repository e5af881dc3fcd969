//! Day-granularity calendar arithmetic in the proleptic Gregorian calendar.
//!
//! An embargo lifts at midnight UTC of a calendar date, so dates are carried
//! as seconds since the Unix epoch computed from year, month and day.

use vstd::prelude::*;

verus! {

/// Seconds in one day.
pub const DAY_SECONDS: i64 = 86400;

/// Years with 366 days.
pub open spec fn is_leap_year(y: int) -> bool {
    y % 4 == 0 && (y % 100 != 0 || y % 400 == 0)
}

/// Length in days of month `m` (1 = January) of year `y`.
pub open spec fn days_in_month(y: int, m: int) -> int {
    if m == 2 {
        if is_leap_year(y) {
            29
        } else {
            28
        }
    } else if m == 4 || m == 6 || m == 9 || m == 11 {
        30
    } else {
        31
    }
}

/// A calendar date that exists, with a four-digit year.
pub open spec fn valid_date(y: int, m: int, d: int) -> bool {
    0 <= y <= 9999 && 1 <= m <= 12 && 1 <= d <= days_in_month(y, m)
}

/// Days in the years `0 ..= y - 1` (year 0 is a leap year).
pub open spec fn days_before_year(y: int) -> int
    decreases y,
{
    if y <= 0 {
        0
    } else {
        days_before_year(y - 1) + (if is_leap_year(y - 1) {
            366int
        } else {
            365int
        })
    }
}

/// Days in the months `1 ..= m - 1` of year `y`.
pub open spec fn days_before_month(y: int, m: int) -> int
    decreases m,
{
    if m <= 1 {
        0
    } else {
        days_before_month(y, m - 1) + days_in_month(y, m - 1)
    }
}

/// Days from year 0 January 1 to the Unix epoch, 1970 January 1.
pub open spec fn epoch_day_number() -> int {
    719528
}

/// Day index of `y-m-d`, counted from the Unix epoch.
pub open spec fn epoch_day(y: int, m: int, d: int) -> int {
    days_before_year(y) + days_before_month(y, m) + (d - 1) - epoch_day_number()
}

/// Seconds since the Unix epoch at 00:00:00 UTC on `y-m-d`.
pub open spec fn midnight_timestamp(y: int, m: int, d: int) -> int {
    86400 * epoch_day(y, m, d)
}

proof fn lemma_days_before_year_bound(y: int)
    requires
        0 <= y,
    ensures
        365 * y <= days_before_year(y) <= 366 * y,
    decreases y,
{
    if y > 0 {
        lemma_days_before_year_bound(y - 1);
    }
}

proof fn lemma_days_before_month_bound(y: int, m: int)
    requires
        1 <= m <= 13,
    ensures
        0 <= days_before_month(y, m) <= 31 * (m - 1),
    decreases m,
{
    if m > 1 {
        lemma_days_before_month_bound(y, m - 1);
    }
}

/// The timestamp of any valid four-digit-year date fits comfortably in `i64`.
pub proof fn lemma_midnight_timestamp_bound(y: int, m: int, d: int)
    requires
        valid_date(y, m, d),
    ensures
        -62167219200 <= midnight_timestamp(y, m, d) <= 260000000000000,
{
    lemma_days_before_year_bound(y);
    lemma_days_before_month_bound(y, m);
}

fn is_leap_year_x(y: u32) -> (r: bool)
    ensures
        r == is_leap_year(y as int),
{
    y % 4 == 0 && (y % 100 != 0 || y % 400 == 0)
}

pub(crate) fn days_in_month_x(y: u32, m: u32) -> (r: u32)
    ensures
        r == days_in_month(y as int, m as int),
{
    if m == 2 {
        if is_leap_year_x(y) {
            29
        } else {
            28
        }
    } else if m == 4 || m == 6 || m == 9 || m == 11 {
        30
    } else {
        31
    }
}

/// Midnight UTC of the given calendar date, as seconds since the Unix epoch.
pub fn timestamp_at_midnight(y: u32, m: u32, d: u32) -> (r: i64)
    requires
        valid_date(y as int, m as int, d as int),
    ensures
        r == midnight_timestamp(y as int, m as int, d as int),
{
    let mut before_year: i64 = 0;
    let mut yy: u32 = 0;
    while yy < y
        invariant
            0 <= yy <= y <= 9999,
            before_year == days_before_year(yy as int),
            0 <= before_year <= 366 * (yy as int),
        decreases y - yy,
    {
        if is_leap_year_x(yy) {
            before_year = before_year + 366;
        } else {
            before_year = before_year + 365;
        }
        yy = yy + 1;
    }
    let mut before_month: i64 = 0;
    let mut mm: u32 = 1;
    while mm < m
        invariant
            1 <= mm <= m <= 12,
            before_month == days_before_month(y as int, mm as int),
            0 <= before_month <= 31 * ((mm as int) - 1),
        decreases m - mm,
    {
        before_month = before_month + days_in_month_x(y, mm) as i64;
        mm = mm + 1;
    }
    let day_index: i64 = before_year + before_month + (d as i64) - 1 - 719528;
    86400 * day_index
}

} // verus!
