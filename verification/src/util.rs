//! Calendar arithmetic and small integer helpers shared across the crate.

use vstd::prelude::*;

verus! {

/// Gregorian leap-year rule.
pub open spec fn spec_is_leap_year(year: int) -> bool {
    (year % 4 == 0 && year % 100 != 0) || year % 400 == 0
}

/// Number of days in a Gregorian year.
pub open spec fn spec_days_in_year(year: int) -> int {
    if spec_is_leap_year(year) {
        366
    } else {
        365
    }
}

/// Days in a month (1-indexed). Months outside 1..=12 are clamped into that range.
pub open spec fn spec_days_in_month(year: int, month: int) -> int {
    let m = if month < 1 {
        1
    } else if month > 12 {
        12
    } else {
        month
    };
    if m == 2 {
        if spec_is_leap_year(year) {
            29
        } else {
            28
        }
    } else if m == 4 || m == 6 || m == 9 || m == 11 {
        30
    } else {
        31
    }
}

/// Days in the months of a non-leap year that come before the given month (1..=12).
pub open spec fn spec_days_before_month(month: int) -> int {
    if month <= 1 {
        0
    } else if month == 2 {
        31
    } else if month == 3 {
        59
    } else if month == 4 {
        90
    } else if month == 5 {
        120
    } else if month == 6 {
        151
    } else if month == 7 {
        181
    } else if month == 8 {
        212
    } else if month == 9 {
        243
    } else if month == 10 {
        273
    } else if month == 11 {
        304
    } else {
        334
    }
}

/// Day of year of a month/day. Months outside 1..=12 are clamped into that range; the day
/// is not checked against the month's length.
pub open spec fn spec_month_day_to_doy(year: int, month: int, day: int) -> int {
    let m = if month < 1 {
        1
    } else if month > 12 {
        12
    } else {
        month
    };
    spec_days_before_month(m) + day + if spec_is_leap_year(year) && month > 2 {
        1int
    } else {
        0
    }
}

/// Determine whether a year is a leap year per the Gregorian calendar.
pub fn is_leap_year(year: u16) -> (r: bool)
    ensures
        r == spec_is_leap_year(year as int),
{
    (year % 4 == 0 && year % 100 != 0) || year % 400 == 0
}

/// Compute the absolute difference between two `u64` values.
pub fn abs_diff_u64(a: u64, b: u64) -> (r: u64)
    ensures
        r == if a >= b {
            a - b
        } else {
            b - a
        },
{
    if a >= b {
        a - b
    } else {
        b - a
    }
}

/// Returns the number of days in a given month (1-indexed), accounting for leap years.
pub fn days_in_month(year: u16, month: u8) -> (r: u8)
    ensures
        r == spec_days_in_month(year as int, month as int),
{
    let m: u8 = if month < 1 {
        1
    } else if month > 12 {
        12
    } else {
        month
    };
    if m == 2 {
        if is_leap_year(year) {
            29
        } else {
            28
        }
    } else if m == 4 || m == 6 || m == 9 || m == 11 {
        30
    } else {
        31
    }
}

/// Convert month/day to day-of-year.
pub fn month_day_to_doy(year: u16, month: u8, day: u8) -> (r: u16)
    ensures
        r == spec_month_day_to_doy(year as int, month as int, day as int),
{
    let m: u8 = if month < 1 {
        1
    } else if month > 12 {
        12
    } else {
        month
    };
    let before: u16 = if m <= 1 {
        0
    } else if m == 2 {
        31
    } else if m == 3 {
        59
    } else if m == 4 {
        90
    } else if m == 5 {
        120
    } else if m == 6 {
        151
    } else if m == 7 {
        181
    } else if m == 8 {
        212
    } else if m == 9 {
        243
    } else if m == 10 {
        273
    } else if m == 11 {
        304
    } else {
        334
    };
    let mut doy: u16 = before + day as u16;
    if is_leap_year(year) && month > 2 {
        doy = doy + 1;
    }
    doy
}

/// The day of year of the last day of each month is the day of year of the first day of the
/// next month minus one: month/day pairs map one-to-one onto the days of the year.
pub proof fn lemma_month_day_to_doy_in_year(year: int, month: int, day: int)
    requires
        1 <= month <= 12,
        1 <= day <= spec_days_in_month(year, month),
    ensures
        1 <= spec_month_day_to_doy(year, month, day) <= spec_days_in_year(year),
{
}

} // verus!
