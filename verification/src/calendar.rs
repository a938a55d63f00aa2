//! Calendar arithmetic for the proleptic Gregorian calendar: leap years,
//! month lengths and day-granularity ordering of (year, month, day) triples.

use vstd::prelude::*;

verus! {

/// Leap years in the proleptic Gregorian calendar.
pub open spec fn is_leap_year(y: int) -> bool {
    y % 4 == 0 && (y % 100 != 0 || y % 400 == 0)
}

/// Number of days in month `m` of year `y` (`m` between 1 and 12).
pub open spec fn days_in_month(y: int, m: int) -> int {
    if m == 2 {
        if is_leap_year(y) {
            29
        } else {
            28
        }
    } else if m == 4 || m == 6 || m == 9 || m == 11 {
        30
    } else {
        31
    }
}

/// Last day of the given month, leap-year aware.
pub fn last_day_of_month(year: i32, month: u32) -> (r: u32)
    requires
        1 <= year,
        1 <= month <= 12,
    ensures
        r == days_in_month(year as int, month as int),
{
    if month == 2 {
        if year % 4 == 0 && (year % 100 != 0 || year % 400 == 0) {
            29
        } else {
            28
        }
    } else if month == 4 || month == 6 || month == 9 || month == 11 {
        30
    } else {
        31
    }
}

/// The date (y1, m1, d1) is on or before (y2, m2, d2).
pub open spec fn date_le(y1: int, m1: int, d1: int, y2: int, m2: int, d2: int) -> bool {
    y1 < y2 || (y1 == y2 && (m1 < m2 || (m1 == m2 && d1 <= d2)))
}

/// Compare two dates at day granularity.
pub fn date_le_exec(y1: i32, m1: u32, d1: u32, y2: i32, m2: u32, d2: u32) -> (r: bool)
    ensures
        r == date_le(y1 as int, m1 as int, d1 as int, y2 as int, m2 as int, d2 as int),
{
    y1 < y2 || (y1 == y2 && (m1 < m2 || (m1 == m2 && d1 <= d2)))
}

} // verus!
