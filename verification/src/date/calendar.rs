//! The rules of the Gregorian calendar.

use vstd::prelude::*;
use crate::date::date::Date;

verus! {

/// Whether `y` is a leap year: every fourth year, but of the centuries only
/// every fourth.
pub open spec fn is_leap(y: int) -> bool {
    (y % 4 == 0 && y % 100 != 0) || y % 400 == 0
}

/// How many days the year `y` has.
pub open spec fn year_len(y: int) -> int {
    if is_leap(y) {
        366
    } else {
        365
    }
}

/// How many days month `m` of year `y` has; 31 for a month that the calendar
/// does not have.
pub open spec fn days_in_month(y: int, m: int) -> int {
    if m == 4 || m == 6 || m == 9 || m == 11 {
        30
    } else if m == 2 {
        if is_leap(y) {
            29
        } else {
            28
        }
    } else {
        31
    }
}

/// Whether the fields name a day of the calendar and a time of that day. A
/// second of 60 is let through, for the leap second.
pub open spec fn valid_calendar(y: int, m: int, d: int, h: int, min: int, s: int) -> bool {
    &&& 1 <= m <= 12
    &&& h <= 23
    &&& min <= 59
    &&& s <= 60
    &&& 1 <= d <= days_in_month(y, m)
}

impl Date {
    /// Whether the date names a day of the calendar and a time of that day.
    pub open spec fn valid(self) -> bool {
        valid_calendar(
            self.year as int,
            self.month as int,
            self.day as int,
            self.hour as int,
            self.minute as int,
            self.second as int,
        )
    }
}

/// The remainder of `a` by `b` with the sign of `a`, as the machine divides.
pub open spec fn rem_toward_zero(a: int, b: int) -> int {
    if a >= 0 {
        a % b
    } else {
        -((-a) % b)
    }
}

/// The last two digits of a year, with the sign of the year.
pub fn short_year(y: i32) -> (r: i32)
    ensures
        r == rem_toward_zero(y as int, 100),
{
    y % 100
}

/// Whether `y` is a leap year.
pub fn leap_year(y: i32) -> (r: bool)
    ensures
        r == is_leap(y as int),
{
    (y % 4 == 0 && y % 100 != 0) || (y % 400 == 0)
}

/// How many days month `m` of year `y` has.
pub fn month_len(y: i32, m: u8) -> (n: u8)
    ensures
        n == days_in_month(y as int, m as int),
{
    if m == 4 || m == 6 || m == 9 || m == 11 {
        30
    } else if m == 2 {
        if leap_year(y) {
            29
        } else {
            28
        }
    } else {
        31
    }
}

/// Whether the fields name a day of the calendar and a time of that day.
pub fn calendar_valid(y: i32, m: u8, d: u8, h: u8, min: u8, s: u8) -> (r: bool)
    ensures
        r == valid_calendar(y as int, m as int, d as int, h as int, min as int, s as int),
{
    if m < 1 || m > 12 || h > 23 || min > 59 || s > 60 {
        return false;
    }
    d >= 1 && d <= month_len(y, m)
}

} // verus!
