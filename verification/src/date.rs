//! Calendar dates as day numbers in the proleptic Gregorian calendar.
//!
//! A `Date` holds the number of days since 0001-01-01 (day 0). Day numbers
//! order chronologically, advance by one per calendar day, and are produced
//! from a year/month/day triple or an ISO `YYYY-MM-DD` string.

use vstd::prelude::*;

use crate::parse::{digit_val, is_digit};

verus! {

/// A calendar date, held as days since 0001-01-01 (day 0).
#[derive(Debug, Clone, Copy, PartialEq, Eq, Structural)]
pub struct Date {
    pub days: i64,
}

/// Gregorian leap-year rule.
pub open spec fn is_leap_year(y: int) -> bool {
    y % 4 == 0 && (y % 100 != 0 || y % 400 == 0)
}

/// Number of leap years in `1..=y`.
pub open spec fn leap_count(y: int) -> int {
    y / 4 - y / 100 + y / 400
}

/// Days in a month of a given year.
pub open spec fn days_in_month(y: int, m: int) -> int {
    if m == 2 {
        if is_leap_year(y) {
            29
        } else {
            28
        }
    } else if m == 4 || m == 6 || m == 9 || m == 11 {
        30
    } else {
        31
    }
}

/// Days of the year that precede the first of month `m`.
pub open spec fn days_before_month(y: int, m: int) -> int {
    let base: int = if m == 1 {
        0
    } else if m == 2 {
        31
    } else if m == 3 {
        59
    } else if m == 4 {
        90
    } else if m == 5 {
        120
    } else if m == 6 {
        151
    } else if m == 7 {
        181
    } else if m == 8 {
        212
    } else if m == 9 {
        243
    } else if m == 10 {
        273
    } else if m == 11 {
        304
    } else {
        334
    };
    if m > 2 && is_leap_year(y) {
        base + 1
    } else {
        base
    }
}

/// A year/month/day triple that names a real calendar day, with a four-digit
/// year as in the ISO format.
pub open spec fn valid_ymd(y: int, m: int, d: int) -> bool {
    &&& 1 <= y <= 9999
    &&& 1 <= m <= 12
    &&& 1 <= d <= days_in_month(y, m)
}

/// Day number of a calendar day: days since 0001-01-01.
pub open spec fn day_number(y: int, m: int, d: int) -> int {
    365 * (y - 1) + leap_count(y - 1) + days_before_month(y, m) + (d - 1)
}

impl Date {
    /// Builds the date for a year/month/day triple, or `None` when the triple
    /// does not name a real calendar day.
    pub fn from_ymd(year: i64, month: i64, day: i64) -> (r: Option<Date>)
        ensures
            r matches Some(date) ==> valid_ymd(year as int, month as int, day as int)
                && date.days == day_number(year as int, month as int, day as int),
            r is None ==> !valid_ymd(year as int, month as int, day as int),
    {
        if year < 1 || year > 9999 || month < 1 || month > 12 {
            return None;
        }
        let leap: bool = year % 4 == 0 && (year % 100 != 0 || year % 400 == 0);
        let month_len: i64 = if month == 2 {
            if leap {
                29
            } else {
                28
            }
        } else if month == 4 || month == 6 || month == 9 || month == 11 {
            30
        } else {
            31
        };
        if day < 1 || day > month_len {
            return None;
        }
        let before: i64 = if month == 1 {
            0
        } else if month == 2 {
            31
        } else if month == 3 {
            59
        } else if month == 4 {
            90
        } else if month == 5 {
            120
        } else if month == 6 {
            151
        } else if month == 7 {
            181
        } else if month == 8 {
            212
        } else if month == 9 {
            243
        } else if month == 10 {
            273
        } else if month == 11 {
            304
        } else {
            334
        };
        let before: i64 = if month > 2 && leap {
            before + 1
        } else {
            before
        };
        let prev: i64 = year - 1;
        let days: i64 = 365 * prev + prev / 4 - prev / 100 + prev / 400 + before + (day - 1);
        Some(Date { days })
    }

    /// Parses an ISO `YYYY-MM-DD` date string, or `None` when the string
    /// has another shape or does not name a real calendar day.
    pub fn parse_iso(s: &str) -> (r: Option<Date>)
        ensures
            r == parse_iso_result(s@),
    {
        if s.unicode_len() != 10 {
            return None;
        }
        if s.get_char(4) != '-' || s.get_char(7) != '-' {
            return None;
        }
        let d0 = match digit_at(s, 0) {
            Some(v) => v,
            None => {
                return None;
            },
        };
        let d1 = match digit_at(s, 1) {
            Some(v) => v,
            None => {
                return None;
            },
        };
        let d2 = match digit_at(s, 2) {
            Some(v) => v,
            None => {
                return None;
            },
        };
        let d3 = match digit_at(s, 3) {
            Some(v) => v,
            None => {
                return None;
            },
        };
        let d5 = match digit_at(s, 5) {
            Some(v) => v,
            None => {
                return None;
            },
        };
        let d6 = match digit_at(s, 6) {
            Some(v) => v,
            None => {
                return None;
            },
        };
        let d8 = match digit_at(s, 8) {
            Some(v) => v,
            None => {
                return None;
            },
        };
        let d9 = match digit_at(s, 9) {
            Some(v) => v,
            None => {
                return None;
            },
        };
        let year = d0 * 1000 + d1 * 100 + d2 * 10 + d3;
        let month = d5 * 10 + d6;
        let day = d8 * 10 + d9;
        Date::from_ymd(year, month, day)
    }
}

/// The value of the decimal digit at one position of a string, or `None`
/// when the character there is no digit.
fn digit_at(s: &str, i: usize) -> (r: Option<i64>)
    requires
        i < s@.len(),
    ensures
        r matches Some(v) ==> is_digit(s@[i as int]) && v == digit_val(s@[i as int]),
        r is None ==> !is_digit(s@[i as int]),
{
    let c = s.get_char(i);
    let v = c as u32;
    if v >= 48 && v <= 57 {
        Some((v - 48) as i64)
    } else {
        None
    }
}

/// In `1..=y` there is one more leap year than in `1..=y-1` exactly when
/// `y` itself is one.
proof fn lemma_leap_count_step(y: int)
    requires
        y >= 1,
    ensures
        leap_count(y) == leap_count(y - 1) + (if is_leap_year(y) {
            1int
        } else {
            0int
        }),
{
}

/// The first of the next month follows the last day of this one.
proof fn lemma_days_before_month_step(y: int, m: int)
    requires
        1 <= m <= 11,
    ensures
        days_before_month(y, m + 1) == days_before_month(y, m) + days_in_month(y, m),
{
}

/// Every day of a year lies between the year's first day and its length.
proof fn lemma_day_of_year_bounds(y: int, m: int, d: int)
    requires
        valid_ymd(y, m, d),
    ensures
        0 <= days_before_month(y, m) + (d - 1),
        days_before_month(y, m) + (d - 1) < 365 + (if is_leap_year(y) {
            1int
        } else {
            0int
        }),
{
}

/// Months advance the day of the year.
proof fn lemma_days_before_month_monotone(y: int, m1: int, m2: int, d1: int)
    requires
        1 <= m1 < m2 <= 12,
        1 <= d1 <= days_in_month(y, m1),
    ensures
        days_before_month(y, m1) + (d1 - 1) < days_before_month(y, m2),
    decreases m2 - m1,
{
    lemma_days_before_month_step(y, m1);
    if m1 + 1 < m2 {
        lemma_days_before_month_monotone(y, m1 + 1, m2, 1);
    }
}

/// New Year's Day advances with the year.
proof fn lemma_year_start_monotone(y1: int, y2: int)
    requires
        1 <= y1 < y2,
    ensures
        day_number(y1, 1, 1) < day_number(y2, 1, 1),
        day_number(y1, 12, 31) < day_number(y2, 1, 1),
    decreases y2 - y1,
{
    lemma_leap_count_step(y1);
    assert(day_number(y1 + 1, 1, 1) == day_number(y1, 12, 31) + 1);
    if y1 + 1 < y2 {
        lemma_year_start_monotone(y1 + 1, y2);
    }
}

/// Calendar order is day-number order: an earlier calendar day has a
/// strictly smaller day number, so sorting observations by day number sorts
/// them chronologically.
pub proof fn lemma_day_number_orders_dates(
    y1: int,
    m1: int,
    d1: int,
    y2: int,
    m2: int,
    d2: int,
)
    requires
        valid_ymd(y1, m1, d1),
        valid_ymd(y2, m2, d2),
        y1 < y2 || (y1 == y2 && m1 < m2) || (y1 == y2 && m1 == m2 && d1 < d2),
    ensures
        day_number(y1, m1, d1) < day_number(y2, m2, d2),
{
    if y1 == y2 {
        if m1 < m2 {
            lemma_days_before_month_monotone(y1, m1, m2, d1);
        }
    } else {
        lemma_day_of_year_bounds(y1, m1, d1);
        lemma_day_of_year_bounds(y2, m2, d2);
        lemma_days_before_month_step(y1, 11);
        lemma_year_start_monotone(y1, y2);
        assert(day_number(y1, m1, d1) <= day_number(y1, 12, 31));
        assert(day_number(y2, 1, 1) <= day_number(y2, m2, d2));
    }
}

/// Whether a character sequence has the ISO `YYYY-MM-DD` shape.
pub open spec fn iso_shape(s: Seq<char>) -> bool {
    &&& s.len() == 10
    &&& s[4] == '-'
    &&& s[7] == '-'
    &&& is_digit(s[0])
    &&& is_digit(s[1])
    &&& is_digit(s[2])
    &&& is_digit(s[3])
    &&& is_digit(s[5])
    &&& is_digit(s[6])
    &&& is_digit(s[8])
    &&& is_digit(s[9])
}

/// The year named by an ISO date string.
pub open spec fn iso_year(s: Seq<char>) -> int {
    digit_val(s[0]) * 1000 + digit_val(s[1]) * 100 + digit_val(s[2]) * 10 + digit_val(s[3])
}

/// The month named by an ISO date string.
pub open spec fn iso_month(s: Seq<char>) -> int {
    digit_val(s[5]) * 10 + digit_val(s[6])
}

/// The day of the month named by an ISO date string.
pub open spec fn iso_day(s: Seq<char>) -> int {
    digit_val(s[8]) * 10 + digit_val(s[9])
}

/// What `parse_iso` returns: the date an ISO string names, when it names
/// a real calendar day.
pub open spec fn parse_iso_result(s: Seq<char>) -> Option<Date> {
    if iso_shape(s) && valid_ymd(iso_year(s), iso_month(s), iso_day(s)) {
        Some(Date { days: day_number(iso_year(s), iso_month(s), iso_day(s)) as i64 })
    } else {
        None::<Date>
    }
}

} // verus!
