//! Calendar arithmetic for the timestamps of run manifests.
//!
//! A timestamp is written in the ISO 8601 form `YYYY-MM-DDTHH:MM:SSZ` from a
//! count of seconds since the Unix epoch, 1970-01-01 00:00:00 UTC, in the
//! proleptic Gregorian calendar.

use vstd::prelude::*;
use crate::text::{chars_to_string, push_all, zero_padded, zero_padded_chars};

verus! {

/// Whether `y` is a leap year of the Gregorian calendar.
pub open spec fn is_leap(y: int) -> bool {
    (y % 4 == 0 && y % 100 != 0) || y % 400 == 0
}

/// Number of days of year `y`.
pub open spec fn year_len(y: int) -> int {
    if is_leap(y) {
        366
    } else {
        365
    }
}

/// Number of days of month `m` (1 to 12) of year `y`.
pub open spec fn month_len(y: int, m: int) -> int {
    if m == 2 {
        if is_leap(y) {
            29
        } else {
            28
        }
    } else if m == 4 || m == 6 || m == 9 || m == 11 {
        30
    } else {
        31
    }
}

/// The year and the day within it (from 0) reached by counting `d` days
/// forward from the first day of year `y`.
pub open spec fn walk_years(y: int, d: int) -> (int, int)
    decreases d,
{
    if d < year_len(y) {
        (y, d)
    } else {
        walk_years(y + 1, d - year_len(y))
    }
}

/// The month and the day within it (from 0) reached by counting `d` days
/// forward from the first day of month `m` of year `y`; counting stops
/// after December.
pub open spec fn walk_months(y: int, m: int, d: int) -> (int, int)
    decreases 13 - m,
{
    if m > 12 || d < month_len(y, m) {
        (m, d)
    } else {
        walk_months(y, m + 1, d - month_len(y, m))
    }
}

/// The calendar date `(year, month, day)` of the day `days` days after
/// 1970-01-01.
pub open spec fn civil_from_days(days: nat) -> (int, int, int) {
    let (y, doy) = walk_years(1970, days as int);
    let (m, r) = walk_months(y, 1, doy);
    (y, m, r + 1)
}

/// Number of days from 1970-01-01 to the first day of year `y`.
pub open spec fn days_before_year(y: int) -> int
    decreases y - 1970,
{
    if y <= 1970 {
        0
    } else {
        days_before_year(y - 1) + year_len(y - 1)
    }
}

/// Number of days of year `y` before the first day of month `m`.
pub open spec fn days_before_month(y: int, m: int) -> int
    decreases m,
{
    if m <= 1 {
        0
    } else {
        days_before_month(y, m - 1) + month_len(y, m - 1)
    }
}

/// Number of days from 1970-01-01 to the date `(y, m, d)`.
pub open spec fn day_number(y: int, m: int, d: int) -> int {
    days_before_year(y) + days_before_month(y, m) + d - 1
}

/// Whether `(y, m, d)` is a date of the calendar.
pub open spec fn valid_date(y: int, m: int, d: int) -> bool {
    1 <= m <= 12 && 1 <= d <= month_len(y, m)
}

/// The timestamp text of `secs` seconds after the epoch.
pub open spec fn timestamp_text(secs: nat) -> Seq<char> {
    let (y, m, d) = civil_from_days(secs / 86400);
    let rem = secs % 86400;
    zero_padded(y as nat, 4) + seq!['-'] + zero_padded(m as nat, 2) + seq!['-'] + zero_padded(
        d as nat,
        2,
    ) + seq!['T'] + zero_padded(rem / 3600, 2) + seq![':'] + zero_padded((rem % 3600) / 60, 2)
        + seq![':'] + zero_padded(rem % 60, 2) + seq!['Z']
}

/// Counting forward never goes back to an earlier year.
pub proof fn lemma_walk_years_forward(y: int, d: int)
    ensures
        walk_years(y, d).0 >= y,
        d >= 0 ==> 0 <= walk_years(y, d).1 < year_len(walk_years(y, d).0),
        y >= 1970 ==> days_before_year(y) + d == days_before_year(walk_years(y, d).0) + walk_years(
            y,
            d,
        ).1,
    decreases d,
{
    if d >= year_len(y) {
        lemma_walk_years_forward(y + 1, d - year_len(y));
    }
}

/// Days left in year `y` from the first day of month `m`.
pub open spec fn rest_of_year(y: int, m: int) -> int
    decreases 13 - m,
{
    if m > 12 {
        0
    } else {
        month_len(y, m) + rest_of_year(y, m + 1)
    }
}

/// Counting fewer days than are left in the year ends in a month of the
/// year, on one of its days.
pub proof fn lemma_walk_months_in_year(y: int, m: int, d: int)
    requires
        1 <= m <= 13,
        0 <= d < rest_of_year(y, m),
    ensures
        m <= walk_months(y, m, d).0 <= 12,
        0 <= walk_months(y, m, d).1 < month_len(y, walk_months(y, m, d).0),
        days_before_month(y, m) + d == days_before_month(y, walk_months(y, m, d).0) + walk_months(
            y,
            m,
            d,
        ).1,
    decreases 13 - m,
{
    if m <= 12 && d >= month_len(y, m) {
        lemma_walk_months_in_year(y, m + 1, d - month_len(y, m));
    }
}

/// The months of a year add up to the year.
pub proof fn lemma_months_fill_year(y: int)
    ensures
        rest_of_year(y, 1) == year_len(y),
{
    reveal_with_fuel(rest_of_year, 13);
}

/// Every day count names a valid date, and counting the days up to that
/// date gives the count back.
pub proof fn lemma_civil_roundtrip(days: nat)
    ensures
        valid_date(civil_from_days(days).0, civil_from_days(days).1, civil_from_days(days).2),
        day_number(civil_from_days(days).0, civil_from_days(days).1, civil_from_days(days).2)
            == days,
        civil_from_days(days).0 >= 1970,
{
    let (y, doy) = walk_years(1970, days as int);
    lemma_walk_years_forward(1970, days as int);
    lemma_months_fill_year(y);
    lemma_walk_months_in_year(y, 1, doy);
}

/// The calendar day after `(y, m, d)`.
pub open spec fn next_date(y: int, m: int, d: int) -> (int, int, int) {
    if d < month_len(y, m) {
        (y, m, d + 1)
    } else if m < 12 {
        (y, m + 1, 1)
    } else {
        (y + 1, 1, 1)
    }
}

/// Counting one day more moves the year walk one day on: within the year,
/// or to the first day of the next year.
proof fn lemma_walk_years_step(y: int, d: int)
    requires
        d >= 0,
    ensures
        ({
            let (wy, r) = walk_years(y, d);
            walk_years(y, d + 1) == if r + 1 < year_len(wy) {
                (wy, r + 1)
            } else {
                (wy + 1, 0int)
            }
        }),
    decreases d,
{
    if d >= year_len(y) {
        lemma_walk_years_step(y + 1, d - year_len(y));
        assert(walk_years(y, d + 1) == walk_years(y + 1, d + 1 - year_len(y)));
    } else if d + 1 >= year_len(y) {
        assert(walk_years(y, d + 1) == walk_years(y + 1, 0));
        assert(walk_years(y + 1, 0) == (y + 1, 0int));
    }
}

/// Counting one day more moves the month walk one day on: within the
/// month, or to the first day of the next month.
proof fn lemma_walk_months_step(y: int, m0: int, d: int)
    requires
        1 <= m0,
        d >= 0,
        walk_months(y, m0, d).0 <= 12,
    ensures
        ({
            let (m, q) = walk_months(y, m0, d);
            walk_months(y, m0, d + 1) == if q + 1 < month_len(y, m) {
                (m, q + 1)
            } else {
                (m + 1, 0int)
            }
        }),
    decreases 13 - m0,
{
    if m0 <= 12 && d >= month_len(y, m0) {
        lemma_walk_months_step(y, m0 + 1, d - month_len(y, m0));
        assert(walk_months(y, m0, d + 1) == walk_months(y, m0 + 1, d + 1 - month_len(y, m0)));
    } else if d + 1 >= month_len(y, m0) {
        assert(walk_months(y, m0, d + 1) == walk_months(y, m0 + 1, 0));
        if m0 + 1 <= 12 {
            assert(walk_months(y, m0 + 1, 0) == (m0 + 1, 0int));
        } else {
            assert(walk_months(y, m0 + 1, 0) == (m0 + 1, 0int));
        }
    }
}

/// The days before month `m` and the days from it to the end of the year
/// make up the year.
proof fn lemma_month_split(y: int, m: int)
    requires
        1 <= m <= 13,
    ensures
        days_before_month(y, m) + rest_of_year(y, m) == year_len(y),
    decreases m,
{
    if m == 1 {
        lemma_months_fill_year(y);
    } else {
        lemma_month_split(y, m - 1);
    }
}

/// The day after a day count's date is the date of the next day count: the
/// day within its month, then the first of the next month, then the first
/// of January of the next year.
pub proof fn lemma_next_day(days: nat)
    ensures
        ({
            let (y, m, d) = civil_from_days(days);
            civil_from_days(days + 1) == next_date(y, m, d)
        }),
{
    let (y, doy) = walk_years(1970, days as int);
    lemma_walk_years_forward(1970, days as int);
    lemma_months_fill_year(y);
    lemma_walk_months_in_year(y, 1, doy);
    lemma_walk_years_step(1970, days as int);
    let (m, q) = walk_months(y, 1, doy);
    lemma_walk_months_step(y, 1, doy);
    lemma_month_split(y, m);
    lemma_month_split(y, m + 1);
    assert(days_before_month(y, 1) == 0);
    assert(rest_of_year(y, m) == month_len(y, m) + rest_of_year(y, m + 1));
    if m < 12 {
        assert(rest_of_year(y, m + 1) == month_len(y, m + 1) + rest_of_year(y, m + 2));
        assert(month_len(y, m + 1) >= 28);
        assert(rest_of_year(y, m + 2) >= 0) by {
            lemma_month_split(y, m + 2);
            lemma_days_before_month_bound(y, m + 2);
        }
    } else {
        assert(rest_of_year(y, 13) == 0);
    }
    if q + 1 == month_len(y, m) && m == 12 {
        assert(doy + 1 == year_len(y));
        assert(walk_years(1970, days + 1 as int) == (y + 1, 0int));
        assert(walk_months(y + 1, 1, 0) == (1int, 0int));
    } else {
        assert(doy + 1 < year_len(y));
    }
}

/// The days before month `m` are at most the days of the year.
proof fn lemma_days_before_month_bound(y: int, m: int)
    requires
        1 <= m <= 13,
    ensures
        rest_of_year(y, m) >= 0,
    decreases 13 - m,
{
    if m <= 12 {
        lemma_days_before_month_bound(y, m + 1);
    }
}

/// Whether `year` is a leap year of the Gregorian calendar.
pub fn is_leap_year(year: i32) -> (r: bool)
    ensures
        r == is_leap(year as int),
{
    (year % 4 == 0 && year % 100 != 0) || (year % 400 == 0)
}

/// The calendar date `(year, month, day)` of the day `days` days after
/// 1970-01-01. The year must fit in an `i32`.
pub fn days_to_ymd(days: u64) -> (r: (i32, u32, u32))
    requires
        walk_years(1970, days as int).0 <= i32::MAX,
    ensures
        (r.0 as int, r.1 as int, r.2 as int) == civil_from_days(days as nat),
        valid_date(r.0 as int, r.1 as int, r.2 as int),
{
    let ghost target = walk_years(1970, days as int);
    let mut year: i32 = 1970;
    let mut remaining: u64 = days;
    loop
        invariant
            walk_years(year as int, remaining as int) == target,
            target.0 <= i32::MAX,
            year >= 1970,
        ensures
            walk_years(year as int, remaining as int) == target,
            remaining < year_len(year as int),
            year >= 1970,
        decreases remaining,
    {
        let days_in_year: u64 = if is_leap_year(year) {
            366
        } else {
            365
        };
        if remaining < days_in_year {
            break;
        }
        proof {
            lemma_walk_years_forward(year + 1, remaining - days_in_year);
        }
        remaining = remaining - days_in_year;
        year = year + 1;
    }
    let leap = is_leap_year(year);
    let ghost doy = remaining as int;
    let ghost mtarget = walk_months(year as int, 1, doy);
    proof {
        lemma_walk_years_forward(year as int, remaining as int);
        lemma_months_fill_year(year as int);
        lemma_walk_months_in_year(year as int, 1, doy);
    }
    let mut month: u32 = 1;
    loop
        invariant
            1 <= month <= 12,
            walk_months(year as int, month as int, remaining as int) == mtarget,
            leap == is_leap(year as int),
            1 <= mtarget.0 <= 12,
        ensures
            1 <= month <= 12,
            mtarget == (month as int, remaining as int),
        decreases 13 - month,
    {
        let days_in_month: u64 = if month == 2 {
            if leap {
                29
            } else {
                28
            }
        } else if month == 4 || month == 6 || month == 9 || month == 11 {
            30
        } else {
            31
        };
        assert(days_in_month == month_len(year as int, month as int));
        if remaining < days_in_month {
            break;
        }
        if month == 12 {
            assert(walk_months(year as int, 13, remaining - days_in_month) == (13int, remaining
                - days_in_month));
        }
        remaining = remaining - days_in_month;
        month = month + 1;
    }
    let day = (remaining + 1) as u32;
    (year, month, day)
}

/// An ISO 8601 timestamp `YYYY-MM-DDTHH:MM:SSZ` for `secs` seconds after
/// the Unix epoch. The year must fit in an `i32`.
pub fn chrono_like_timestamp(secs: u64) -> (r: String)
    requires
        walk_years(1970, (secs / 86400) as int).0 <= i32::MAX,
    ensures
        r@ == timestamp_text(secs as nat),
{
    let days = secs / 86400;
    let remaining = secs % 86400;
    let hours = remaining / 3600;
    let minutes = (remaining % 3600) / 60;
    let seconds = remaining % 60;
    let (year, month, day) = days_to_ymd(days);
    proof {
        lemma_civil_roundtrip(days as nat);
    }
    let mut out = zero_padded_chars(year as u64, 4);
    out.push('-');
    let m = zero_padded_chars(month as u64, 2);
    push_all(&mut out, &m);
    out.push('-');
    let d = zero_padded_chars(day as u64, 2);
    push_all(&mut out, &d);
    out.push('T');
    let h = zero_padded_chars(hours, 2);
    push_all(&mut out, &h);
    out.push(':');
    let mi = zero_padded_chars(minutes, 2);
    push_all(&mut out, &mi);
    out.push(':');
    let s = zero_padded_chars(seconds, 2);
    push_all(&mut out, &s);
    out.push('Z');
    assert(out@ =~= timestamp_text(secs as nat));
    chars_to_string(&out)
}

/// The platform that a run manifest records: operating system,
/// architecture and compiler version. The program reads them from its
/// environment.
#[derive(Debug, Clone)]
pub struct PlatformInfo {
    /// Operating system.
    pub os: String,
    /// Architecture.
    pub arch: String,
    /// Version of the Rust compiler that built the program.
    pub rust_version: String,
}

} // verus!
