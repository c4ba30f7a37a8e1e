//! UTC timestamps in the proleptic Gregorian calendar, as shown in the
//! server's status line: `YYYY-MM-DD_hh-mm-ss`.

use vstd::prelude::*;
use vstd::arithmetic::div_mod::{lemma_hoist_over_denominator, lemma_mod_multiples_vanish};

use crate::text::{decimal, padded_decimal, zero_pad};

verus! {

// ---- the calendar -------------------------------------------------------------------

/// Gregorian leap years: every fourth year, except centuries not divisible
/// by 400.
pub open spec fn is_leap(y: int) -> bool {
    (y % 4 == 0 && y % 100 != 0) || y % 400 == 0
}

pub open spec fn year_len(leap: bool) -> int {
    if leap {
        366
    } else {
        365
    }
}

/// The number of days of month `m` (1 to 12).
pub open spec fn month_len(leap: bool, m: int) -> int {
    if m == 2 {
        if leap {
            29
        } else {
            28
        }
    } else if m == 4 || m == 6 || m == 9 || m == 11 {
        30
    } else {
        31
    }
}

/// The days of the year before the first of month `m`.
pub open spec fn days_before_month(leap: bool, m: int) -> int
    decreases m,
{
    if m <= 1 {
        0
    } else {
        days_before_month(leap, m - 1) + month_len(leap, m - 1)
    }
}

/// The days from 0000-01-01 to the first of January of year `y` (negative
/// for earlier years): 365 per year plus one per leap year in between.
pub open spec fn days_before_year(y: int) -> int {
    365 * y + (y + 3) / 4 - (y + 99) / 100 + (y + 399) / 400
}

/// The day number of the date `y-m-d`, counted from 1970-01-01.
pub open spec fn days_from_civil(y: int, m: int, d: int) -> int {
    days_before_year(y) + days_before_month(is_leap(y), m) + d - 1 - 719528
}

/// A date that exists.
pub open spec fn valid_date(y: int, m: int, d: int) -> bool {
    1 <= m <= 12 && 1 <= d <= month_len(is_leap(y), m)
}

/// `{year:04}`: at least four digits, a minus sign counting as one.
pub open spec fn year_text(y: int) -> Seq<char> {
    if y >= 0 {
        zero_pad(decimal(y as nat), 4)
    } else {
        "-"@ + zero_pad(decimal((-y) as nat), 3)
    }
}

pub open spec fn two_digits(n: int) -> Seq<char> {
    zero_pad(decimal(n as nat), 2)
}

/// `YYYY-MM-DD_hh-mm-ss`.
pub open spec fn stamp(y: int, mo: int, d: int, h: int, mi: int, s: int) -> Seq<char> {
    year_text(y) + "-"@ + two_digits(mo) + "-"@ + two_digits(d) + "_"@ + two_digits(h) + "-"@
        + two_digits(mi) + "-"@ + two_digits(s)
}

/// The timestamp of `secs` seconds after the Unix epoch, given the date of
/// its day.
pub open spec fn utc_text(secs: int, y: int, m: int, d: int) -> Seq<char> {
    let rem = secs % 86400;
    stamp(y, m, d, rem / 3600, (rem % 3600) / 60, rem % 60)
}

// ---- facts about the calendar -------------------------------------------------------

proof fn lemma_year_step(k: int)
    ensures
        days_before_year(k + 1) == days_before_year(k) + year_len(is_leap(k)),
{
    assert((k + 4) / 4 == (k + 3) / 4 + if k % 4 == 0 { 1int } else { 0 });
    assert((k + 100) / 100 == (k + 99) / 100 + if k % 100 == 0 { 1int } else { 0 });
    assert((k + 400) / 400 == (k + 399) / 400 + if k % 400 == 0 { 1int } else { 0 });
}

proof fn lemma_era(e: int, k: int)
    ensures
        days_before_year(400 * e + k) == 146097 * e + days_before_year(k),
        is_leap(400 * e + k) == is_leap(k),
{
    lemma_hoist_over_denominator(k + 3, 100 * e, 4);
    lemma_hoist_over_denominator(k + 99, 4 * e, 100);
    lemma_hoist_over_denominator(k + 399, e, 400);
    assert(k + 3 + 100 * e * 4 == 400 * e + k + 3);
    assert(k + 99 + 4 * e * 100 == 400 * e + k + 99);
    assert(k + 399 + e * 400 == 400 * e + k + 399);
    lemma_mod_multiples_vanish(100 * e, k, 4);
    lemma_mod_multiples_vanish(4 * e, k, 100);
    lemma_mod_multiples_vanish(e, k, 400);
    assert(4 * (100 * e) + k == 400 * e + k);
    assert(100 * (4 * e) + k == 400 * e + k);
}

proof fn lemma_month_totals(leap: bool)
    ensures
        days_before_month(leap, 13) == year_len(leap),
        forall|m: int| 1 <= m <= 12 ==> #[trigger] days_before_month(leap, m + 1)
            == days_before_month(leap, m) + month_len(leap, m),
{
    reveal_with_fuel(days_before_month, 13);
}

// ---- computing ------------------------------------------------------------------------

fn leap_exec(y: u64) -> (b: bool)
    ensures
        b == is_leap(y as int),
{
    (y % 4 == 0 && y % 100 != 0) || y % 400 == 0
}

fn year_len_exec(y: u64) -> (n: u64)
    ensures
        n == year_len(is_leap(y as int)),
{
    if leap_exec(y) {
        366
    } else {
        365
    }
}

fn month_len_exec(leap: bool, m: u8) -> (n: u64)
    ensures
        n == month_len(leap, m as int),
{
    if m == 2 {
        if leap {
            29
        } else {
            28
        }
    } else if m == 4 || m == 6 || m == 9 || m == 11 {
        30
    } else {
        31
    }
}

/// The date of day number `days` (counted from 1970-01-01), as year, month
/// and day.
fn civil_from_days(days: i64) -> (r: (i64, u8, u8))
    requires
        -140737488355328 <= days <= 140737488355328,
    ensures
        valid_date(r.0 as int, r.1 as int, r.2 as int),
        days_from_civil(r.0 as int, r.1 as int, r.2 as int) == days,
        -500000000000 <= r.0 <= 500000000000,
{
    // Days since 0000-01-01, shifted by a whole number of 400-year eras so
    // that it is not negative.
    let n: u64 = (days as i128 + 719528 + 146097 * 1000000000) as u64;
    let shifted_era: u64 = n / 146097;
    let r: u64 = n % 146097;
    let era: i64 = shifted_era as i64 - 1000000000;
    assert(n == 146097 * shifted_era + r);
    assert(146097 * era + r == days + 719528);

    // The year of the era.
    proof {
        assert(days_before_year(0) == 0);
        assert(days_before_year(400) == 146097);
    }
    let mut yoe: u64 = 0;
    let mut rem: u64 = r;
    let mut ylen: u64 = year_len_exec(0);
    while rem >= ylen
        invariant
            yoe < 400,
            r < 146097,
            ylen == year_len(is_leap(yoe as int)),
            days_before_year(400) == 146097,
            rem as int == r - days_before_year(yoe as int),
        decreases 400 - yoe,
    {
        proof {
            lemma_year_step(yoe as int);
        }
        rem = rem - ylen;
        yoe = yoe + 1;
        ylen = year_len_exec(yoe);
    }
    let leap = leap_exec(yoe);
    proof {
        lemma_year_step(yoe as int);
        lemma_month_totals(leap);
        lemma_era(era as int, yoe as int);
    }
    assert(rem < year_len(leap));

    // The month of the year.
    let ghost rem_y = rem;
    let mut m: u8 = 1;
    while rem >= month_len_exec(leap, m)
        invariant
            1 <= m <= 12,
            rem_y < year_len(leap),
            days_before_month(leap, 13) == year_len(leap),
            forall|k: int| 1 <= k <= 12 ==> #[trigger] days_before_month(leap, k + 1)
                == days_before_month(leap, k) + month_len(leap, k),
            rem as int == rem_y - days_before_month(leap, m as int),
        decreases 13 - m,
    {
        assert(m < 12) by {
            if m == 12 {
                assert(days_before_month(leap, 13) == days_before_month(leap, 12) + month_len(
                    leap,
                    12,
                ));
            }
        }
        assert(days_before_month(leap, m + 1) == days_before_month(leap, m as int) + month_len(
            leap,
            m as int,
        ));
        rem = rem - month_len_exec(leap, m);
        m = m + 1;
    }
    assert(days_before_month(leap, 1) == 0);
    let y: i64 = 400 * era + yoe as i64;
    (y, m, (rem + 1) as u8)
}

/// `{year:04}`.
fn year_string(y: i64) -> (s: String)
    requires
        y > i64::MIN,
    ensures
        s@ == year_text(y as int),
{
    if y >= 0 {
        padded_decimal(y as u64, 4)
    } else {
        let mut s = crate::text::owned("-");
        let digits = padded_decimal((-y) as u64, 3);
        s.append(digits.as_str());
        s
    }
}

/// Format seconds since the Unix epoch as a UTC timestamp
/// `YYYY-MM-DD_hh-mm-ss`.
pub fn format_utc(secs: i64) -> (s: String)
    ensures
        exists|y: int, m: int, d: int|
            valid_date(y, m, d) && days_from_civil(y, m, d) == secs / 86400 && s@ == utc_text(
                secs as int,
                y,
                m,
                d,
            ),
{
    // Shift by a whole number of days so that the division is of a
    // non-negative number.
    let u: u128 = (secs as i128 + 86400 * 140737488355328) as u128;
    let shifted_days: u128 = u / 86400;
    let rem: u128 = u % 86400;
    proof {
        lemma_hoist_over_denominator(secs as int, 140737488355328, 86400);
        assert(secs + 140737488355328 * 86400 == u);
        lemma_mod_multiples_vanish(140737488355328, secs as int, 86400);
        assert(86400 * 140737488355328 + secs == u);
    }
    let days: i64 = (shifted_days as i128 - 140737488355328) as i64;
    assert(days == secs / 86400);
    assert(rem == secs % 86400);
    let (y, m, d) = civil_from_days(days);
    let hour: u64 = (rem / 3600) as u64;
    let min: u64 = ((rem % 3600) / 60) as u64;
    let sec: u64 = (rem % 60) as u64;
    let mut s = year_string(y);
    s.append("-");
    s.append(padded_decimal(m as u64, 2).as_str());
    s.append("-");
    s.append(padded_decimal(d as u64, 2).as_str());
    s.append("_");
    s.append(padded_decimal(hour, 2).as_str());
    s.append("-");
    s.append(padded_decimal(min, 2).as_str());
    s.append("-");
    s.append(padded_decimal(sec, 2).as_str());
    assert(s@ == utc_text(secs as int, y as int, m as int, d as int));
    s
}

proof fn lemma_years_increase(a: int, b: int)
    requires
        a < b,
    ensures
        days_before_year(a + 1) <= days_before_year(b),
    decreases b - a,
{
    if a + 1 < b {
        lemma_years_increase(a, b - 1);
        lemma_year_step(b - 1);
    }
}

proof fn lemma_months_increase(leap: bool, a: int, b: int)
    requires
        1 <= a < b <= 13,
    ensures
        days_before_month(leap, a + 1) <= days_before_month(leap, b),
    decreases b - a,
{
    lemma_month_totals(leap);
    if a + 1 < b {
        lemma_months_increase(leap, a, b - 1);
        assert(days_before_month(leap, b) == days_before_month(leap, b - 1) + month_len(
            leap,
            b - 1,
        ));
    }
}

/// Where a valid date falls in its year: the day of the year lies in its
/// month, and the month within the year.
proof fn lemma_day_of_year(y: int, m: int, d: int)
    requires
        valid_date(y, m, d),
    ensures
        days_before_month(is_leap(y), m) <= days_before_month(is_leap(y), m) + d - 1
            < days_before_month(is_leap(y), m + 1),
        days_before_month(is_leap(y), m + 1) <= year_len(is_leap(y)),
        0 <= days_before_month(is_leap(y), m),
{
    let leap = is_leap(y);
    lemma_month_totals(leap);
    assert(days_before_month(leap, 1) == 0);
    if m > 1 {
        lemma_months_increase(leap, 1, m);
    }
    assert(days_before_month(leap, m + 1) == days_before_month(leap, m) + month_len(leap, m));
    if m < 12 {
        lemma_months_increase(leap, m + 1, 13);
    }
}

/// Each day has exactly one date: two valid dates with the same day number
/// are the same date. So the timestamp `format_utc` gives is determined by
/// its input.
pub proof fn law_one_date_per_day(y1: int, m1: int, d1: int, y2: int, m2: int, d2: int)
    requires
        valid_date(y1, m1, d1),
        valid_date(y2, m2, d2),
        days_from_civil(y1, m1, d1) == days_from_civil(y2, m2, d2),
    ensures
        y1 == y2,
        m1 == m2,
        d1 == d2,
{
    lemma_day_of_year(y1, m1, d1);
    lemma_day_of_year(y2, m2, d2);
    if y1 < y2 {
        lemma_years_increase(y1, y2);
        lemma_year_step(y1);
        assert(false);
    } else if y2 < y1 {
        lemma_years_increase(y2, y1);
        lemma_year_step(y2);
        assert(false);
    }
    let leap = is_leap(y1);
    if m1 < m2 {
        lemma_months_increase(leap, m1, m2);
        assert(false);
    } else if m2 < m1 {
        lemma_months_increase(leap, m2, m1);
        assert(false);
    }
}

} // verus!
