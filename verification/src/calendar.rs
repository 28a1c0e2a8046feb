//! The proleptic Gregorian calendar, counted in days from 1970-01-01.

use vstd::prelude::*;

verus! {

/// Gregorian leap year rule.
pub open spec fn is_leap_year(y: int) -> bool {
    (y % 4 == 0 && y % 100 != 0) || y % 400 == 0
}

/// Number of days in month `m` (1 = January) of year `y`.
pub open spec fn month_length(y: int, m: int) -> int {
    if m == 2 {
        if is_leap_year(y) {
            29
        } else {
            28
        }
    } else if m == 4 || m == 6 || m == 9 || m == 11 {
        30
    } else {
        31
    }
}

/// Days of year `y` that come before the first of month `m`.
pub open spec fn days_before_month(y: int, m: int) -> int {
    let common: int = if m <= 1 {
        0
    } else if m == 2 {
        31
    } else if m == 3 {
        59
    } else if m == 4 {
        90
    } else if m == 5 {
        120
    } else if m == 6 {
        151
    } else if m == 7 {
        181
    } else if m == 8 {
        212
    } else if m == 9 {
        243
    } else if m == 10 {
        273
    } else if m == 11 {
        304
    } else {
        334
    };
    if m > 2 && is_leap_year(y) {
        common + 1
    } else {
        common
    }
}

/// Number of leap years among the years `1 .. y - 1` (negative below year 1).
pub open spec fn leap_years_before(y: int) -> int {
    (y - 1) / 4 - (y - 1) / 100 + (y - 1) / 400
}

/// Day number of January 1st of year `y`, counted from 1970-01-01.
pub open spec fn days_before_year(y: int) -> int {
    365 * (y - 1970) + leap_years_before(y) - leap_years_before(1970)
}

/// Is `y-m-d` a date of the calendar?
pub open spec fn is_valid_date(y: int, m: int, d: int) -> bool {
    1 <= m <= 12 && 1 <= d <= month_length(y, m)
}

/// Day number of the date `y-m-d`, counted from 1970-01-01 (day 0).
pub open spec fn days_from_civil(y: int, m: int, d: int) -> int {
    days_before_year(y) + days_before_month(y, m) + d - 1
}

/// The year of a day number within a 400-year era and the day within that
/// year, for years that start on March 1st.
proof fn lemma_year_of_era(doe: int)
    requires
        0 <= doe < 146097,
    ensures
        ({
            let yoe = (doe - doe / 1460 + doe / 36524 - doe / 146096) / 365;
            let doy = doe - (365 * yoe + yoe / 4 - yoe / 100);
            &&& 0 <= yoe <= 399
            &&& 0 <= doy <= 365
            &&& doy == 365 ==> is_leap_year(yoe + 1)
        }),
{
}

/// The month (0 = March) and day of a day number within a March-based year.
proof fn lemma_month_of_year(doy: int)
    requires
        0 <= doy <= 365,
    ensures
        ({
            let mp = (5 * doy + 2) / 153;
            let d = doy - (153 * mp + 2) / 5 + 1;
            &&& 0 <= mp <= 11
            &&& 1 <= d
            &&& mp < 10 ==> d <= month_length(1, mp + 3)
            &&& mp >= 10 ==> d <= (if doy == 365 { 29int } else { month_length(1, mp - 9) })
        }),
{
}

/// Consecutive years differ by the length of the earlier one.
proof fn lemma_next_year(y: int)
    ensures
        days_before_year(y + 1) == days_before_year(y) + 365 + (if is_leap_year(y) { 1int } else { 0 }),
{
}

/// The calendar repeats every 400 years, which hold 146097 days.
proof fn lemma_era_shift(yoe: int, era: int)
    ensures
        days_before_year(yoe + 400 * era) == days_before_year(yoe) + 146097 * era,
        is_leap_year(yoe + 400 * era) == is_leap_year(yoe),
        is_leap_year(yoe + 1 + 400 * era) == is_leap_year(yoe + 1),
{
    let a = yoe - 1;
    lemma_shift(a, 100 * era, 4);
    lemma_shift(a, 4 * era, 100);
    lemma_shift(a, era, 400);
    assert(leap_years_before(yoe + 400 * era) == leap_years_before(yoe) + 97 * era);
    lemma_shift(yoe, 100 * era, 4);
    lemma_shift(yoe, 4 * era, 100);
    lemma_shift(yoe, era, 400);
    lemma_shift(yoe + 1, 100 * era, 4);
    lemma_shift(yoe + 1, 4 * era, 100);
    lemma_shift(yoe + 1, era, 400);
}

/// Adding a multiple of the divisor shifts the quotient and keeps the remainder.
proof fn lemma_shift(a: int, k: int, d: int)
    requires
        d == 4 || d == 100 || d == 400,
    ensures
        (a + d * k) / d == a / d + k,
        (a + d * k) % d == a % d,
{
    vstd::arithmetic::div_mod::lemma_fundamental_div_mod(a, d);
    vstd::arithmetic::div_mod::lemma_fundamental_div_mod_converse(a + d * k, d, a / d + k, a % d);
}

/// Start of a year of the first era, in the counting that
/// `civil_from_days` uses (days from 0000-03-01).
proof fn lemma_year_start_in_era(yoe: int)
    requires
        0 <= yoe <= 399,
    ensures
        days_before_year(yoe) + (if is_leap_year(yoe) { 1int } else { 0 }) + 59
            == 365 * yoe + yoe / 4 - yoe / 100 - 719468,
{
}

/// The date that `civil_from_days` assembles has the day number it started from.
proof fn lemma_civil_date(era: int, yoe: int, doy: int)
    requires
        0 <= yoe <= 399,
        0 <= doy <= 365,
        doy == 365 ==> is_leap_year(yoe + 1),
    ensures
        ({
            let y = yoe + era * 400;
            let mp = (5 * doy + 2) / 153;
            let d = doy - (153 * mp + 2) / 5 + 1;
            let m = if mp < 10 { mp + 3 } else { mp - 9 };
            let year = if m <= 2 { y + 1 } else { y };
            &&& is_valid_date(year, m, d)
            &&& days_from_civil(year, m, d) == era * 146097 + 365 * yoe + yoe / 4 - yoe / 100 + doy
                - 719468
        }),
{
    let y = yoe + era * 400;
    let mp = (5 * doy + 2) / 153;
    let d = doy - (153 * mp + 2) / 5 + 1;
    let m = if mp < 10 { mp + 3 } else { mp - 9 };
    lemma_month_of_year(doy);
    lemma_era_shift(yoe, era);
    lemma_year_start_in_era(yoe);
    lemma_next_year(y);
    assert(days_before_year(y) == days_before_year(yoe) + 146097 * era);
    if mp < 10 {
        assert(days_before_month(y, m) == (153 * mp + 2) / 5 + 59 + (if is_leap_year(y) { 1int } else { 0 }));
        assert(month_length(y, m) == month_length(1, m));
    } else {
        assert(days_before_month(y + 1, m) + 365 == (153 * mp + 2) / 5 + 59);
        assert(is_leap_year(y + 1) == is_leap_year(yoe + 1));
    }
}

/// A date lies within its own year.
proof fn lemma_date_within_year(y: int, m: int, d: int)
    requires
        is_valid_date(y, m, d),
    ensures
        days_before_year(y) <= days_from_civil(y, m, d) < days_before_year(y + 1),
{
    lemma_next_year(y);
}

/// Later years start later.
proof fn lemma_year_start_monotone(y1: int, y2: int)
    requires
        y1 < y2,
    ensures
        days_before_year(y1 + 1) <= days_before_year(y2),
{
    let a1 = y1;
    let a2 = y2 - 1;
    vstd::arithmetic::div_mod::lemma_fundamental_div_mod(a1, 4);
    vstd::arithmetic::div_mod::lemma_fundamental_div_mod(a2, 4);
    vstd::arithmetic::div_mod::lemma_fundamental_div_mod(a1, 100);
    vstd::arithmetic::div_mod::lemma_fundamental_div_mod(a2, 100);
    vstd::arithmetic::div_mod::lemma_fundamental_div_mod(a1, 400);
    vstd::arithmetic::div_mod::lemma_fundamental_div_mod(a2, 400);
    if y2 > y1 + 1 {
        assert(a2 / 4 >= a1 / 4);
        assert(a2 / 400 >= a1 / 400);
        assert(a2 / 100 - a1 / 100 <= (a2 - a1) / 100 + 1);
    }
}

/// Each day number names at most one date: two valid dates with the same
/// day number are the same date.
pub proof fn lemma_days_from_civil_injective(y1: int, m1: int, d1: int, y2: int, m2: int, d2: int)
    requires
        is_valid_date(y1, m1, d1),
        is_valid_date(y2, m2, d2),
        days_from_civil(y1, m1, d1) == days_from_civil(y2, m2, d2),
    ensures
        y1 == y2,
        m1 == m2,
        d1 == d2,
{
    lemma_date_within_year(y1, m1, d1);
    lemma_date_within_year(y2, m2, d2);
    if y1 < y2 {
        lemma_year_start_monotone(y1, y2);
    } else if y2 < y1 {
        lemma_year_start_monotone(y2, y1);
    }
    assert(y1 == y2);
}

/// The date of day number `days` (the one valid date whose day number it is).
pub open spec fn civil_date(days: int) -> (int, int, int) {
    choose|date: (int, int, int)|
        is_valid_date(date.0, date.1, date.2) && days_from_civil(date.0, date.1, date.2) == days
}

/// A day number of the calendar and the date of that day, by Howard
/// Hinnant's `civil_from_days` algorithm.
pub fn civil_from_days(days: i64) -> (r: (i64, u32, u32))
    requires
        days <= i64::MAX - 719468,
    ensures
        is_valid_date(r.0 as int, r.1 as int, r.2 as int),
        days_from_civil(r.0 as int, r.1 as int, r.2 as int) == days,
        civil_date(days as int) == (r.0 as int, r.1 as int, r.2 as int),
{
    let z = days + 719_468;
    let era = (if z >= 0 { z } else { z - 146_096 }) / 146_097;
    assert(era == (z as int) / 146097);
    let doe = z - era * 146_097;
    let yoe = (doe - doe / 1460 + doe / 36_524 - doe / 146_096) / 365;
    proof {
        lemma_year_of_era(doe as int);
    }
    let y = yoe + era * 400;
    let doy = doe - (365 * yoe + yoe / 4 - yoe / 100);
    proof {
        lemma_civil_date(era as int, yoe as int, doy as int);
    }
    let mp = (5 * doy + 2) / 153;
    let d = (doy - (153 * mp + 2) / 5 + 1) as u32;
    let m = if mp < 10 {
        mp + 3
    } else {
        mp - 9
    } as u32;
    let year = if m <= 2 {
        y + 1
    } else {
        y
    };
    proof {
        let w = (year as int, m as int, d as int);
        assert(is_valid_date(w.0, w.1, w.2) && days_from_civil(w.0, w.1, w.2) == days);
        let c = civil_date(days as int);
        lemma_days_from_civil_injective(c.0, c.1, c.2, w.0, w.1, w.2);
    }
    (year, m, d)
}

} // verus!
