//! The Gregorian calendar, as FAT timestamps need it.

use vstd::arithmetic::div_mod::{lemma_hoist_over_denominator, lemma_mod_multiples_vanish};
use vstd::prelude::*;

verus! {

/// Whether the Gregorian year `y` has a 29th of February.
pub open spec fn is_leap(y: int) -> bool {
    y % 4 == 0 && (y % 100 != 0 || y % 400 == 0)
}

/// Days in the months before month `m` of year `y`.
pub open spec fn days_before_month(y: int, m: int) -> int {
    let common: int = if m == 1 {
        0
    } else if m == 2 {
        31
    } else if m == 3 {
        59
    } else if m == 4 {
        90
    } else if m == 5 {
        120
    } else if m == 6 {
        151
    } else if m == 7 {
        181
    } else if m == 8 {
        212
    } else if m == 9 {
        243
    } else if m == 10 {
        273
    } else if m == 11 {
        304
    } else if m == 12 {
        334
    } else {
        365
    };
    if m > 2 && is_leap(y) {
        common + 1
    } else {
        common
    }
}

/// Days from the first day of year 0 to the first day of year `y`: 365 for each
/// year, and one more for each leap year.
pub open spec fn days_before_year(y: int) -> int {
    365 * y + (y + 3) / 4 - (y + 99) / 100 + (y + 399) / 400
}

/// Whether month `m` of year `y` has a day `d`.
pub open spec fn valid_date(y: int, m: int, d: int) -> bool {
    1 <= m <= 12 && 1 <= d <= days_before_month(y, m + 1) - days_before_month(y, m)
}

/// Days from 1970-01-01 to the given date.
pub open spec fn unix_days(y: int, m: int, d: int) -> int {
    days_before_year(y) - days_before_year(1970) + days_before_month(y, m) + d - 1
}

/// Whether day `m`/`d` of year `y` is a date, and lies `days` days after 1970-01-01.
pub open spec fn falls_on(y: int, m: int, d: int, days: int) -> bool {
    valid_date(y, m, d) && unix_days(y, m, d) == days
}

/// The calendar repeats every 400 years.
proof fn lemma_cycle(t: int, q: int)
    ensures
        days_before_year(t + 400 * q) == days_before_year(t) + 146_097 * q,
        is_leap(t + 400 * q) == is_leap(t),
{
    lemma_hoist_over_denominator(t + 3, 100 * q, 4);
    lemma_hoist_over_denominator(t + 99, 4 * q, 100);
    lemma_hoist_over_denominator(t + 399, q, 400);
    lemma_mod_multiples_vanish(100 * q, t, 4);
    lemma_mod_multiples_vanish(4 * q, t, 100);
    lemma_mod_multiples_vanish(q, t, 400);
}

/// A year is as long as its months together.
pub proof fn lemma_year_length(y: int)
    ensures
        days_before_year(y + 1) - days_before_year(y) == if is_leap(y) {
            366int
        } else {
            365int
        },
        days_before_year(y + 1) - days_before_year(y) == days_before_month(y, 13),
{
    let t = y % 400;
    let q = y / 400;
    lemma_cycle(t, q);
    lemma_cycle(t + 1, q);
    assert((t + 4) / 4 - (t + 3) / 4 == if t % 4 == 0 { 1int } else { 0 });
    assert((t + 100) / 100 - (t + 99) / 100 == if t % 100 == 0 { 1int } else { 0 });
    assert((t + 400) / 400 - (t + 399) / 400 == if t % 400 == 0 { 1int } else { 0 });
    assert(t % 100 == 0 ==> t % 4 == 0);
    assert(t % 400 == 0 ==> t % 100 == 0);
}

/// Later years begin later.
pub proof fn lemma_years_ordered(y: int, z: int)
    requires
        y <= z,
    ensures
        days_before_year(y) <= days_before_year(z),
    decreases z - y,
{
    if y < z {
        lemma_years_ordered(y, z - 1);
        lemma_year_length(z - 1);
    }
}

/// No two dates have the same day number.
pub proof fn dates_have_distinct_days(y1: int, m1: int, d1: int, y2: int, m2: int, d2: int)
    requires
        valid_date(y1, m1, d1),
        valid_date(y2, m2, d2),
        unix_days(y1, m1, d1) == unix_days(y2, m2, d2),
    ensures
        y1 == y2,
        m1 == m2,
        d1 == d2,
{
    lemma_year_length(y1);
    lemma_year_length(y2);
    if y1 < y2 {
        lemma_years_ordered(y1 + 1, y2);
    } else if y2 < y1 {
        lemma_years_ordered(y2 + 1, y1);
    }
}

/// The year of day `doe` of a 400-year cycle that begins in March.
#[verifier::opaque]
spec fn year_of_era(doe: int) -> int {
    (doe - doe / 1460 + doe / 36_524 - doe / 146_096) / 365
}

/// The day, in its year, of day `doe` of such a cycle.
#[verifier::opaque]
spec fn day_of_year(doe: int) -> int {
    let yoe = year_of_era(doe);
    doe - (365 * yoe + yoe / 4 - yoe / 100)
}

/// The month of day `doy` of a year that begins in March, counted from it.
#[verifier::opaque]
spec fn month_of_year(doy: int) -> int {
    (5 * doy + 2) / 153
}

/// The day, in its month, of day `doy` of such a year.
#[verifier::opaque]
spec fn day_of_month(doy: int) -> int {
    doy - (153 * month_of_year(doy) + 2) / 5 + 1
}

proof fn lemma_year_of_era(doe: int)
    requires
        0 <= doe <= 146_096,
    ensures
        0 <= year_of_era(doe) <= 399,
        0 <= day_of_year(doe) <= 365,
        day_of_year(doe) == 365 ==> is_leap(year_of_era(doe) + 1),
{
    reveal(year_of_era);
    reveal(day_of_year);
}

proof fn lemma_month_of_year(doy: int)
    requires
        0 <= doy <= 365,
    ensures
        ({
            let mp = month_of_year(doy);
            let d = day_of_month(doy);
            &&& 0 <= mp <= 11
            &&& 1 <= d <= 31
            &&& mp < 10 ==> days_before_month(1, mp + 3) - 59 + d - 1 == doy && d
                <= days_before_month(1, mp + 4) - days_before_month(1, mp + 3)
            &&& mp >= 10 ==> days_before_month(1, mp - 9) + 306 + d - 1 == doy
            &&& mp == 11 ==> d <= 28 || doy == 365
        }),
{
    reveal(month_of_year);
    reveal(day_of_month);
}

/// Where the first of March lies in a year of the first 400-year cycle.
proof fn lemma_march(yoe: int)
    requires
        0 <= yoe <= 399,
    ensures
        days_before_year(yoe) + days_before_month(yoe, 3) == 365 * yoe + yoe / 4 - yoe / 100 + 60,
        days_before_year(yoe + 1) == 365 * yoe + yoe / 4 - yoe / 100 + 366,
{
    assert((yoe + 3) / 4 == yoe / 4 + if yoe % 4 == 0 { 0int } else { 1 });
    assert((yoe + 99) / 100 == yoe / 100 + if yoe % 100 == 0 { 0int } else { 1 });
    assert((yoe + 399) / 400 == if yoe == 0 { 0int } else { 1 });
    assert(yoe % 100 == 0 ==> yoe % 4 == 0);
    assert(yoe % 400 == 0 <==> yoe == 0);
    lemma_year_length(yoe);
}

/// The date of day `doe` of the 400-year cycle `era`, both counted from March
/// of year 0.
proof fn lemma_civil(era: int, doe: int, y: int, m: int, d: int)
    requires
        0 <= doe <= 146_096,
        d == day_of_month(day_of_year(doe)),
        ({
            let mp = month_of_year(day_of_year(doe));
            let march_year = year_of_era(doe) + era * 400;
            if mp < 10 {
                m == mp + 3 && y == march_year
            } else {
                m == mp - 9 && y == march_year + 1
            }
        }),
    ensures
        valid_date(y, m, d),
        unix_days(y, m, d) == era * 146_097 + doe - 719_468,
{
    let yoe = year_of_era(doe);
    let doy = day_of_year(doe);
    let mp = month_of_year(doy);
    lemma_year_of_era(doe);
    lemma_month_of_year(doy);
    lemma_march(yoe);
    lemma_cycle(yoe, era);
    lemma_cycle(yoe + 1, era);
    assert(doe == doy + (365 * yoe + yoe / 4 - yoe / 100)) by {
        reveal(day_of_year);
    }
    assert(!is_leap(1));
    if mp < 10 {
        assert(days_before_month(y, m) - days_before_month(y, 3) == days_before_month(1, m) - 59);
    } else {
        assert(days_before_month(y, m) == days_before_month(1, m));
    }
}

/// Splits a day count from March of year 0 into 400-year cycles and the day in
/// the last of them.
fn split_era(z: i64) -> (parts: (i64, u32))
    requires
        z >= i64::MIN + 719_468,
    ensures
        parts.0 * 146_097 + parts.1 == z,
        parts.1 <= 146_096,
{
    let era: i64 = if z >= 0 {
        z / 146_097
    } else {
        -((146_096 - z) / 146_097)
    };
    let doe: i64 = z - era * 146_097;
    (era, doe as u32)
}

/// Splits the day of a 400-year cycle into the year and the day in it.
fn split_year(doe: u32) -> (parts: (u32, u32))
    requires
        doe <= 146_096,
    ensures
        parts.0 == year_of_era(doe as int),
        parts.1 == day_of_year(doe as int),
{
    proof {
        lemma_year_of_era(doe as int);
        reveal(year_of_era);
        reveal(day_of_year);
    }
    let yoe: u32 = (doe - doe / 1460 + doe / 36_524 - doe / 146_096) / 365;
    assert(yoe <= 399);
    (yoe, doe - (365 * yoe + yoe / 4 - yoe / 100))
}

/// Splits the day of a year that begins in March into the month and the day in
/// it.
fn split_month(doy: u32) -> (parts: (u32, u32))
    requires
        doy <= 365,
    ensures
        parts.0 == month_of_year(doy as int),
        parts.1 == day_of_month(doy as int),
{
    proof {
        lemma_month_of_year(doy as int);
        reveal(month_of_year);
        reveal(day_of_month);
    }
    let mp: u32 = (5 * doy + 2) / 153;
    (mp, doy - (153 * mp + 2) / 5 + 1)
}

/// Converts days since 1970-01-01 to the year, month and day of the Gregorian
/// calendar. The year is cut down to its lowest 32 bits.
pub fn civil_from_unix_days(days: i64) -> (date: (u32, u32, u32))
    requires
        days <= i64::MAX - 719_468,
    ensures
        exists|y: int| #[trigger]
            falls_on(y, date.1 as int, date.2 as int, days as int) && date.0 == y as u32,
{
    let (era, doe) = split_era(days + 719_468);
    let (yoe, doy) = split_year(doe);
    proof {
        lemma_year_of_era(doe as int);
        lemma_month_of_year(doy as int);
    }
    let (mp, d) = split_month(doy);
    let march_year: i64 = yoe as i64 + era * 400;
    let m: u32 = if mp < 10 {
        mp + 3
    } else {
        mp - 9
    };
    let year: i64 = if m <= 2 {
        march_year + 1
    } else {
        march_year
    };
    proof {
        lemma_civil(era as int, doe as int, year as int, m as int, d as int);
    }
    let date: (u32, u32, u32) = (year as u32, m, d);
    assert(falls_on(year as int, date.1 as int, date.2 as int, days as int));
    date
}

/// The months have 31, 30, 28 or 29 days by the Gregorian rules.
pub proof fn months_have_their_lengths(y: int, m: int, d: int)
    ensures
        valid_date(y, m, d) <==> 1 <= m <= 12 && 1 <= d <= if m == 4 || m == 6 || m == 9 || m
            == 11 {
            30int
        } else if m != 2 {
            31
        } else if y % 400 == 0 || y % 4 == 0 && y % 100 != 0 {
            29
        } else {
            28
        },
{
    assert(y % 400 == 0 ==> y % 4 == 0);
}

/// Days are counted one by one from the first of January 1970: to the next day
/// of the month, from the last day of a month to the first of the next, and from
/// the last day of a year to the first of the next.
pub proof fn days_are_counted_one_by_one(y: int, m: int, d: int)
    requires
        valid_date(y, m, d),
    ensures
        unix_days(1970, 1, 1) == 0,
        valid_date(y, m, d + 1) ==> unix_days(y, m, d + 1) == unix_days(y, m, d) + 1,
        !valid_date(y, m, d + 1) && m < 12 ==> unix_days(y, m + 1, 1) == unix_days(y, m, d) + 1,
        !valid_date(y, m, d + 1) && m == 12 ==> unix_days(y + 1, 1, 1) == unix_days(y, m, d) + 1,
{
    lemma_year_length(y);
}

} // verus!
