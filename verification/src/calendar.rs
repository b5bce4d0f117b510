//! Days, dates and times of the Gregorian calendar.
//!
//! A day is numbered from 1 January 1970, which is day 0; a timestamp counts seconds
//! from the start of that day.

use vstd::prelude::*;
use crate::numbers;
use crate::text;

verus! {

pub const DAY_SECONDS: i64 = 86_400;

pub open spec fn leap(y: int) -> bool {
    y % 4 == 0 && (y % 100 != 0 || y % 400 == 0)
}

pub open spec fn year_length(y: int) -> int {
    if leap(y) {
        366
    } else {
        365
    }
}

pub open spec fn month_length(y: int, m: int) -> int {
    if m == 2 {
        if leap(y) {
            29
        } else {
            28
        }
    } else if m == 4 || m == 6 || m == 9 || m == 11 {
        30
    } else {
        31
    }
}

pub open spec fn valid_date(y: int, m: int, d: int) -> bool {
    1 <= m <= 12 && 1 <= d <= month_length(y, m)
}

/// The number of leap years up to and including year `y`, counted from year 1.
#[verifier::opaque]
pub open spec fn leap_years(y: int) -> int {
    y / 4 - y / 100 + y / 400
}

/// The number of 1 January of year `y`.
pub open spec fn days_before_year(y: int) -> int {
    365 * (y - 1970) + leap_years(y - 1) - leap_years(1969)
}

/// The number of days of year `y` before month `m`.
pub open spec fn days_before_month(y: int, m: int) -> int
    decreases m,
{
    if m <= 1 {
        0
    } else {
        days_before_month(y, m - 1) + month_length(y, m - 1)
    }
}

/// The number of the day with the given date.
pub open spec fn day_number(y: int, m: int, d: int) -> int {
    days_before_year(y) + days_before_month(y, m) + d - 1
}

/// Day `n` is the one with the given date.
pub open spec fn dated(n: int, y: int, m: int, d: int) -> bool {
    valid_date(y, m, d) && day_number(y, m, d) == n
}

/// The date of day `n`.
pub open spec fn civil(n: int) -> (int, int, int) {
    choose|t: (int, int, int)| #[trigger] dated(n, t.0, t.1, t.2)
}

/// The date of day `n` as machine integers: the year keeps its low 32 bits.
pub open spec fn civil_parts(n: int) -> (i32, u32, u32) {
    (civil(n).0 as i32, civil(n).1 as u32, civil(n).2 as u32)
}

/// A day number from a year that begins in March, as it is computed for any month.
pub open spec fn march_day_number(y: int, m: int, d: int) -> int {
    let march_year = if m <= 2 {
        y - 1
    } else {
        y
    };
    let march_month = if m <= 2 {
        m + 9
    } else {
        m - 3
    };
    365 * march_year + leap_years(march_year) + (153 * march_month + 2) / 5 + d - 719_469
}

pub proof fn months_before(y: int)
    ensures
        days_before_month(y, 1) == 0,
        days_before_month(y, 2) == 31,
        days_before_month(y, 3) == 31 + month_length(y, 2),
        days_before_month(y, 4) == 62 + month_length(y, 2),
        days_before_month(y, 5) == 92 + month_length(y, 2),
        days_before_month(y, 6) == 123 + month_length(y, 2),
        days_before_month(y, 7) == 153 + month_length(y, 2),
        days_before_month(y, 8) == 184 + month_length(y, 2),
        days_before_month(y, 9) == 215 + month_length(y, 2),
        days_before_month(y, 10) == 245 + month_length(y, 2),
        days_before_month(y, 11) == 276 + month_length(y, 2),
        days_before_month(y, 12) == 306 + month_length(y, 2),
{
    reveal_with_fuel(days_before_month, 13);
}

/// The years follow one another without a gap, and so do the months of a year.
pub proof fn years_are_adjacent(y: int)
    ensures
        days_before_year(y + 1) == days_before_year(y) + year_length(y),
        days_before_month(y, 12) + 31 == year_length(y),
        days_before_year(1970) == 0,
{
    months_before(y);
    leap_year_counts(y);
}

proof fn leap_year_counts(y: int)
    ensures
        leap_years(y) == leap_years(y - 1) + if leap(y) {
            1int
        } else {
            0int
        },
{
    reveal(leap_years);
    quotient_steps(y, 4);
    quotient_steps(y, 100);
    quotient_steps(y, 400);
    assert(y % 400 == 0 ==> y % 100 == 0);
    assert(y % 100 == 0 ==> y % 4 == 0);
}

proof fn quotient_steps(y: int, k: int)
    requires
        k > 1,
    ensures
        y / k == (y - 1) / k + if y % k == 0 {
            1int
        } else {
            0int
        },
{
    vstd::arithmetic::div_mod::lemma_fundamental_div_mod(y, k);
    let q = y / k;
    let r = y % k;
    assert(k * q == q * k) by (nonlinear_arith);
    if r == 0 {
        assert(y - 1 == (q - 1) * k + (k - 1)) by (nonlinear_arith)
            requires
                y == k * q,
        ;
        vstd::arithmetic::div_mod::lemma_fundamental_div_mod_converse(y - 1, k, q - 1, k - 1);
    } else {
        vstd::arithmetic::div_mod::lemma_fundamental_div_mod_converse(y - 1, k, q, r - 1);
    }
}

proof fn leap_years_repeat(y: int, era: int)
    ensures
        leap_years(y + era * 400) == leap_years(y) + era * 97,
        leap(y + era * 400) == leap(y),
{
    reveal(leap_years);
    let z = y + era * 400;
    assert(z / 4 == y / 4 + era * 100);
    assert(z / 100 == y / 100 + era * 4);
    assert(z / 400 == y / 400 + era);
}

proof fn leap_years_grow(a: int, b: int)
    requires
        a <= b,
    ensures
        leap_years(a) <= leap_years(b),
    decreases b - a,
{
    if a < b {
        leap_years_grow(a, b - 1);
        leap_year_counts(b);
    }
}

proof fn months_grow(y: int, m: int, n: int)
    requires
        1 <= m < n <= 12,
    ensures
        days_before_month(y, m) + month_length(y, m) <= days_before_month(y, n),
{
    months_before(y);
}

/// The earlier of two dates is the one with the smaller day number.
pub proof fn dates_are_ordered(y: int, m: int, d: int, y2: int, m2: int, d2: int)
    requires
        valid_date(y, m, d),
        valid_date(y2, m2, d2),
        y < y2 || y == y2 && (m < m2 || m == m2 && d < d2),
    ensures
        day_number(y, m, d) < day_number(y2, m2, d2),
{
    months_before(y);
    months_before(y2);
    if y < y2 {
        leap_years_grow(y, y2 - 1);
        years_are_adjacent(y);
        if m < 12 {
            months_grow(y, m, 12);
        }
        assert(days_before_year(y + 1) <= days_before_year(y2));
    } else if m < m2 {
        months_grow(y, m, m2);
    }
}

/// No day has two dates.
pub proof fn date_is_unique(n: int, y: int, m: int, d: int)
    requires
        dated(n, y, m, d),
    ensures
        civil(n) == (y, m, d),
{
    let t = (y, m, d);
    assert(dated(n, t.0, t.1, t.2));
    let c = civil(n);
    assert(dated(n, c.0, c.1, c.2));
    if c != t {
        if c.0 < y || c.0 == y && (c.1 < m || c.1 == m && c.2 < d) {
            dates_are_ordered(c.0, c.1, c.2, y, m, d);
        } else {
            dates_are_ordered(y, m, d, c.0, c.1, c.2);
        }
    }
}

/// In a month of the calendar both ways of counting agree.
proof fn march_count_agrees(y: int, m: int, d: int)
    requires
        1 <= m <= 12,
    ensures
        march_day_number(y, m, d) == day_number(y, m, d),
{
    months_before(y);
    leap_year_counts(y);
    assert(leap_years(1969) == 477) by {
        reveal(leap_years);
    }
    if m <= 2 {
        assert((153 * (m + 9) + 2) / 5 == if m == 1 { 306int } else { 337int });
    } else {
        let first = days_before_month(y, m) - month_length(y, 2);
        assert((153 * (m - 3) + 2) / 5 == first - 31);
    }
}

/// The parts of a day number: whole spans of 400 years, of 100 years, of 4 years and of
/// single years, each beginning on 1 March, and the day in that last year.
pub struct MarchParts {
    pub era: i64,
    pub century: i64,
    pub quad: i64,
    pub single: i64,
    pub day: i64,
}

pub open spec fn parts_of(n: int, p: MarchParts) -> bool {
    &&& 0 <= p.century <= 3
    &&& 0 <= p.quad <= 24
    &&& 0 <= p.single <= 3
    &&& 0 <= p.day <= 365
    &&& p.day == 365 ==> p.single == 3 && (p.quad < 24 || p.century == 3)
    &&& n == p.era * 146_097 + p.century * 36_524 + p.quad * 1461 + p.single * 365 + p.day - 719_468
}

spec fn march_month(day: int) -> int {
    (5 * day + 2) / 153
}

spec fn parts_date(p: MarchParts) -> (int, int, int) {
    let year = p.era * 400 + p.century * 100 + p.quad * 4 + p.single;
    let mp = march_month(p.day as int);
    let month = if mp < 10 {
        mp + 3
    } else {
        mp - 9
    };
    (
        if month <= 2 {
            year + 1
        } else {
            year
        },
        month,
        p.day - (153 * mp + 2) / 5 + 1,
    )
}

proof fn parts_are_dated(n: int, p: MarchParts)
    requires
        parts_of(n, p),
    ensures
        civil(n) == parts_date(p),
        dated(n, civil(n).0, civil(n).1, civil(n).2),
{
    let (y, m, d) = parts_date(p);
    let march_year = p.era * 400 + p.century * 100 + p.quad * 4 + p.single;
    let mp = march_month(p.day as int);
    assert(0 <= mp <= 11);
    assert(1 <= m <= 12);
    assert(march_year / 4 == p.era * 100 + p.century * 25 + p.quad);
    assert(march_year / 100 == p.era * 4 + p.century);
    assert(march_year / 400 == p.era as int);
    assert(leap_years(march_year) == march_year / 4 - march_year / 100 + march_year / 400) by {
        reveal(leap_years);
    }
    march_count_agrees(y, m, d);
    assert(march_day_number(y, m, d) == n);
    assert(d <= month_length(y, m)) by {
        if m == 2 {
            assert(mp == 11);
            assert(p.day >= 337);
            if p.day == 365 {
                assert(leap(y));
            }
        }
    }
    date_is_unique(n, y, m, d);
}

fn march_parts(n: i64) -> (p: MarchParts)
    requires
        n <= i64::MAX - 719_468,
    ensures
        parts_of(n as int, p),
{
    let z: i64 = n + 719_468;
    let era: i64 = if z >= 0 {
        z / 146_097
    } else {
        -((-(z + 1)) / 146_097) - 1
    };
    assert(era == z as int / 146_097);
    let rest: i64 = z - era * 146_097;
    let mut century: i64 = rest / 36_524;
    if century > 3 {
        century = 3;
    }
    let in_century: i64 = rest - century * 36_524;
    let quad: i64 = in_century / 1461;
    let in_quad: i64 = in_century - quad * 1461;
    let mut single: i64 = in_quad / 365;
    if single > 3 {
        single = 3;
    }
    MarchParts { era, century, quad, single, day: in_quad - single * 365 }
}

/// Every day has a date.
pub proof fn every_day_is_dated(n: int)
    ensures
        dated(n, civil(n).0, civil(n).1, civil(n).2),
{
    let z = n + 719_468;
    let rest = z % 146_097;
    let era = z / 146_097;
    // One span of 400 years holds a whole number of days, so the date of a day in any
    // span is that of the same day in the first one, with the year moved.
    let century = if rest / 36_524 > 3 {
        3
    } else {
        rest / 36_524
    };
    let in_century = rest - century * 36_524;
    let quad = in_century / 1461;
    let in_quad = in_century - quad * 1461;
    let single = if in_quad / 365 > 3 {
        3
    } else {
        in_quad / 365
    };
    let p = MarchParts {
        era: 0,
        century: century as i64,
        quad: quad as i64,
        single: single as i64,
        day: (in_quad - single * 365) as i64,
    };
    assert(parts_of(rest - 719_468, p));
    parts_are_dated(rest - 719_468, p);
    let (y, m, d) = parts_date(p);
    let moved = y + era * 400;
    leap_years_repeat(y, era);
    leap_years_repeat(y - 1, era);
    assert(moved - 1 == (y - 1) + era * 400);
    months_before(y);
    months_before(moved);
    assert(days_before_year(moved) == days_before_year(y) + era * 146_097);
    assert(dated(n, moved, m, d));
    date_is_unique(n, moved, m, d);
}

/// Converts a day number to its date.
pub fn civil_from_days(days_since_epoch: i64) -> (r: (i32, u32, u32))
    requires
        days_since_epoch <= i64::MAX - 719_468,
    ensures
        r == civil_parts(days_since_epoch as int),
        dated(
            days_since_epoch as int,
            civil(days_since_epoch as int).0,
            civil(days_since_epoch as int).1,
            civil(days_since_epoch as int).2,
        ),
{
    let p = march_parts(days_since_epoch);
    proof {
        parts_are_dated(days_since_epoch as int, p);
    }
    let mp: i64 = (5 * p.day + 2) / 153;
    let day: i64 = p.day - (153 * mp + 2) / 5 + 1;
    let month: i64 = if mp < 10 {
        mp + 3
    } else {
        mp - 9
    };
    let mut year: i64 = p.era * 400 + p.century * 100 + p.quad * 4 + p.single;
    if month <= 2 {
        year += 1;
    }
    (
        #[verifier::truncate]
        (year as i32),
        month as u32,
        day as u32,
    )
}

/// Converts a date to its day number. Outside the months 1 to 12 the count goes on as
/// in a year that begins in March.
pub fn days_from_civil(year: i32, month: u32, day: u32) -> (r: i64)
    ensures
        r == march_day_number(year as int, month as int, day as int),
        1 <= month <= 12 ==> r == day_number(year as int, month as int, day as int),
{
    let m: i64 = month as i64;
    let y: i64 = if m <= 2 {
        year as i64 - 1
    } else {
        year as i64
    };
    let era: i64 = if y >= 0 {
        y / 400
    } else {
        -((-(y + 1)) / 400) - 1
    };
    assert(era == y as int / 400);
    let yoe: i64 = y - era * 400;
    let mp: i64 = if m > 2 {
        m - 3
    } else {
        m + 9
    };
    let doy: i64 = (153 * mp + 2) / 5 + day as i64 - 1;
    let doe: i64 = yoe * 365 + yoe / 4 - yoe / 100 + doy;
    proof {
        reveal(leap_years);
        assert(y as int / 4 == era * 100 + yoe as int / 4);
        assert(y as int / 100 == era * 4 + yoe as int / 100);
        if 1 <= month <= 12 {
            march_count_agrees(year as int, month as int, day as int);
        }
    }
    era * 146_097 + doe - 719_468
}

/// The date of the day with a given date is that date.
pub proof fn date_survives_conversion(y: int, m: int, d: int)
    requires
        valid_date(y, m, d),
    ensures
        civil(day_number(y, m, d)) == (y, m, d),
{
    date_is_unique(day_number(y, m, d), y, m, d);
}

/// The day with the date of a given day is that day.
pub proof fn day_survives_conversion(n: int)
    ensures
        day_number(civil(n).0, civil(n).1, civil(n).2) == n,
{
    every_day_is_dated(n);
}

/// The date that a text such as `2024-02-29` gives: year, month and day between hyphens,
/// white space around them aside.
pub open spec fn read_date(s: Seq<char>) -> Option<(int, int, int)> {
    let parts = text::pieces(text::trimmed(s), '-');
    if parts.len() != 3 {
        None
    } else {
        match (
            numbers::denoted_within(parts[0], true, i32::MIN as int, i32::MAX as int),
            numbers::denoted_within(parts[1], false, 0, u32::MAX as int),
            numbers::denoted_within(parts[2], false, 0, u32::MAX as int),
        ) {
            (Some(y), Some(m), Some(d)) if valid_date(y, m, d) => Some((y, m, d)),
            _ => None,
        }
    }
}

/// The timestamp of the start of the day that a text gives.
pub open spec fn read_timestamp(s: Seq<char>) -> Option<int> {
    match read_date(s) {
        Some((y, m, d)) => Some(day_number(y, m, d) * 86_400),
        None => None,
    }
}

/// Year, month and day between hyphens, over four, two and two digits.
pub open spec fn date_text(y: int, m: int, d: int) -> Seq<char> {
    numbers::padded_text(y, 4) + "-"@ + numbers::padded_text(m, 2) + "-"@ + numbers::padded_text(d, 2)
}

/// A year number fits 32 bits, and with it every day number of that year.
pub proof fn day_number_bounds(y: int, m: int, d: int)
    requires
        i32::MIN <= y <= i32::MAX,
        1 <= m <= 12,
        0 <= d <= 31,
    ensures
        -800_000_000_000 < day_number(y, m, d) < 800_000_000_000,
{
    months_before(y);
    assert(-600_000_000 <= leap_years(y - 1) <= 600_000_000) by {
        reveal(leap_years);
    }
    assert(leap_years(1969) == 477) by {
        reveal(leap_years);
    }
}

fn last_day_of_month(year: i32, month: u32) -> (r: u32)
    requires
        1 <= month <= 12,
    ensures
        r == month_length(year as int, month as int),
{
    if month == 2 {
        let y: i64 = year as i64 + 4_000_000_000;
        proof {
            vstd::arithmetic::div_mod::lemma_mod_multiples_vanish(1_000_000_000, year as int, 4);
            vstd::arithmetic::div_mod::lemma_mod_multiples_vanish(40_000_000, year as int, 100);
            vstd::arithmetic::div_mod::lemma_mod_multiples_vanish(10_000_000, year as int, 400);
        }
        if y % 4 == 0 && (y % 100 != 0 || y % 400 == 0) {
            29
        } else {
            28
        }
    } else if month == 4 || month == 6 || month == 9 || month == 11 {
        30
    } else {
        31
    }
}

fn parse_part(part: &str, minus: bool, low: i64, high: i64) -> (r: Option<i64>)
    requires
        i64::MIN <= low,
        high <= i64::MAX,
    ensures
        match r {
            Some(n) => numbers::denoted_within(part@, minus, low as int, high as int) == Some(n as int),
            None => numbers::denoted_within(part@, minus, low as int, high as int) is None,
        },
{
    match numbers::parse_integer(part, minus) {
        Some(n) => if low <= n && n <= high {
            Some(n)
        } else {
            None
        },
        None => None,
    }
}

/// Reads a date and gives the timestamp of the start of that day.
pub fn parse_trade_date(value: &str) -> (r: Result<i64, ()>)
    ensures
        match r {
            Ok(timestamp) => read_timestamp(value@) == Some(timestamp as int),
            Err(_) => read_timestamp(value@) is None,
        },
{
    let parts = text::split(text::trim(value).as_str(), '-');
    if parts.len() != 3 {
        return Err(());
    }
    let year = parse_part(parts[0].as_str(), true, i32::MIN as i64, i32::MAX as i64);
    let month = parse_part(parts[1].as_str(), false, 0, u32::MAX as i64);
    let day = parse_part(parts[2].as_str(), false, 0, u32::MAX as i64);
    match (year, month, day) {
        (Some(y), Some(m), Some(d)) => {
            if !(1 <= m && m <= 12) || d < 1 || d > last_day_of_month(y as i32, m as u32) as i64 {
                return Err(());
            }
            proof {
                day_number_bounds(y as int, m as int, d as int);
            }
            Ok(days_from_civil(y as i32, m as u32, d as u32) * DAY_SECONDS)
        },
        _ => Err(()),
    }
}

/// The timestamp of an activity entered for a date: the start of that day.
pub fn activity_timestamp(value: &str) -> (r: Result<i64, ()>)
    ensures
        match r {
            Ok(timestamp) => read_timestamp(value@) == Some(timestamp as int),
            Err(_) => read_timestamp(value@) is None,
        },
{
    parse_trade_date(value)
}

/// Whether a date lies after today. A text that gives no date lies after no day.
pub fn date_is_future(value: &str, today: &str) -> (r: bool)
    ensures
        r == match (read_timestamp(value@), read_timestamp(today@)) {
            (Some(date), Some(now)) => date > now,
            _ => false,
        },
{
    match (parse_trade_date(value), parse_trade_date(today)) {
        (Ok(date), Ok(now)) => date > now,
        _ => false,
    }
}

pub fn date_string(year: i32, month: u32, day: u32) -> (r: String)
    ensures
        r@ == date_text(year as int, month as int, day as int),
{
    let mut r = numbers::print_padded(year as i64, 4);
    r.append("-");
    r.append(numbers::print_padded(month as i64, 2).as_str());
    r.append("-");
    r.append(numbers::print_padded(day as i64, 2).as_str());
    r
}

/// The day number of a timestamp, rounded towards the past.
pub fn day_of(timestamp: i64) -> (r: i64)
    ensures
        r == timestamp as int / 86_400,
        r <= i64::MAX - 719_468,
{
    if timestamp >= 0 {
        timestamp / DAY_SECONDS
    } else {
        -((-(timestamp + 1)) / DAY_SECONDS) - 1
    }
}

/// Today's date: the one of the local clock where it is known, else that of the
/// timestamp `now`.
pub fn local_date_parts(local: Option<(i32, u32, u32)>, now: i64) -> (r: (i32, u32, u32))
    ensures
        r == match local {
            Some(date) => date,
            None => civil_parts(now as int / 86_400),
        },
{
    match local {
        Some(date) => date,
        None => civil_from_days(day_of(now)),
    }
}

/// Today's date as text.
pub fn current_date_string(local: Option<(i32, u32, u32)>, now: i64) -> (r: String)
    ensures
        ({
            let date = match local {
                Some(date) => date,
                None => civil_parts(now as int / 86_400),
            };
            r@ == date_text(date.0 as int, date.1 as int, date.2 as int)
        }),
{
    let (year, month, day) = local_date_parts(local, now);
    date_string(year, month, day)
}

/// The year and the month of a timestamp after the epoch.
pub open spec fn year_month(timestamp: int) -> Option<(i32, u32)> {
    if timestamp <= 0 {
        None
    } else {
        let date = civil_parts(timestamp / 86_400);
        Some((date.0, date.1))
    }
}

pub fn timestamp_year_month(timestamp: i64) -> (r: Option<(i32, u32)>)
    ensures
        r == year_month(timestamp as int),
{
    if timestamp <= 0 {
        return None;
    }
    let (year, month, _) = civil_from_days(day_of(timestamp));
    Some((year, month))
}

pub open spec fn month_text(month: int) -> Seq<char> {
    if month == 1 {
        "Jan"@
    } else if month == 2 {
        "Feb"@
    } else if month == 3 {
        "Mar"@
    } else if month == 4 {
        "Apr"@
    } else if month == 5 {
        "May"@
    } else if month == 6 {
        "Jun"@
    } else if month == 7 {
        "Jul"@
    } else if month == 8 {
        "Aug"@
    } else if month == 9 {
        "Sep"@
    } else if month == 10 {
        "Oct"@
    } else if month == 11 {
        "Nov"@
    } else if month == 12 {
        "Dec"@
    } else {
        "?"@
    }
}

pub fn month_name(month: u32) -> (r: &'static str)
    ensures
        r@ == month_text(month as int),
{
    match month {
        1 => "Jan",
        2 => "Feb",
        3 => "Mar",
        4 => "Apr",
        5 => "May",
        6 => "Jun",
        7 => "Jul",
        8 => "Aug",
        9 => "Sep",
        10 => "Oct",
        11 => "Nov",
        12 => "Dec",
        _ => "?",
    }
}

/// A day as it is shown in lists, such as `Feb 29, 2024`.
pub open spec fn distribution_date_text(timestamp: int) -> Seq<char> {
    if timestamp <= 0 {
        "Unknown date"@
    } else {
        let date = civil_parts(timestamp / 86_400);
        month_text(date.1 as int) + " "@ + numbers::integer_text(date.2 as int) + ", "@
            + numbers::integer_text(date.0 as int)
    }
}

pub fn format_distribution_date(timestamp: i64) -> (r: String)
    ensures
        r@ == distribution_date_text(timestamp as int),
{
    if timestamp <= 0 {
        return "Unknown date".to_owned();
    }
    let (year, month, day) = civil_from_days(day_of(timestamp));
    let mut r = month_name(month).to_owned();
    r.append(" ");
    r.append(numbers::print_integer(day as i64).as_str());
    r.append(", ");
    r.append(numbers::print_integer(year as i64).as_str());
    r
}

/// How long ago a timestamp was, in the largest unit of minutes, hours and days that it
/// fills.
pub open spec fn relative_text(seconds: int) -> Seq<char> {
    if seconds < 60 {
        "just now"@
    } else if seconds < 3_600 {
        numbers::integer_text(seconds / 60) + " min ago"@
    } else if seconds < 86_400 {
        numbers::integer_text(seconds / 3_600) + " h ago"@
    } else {
        numbers::integer_text(seconds / 86_400) + " d ago"@
    }
}

pub fn relative_time(now: i64, timestamp: i64) -> (r: String)
    ensures
        r@ == relative_text(numbers::saturated(now - timestamp)),
{
    let seconds: i64 = numbers::saturating_difference(now, timestamp);
    if seconds < 60 {
        "just now".to_owned()
    } else if seconds < 3_600 {
        let mut r = numbers::print_integer(seconds / 60);
        r.append(" min ago");
        r
    } else if seconds < 86_400 {
        let mut r = numbers::print_integer(seconds / 3_600);
        r.append(" h ago");
        r
    } else {
        let mut r = numbers::print_integer(seconds / 86_400);
        r.append(" d ago");
        r
    }
}

/// A date that was printed reads back as that date.
pub proof fn printed_date_reads_back(y: int, m: int, d: int)
    requires
        valid_date(y, m, d),
        0 <= y <= i32::MAX,
    ensures
        read_date(date_text(y, m, d)) == Some((y, m, d)),
        read_timestamp(date_text(y, m, d)) == Some(day_number(y, m, d) * 86_400),
{
    let a = numbers::padded_text(y, 4);
    let b = numbers::padded_text(m, 2);
    let c = numbers::padded_text(d, 2);
    numbers::padded_integer_reads_back(y, 4);
    numbers::padded_integer_reads_back(m, 2);
    numbers::padded_integer_reads_back(d, 2);
    reveal_strlit("-");
    let s = date_text(y, m, d);
    assert(s =~= (a.push('-') + b).push('-') + c);
    assert(numbers::is_digit(a[0]));
    assert(s[0] == a[0] && s.last() == c.last());
    assert(numbers::is_digit(c[c.len() - 1]));
    assert(text::trim_front(s) == s);
    assert(text::trimmed(s) == s);
    assert forall|i: int| 0 <= i < a.len() implies a[i] != '-' by {
        assert(numbers::is_digit(a[i]));
    }
    assert forall|i: int| 0 <= i < b.len() implies b[i] != '-' by {
        assert(numbers::is_digit(b[i]));
    }
    assert forall|i: int| 0 <= i < c.len() implies c[i] != '-' by {
        assert(numbers::is_digit(c[i]));
    }
    text::only_piece(a, '-');
    text::one_more_piece(a, '-', b);
    text::one_more_piece(a.push('-') + b, '-', c);
    let parts = text::pieces(s, '-');
    assert(parts =~= seq![a, b, c]);
}

/// The date that a date chooser begins with: the one given, or else today's.
pub fn chooser_date(initial: &str, local: Option<(i32, u32, u32)>, now: i64) -> (r: (
    i32,
    u32,
    u32,
))
    ensures
        r == match read_date(initial@) {
            Some((y, m, d)) => (y as i32, m as u32, d as u32),
            None => match local {
                Some(date) => date,
                None => civil_parts(now as int / 86_400),
            },
        },
{
    match parse_trade_date(initial) {
        Ok(timestamp) => {
            let day: i64 = day_of(timestamp);
            proof {
                let (y, m, d) = read_date(initial@)->0;
                date_survives_conversion(y, m, d);
                assert(day == day_number(y, m, d));
            }
            civil_from_days(day)
        },
        Err(_) => local_date_parts(local, now),
    }
}

/// A date as the date chooser shows it.
pub fn chooser_label(year: i32, month: u32, day: u32) -> (r: String)
    ensures
        r@ == month_text(month as int) + " "@ + numbers::integer_text(day as int) + ", "@
            + numbers::integer_text(year as int),
{
    let mut r = month_name(month).to_owned();
    r.append(" ");
    r.append(numbers::print_integer(day as i64).as_str());
    r.append(", ");
    r.append(numbers::print_integer(year as i64).as_str());
    r
}

/// Days are counted one by one from the first of January 1970: the day after the last of a
/// month is the first of the next month, and a date is one that comes before that.
pub proof fn days_are_counted_one_by_one(y: int, m: int, d: int)
    requires
        1 <= m <= 12,
    ensures
        day_number(1970, 1, 1) == 0,
        day_number(y, m, d + 1) == day_number(y, m, d) + 1,
        day_number(y + 1, 1, 1) == day_number(y, 12, 31) + 1,
        m == 1 || m == 3 || m == 5 || m == 7 || m == 8 || m == 10 ==> day_number(y, m + 1, 1)
            == day_number(y, m, 31) + 1,
        m == 4 || m == 6 || m == 9 || m == 11 ==> day_number(y, m + 1, 1) == day_number(y, m, 30)
            + 1,
        y % 4 == 0 && (y % 100 != 0 || y % 400 == 0) ==> day_number(y, 3, 1) == day_number(y, 2, 29)
            + 1,
        y % 4 != 0 || y % 100 == 0 && y % 400 != 0 ==> day_number(y, 3, 1) == day_number(y, 2, 28)
            + 1,
        valid_date(y, m, d) <==> 1 <= d && day_number(y, m, d) < if m == 12 {
            day_number(y + 1, 1, 1)
        } else {
            day_number(y, m + 1, 1)
        },
{
    months_before(y);
    months_before(y + 1);
    months_before(1970);
    years_are_adjacent(y);
}

/// The month of a time is the one whose first day does not come after it and whose successor
/// does. Times up to the start of 1970 have none.
pub proof fn month_holds_its_times(timestamp: int, year: i32, month: u32)
    requires
        1 <= month <= 12,
        i32::MIN <= civil(timestamp / 86_400).0 <= i32::MAX,
    ensures
        timestamp <= 0 ==> year_month(timestamp) is None,
        timestamp > 0 ==> (year_month(timestamp) == Some((year, month)) <==> {
            &&& day_number(year as int, month as int, 1) * 86_400 <= timestamp
            &&& timestamp < 86_400 * if month == 12 {
                day_number(year + 1, 1, 1)
            } else {
                day_number(year as int, month + 1, 1)
            }
        }),
{
    let n = timestamp / 86_400;
    every_day_is_dated(n);
    let date = civil(n);
    days_are_counted_one_by_one(year as int, month as int, 1);
    days_are_counted_one_by_one(date.0, date.1, date.2);
    let d = n - day_number(year as int, month as int, 1) + 1;
    days_are_counted_one_by_one(year as int, month as int, d);
    if valid_date(year as int, month as int, d) {
        date_is_unique(n, year as int, month as int, d);
    }
}

/// An age is told in whole minutes, hours or days, the largest of which it has one.
pub proof fn age_is_told_in_whole_units(seconds: int, k: int)
    ensures
        seconds < 60 ==> relative_text(seconds) == "just now"@,
        1 <= k < 60 && 60 * k <= seconds < 60 * (k + 1) ==> relative_text(seconds)
            == numbers::integer_text(k) + " min ago"@,
        1 <= k < 24 && 3_600 * k <= seconds < 3_600 * (k + 1) ==> relative_text(seconds)
            == numbers::integer_text(k) + " h ago"@,
        1 <= k && 86_400 * k <= seconds < 86_400 * (k + 1) ==> relative_text(seconds)
            == numbers::integer_text(k) + " d ago"@,
{
}

/// The months by their names.
pub proof fn months_have_names(month: int)
    ensures
        1 <= month <= 12 ==> month_text(month) == seq![
            "Jan"@,
            "Feb"@,
            "Mar"@,
            "Apr"@,
            "May"@,
            "Jun"@,
            "Jul"@,
            "Aug"@,
            "Sep"@,
            "Oct"@,
            "Nov"@,
            "Dec"@,
        ][month - 1],
        month < 1 || month > 12 ==> month_text(month) == "?"@,
{
}

/// A distribution is dated by the day that its time lies in.
pub proof fn distribution_is_dated_by_its_day(timestamp: int, y: i32, m: u32, d: u32)
    requires
        valid_date(y as int, m as int, d as int),
        0 < timestamp,
        day_number(y as int, m as int, d as int) * 86_400 <= timestamp,
        timestamp < (day_number(y as int, m as int, d as int) + 1) * 86_400,
    ensures
        distribution_date_text(timestamp) == month_text(m as int) + " "@ + numbers::integer_text(
            d as int,
        ) + ", "@ + numbers::integer_text(y as int),
{
    date_is_unique(timestamp / 86_400, y as int, m as int, d as int);
}

/// Three numbers with hyphens between them, written with or without zeros in front, are read
/// as a date where there is such a date, and only there.
pub proof fn three_numbers_are_a_date(
    a: Seq<char>,
    b: Seq<char>,
    c: Seq<char>,
    y: int,
    m: int,
    d: int,
)
    requires
        numbers::all_digits(a),
        numbers::all_digits(b),
        numbers::all_digits(c),
        numbers::denoted(a, true) == Some(y),
        numbers::denoted(b, false) == Some(m),
        numbers::denoted(c, false) == Some(d),
        y <= i32::MAX,
    ensures
        read_date(a + "-"@ + b + "-"@ + c) == if valid_date(y, m, d) {
            Some((y, m, d))
        } else {
            None
        },
{
    reveal_strlit("-");
    let s = a + "-"@ + b + "-"@ + c;
    assert(s =~= (a.push('-') + b).push('-') + c);
    assert(numbers::is_digit(a[0]));
    assert(s[0] == a[0] && s.last() == c.last());
    assert(numbers::is_digit(c[c.len() - 1]));
    assert(text::trim_front(s) == s);
    assert(text::trimmed(s) == s);
    assert forall|i: int| 0 <= i < a.len() implies a[i] != '-' by {
        assert(numbers::is_digit(a[i]));
    }
    assert forall|i: int| 0 <= i < b.len() implies b[i] != '-' by {
        assert(numbers::is_digit(b[i]));
    }
    assert forall|i: int| 0 <= i < c.len() implies c[i] != '-' by {
        assert(numbers::is_digit(c[i]));
    }
    text::only_piece(a, '-');
    text::one_more_piece(a, '-', b);
    text::one_more_piece(a.push('-') + b, '-', c);
    let parts = text::pieces(s, '-');
    assert(parts =~= seq![a, b, c]);
    numbers::digits_spell_numbers(a, '0', true);
}

/// Blanks round a date do not count, and what is read as a date has three parts.
pub proof fn dates_have_three_parts(s: Seq<char>)
    ensures
        read_date(text::trimmed(s)) == read_date(s),
        read_date(s) is Some ==> exists|a: Seq<char>, b: Seq<char>, c: Seq<char>|
            text::trimmed(s) == #[trigger] ((a.push('-') + b).push('-') + c) && !a.contains('-')
                && !b.contains('-') && !c.contains('-') && numbers::denoted(a, true) == Some(
                (read_date(s)->0).0,
            ) && numbers::denoted(b, false) == Some((read_date(s)->0).1) && numbers::denoted(c, false)
                == Some((read_date(s)->0).2),
        read_date(s) is Some ==> valid_date(
            (read_date(s)->0).0,
            (read_date(s)->0).1,
            (read_date(s)->0).2,
        ),
{
    text::trimming_is_final(s);
    let t = text::trimmed(s);
    text::pieces_make_up_the_text(t, '-');
    let parts = text::pieces(t, '-');
    if parts.len() == 3 {
        let two = parts.drop_last();
        assert(two.drop_last() =~= seq![parts[0]]);
        assert(text::joined(seq![parts[0]], '-') == parts[0]);
        assert(text::joined(two, '-') == parts[0].push('-') + parts[1]);
        assert(t == (parts[0].push('-') + parts[1]).push('-') + parts[2]);
        assert(!parts[0].contains('-') && !parts[1].contains('-') && !parts[2].contains('-'));
    }
}

proof fn month_names_differ(a: int, b: int)
    requires
        1 <= a <= 12,
        1 <= b <= 12,
        month_text(a) == month_text(b),
    ensures
        a == b,
        month_text(a).len() == 3,
{
    reveal_strlit("Jan");
    reveal_strlit("Feb");
    reveal_strlit("Mar");
    reveal_strlit("Apr");
    reveal_strlit("May");
    reveal_strlit("Jun");
    reveal_strlit("Jul");
    reveal_strlit("Aug");
    reveal_strlit("Sep");
    reveal_strlit("Oct");
    reveal_strlit("Nov");
    reveal_strlit("Dec");
    let s = month_text(a);
    let t = month_text(b);
    assert(s[0] == t[0] && s[1] == t[1] && s[2] == t[2]);
}

proof fn month_names_are_short(a: int)
    requires
        1 <= a <= 12,
    ensures
        month_text(a).len() == 3,
{
    reveal_strlit("Jan");
    reveal_strlit("Feb");
    reveal_strlit("Mar");
    reveal_strlit("Apr");
    reveal_strlit("May");
    reveal_strlit("Jun");
    reveal_strlit("Jul");
    reveal_strlit("Aug");
    reveal_strlit("Sep");
    reveal_strlit("Oct");
    reveal_strlit("Nov");
    reveal_strlit("Dec");
}

/// Times of different days are written as different dates.
pub proof fn dates_are_written_apart(a: int, b: int)
    requires
        a > 0,
        b > 0,
        a / 86_400 != b / 86_400,
        civil(a / 86_400).0 <= i32::MAX,
        civil(b / 86_400).0 <= i32::MAX,
    ensures
        distribution_date_text(a) != distribution_date_text(b),
{
    let (y, m, d) = civil(a / 86_400);
    let (y2, m2, d2) = civil(b / 86_400);
    day_after_epoch_has_a_year(a / 86_400);
    day_after_epoch_has_a_year(b / 86_400);
    month_names_are_short(m);
    month_names_are_short(m2);
    numbers::printed_integer_is_plain(d);
    numbers::printed_integer_is_plain(d2);
    reveal_strlit(" ");
    reveal_strlit(", ");
    let s = distribution_date_text(a);
    let t = distribution_date_text(b);
    let x = numbers::integer_text(d);
    let x2 = numbers::integer_text(d2);
    let z = numbers::integer_text(y);
    let z2 = numbers::integer_text(y2);
    assert(s == month_text(m) + " "@ + x + ", "@ + z);
    assert(t == month_text(m2) + " "@ + x2 + ", "@ + z2);
    let n = x.len() as int;
    let n2 = x2.len() as int;
    if s == t {
        assert(s.take(3) =~= month_text(m));
        assert(t.take(3) =~= month_text(m2));
        month_names_differ(m, m2);
        assert(s[4 + n] == ',');
        assert(t[4 + n2] == ',');
        if n < n2 {
            assert(t[4 + n] == x2[n]);
            assert(numbers::is_digit(x2[n]));
        }
        if n2 < n {
            assert(s[4 + n2] == x[n2]);
            assert(numbers::is_digit(x[n2]));
        }
        assert(s.subrange(4, 4 + n) =~= x);
        assert(t.subrange(4, 4 + n2) =~= x2);
        assert(s.skip(6 + n) =~= z);
        assert(t.skip(6 + n2) =~= z2);
        numbers::printed_integer_reads_back(d);
        numbers::printed_integer_reads_back(d2);
        numbers::printed_integer_reads_back(y);
        numbers::printed_integer_reads_back(y2);
        day_survives_conversion(a / 86_400);
        day_survives_conversion(b / 86_400);
    }
}

proof fn day_after_epoch_has_a_year(n: int)
    requires
        n >= 0,
    ensures
        civil(n).0 >= 1970,
        1 <= civil(n).1 <= 12,
        1 <= civil(n).2 <= 31,
{
    every_day_is_dated(n);
    let (y, m, d) = civil(n);
    if y < 1970 {
        assert(valid_date(1970, 1, 1));
        dates_are_ordered(y, m, d, 1970, 1, 1);
        days_are_counted_one_by_one(1970, 1, 1);
    }
}

} // verus!
