//! Proleptic Gregorian calendar arithmetic on day numbers counted from 1970-01-01.

use vstd::prelude::*;

verus! {

/// A calendar date without a time of day.
#[derive(Clone, Copy, Debug, PartialEq, Eq, Structural)]
pub struct DateOnly {
    pub y: i32,
    pub m: u32,
    pub d: u32,
}

/// Smallest day number whose year still fits in an `i32`: the first of January of year `i32::MIN`.
pub const MIN_CIVIL_DAY: i64 = -784353015833;

/// Largest day number whose year still fits in an `i32`: the last of December of year `i32::MAX`.
pub const MAX_CIVIL_DAY: i64 = 784351576776;

/// Floor of `a / b` for a positive divisor.
pub fn floor_div(a: i64, b: i64) -> (q: i64)
    requires
        b > 0,
    ensures
        q == a / b,
{
    assert(i64::MIN <= a / b <= i64::MAX) by (nonlinear_arith)
        requires
            b > 0,
            i64::MIN <= a <= i64::MAX,
    ;
    match a.checked_div_euclid(b) {
        Some(q) => q,
        None => 0,
    }
}

/// Non-negative remainder of `a / b` for a positive divisor.
pub fn floor_mod(a: i64, b: i64) -> (r: i64)
    requires
        b > 0,
    ensures
        r == a % b,
        0 <= r < b,
{
    match a.checked_rem_euclid(b) {
        Some(r) => r,
        None => 0,
    }
}

/// The Gregorian leap-year rule, applied proleptically to every year.
pub open spec fn is_leap_year(y: int) -> bool {
    y % 4 == 0 && (y % 100 != 0 || y % 400 == 0)
}

/// Number of days of month `m` in year `y`.
pub open spec fn days_in_month(y: int, m: int) -> int {
    if m == 2 {
        if is_leap_year(y) {
            29
        } else {
            28
        }
    } else if m == 4 || m == 6 || m == 9 || m == 11 {
        30
    } else {
        31
    }
}

/// Whether `(y, m, d)` names a day of the calendar.
pub open spec fn valid_date(y: int, m: int, d: int) -> bool {
    1 <= m <= 12 && 1 <= d <= days_in_month(y, m)
}

/// Days from 0001-01-01 to the first of January of year `y`: 365 for each year in between
/// and one more for each leap year among them.
pub open spec fn days_before_year(y: int) -> int {
    365 * (y - 1) + (y - 1) / 4 - (y - 1) / 100 + (y - 1) / 400
}

/// Days of year `y` that lie before the first of month `m`: the lengths of the months before it.
pub open spec fn days_before_month(y: int, m: int) -> int
    decreases m,
{
    if m <= 1 {
        0
    } else {
        days_before_month(y, m - 1) + days_in_month(y, m - 1)
    }
}

/// The day number of a date: days elapsed since 1970-01-01, negative before it.
pub open spec fn day_number(y: int, m: int, d: int) -> int {
    days_before_year(y) + days_before_month(y, m) + (d - 1) - days_before_year(1970)
}

/// The day count over the shifted calendar whose year starts on the first of March,
/// split into 400-year eras of 146097 days.
pub open spec fn march_day_number(shifted_year: int, month_from_march: int, d: int) -> int {
    let era = shifted_year / 400;
    let yoe = shifted_year % 400;
    era * 146097 + yoe * 365 + yoe / 4 - yoe / 100 + (153 * month_from_march + 2) / 5 + (d - 1)
        - 719468
}

/// Each year adds 365 days to the count, a leap year 366.
pub proof fn lemma_year_length(y: int)
    ensures
        days_before_year(y + 1) - days_before_year(y) == if is_leap_year(y) {
            366int
        } else {
            365int
        },
{
}

/// A full year holds as many days as its twelve months.
pub proof fn lemma_months_fill_year(y: int)
    ensures
        days_before_month(y, 13) == days_before_year(y + 1) - days_before_year(y),
{
    lemma_days_before_month_table(y, 13);
    lemma_year_length(y);
}

/// Days of a common year that lie before the first of month `m`.
pub open spec fn common_days_before_month(m: int) -> int {
    if m <= 1 {
        0
    } else if m == 2 {
        31
    } else if m == 3 {
        59
    } else if m == 4 {
        90
    } else if m == 5 {
        120
    } else if m == 6 {
        151
    } else if m == 7 {
        181
    } else if m == 8 {
        212
    } else if m == 9 {
        243
    } else if m == 10 {
        273
    } else if m == 11 {
        304
    } else if m == 12 {
        334
    } else {
        365
    }
}

/// Number of leap years among the years 1 ..= y (negative below year 1).
pub open spec fn leap_years_through(y: int) -> int {
    y / 4 - y / 100 + y / 400
}

/// The months before `m` hold the days of a common year's months, and the leap day from March on.
pub proof fn lemma_days_before_month_table(y: int, m: int)
    requires
        1 <= m <= 13,
    ensures
        days_before_month(y, m) == common_days_before_month(m) + if m >= 3 && is_leap_year(y) {
            1int
        } else {
            0int
        },
{
    reveal_with_fuel(days_before_month, 14);
}

proof fn lemma_leap_years_by_era(y: int)
    ensures
        leap_years_through(y) == 97 * (y / 400) + (y % 400) / 4 - (y % 400) / 100,
{
    let era = y / 400;
    let yoe = y % 400;
    assert(y == 400 * era + yoe);
    assert(y / 4 == 100 * era + yoe / 4);
    assert(y / 100 == 4 * era + yoe / 100);
}

#[verifier::rlimit(30)]
proof fn lemma_leap_years_step(y: int)
    ensures
        leap_years_through(y) == leap_years_through(y - 1) + if is_leap_year(y) {
            1int
        } else {
            0int
        },
{
}

proof fn lemma_march_offset(m: int)
    requires
        1 <= m <= 12,
    ensures
        m >= 3 ==> (153 * (m - 3) + 2) / 5 == common_days_before_month(m) - 59,
        m <= 2 ==> (153 * (m + 9) + 2) / 5 == common_days_before_month(m) + 306,
{
}

/// The shifted, era-based count agrees with the day number.
pub proof fn lemma_march_form(y: int, m: int, d: int)
    requires
        1 <= m <= 12,
    ensures
        day_number(y, m, d) == march_day_number(
            if m <= 2 {
                y - 1
            } else {
                y
            },
            if m > 2 {
                m - 3
            } else {
                m + 9
            },
            d,
        ),
{
    let sy = if m <= 2 { y - 1 } else { y };
    let era = sy / 400;
    let yoe = sy % 400;
    lemma_days_before_month_table(y, m);
    lemma_march_offset(m);
    lemma_leap_years_by_era(sy);
    lemma_leap_years_step(y);
    assert(days_before_year(y) == 365 * (y - 1) + leap_years_through(y - 1));
    assert(days_before_year(1970) == 719162);
    assert(sy == 400 * era + yoe);
    assert(era * 146097 + yoe * 365 == 365 * sy + 97 * era);
}

/// Days since 1970-01-01 of the date `(y, m, d)`.
#[verifier::rlimit(30)]
pub fn days_from_civil(y: i32, m: u32, d: u32) -> (days: i64)
    requires
        1 <= m <= 12,
        1 <= d <= 31,
    ensures
        days == day_number(y as int, m as int, d as int),
{
    let sy: i64 = if m <= 2 { y as i64 - 1 } else { y as i64 };
    let era: i64 = (if sy >= 0 { sy } else { sy - 399 }) / 400;
    let yoe: u32 = (sy - era * 400) as u32;
    let m_adj: u32 = if m > 2 { m - 3 } else { m + 9 };
    let doy: u32 = (153 * m_adj + 2) / 5 + d - 1;
    let doe: u32 = yoe * 365 + yoe / 4 - yoe / 100 + doy;
    proof {
        lemma_march_form(y as int, m as int, d as int);
    }
    era * 146097 + doe as i64 - 719468
}


proof fn lemma_year_of_era(doe: int)
    requires
        0 <= doe <= 146096,
    ensures
        ({
            let yoe = (doe - doe / 1460 + doe / 36524 - doe / 146096) / 365;
            let doy = doe - (365 * yoe + yoe / 4 - yoe / 100);
            &&& 0 <= yoe <= 399
            &&& 0 <= doy <= 365
            &&& doy == 365 ==> (yoe % 4 == 3 && (yoe % 100 != 99 || yoe == 399))
        }),
{
}

proof fn lemma_month_of_year(doy: int)
    requires
        0 <= doy <= 365,
    ensures
        ({
            let mp = (5 * doy + 2) / 153;
            let d = doy - (153 * mp + 2) / 5 + 1;
            let m = if mp < 10 { mp + 3 } else { mp - 9 };
            &&& 0 <= mp <= 11
            &&& 1 <= d <= 31
            &&& m != 2 ==> d <= days_in_month(0, m)
            &&& m == 2 ==> d <= 29
            &&& (m == 2 && d == 29) ==> doy == 365
        }),
{
}


/// Whether the first date comes strictly before the second.
pub open spec fn date_before(y1: int, m1: int, d1: int, y2: int, m2: int, d2: int) -> bool {
    y1 < y2 || (y1 == y2 && (m1 < m2 || (m1 == m2 && d1 < d2)))
}

/// The date that carries day number `n`: the one valid date that many days from 1970-01-01.
pub open spec fn date_of_day(n: int) -> (int, int, int) {
    choose|t: (int, int, int)| valid_date(t.0, t.1, t.2) && day_number(t.0, t.1, t.2) == n
}

proof fn lemma_days_before_year_monotonic(a: int, b: int)
    requires
        a <= b,
    ensures
        days_before_year(a) <= days_before_year(b),
{
}

/// A later date has a larger day number.
pub proof fn lemma_day_number_monotonic(y1: int, m1: int, d1: int, y2: int, m2: int, d2: int)
    requires
        valid_date(y1, m1, d1),
        valid_date(y2, m2, d2),
        date_before(y1, m1, d1, y2, m2, d2),
    ensures
        day_number(y1, m1, d1) < day_number(y2, m2, d2),
{
    lemma_days_before_month_table(y1, m1);
    lemma_days_before_month_table(y2, m2);
    if y1 < y2 {
        lemma_year_length(y1);
        lemma_days_before_year_monotonic(y1 + 1, y2);
    }
}

/// Two valid dates with the same day number are the same date.
pub proof fn lemma_day_number_injective(y1: int, m1: int, d1: int, y2: int, m2: int, d2: int)
    requires
        valid_date(y1, m1, d1),
        valid_date(y2, m2, d2),
        day_number(y1, m1, d1) == day_number(y2, m2, d2),
    ensures
        y1 == y2 && m1 == m2 && d1 == d2,
{
    if date_before(y1, m1, d1, y2, m2, d2) {
        lemma_day_number_monotonic(y1, m1, d1, y2, m2, d2);
    }
    if date_before(y2, m2, d2, y1, m1, d1) {
        lemma_day_number_monotonic(y2, m2, d2, y1, m1, d1);
    }
}

/// A valid date is the date of its own day number.
pub proof fn lemma_date_of_day_number(y: int, m: int, d: int)
    requires
        valid_date(y, m, d),
    ensures
        date_of_day(day_number(y, m, d)) == (y, m, d),
{
    let n = day_number(y, m, d);
    let t = date_of_day(n);
    assert(valid_date((y, m, d).0, (y, m, d).1, (y, m, d).2) && day_number(
        (y, m, d).0,
        (y, m, d).1,
        (y, m, d).2,
    ) == n);
    lemma_day_number_injective(y, m, d, t.0, t.1, t.2);
}

/// The day number of a date-shaped triple with a year in `i32` stays far inside `i64`.
pub proof fn lemma_day_number_span(y: int, m: int, d: int)
    requires
        i32::MIN <= y <= i32::MAX,
        1 <= m <= 12,
        1 <= d <= 31,
    ensures
        -800_000_000_000 < day_number(y, m, d) < 800_000_000_000,
{
    lemma_days_before_month_table(y, m);
}

/// Every day number is that of a valid date, which is its date.
pub proof fn lemma_date_of_day(n: int)
    ensures
        valid_date(date_of_day(n).0, date_of_day(n).1, date_of_day(n).2),
        day_number(date_of_day(n).0, date_of_day(n).1, date_of_day(n).2) == n,
{
    let z = n + 719468;
    let era = z / 146097;
    let doe = z % 146097;
    lemma_shifted_date(era, doe);
    let yoe = (doe - doe / 1460 + doe / 36524 - doe / 146096) / 365;
    let doy = doe - (365 * yoe + yoe / 4 - yoe / 100);
    let mp = (5 * doy + 2) / 153;
    let d = doy - (153 * mp + 2) / 5 + 1;
    let m = if mp < 10 { mp + 3 } else { mp - 9 };
    let sy = yoe + era * 400;
    let y = if m <= 2 { sy + 1 } else { sy };
    let t = (y, m, d);
    assert(valid_date(t.0, t.1, t.2) && day_number(t.0, t.1, t.2) == n);
}

/// The day numbers whose year fits in an `i32` are those between the two bounds.
pub proof fn lemma_civil_day_bounds()
    ensures
        day_number(i32::MIN as int, 1, 1) == MIN_CIVIL_DAY,
        day_number(i32::MAX as int, 12, 31) == MAX_CIVIL_DAY,
{
    lemma_days_before_month_table(i32::MIN as int, 1);
    lemma_days_before_month_table(i32::MAX as int, 12);
}

proof fn lemma_shifted_date(era: int, doe: int)
    requires
        0 <= doe <= 146096,
    ensures
        ({
            let yoe = (doe - doe / 1460 + doe / 36524 - doe / 146096) / 365;
            let doy = doe - (365 * yoe + yoe / 4 - yoe / 100);
            let mp = (5 * doy + 2) / 153;
            let d = doy - (153 * mp + 2) / 5 + 1;
            let m = if mp < 10 { mp + 3 } else { mp - 9 };
            let sy = yoe + era * 400;
            let y = if m <= 2 { sy + 1 } else { sy };
            &&& 0 <= yoe <= 399
            &&& 0 <= doy <= 365
            &&& 0 <= mp <= 11
            &&& 1 <= d <= 31
            &&& valid_date(y, m, d)
            &&& day_number(y, m, d) == era * 146097 + doe - 719468
        }),
{
    lemma_year_of_era(doe);
    let yoe = (doe - doe / 1460 + doe / 36524 - doe / 146096) / 365;
    let doy = doe - (365 * yoe + yoe / 4 - yoe / 100);
    lemma_month_of_year(doy);
    let mp = (5 * doy + 2) / 153;
    let d = doy - (153 * mp + 2) / 5 + 1;
    let m = if mp < 10 { mp + 3 } else { mp - 9 };
    let sy = yoe + era * 400;
    let y = if m <= 2 { sy + 1 } else { sy };
    assert(sy / 400 == era && sy % 400 == yoe);
    lemma_march_form(y, m, d);
    assert(m > 2 ==> m - 3 == mp);
    assert(m <= 2 ==> m + 9 == mp);
    assert(march_day_number(sy, mp, d) == era * 146097 + doe - 719468);
    if m == 2 && d == 29 {
        assert(doy == 365);
        assert(yoe % 4 == 3 && (yoe % 100 != 99 || yoe == 399));
        assert(y == yoe + 1 + era * 400);
        assert(is_leap_year(y));
    }
}

/// The date `(year, month, day)` that lies `days` days from 1970-01-01.
pub fn civil_from_days(days: i64) -> (date: (i32, u32, u32))
    requires
        MIN_CIVIL_DAY <= days <= MAX_CIVIL_DAY,
    ensures
        valid_date(date.0 as int, date.1 as int, date.2 as int),
        day_number(date.0 as int, date.1 as int, date.2 as int) == days,
        (date.0 as int, date.1 as int, date.2 as int) == date_of_day(days as int),
{
    let z: i64 = days + 719468;
    let era: i64 = (if z >= 0 { z } else { z - 146096 }) / 146097;
    let doe: u32 = (z - era * 146097) as u32;
    proof {
        lemma_shifted_date(era as int, doe as int);
    }
    let yoe: u32 = (doe - doe / 1460 + doe / 36524 - doe / 146096) / 365;
    let sy: i64 = yoe as i64 + era * 400;
    let doy: u32 = doe - (365 * yoe + yoe / 4 - yoe / 100);
    let mp: u32 = (5 * doy + 2) / 153;
    let d: u32 = doy - (153 * mp + 2) / 5 + 1;
    let m: u32 = if mp < 10 { mp + 3 } else { mp - 9 };
    let y: i64 = if m <= 2 { sy + 1 } else { sy };
    proof {
        lemma_civil_day_bounds();
        if y < i32::MIN {
            lemma_day_number_monotonic(y as int, m as int, d as int, i32::MIN as int, 1, 1);
        }
        if y > i32::MAX {
            lemma_day_number_monotonic(i32::MAX as int, 12, 31, y as int, m as int, d as int);
        }
        lemma_date_of_day_number(y as int, m as int, d as int);
    }
    (y as i32, m, d)
}


impl DateOnly {
    /// The date as a mathematical triple `(year, month, day)`.
    pub open spec fn triple(self) -> (int, int, int) {
        (self.y as int, self.m as int, self.d as int)
    }

    /// Whether the fields name a day of the calendar.
    pub open spec fn is_valid(self) -> bool {
        valid_date(self.y as int, self.m as int, self.d as int)
    }

    /// Days elapsed from 1970-01-01 to this date.
    pub open spec fn day_number(self) -> int {
        day_number(self.y as int, self.m as int, self.d as int)
    }

    /// Whether this date comes strictly before `other`, field by field.
    pub open spec fn before(self, other: DateOnly) -> bool {
        date_before(
            self.y as int,
            self.m as int,
            self.d as int,
            other.y as int,
            other.m as int,
            other.d as int,
        )
    }

    /// Whether this date lies in the half-open range that starts at `start` and ends before `end`.
    pub open spec fn within(self, start: DateOnly, end: DateOnly) -> bool {
        !self.before(start) && self.before(end)
    }
}

/// The signed difference of the first field in which two dates differ, year first; zero if none.
pub open spec fn date_only_difference(a: DateOnly, b: DateOnly) -> int {
    if a.y != b.y {
        a.y - b.y
    } else if a.m != b.m {
        a.m - b.m
    } else {
        a.d - b.d
    }
}

/// Orders two dates: negative when `a` is earlier, zero when equal, positive when later.
pub fn date_only_compare(a: &DateOnly, b: &DateOnly) -> (r: i64)
    ensures
        r == date_only_difference(*a, *b),
        r < 0 <==> a.before(*b),
        r == 0 <==> *a == *b,
        r > 0 <==> b.before(*a),
{
    if a.y != b.y {
        return a.y as i64 - b.y as i64;
    }
    if a.m != b.m {
        return (a.m as i64) - (b.m as i64);
    }
    (a.d as i64) - (b.d as i64)
}

/// Whether `target` falls on or after `start` and strictly before `end`.
pub fn within_cst_range(target: &DateOnly, start: &DateOnly, end: &DateOnly) -> (r: bool)
    ensures
        r == target.within(*start, *end),
{
    date_only_compare(start, target) <= 0 && date_only_compare(target, end) < 0
}

/// Whole seconds of local wall-clock time since 1970-01-01 00:00 for an instant in
/// milliseconds and a fixed offset from UTC in seconds.
pub open spec fn local_seconds(utc_ms: int, offset_seconds: int) -> int {
    utc_ms / 1000 + offset_seconds
}

/// Day number of the local calendar date of an instant.
pub open spec fn local_day(utc_ms: int, offset_seconds: int) -> int {
    local_seconds(utc_ms, offset_seconds) / 86400
}

/// Seconds elapsed since local midnight at an instant.
pub open spec fn local_second_of_day(utc_ms: int, offset_seconds: int) -> int {
    local_seconds(utc_ms, offset_seconds) % 86400
}

/// Local calendar date `(year, month, day)` of an instant.
pub open spec fn local_date(utc_ms: int, offset_seconds: int) -> (int, int, int) {
    date_of_day(local_day(utc_ms, offset_seconds))
}

/// Local calendar date of an instant, as a `DateOnly`.
pub open spec fn date_only_of(utc_ms: int, offset_seconds: int) -> DateOnly {
    let t = local_date(utc_ms, offset_seconds);
    DateOnly { y: t.0 as i32, m: t.1 as u32, d: t.2 as u32 }
}

/// The local date of an instant is a valid date and carries the instant's local day number.
pub proof fn lemma_date_only_of(utc_ms: int, offset_seconds: int)
    requires
        i64::MIN <= utc_ms <= i64::MAX,
        i32::MIN <= offset_seconds <= i32::MAX,
    ensures
        date_only_of(utc_ms, offset_seconds).is_valid(),
        date_only_of(utc_ms, offset_seconds).triple() == local_date(utc_ms, offset_seconds),
        date_only_of(utc_ms, offset_seconds).day_number() == local_day(utc_ms, offset_seconds),
{
    let n = local_day(utc_ms, offset_seconds);
    let t = date_of_day(n);
    lemma_date_of_day(n);
    lemma_civil_day_bounds();
    if t.0 < i32::MIN {
        lemma_day_number_monotonic(t.0, t.1, t.2, i32::MIN as int, 1, 1);
    }
    if t.0 > i32::MAX {
        lemma_day_number_monotonic(i32::MAX as int, 12, 31, t.0, t.1, t.2);
    }
}

/// Splits an instant into local `(year, month, day, hour, minute, second)`.
pub fn utc_ms_to_date_parts(utc_ms: i64, offset_seconds: i32) -> (parts: (
    i32,
    u32,
    u32,
    u32,
    u32,
    u32,
))
    ensures
        (parts.0 as int, parts.1 as int, parts.2 as int) == local_date(
            utc_ms as int,
            offset_seconds as int,
        ),
        valid_date(parts.0 as int, parts.1 as int, parts.2 as int),
        day_number(parts.0 as int, parts.1 as int, parts.2 as int) == local_day(
            utc_ms as int,
            offset_seconds as int,
        ),
        parts.3 == local_second_of_day(utc_ms as int, offset_seconds as int) / 3600,
        parts.4 == (local_second_of_day(utc_ms as int, offset_seconds as int) % 3600) / 60,
        parts.5 == local_second_of_day(utc_ms as int, offset_seconds as int) % 60,
        parts.3 < 24 && parts.4 < 60 && parts.5 < 60,
        -300_000_000 < parts.0 < 300_000_000,
{
    let total_s: i64 = floor_div(utc_ms, 1000) + offset_seconds as i64;
    let days_from_epoch: i64 = floor_div(total_s, 86400);
    let time_of_day: u32 = floor_mod(total_s, 86400) as u32;

    let hour: u32 = time_of_day / 3600;
    let minute: u32 = (time_of_day % 3600) / 60;
    let second: u32 = time_of_day % 60;

    let (y, m, d) = civil_from_days(days_from_epoch);
    proof {
        lemma_days_before_month_table(-300_000_000, 12);
        lemma_days_before_month_table(300_000_000, 1);
        if y <= -300_000_000 {
            if y < -300_000_000 || m < 12 || d < 31 {
                lemma_day_number_monotonic(y as int, m as int, d as int, -300_000_000, 12, 31);
            }
        }
        if y >= 300_000_000 {
            if y > 300_000_000 || m > 1 || d > 1 {
                lemma_day_number_monotonic(300_000_000, 1, 1, y as int, m as int, d as int);
            }
        }
    }
    (y, m, d, hour, minute, second)
}

/// Local calendar date of an instant.
pub fn cst_date_of(utc_ms: i64, offset_seconds: i32) -> (date: DateOnly)
    ensures
        date == date_only_of(utc_ms as int, offset_seconds as int),
        date.triple() == local_date(utc_ms as int, offset_seconds as int),
        date.is_valid(),
        date.day_number() == local_day(utc_ms as int, offset_seconds as int),
        -300_000_000 < date.y < 300_000_000,
{
    let (y, m, d, _, _, _) = utc_ms_to_date_parts(utc_ms, offset_seconds);
    DateOnly { y, m, d }
}

} // verus!
