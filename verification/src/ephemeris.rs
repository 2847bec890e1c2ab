//! Search for new moons and solar-term crossings in the longitudes of Sun and Moon.
//!
//! Instants are Julian days counted in billionths of a day, longitudes are degrees counted
//! in billionths of a degree. A search steps through its range a day at a time and bisects
//! each step in which an event shows; it relies on no two events of a kind falling into
//! one step.

use crate::civil::{
    day_number, days_from_civil, floor_div, floor_mod, lemma_day_number_monotonic,
    lemma_days_before_month_table,
};
use vstd::prelude::*;

verus! {

/// One day, the step of a search, in billionths of a day.
pub const DAY: i64 = 1_000_000_000;

/// One day in milliseconds.
pub const DAY_MS: i64 = 86_400_000;

/// Width below which a bisection stops: a hundred-millionth of a day, about a millisecond.
pub const BISECT_PRECISION_JD: i64 = 10;

/// Number of halvings after which a bisection stops at the latest.
pub const BISECT_MAX_STEPS: u32 = 50;

/// A full turn, in billionths of a degree.
pub const FULL_TURN: i64 = 360_000_000_000;

/// Half a turn, in billionths of a degree.
pub const HALF_TURN: i64 = 180_000_000_000;

/// Width of the sector of one solar term, 15 degrees, in billionths of a degree.
pub const SECTOR_WIDTH: i64 = 15_000_000_000;

/// Julian day of 1970-01-01 00:00 UT, in billionths of a day.
pub const UNIX_EPOCH_JD: i64 = 2_440_587_500_000_000;

/// First year from which a search can start.
pub const MIN_SCAN_YEAR: i32 = -20_000_000;

/// Last year up to which a search can run.
pub const MAX_SCAN_YEAR: i32 = 20_000_000;

/// The angle between -180 degrees, excluded, and 180 degrees, included, that differs from
/// `a` by whole turns.
pub open spec fn norm180_spec(a: int) -> int {
    let m = a % (FULL_TURN as int);
    if m > HALF_TURN {
        m - FULL_TURN
    } else {
        m
    }
}

/// Elongation of the Moon from the Sun, between -180 and 180 degrees.
pub open spec fn elongation_spec(sun_lon: int, moon_lon: int) -> int {
    norm180_spec(moon_lon - sun_lon)
}

/// Sector `0..24` of 15 degrees in which a solar longitude lies.
pub open spec fn sector_spec(sun_lon: int) -> int {
    (sun_lon / (SECTOR_WIDTH as int)) % 24
}

/// Milliseconds since 1970-01-01 00:00 UT of a Julian day in billionths of a day, rounded down.
pub open spec fn jd_to_unix_ms_spec(jd: int) -> int {
    ((jd - UNIX_EPOCH_JD) * 864) / 10_000
}

/// Julian day, in billionths of a day, of the first instant of a Gregorian year.
pub open spec fn year_start_spec(year: int) -> int {
    day_number(year, 1, 1) * DAY + UNIX_EPOCH_JD
}

/// Brings an angle between -180 degrees, excluded, and 180 degrees, included.
pub fn norm180(a: i64) -> (r: i64)
    ensures
        r == norm180_spec(a as int),
        -HALF_TURN < r <= HALF_TURN,
{
    let mut a: i64 = a % FULL_TURN;
    if a > HALF_TURN {
        a -= FULL_TURN;
    }
    if a <= -HALF_TURN {
        a += FULL_TURN;
    }
    a
}

/// Elongation of the Moon from the Sun, from their longitudes.
pub fn elongation_of(sun_lon: i64, moon_lon: i64) -> (e: i64)
    ensures
        e == elongation_spec(sun_lon as int, moon_lon as int),
        -HALF_TURN < e <= HALF_TURN,
{
    let moon: i64 = norm180(moon_lon);
    let sun: i64 = norm180(sun_lon);
    proof {
        let km = lemma_norm180_turns(moon_lon as int);
        let ks = lemma_norm180_turns(sun_lon as int);
        assert(moon - sun == (ks - km) * FULL_TURN + (moon_lon - sun_lon)) by (nonlinear_arith)
            requires
                moon_lon - moon == km * FULL_TURN,
                sun_lon - sun == ks * FULL_TURN,
        ;
        lemma_norm180_shift(moon_lon - sun_lon, ks - km);
    }
    norm180(moon - sun)
}

/// An angle and the angle it is brought to differ by whole turns; returns their number.
proof fn lemma_norm180_turns(a: int) -> (k: int)
    ensures
        a - norm180_spec(a) == k * FULL_TURN,
{
    let q = a / (FULL_TURN as int);
    let m = a % (FULL_TURN as int);
    assert(a == FULL_TURN * q + m);
    if m > HALF_TURN {
        assert(a - norm180_spec(a) == (q + 1) * FULL_TURN) by (nonlinear_arith)
            requires
                a == FULL_TURN * q + m,
                norm180_spec(a) == m - FULL_TURN,
        ;
        q + 1
    } else {
        assert(a - norm180_spec(a) == q * FULL_TURN) by (nonlinear_arith)
            requires
                a == FULL_TURN * q + m,
                norm180_spec(a) == m,
        ;
        q
    }
}

/// Angles that differ by whole turns are brought to the same angle.
proof fn lemma_norm180_shift(a: int, k: int)
    ensures
        norm180_spec(k * FULL_TURN + a) == norm180_spec(a),
{
    vstd::arithmetic::div_mod::lemma_mod_multiples_vanish(k, a, FULL_TURN as int);
    assert(FULL_TURN * k + a == k * FULL_TURN + a) by (nonlinear_arith);
}

/// Sector of 15 degrees in which a solar longitude lies.
pub fn sector_of(sun_lon: i64) -> (sector: u32)
    ensures
        sector == sector_spec(sun_lon as int),
        sector < 24,
{
    floor_mod(floor_div(sun_lon, SECTOR_WIDTH), 24) as u32
}

/// Milliseconds since 1970-01-01 00:00 UT of a Julian day in billionths of a day.
pub fn jd_to_unix_ms(jd: i64) -> (ms: i64)
    ensures
        ms == jd_to_unix_ms_spec(jd as int),
{
    let scaled: i128 = (jd as i128 - UNIX_EPOCH_JD as i128) * 864;
    match scaled.checked_div_euclid(10_000) {
        Some(ms) => ms as i64,
        None => 0,
    }
}

/// Julian day, in billionths of a day, of the first instant of a Gregorian year.
pub fn jd_of_year_start(year: i32) -> (jd: i64)
    requires
        MIN_SCAN_YEAR <= year <= MAX_SCAN_YEAR,
    ensures
        jd == year_start_spec(year as int),
        -8_000_000_000_000_000_000 <= jd <= 8_000_000_000_000_000_000,
{
    let days: i64 = days_from_civil(year, 1, 1);
    proof {
        lemma_days_before_month_table(year as int, 1);
        lemma_days_before_month_table(MIN_SCAN_YEAR as int, 1);
        lemma_days_before_month_table(MAX_SCAN_YEAR as int, 1);
        if MIN_SCAN_YEAR < year {
            lemma_day_number_monotonic(MIN_SCAN_YEAR as int, 1, 1, year as int, 1, 1);
        }
        if year < MAX_SCAN_YEAR {
            lemma_day_number_monotonic(year as int, 1, 1, MAX_SCAN_YEAR as int, 1, 1);
        }
    }
    days * DAY + UNIX_EPOCH_JD
}

/// Whether an oracle gives one longitude only at each instant.
pub open spec fn oracle_is_function<F: Fn(i64) -> i64>(oracle: &F) -> bool {
    forall|jd: i64, a: i64, b: i64|
        call_ensures(*oracle, (jd,), a) && call_ensures(*oracle, (jd,), b) ==> a == b
}

/// A longitude that an oracle gives at an instant.
pub open spec fn oracle_value<F: Fn(i64) -> i64>(oracle: &F, jd: i64) -> i64 {
    choose|v: i64| call_ensures(*oracle, (jd,), v)
}

/// What an oracle that gives one longitude only at each instant has given is its value there.
pub proof fn lemma_oracle_value<F: Fn(i64) -> i64>(oracle: &F, jd: i64, v: i64)
    requires
        oracle_is_function(oracle),
        call_ensures(*oracle, (jd,), v),
    ensures
        v == oracle_value(oracle, jd),
{
}

/// Elongation of the Moon from the Sun at an instant, by the values of the two oracles.
pub open spec fn elongation_at<S: Fn(i64) -> i64, M: Fn(i64) -> i64>(
    sun_lon: &S,
    moon_lon: &M,
    jd: i64,
) -> int {
    elongation_spec(oracle_value(sun_lon, jd) as int, oracle_value(moon_lon, jd) as int)
}

/// The instants at which the elongation is negative, by the values of the two oracles.
pub open spec fn elongation_negative<S: Fn(i64) -> i64, M: Fn(i64) -> i64>(
    sun_lon: &S,
    moon_lon: &M,
) -> spec_fn(i64) -> bool {
    |jd: i64| elongation_at(sun_lon, moon_lon, jd) < 0
}

/// The instants at which the Sun lies short of a target longitude, by the values of the
/// oracle.
pub open spec fn offset_negative<S: Fn(i64) -> i64>(sun_lon: &S, target: i64) -> spec_fn(
    i64,
) -> bool {
    |jd: i64| crossing_offset_spec(oracle_value(sun_lon, jd) as int, target as int) < 0
}

/// Sector in which the Sun stands at an instant, by the value of the oracle.
pub open spec fn sector_at<S: Fn(i64) -> i64>(sun_lon: &S, jd: i64) -> int {
    sector_spec(oracle_value(sun_lon, jd) as int)
}

/// Middle of what is left of the span from `lo` to `hi` after at most `steps` halvings: each
/// halving keeps the half across which `negative_at` changes from `lo_negative`, and the
/// halvings stop once the span is narrower than the precision.
pub open spec fn bisected(
    negative_at: spec_fn(i64) -> bool,
    lo: i64,
    hi: i64,
    lo_negative: bool,
    steps: nat,
) -> int
    decreases steps,
{
    if steps == 0 {
        midpoint(lo as int, hi as int)
    } else {
        let mid = midpoint(lo as int, hi as int) as i64;
        let lo2 = if lo_negative == negative_at(mid) {
            mid
        } else {
            lo
        };
        let hi2 = if lo_negative == negative_at(mid) {
            hi
        } else {
            mid
        };
        if hi2 - lo2 < BISECT_PRECISION_JD {
            midpoint(lo2 as int, hi2 as int)
        } else {
            bisected(negative_at, lo2, hi2, lo_negative, (steps - 1) as nat)
        }
    }
}

/// The instant to which the bisection of a span for a new moon leads, by the values of
/// the two oracles.
pub open spec fn new_moon_jd<S: Fn(i64) -> i64, M: Fn(i64) -> i64>(
    sun_lon: &S,
    moon_lon: &M,
    jd_lo: i64,
    jd_hi: i64,
) -> int {
    bisected(
        elongation_negative(sun_lon, moon_lon),
        jd_lo,
        jd_hi,
        elongation_at(sun_lon, moon_lon, jd_lo) < 0,
        BISECT_MAX_STEPS as nat,
    )
}

/// The instant to which the bisection of a span for the Sun's crossing of a target longitude
/// leads, by the values of the oracle.
pub open spec fn crossing_jd<S: Fn(i64) -> i64>(sun_lon: &S, target: i64, jd_lo: i64, jd_hi: i64)
    -> int {
    bisected(
        offset_negative(sun_lon, target),
        jd_lo,
        jd_hi,
        crossing_offset_spec(oracle_value(sun_lon, jd_lo) as int, target as int) < 0,
        BISECT_MAX_STEPS as nat,
    )
}

/// Number of days into which the span from `jd_start` up to `jd_end` is cut.
pub open spec fn scan_steps(jd_start: int, jd_end: int) -> nat {
    if jd_end <= jd_start {
        0
    } else {
        ((jd_end - jd_start + DAY - 1) / (DAY as int)) as nat
    }
}

/// The new moons of the first `steps` days from `jd_start` on, in milliseconds since 1970, by
/// the values of the two oracles: one in each day from whose start to whose end the
/// elongation passes from negative to not negative.
pub open spec fn new_moons_scanned<S: Fn(i64) -> i64, M: Fn(i64) -> i64>(
    sun_lon: &S,
    moon_lon: &M,
    jd_start: int,
    steps: nat,
) -> Seq<i64>
    decreases steps,
{
    if steps == 0 {
        Seq::empty()
    } else {
        let before = new_moons_scanned(sun_lon, moon_lon, jd_start, (steps - 1) as nat);
        let jd = (jd_start + (steps - 1) * DAY) as i64;
        let next = (jd + DAY) as i64;
        if elongation_at(sun_lon, moon_lon, jd) < 0 && elongation_at(sun_lon, moon_lon, next) >= 0 {
            before.push(jd_to_unix_ms_spec(new_moon_jd(sun_lon, moon_lon, jd, next)) as i64)
        } else {
            before
        }
    }
}

/// The solar terms of the first `steps` days from `jd_start` on, by the values of the oracle:
/// one in each day at whose end the Sun stands in another sector than at its start, with
/// the instant, in milliseconds since 1970, at which it crosses into that sector.
pub open spec fn solar_terms_scanned<S: Fn(i64) -> i64>(sun_lon: &S, jd_start: int, steps: nat) -> Seq<
    (i64, u32),
>
    decreases steps,
{
    if steps == 0 {
        Seq::empty()
    } else {
        let before = solar_terms_scanned(sun_lon, jd_start, (steps - 1) as nat);
        let jd = (jd_start + (steps - 1) * DAY) as i64;
        let next = (jd + DAY) as i64;
        let sector = sector_at(sun_lon, next);
        if sector != sector_at(sun_lon, jd) {
            before.push(
                (
                    jd_to_unix_ms_spec(
                        crossing_jd(sun_lon, (sector * SECTOR_WIDTH) as i64, jd, next),
                    ) as i64,
                    sector as u32,
                ),
            )
        } else {
            before
        }
    }
}

/// Whether the two oracles can be asked for the longitudes of Sun and Moon at any instant.
pub open spec fn oracles_total<S: Fn(i64) -> i64, M: Fn(i64) -> i64>(
    sun_lon: &S,
    moon_lon: &M,
) -> bool {
    &&& forall|jd: i64| call_requires(*sun_lon, (jd,))
    &&& forall|jd: i64| call_requires(*moon_lon, (jd,))
}

/// Whether `e` is an elongation that the two oracles may give at the instant `jd`.
pub open spec fn elongation_sampled<S: Fn(i64) -> i64, M: Fn(i64) -> i64>(
    sun_lon: &S,
    moon_lon: &M,
    jd: i64,
    e: i64,
) -> bool {
    exists|s: i64, m: i64|
        call_ensures(*sun_lon, (jd,), s) && call_ensures(*moon_lon, (jd,), m) && e
            == elongation_spec(s as int, m as int)
}

/// Whether the oracles may give, at the instant `jd`, an elongation whose being negative
/// is `negative`.
pub open spec fn elongation_sign_sampled<S: Fn(i64) -> i64, M: Fn(i64) -> i64>(
    sun_lon: &S,
    moon_lon: &M,
    jd: i64,
    negative: bool,
) -> bool {
    exists|e: i64| elongation_sampled(sun_lon, moon_lon, jd, e) && (e < 0) == negative
}

/// Elongation of the Moon from the Sun at an instant, as the two oracles give it.
pub fn elongation<S: Fn(i64) -> i64, M: Fn(i64) -> i64>(jd_ut: i64, sun_lon: &S, moon_lon: &M) -> (e:
    i64)
    requires
        oracles_total(sun_lon, moon_lon),
    ensures
        elongation_sampled(sun_lon, moon_lon, jd_ut, e),
        elongation_sign_sampled(sun_lon, moon_lon, jd_ut, e < 0),
        -HALF_TURN < e <= HALF_TURN,
        oracle_is_function(sun_lon) && oracle_is_function(moon_lon) ==> e == elongation_at(
            sun_lon,
            moon_lon,
            jd_ut,
        ),
{
    let m: i64 = moon_lon(jd_ut);
    let s: i64 = sun_lon(jd_ut);
    proof {
        if oracle_is_function(sun_lon) && oracle_is_function(moon_lon) {
            lemma_oracle_value(sun_lon, jd_ut, s);
            lemma_oracle_value(moon_lon, jd_ut, m);
        }
    }
    elongation_of(s, m)
}

/// Whether `lo` and `hi` bracket a change of sign of the elongation inside a span from
/// `jd_lo` to `jd_hi`: at `lo` the oracles gave the sign `first_negative`, and at `hi`,
/// unless it still is `jd_hi`, the other.
pub open spec fn new_moon_bracket<S: Fn(i64) -> i64, M: Fn(i64) -> i64>(
    sun_lon: &S,
    moon_lon: &M,
    jd_lo: i64,
    jd_hi: i64,
    first_negative: bool,
    lo: i64,
    hi: i64,
) -> bool {
    &&& jd_lo <= lo <= hi <= jd_hi
    &&& elongation_sign_sampled(sun_lon, moon_lon, lo, first_negative)
    &&& hi == jd_hi || elongation_sign_sampled(sun_lon, moon_lon, hi, !first_negative)
}

/// Middle of two instants, rounded down.
pub open spec fn midpoint(lo: int, hi: int) -> int {
    lo + (hi - lo) / 2
}

/// Halving a width that fits into a day fifty times leaves less than the precision.
proof fn lemma_fifty_halvings(width: int, first_width: int, p: int)
    requires
        p == vstd::arithmetic::power2::pow2(50),
        0 <= first_width <= DAY,
        width * p <= first_width + p - 1,
    ensures
        width < BISECT_PRECISION_JD,
{
    vstd::arithmetic::power2::lemma2_to64_rest();
    assert(p == 0x4000000000000);
    if width >= 2 {
        assert(width * p >= 2 * p) by (nonlinear_arith)
            requires
                width >= 2,
                p > 0,
        ;
    }
}

/// One halving at most halves a width, rounded up.
proof fn lemma_halving_step(width: int, new_width: int, first_width: int, p: int)
    requires
        p > 0,
        0 <= width,
        width * p <= first_width + p - 1,
        0 <= new_width,
        2 * new_width <= width + 1,
    ensures
        new_width * (2 * p) <= first_width + 2 * p - 1,
{
    assert(new_width * (2 * p) <= (width + 1) * p) by (nonlinear_arith)
        requires
            p > 0,
            2 * new_width <= width + 1,
    ;
    assert((width + 1) * p == width * p + p) by (nonlinear_arith);
}

/// Narrows a span in which the elongation changes sign, by halving it up to fifty times or
/// until it is narrower than the precision, and returns the middle of what is left. The side
/// that shows the sign first found at `jd_lo` moves up; the other moves down.
pub fn bisect_new_moon<S: Fn(i64) -> i64, M: Fn(i64) -> i64>(
    jd_lo: i64,
    jd_hi: i64,
    sun_lon: &S,
    moon_lon: &M,
) -> (jd: i64)
    requires
        oracles_total(sun_lon, moon_lon),
        jd_lo < jd_hi,
        jd_hi - jd_lo <= i64::MAX,
    ensures
        jd_lo <= jd < jd_hi,
        exists|lo: i64, hi: i64, first_negative: bool|
            {
                &&& #[trigger] new_moon_bracket(
                    sun_lon,
                    moon_lon,
                    jd_lo,
                    jd_hi,
                    first_negative,
                    lo,
                    hi,
                )
                &&& elongation_sign_sampled(sun_lon, moon_lon, jd_lo, first_negative)
                &&& jd == midpoint(lo as int, hi as int)
                &&& jd_hi - jd_lo <= DAY ==> hi - lo < BISECT_PRECISION_JD
            },
        oracle_is_function(sun_lon) && oracle_is_function(moon_lon) ==> jd == new_moon_jd(
            sun_lon,
            moon_lon,
            jd_lo,
            jd_hi,
        ),
{
    let ghost exact = oracle_is_function(sun_lon) && oracle_is_function(moon_lon);
    let ghost negative_at = elongation_negative(sun_lon, moon_lon);
    let mut lo: i64 = jd_lo;
    let mut hi: i64 = jd_hi;
    let mut e_lo: i64 = elongation(lo, sun_lon, moon_lon);
    let ghost first_negative = e_lo < 0;
    let ghost mut p: int = 1;
    let mut n: u32 = 0;
    proof {
        vstd::arithmetic::power2::lemma2_to64();
    }
    while n < BISECT_MAX_STEPS
        invariant_except_break
            lo < hi,
            exact ==> new_moon_jd(sun_lon, moon_lon, jd_lo, jd_hi) == bisected(
                negative_at,
                lo,
                hi,
                first_negative,
                (BISECT_MAX_STEPS - n) as nat,
            ),
        invariant
            exact == (oracle_is_function(sun_lon) && oracle_is_function(moon_lon)),
            negative_at == elongation_negative(sun_lon, moon_lon),
            oracles_total(sun_lon, moon_lon),
            jd_lo <= lo <= hi <= jd_hi,
            lo < jd_hi,
            jd_hi - jd_lo <= i64::MAX,
            (e_lo < 0) == first_negative,
            elongation_sign_sampled(sun_lon, moon_lon, lo, first_negative),
            hi == jd_hi || elongation_sign_sampled(sun_lon, moon_lon, hi, !first_negative),
            n <= BISECT_MAX_STEPS,
            p == vstd::arithmetic::power2::pow2(n as nat),
            p > 0,
            (hi - lo) * p <= (jd_hi - jd_lo) + p - 1,
        ensures
            n == BISECT_MAX_STEPS || hi - lo < BISECT_PRECISION_JD,
            exact ==> new_moon_jd(sun_lon, moon_lon, jd_lo, jd_hi) == midpoint(
                lo as int,
                hi as int,
            ),
        decreases BISECT_MAX_STEPS - n,
    {
        let ghost width = hi - lo;
        let jd_mid: i64 = lo + (hi - lo) / 2;
        let e_mid: i64 = elongation(jd_mid, sun_lon, moon_lon);
        assert(exact ==> negative_at(jd_mid) == (e_mid < 0));
        if (e_lo < 0) == (e_mid < 0) {
            lo = jd_mid;
            e_lo = e_mid;
        } else {
            hi = jd_mid;
        }
        proof {
            lemma_halving_step(width, hi - lo, jd_hi - jd_lo, p);
            vstd::arithmetic::power2::lemma_pow2_unfold((n + 1) as nat);
            p = 2 * p;
        }
        n += 1;
        if hi - lo < BISECT_PRECISION_JD {
            break;
        }
    }
    proof {
        if n == BISECT_MAX_STEPS && jd_hi - jd_lo <= DAY {
            lemma_fifty_halvings(hi - lo, jd_hi - jd_lo, p);
        }
        assert(new_moon_bracket(sun_lon, moon_lon, jd_lo, jd_hi, first_negative, lo, hi));
    }
    lo + (hi - lo) / 2
}

/// Whether `event_ms` is a new moon found in the day that starts at `jd`: at the start of the
/// day the oracles gave a negative elongation and at its end one that is not; the event is
/// the middle, in milliseconds since 1970, of a span inside the day that is narrower than
/// the precision, and across which the oracles gave a change from negative to not negative,
/// unless they gave both signs at the start of the day.
pub open spec fn new_moon_in_day<S: Fn(i64) -> i64, M: Fn(i64) -> i64>(
    sun_lon: &S,
    moon_lon: &M,
    jd: i64,
    event_ms: i64,
) -> bool {
    &&& elongation_sign_sampled(sun_lon, moon_lon, jd, true)
    &&& elongation_sign_sampled(sun_lon, moon_lon, (jd + DAY) as i64, false)
    &&& exists|lo: i64, hi: i64|
        {
            &&& jd <= lo <= hi <= jd + DAY
            &&& hi - lo < BISECT_PRECISION_JD
            &&& event_ms == jd_to_unix_ms_spec(#[trigger] midpoint(lo as int, hi as int))
            &&& (elongation_sign_sampled(sun_lon, moon_lon, lo, true) && elongation_sign_sampled(
                sun_lon,
                moon_lon,
                hi,
                false,
            )) || elongation_sign_sampled(sun_lon, moon_lon, jd, false)
        }
}

/// Whether `event_ms` is a new moon found in one of the days into which the span from
/// `jd_start` up to `jd_end` is cut.
pub open spec fn new_moon_found<S: Fn(i64) -> i64, M: Fn(i64) -> i64>(
    sun_lon: &S,
    moon_lon: &M,
    jd_start: int,
    jd_end: int,
    event_ms: i64,
) -> bool {
    exists|step: int|
        0 <= step && jd_start + step * DAY < jd_end && #[trigger] new_moon_in_day(
            sun_lon,
            moon_lon,
            (jd_start + step * DAY) as i64,
            event_ms,
        )
}

/// A later instant is no earlier in milliseconds.
pub proof fn lemma_jd_to_unix_ms_monotonic(a: int, b: int)
    requires
        a <= b,
    ensures
        jd_to_unix_ms_spec(a) <= jd_to_unix_ms_spec(b),
        b - a >= DAY ==> jd_to_unix_ms_spec(a) < jd_to_unix_ms_spec(b),
{
}

/// A day starts on a whole millisecond, so an instant before the start of a day comes
/// before it in milliseconds too, and one at or after it comes no earlier.
pub proof fn lemma_day_start_in_ms(day: int, jd: int)
    ensures
        jd_to_unix_ms_spec(day * DAY + UNIX_EPOCH_JD) == day * DAY_MS,
        jd < day * DAY + UNIX_EPOCH_JD ==> jd_to_unix_ms_spec(jd) < day * DAY_MS,
        jd >= day * DAY + UNIX_EPOCH_JD ==> jd_to_unix_ms_spec(jd) >= day * DAY_MS,
{
    assert((day * DAY + UNIX_EPOCH_JD - UNIX_EPOCH_JD) * 864 == (day * DAY_MS) * 10_000);
}

/// The new moons of the years from `start_year` to `end_year`, in milliseconds since
/// 1970-01-01 00:00 UT and in order of time: the instants at which the elongation of the Moon
/// from the Sun, as the two oracles give it day by day, passes from negative to not negative.
pub fn compute_new_moons<S: Fn(i64) -> i64, M: Fn(i64) -> i64>(
    start_year: i32,
    end_year: i32,
    sun_lon: &S,
    moon_lon: &M,
) -> (results: Vec<i64>)
    requires
        oracles_total(sun_lon, moon_lon),
        MIN_SCAN_YEAR <= start_year <= MAX_SCAN_YEAR,
        MIN_SCAN_YEAR <= end_year < MAX_SCAN_YEAR,
    ensures
        forall|k: int|
            0 <= k < results.len() ==> new_moon_found(
                sun_lon,
                moon_lon,
                year_start_spec(start_year as int),
                year_start_spec(end_year + 1),
                #[trigger] results@[k],
            ),
        forall|a: int, b: int| 0 <= a < b < results.len() ==> results@[a] < results@[b],
        oracle_is_function(sun_lon) && oracle_is_function(moon_lon) ==> results@
            == new_moons_scanned(
            sun_lon,
            moon_lon,
            year_start_spec(start_year as int),
            scan_steps(year_start_spec(start_year as int), year_start_spec(end_year + 1)),
        ),
{
    let ghost exact = oracle_is_function(sun_lon) && oracle_is_function(moon_lon);
    let mut results: Vec<i64> = Vec::new();
    let jd_start: i64 = jd_of_year_start(start_year);
    let jd_end: i64 = jd_of_year_start(end_year + 1);
    let mut jd: i64 = jd_start;
    let mut prev: i64 = elongation(jd, sun_lon, moon_lon);
    let ghost mut step: int = 0;
    let ghost mut last_jd: int = 0;

    while jd < jd_end
        invariant
            exact == (oracle_is_function(sun_lon) && oracle_is_function(moon_lon)),
            exact ==> prev == elongation_at(sun_lon, moon_lon, jd),
            exact ==> results@ == new_moons_scanned(sun_lon, moon_lon, jd_start as int, step as nat),
            step == 0 || jd - DAY < jd_end,
            oracles_total(sun_lon, moon_lon),
            jd_start == year_start_spec(start_year as int),
            jd_end == year_start_spec(end_year + 1),
            -8_000_000_000_000_000_000 <= jd_start,
            jd_end <= 8_000_000_000_000_000_000,
            0 <= step,
            jd == jd_start + step * DAY,
            elongation_sign_sampled(sun_lon, moon_lon, jd, prev < 0),
            forall|k: int|
                0 <= k < results.len() ==> new_moon_found(
                    sun_lon,
                    moon_lon,
                    jd_start as int,
                    jd_end as int,
                    #[trigger] results@[k],
                ),
            forall|a: int, b: int| 0 <= a < b < results.len() ==> results@[a] < results@[b],
            results.len() > 0 ==> results@[results.len() - 1] == jd_to_unix_ms_spec(last_jd) && (
            last_jd < jd - DAY || (last_jd < jd && prev >= 0)),
        decreases jd_end + DAY - jd,
    {
        let next_jd: i64 = jd + DAY;
        let curr: i64 = elongation(next_jd, sun_lon, moon_lon);

        if prev < 0 && curr >= 0 {
            let nm_jd: i64 = bisect_new_moon(jd, next_jd, sun_lon, moon_lon);
            let event_ms: i64 = jd_to_unix_ms(nm_jd);
            proof {
                let (lo, hi, first_negative) = choose|lo: i64, hi: i64, first_negative: bool|
                    {
                        &&& #[trigger] new_moon_bracket(
                            sun_lon,
                            moon_lon,
                            jd,
                            next_jd,
                            first_negative,
                            lo,
                            hi,
                        )
                        &&& elongation_sign_sampled(sun_lon, moon_lon, jd, first_negative)
                        &&& nm_jd == midpoint(lo as int, hi as int)
                        &&& next_jd - jd <= DAY ==> hi - lo < BISECT_PRECISION_JD
                    };
                assert(event_ms == jd_to_unix_ms_spec(midpoint(lo as int, hi as int)));
                assert(new_moon_in_day(sun_lon, moon_lon, jd, event_ms));
                assert((jd_start + step * DAY) as i64 == jd);
                assert(new_moon_found(sun_lon, moon_lon, jd_start as int, jd_end as int, event_ms));
                if results.len() > 0 {
                    lemma_jd_to_unix_ms_monotonic(last_jd, nm_jd as int);
                }
                last_jd = nm_jd as int;
            }
            results.push(event_ms);
        }
        proof {
            if exact {
                assert((jd_start + (step + 1 - 1) * DAY) as i64 == jd);
                assert((jd + DAY) as i64 == next_jd);
                assert(curr == elongation_at(sun_lon, moon_lon, next_jd));
                assert(results@ == new_moons_scanned(
                    sun_lon,
                    moon_lon,
                    jd_start as int,
                    (step + 1) as nat,
                ));
            }
            step = step + 1;
        }
        prev = curr;
        jd = next_jd;
    }
    proof {
        assert(step == scan_steps(jd_start as int, jd_end as int));
    }
    results
}

/// Whether the oracle can be asked for the longitude of the Sun at any instant.
pub open spec fn oracle_total<S: Fn(i64) -> i64>(sun_lon: &S) -> bool {
    forall|jd: i64| call_requires(*sun_lon, (jd,))
}

/// How far a solar longitude lies past a target longitude, between -180 and 180 degrees.
pub open spec fn crossing_offset_spec(sun_value: int, target: int) -> int {
    norm180_spec(sun_value - target)
}

/// Whether the oracle may give, at the instant `jd`, a solar longitude whose lying short of
/// the target is `negative`.
pub open spec fn offset_sign_sampled<S: Fn(i64) -> i64>(
    sun_lon: &S,
    jd: i64,
    target: i64,
    negative: bool,
) -> bool {
    exists|s: i64|
        call_ensures(*sun_lon, (jd,), s) && (crossing_offset_spec(s as int, target as int) < 0)
            == negative
}

/// Whether the oracle may give, at the instant `jd`, a solar longitude in a sector.
pub open spec fn sector_sampled<S: Fn(i64) -> i64>(sun_lon: &S, jd: i64, sector: u32) -> bool {
    exists|s: i64| call_ensures(*sun_lon, (jd,), s) && sector == sector_spec(s as int)
}

/// Whether `lo` and `hi` bracket the Sun's crossing of a target longitude inside a span from
/// `jd_lo` to `jd_hi`: at `lo` the oracle gave the side `first_negative` of the target, and
/// at `hi`, unless it still is `jd_hi`, the other.
pub open spec fn crossing_bracket<S: Fn(i64) -> i64>(
    sun_lon: &S,
    target: i64,
    jd_lo: i64,
    jd_hi: i64,
    first_negative: bool,
    lo: i64,
    hi: i64,
) -> bool {
    &&& jd_lo <= lo <= hi <= jd_hi
    &&& offset_sign_sampled(sun_lon, jd_lo, target, first_negative)
    &&& offset_sign_sampled(sun_lon, lo, target, first_negative)
    &&& hi == jd_hi || offset_sign_sampled(sun_lon, hi, target, !first_negative)
}

/// How far a solar longitude lies past a target longitude.
pub fn crossing_offset(sun_value: i64, target: i64) -> (d: i64)
    requires
        0 <= target < FULL_TURN,
    ensures
        d == crossing_offset_spec(sun_value as int, target as int),
        -HALF_TURN < d <= HALF_TURN,
{
    let sun: i64 = norm180(sun_value);
    proof {
        let k = lemma_norm180_turns(sun_value as int);
        assert(sun - target == (-k) * FULL_TURN + (sun_value - target)) by (nonlinear_arith)
            requires
                sun_value - sun == k * FULL_TURN,
        ;
        lemma_norm180_shift(sun_value - target, -k);
    }
    norm180(sun - target)
}

/// Narrows a span in which the Sun crosses a target longitude, by halving it up to fifty
/// times or until it is narrower than the precision, and returns the middle of what is
/// left. The side that shows the Sun where it was first found at `jd_lo` moves up; the
/// other moves down.
pub fn bisect_sun_crossing<S: Fn(i64) -> i64>(target: i64, jd_lo: i64, jd_hi: i64, sun_lon: &S) -> (jd:
    i64)
    requires
        oracle_total(sun_lon),
        0 <= target < FULL_TURN,
        jd_lo < jd_hi,
        jd_hi - jd_lo <= i64::MAX,
    ensures
        jd_lo <= jd < jd_hi,
        exists|lo: i64, hi: i64, first_negative: bool|
            {
                &&& #[trigger] crossing_bracket(sun_lon, target, jd_lo, jd_hi, first_negative, lo, hi)
                &&& jd == midpoint(lo as int, hi as int)
                &&& jd_hi - jd_lo <= DAY ==> hi - lo < BISECT_PRECISION_JD
            },
        oracle_is_function(sun_lon) ==> jd == crossing_jd(sun_lon, target, jd_lo, jd_hi),
{
    let ghost exact = oracle_is_function(sun_lon);
    let ghost negative_at = offset_negative(sun_lon, target);
    let mut lo: i64 = jd_lo;
    let mut hi: i64 = jd_hi;
    let s_lo: i64 = sun_lon(lo);
    proof {
        if exact {
            lemma_oracle_value(sun_lon, lo, s_lo);
        }
    }
    let mut d_lo: i64 = crossing_offset(s_lo, target);
    let ghost first_negative = d_lo < 0;
    let ghost mut p: int = 1;
    let mut n: u32 = 0;
    proof {
        vstd::arithmetic::power2::lemma2_to64();
    }
    while n < BISECT_MAX_STEPS
        invariant_except_break
            lo < hi,
            exact ==> crossing_jd(sun_lon, target, jd_lo, jd_hi) == bisected(
                negative_at,
                lo,
                hi,
                first_negative,
                (BISECT_MAX_STEPS - n) as nat,
            ),
        invariant
            exact == oracle_is_function(sun_lon),
            negative_at == offset_negative(sun_lon, target),
            oracle_total(sun_lon),
            0 <= target < FULL_TURN,
            jd_lo <= lo <= hi <= jd_hi,
            lo < jd_hi,
            jd_hi - jd_lo <= i64::MAX,
            (d_lo < 0) == first_negative,
            offset_sign_sampled(sun_lon, jd_lo, target, first_negative),
            offset_sign_sampled(sun_lon, lo, target, first_negative),
            hi == jd_hi || offset_sign_sampled(sun_lon, hi, target, !first_negative),
            n <= BISECT_MAX_STEPS,
            p == vstd::arithmetic::power2::pow2(n as nat),
            p > 0,
            (hi - lo) * p <= (jd_hi - jd_lo) + p - 1,
        ensures
            n == BISECT_MAX_STEPS || hi - lo < BISECT_PRECISION_JD,
            exact ==> crossing_jd(sun_lon, target, jd_lo, jd_hi) == midpoint(lo as int, hi as int),
        decreases BISECT_MAX_STEPS - n,
    {
        let ghost width = hi - lo;
        let jd_mid: i64 = lo + (hi - lo) / 2;
        let s_mid: i64 = sun_lon(jd_mid);
        let d_mid: i64 = crossing_offset(s_mid, target);
        proof {
            if exact {
                lemma_oracle_value(sun_lon, jd_mid, s_mid);
                assert(negative_at(jd_mid) == (d_mid < 0));
            }
        }
        if (d_lo < 0) == (d_mid < 0) {
            lo = jd_mid;
            d_lo = d_mid;
        } else {
            hi = jd_mid;
        }
        proof {
            lemma_halving_step(width, hi - lo, jd_hi - jd_lo, p);
            vstd::arithmetic::power2::lemma_pow2_unfold((n + 1) as nat);
            p = 2 * p;
        }
        n += 1;
        if hi - lo < BISECT_PRECISION_JD {
            break;
        }
    }
    proof {
        if n == BISECT_MAX_STEPS && jd_hi - jd_lo <= DAY {
            lemma_fifty_halvings(hi - lo, jd_hi - jd_lo, p);
        }
        assert(crossing_bracket(sun_lon, target, jd_lo, jd_hi, first_negative, lo, hi));
    }
    lo + (hi - lo) / 2
}

/// Whether `(event_ms, sector)` is a solar term found in the day that starts at `jd`: at the
/// start of the day the oracle gave a longitude outside the sector and at its end one
/// inside; the event is the middle, in milliseconds since 1970, of a span inside the day
/// that is narrower than the precision, bracketing the Sun's crossing of the start of the
/// sector.
pub open spec fn solar_term_in_day<S: Fn(i64) -> i64>(
    sun_lon: &S,
    jd: i64,
    event_ms: i64,
    sector: u32,
) -> bool {
    &&& sector < 24
    &&& sector_sampled(sun_lon, (jd + DAY) as i64, sector)
    &&& exists|before: u32| before != sector && #[trigger] sector_sampled(sun_lon, jd, before)
    &&& exists|lo: i64, hi: i64, first_negative: bool|
        {
            &&& #[trigger] crossing_bracket(
                sun_lon,
                (sector * SECTOR_WIDTH) as i64,
                jd,
                (jd + DAY) as i64,
                first_negative,
                lo,
                hi,
            )
            &&& hi - lo < BISECT_PRECISION_JD
            &&& event_ms == jd_to_unix_ms_spec(midpoint(lo as int, hi as int))
        }
}

/// Whether `(event_ms, sector)` is a solar term found in one of the days into which the span
/// from `jd_start` up to `jd_end` is cut.
pub open spec fn solar_term_found<S: Fn(i64) -> i64>(
    sun_lon: &S,
    jd_start: int,
    jd_end: int,
    event_ms: i64,
    sector: u32,
) -> bool {
    exists|step: int|
        0 <= step && jd_start + step * DAY < jd_end && #[trigger] solar_term_in_day(
            sun_lon,
            (jd_start + step * DAY) as i64,
            event_ms,
            sector,
        )
}

/// The solar terms of the years from `start_year` to `end_year`, each as its instant in
/// milliseconds since 1970-01-01 00:00 UT and the sector `0..24` that the Sun enters, in
/// order of time: the instants at which the solar longitude, as the oracle gives it day by
/// day, passes into another sector of 15 degrees.
pub fn compute_solar_terms<S: Fn(i64) -> i64>(start_year: i32, end_year: i32, sun_lon: &S) -> (results:
    Vec<(i64, u32)>)
    requires
        oracle_total(sun_lon),
        MIN_SCAN_YEAR <= start_year <= MAX_SCAN_YEAR,
        MIN_SCAN_YEAR <= end_year < MAX_SCAN_YEAR,
    ensures
        forall|k: int|
            0 <= k < results.len() ==> solar_term_found(
                sun_lon,
                year_start_spec(start_year as int),
                year_start_spec(end_year + 1),
                (#[trigger] results@[k]).0,
                results@[k].1,
            ),
        forall|a: int, b: int| 0 <= a < b < results.len() ==> results@[a].0 < results@[b].0,
        forall|k: int| 0 <= k < results.len() ==> (#[trigger] results@[k]).1 <= 23,
        oracle_is_function(sun_lon) ==> results@ == solar_terms_scanned(
            sun_lon,
            year_start_spec(start_year as int),
            scan_steps(year_start_spec(start_year as int), year_start_spec(end_year + 1)),
        ),
{
    let ghost exact = oracle_is_function(sun_lon);
    let mut results: Vec<(i64, u32)> = Vec::new();
    let jd_start: i64 = jd_of_year_start(start_year);
    let jd_end: i64 = jd_of_year_start(end_year + 1);
    let mut jd: i64 = jd_start;
    let first: i64 = sun_lon(jd);
    proof {
        if exact {
            lemma_oracle_value(sun_lon, jd, first);
        }
    }
    let mut prev_sector: u32 = sector_of(first);
    let ghost mut step: int = 0;
    let ghost first_day = day_number(start_year as int, 1, 1);

    while jd < jd_end
        invariant
            exact == oracle_is_function(sun_lon),
            exact ==> prev_sector == sector_at(sun_lon, jd),
            exact ==> results@ == solar_terms_scanned(sun_lon, jd_start as int, step as nat),
            step == 0 || jd - DAY < jd_end,
            oracle_total(sun_lon),
            jd_start == year_start_spec(start_year as int),
            jd_end == year_start_spec(end_year + 1),
            -8_000_000_000_000_000_000 <= jd_start,
            jd_end <= 8_000_000_000_000_000_000,
            0 <= step,
            jd == jd_start + step * DAY,
            sector_sampled(sun_lon, jd, prev_sector),
            prev_sector < 24,
            forall|k: int|
                0 <= k < results.len() ==> solar_term_found(
                    sun_lon,
                    jd_start as int,
                    jd_end as int,
                    (#[trigger] results@[k]).0,
                    results@[k].1,
                ),
            forall|a: int, b: int| 0 <= a < b < results.len() ==> results@[a].0 < results@[b].0,
            forall|k: int| 0 <= k < results.len() ==> (#[trigger] results@[k]).1 <= 23,
            jd_start == first_day * DAY + UNIX_EPOCH_JD,
            results.len() > 0 ==> results@[results.len() - 1].0 < (first_day + step) * DAY_MS,
        decreases jd_end + DAY - jd,
    {
        let next_jd: i64 = jd + DAY;
        let sl: i64 = sun_lon(next_jd);
        let curr_sector: u32 = sector_of(sl);
        proof {
            if exact {
                lemma_oracle_value(sun_lon, next_jd, sl);
            }
        }

        if curr_sector != prev_sector {
            let target: i64 = (curr_sector as i64) * SECTOR_WIDTH;
            let cross: i64 = bisect_sun_crossing(target, jd, next_jd, sun_lon);
            let event_ms: i64 = jd_to_unix_ms(cross);
            proof {
                let (lo, hi, first_negative) = choose|lo: i64, hi: i64, first_negative: bool|
                    {
                        &&& #[trigger] crossing_bracket(
                            sun_lon,
                            target,
                            jd,
                            next_jd,
                            first_negative,
                            lo,
                            hi,
                        )
                        &&& cross == midpoint(lo as int, hi as int)
                        &&& next_jd - jd <= DAY ==> hi - lo < BISECT_PRECISION_JD
                    };
                assert((curr_sector * SECTOR_WIDTH) as i64 == target);
                assert((jd + DAY) as i64 == next_jd);
                assert(crossing_bracket(
                    sun_lon,
                    (curr_sector * SECTOR_WIDTH) as i64,
                    jd,
                    (jd + DAY) as i64,
                    first_negative,
                    lo,
                    hi,
                ));
                assert(sector_sampled(sun_lon, jd, prev_sector));
                assert(solar_term_in_day(sun_lon, jd, event_ms, curr_sector));
                assert((jd_start + step * DAY) as i64 == jd);
                assert(solar_term_found(
                    sun_lon,
                    jd_start as int,
                    jd_end as int,
                    event_ms,
                    curr_sector,
                ));
                lemma_day_start_in_ms(first_day + step, cross as int);
                lemma_day_start_in_ms(first_day + step + 1, cross as int);
            }
            results.push((event_ms, curr_sector));
        }
        proof {
            if exact {
                assert((jd_start + (step + 1 - 1) * DAY) as i64 == jd);
                assert((jd + DAY) as i64 == next_jd);
                assert(curr_sector == sector_at(sun_lon, next_jd));
                assert((sector_at(sun_lon, next_jd) * SECTOR_WIDTH) as i64 == (curr_sector as i64)
                    * SECTOR_WIDTH);
                assert(results@ == solar_terms_scanned(sun_lon, jd_start as int, (step + 1) as nat));
            }
            step = step + 1;
        }
        prev_sector = curr_sector;
        jd = next_jd;
    }
    proof {
        assert(step == scan_steps(jd_start as int, jd_end as int));
    }
    results
}

} // verus!
