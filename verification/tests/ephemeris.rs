use lunisolar::convert::{event_window, from_solar_date_auto, ConvertError};
use lunisolar::ephemeris::{
    bisect_new_moon, bisect_sun_crossing, compute_new_moons, compute_solar_terms, elongation_of,
    jd_of_year_start, jd_to_unix_ms, norm180, sector_of,
};

const J2000: i128 = 2_451_545_000_000_000;

fn turn(x: i128) -> i64 {
    x.rem_euclid(360_000_000_000) as i64
}

// Mean longitude of the Sun: 280.46646 degrees at J2000, 0.98564736 degrees a day.
fn mean_sun(jd: i64) -> i64 {
    turn(280_466_460_000 + (jd as i128 - J2000) * 98_564_736 / 100_000_000)
}

// Mean longitude of the Moon: 218.3165 degrees at J2000, 13.17639648 degrees a day.
fn mean_moon(jd: i64) -> i64 {
    turn(218_316_500_000 + (jd as i128 - J2000) * 1_317_639_648 / 100_000_000)
}

#[test]
fn angles_are_brought_into_the_half_open_turn() {
    assert_eq!(norm180(0), 0);
    assert_eq!(norm180(180_000_000_000), 180_000_000_000);
    assert_eq!(norm180(-180_000_000_000), 180_000_000_000);
    assert_eq!(norm180(190_000_000_000), -170_000_000_000);
    assert_eq!(norm180(-190_000_000_000), 170_000_000_000);
    assert_eq!(norm180(725_000_000_000), 5_000_000_000);
    assert_eq!(elongation_of(350_000_000_000, 10_000_000_000), 20_000_000_000);
    assert_eq!(elongation_of(10_000_000_000, 350_000_000_000), -20_000_000_000);
}

#[test]
fn sectors_are_fifteen_degrees_wide() {
    assert_eq!(sector_of(0), 0);
    assert_eq!(sector_of(14_999_999_999), 0);
    assert_eq!(sector_of(15_000_000_000), 1);
    assert_eq!(sector_of(270_000_000_000), 18);
    assert_eq!(sector_of(359_999_999_999), 23);
    assert_eq!(sector_of(360_000_000_000), 0);
    assert_eq!(sector_of(-1), 23);
}

#[test]
fn julian_days_and_unix_milliseconds() {
    assert_eq!(jd_of_year_start(1970), 2_440_587_500_000_000);
    assert_eq!(jd_of_year_start(2000), 2_451_544_500_000_000);
    assert_eq!(jd_to_unix_ms(2_440_587_500_000_000), 0);
    assert_eq!(jd_to_unix_ms(2_440_588_500_000_000), 86_400_000);
    assert_eq!(jd_to_unix_ms(2_440_587_500_000_012), 1);
    assert_eq!(jd_to_unix_ms(2_440_587_499_999_999), -1);
    assert_eq!(jd_to_unix_ms(J2000 as i64), 946_728_000_000);
}

#[test]
fn bisection_closes_in_on_the_crossing() {
    // Elongation rises through zero at 0.3 of the day.
    let start: i64 = 2_460_000_000_000_000;
    let sun = |_jd: i64| -> i64 { 0 };
    let moon = move |jd: i64| -> i64 { turn((jd as i128 - (start as i128 + 300_000_000)) * 12) };
    let found = bisect_new_moon(start, start + 1_000_000_000, &sun, &moon);
    assert!((found - (start + 300_000_000)).abs() <= 10);

    let sun = move |jd: i64| -> i64 { turn(90_000_000_000 + (jd as i128 - (start as i128 + 700_000_000))) };
    let found = bisect_sun_crossing(90_000_000_000, start, start + 1_000_000_000, &sun);
    assert!((found - (start + 700_000_000)).abs() <= 10);
}

#[test]
fn mean_new_moons_come_a_synodic_month_apart() {
    let moons = compute_new_moons(2024, 2026, &mean_sun, &mean_moon);
    assert!(moons.len() == 37 || moons.len() == 38);
    for pair in moons.windows(2) {
        let gap = pair[1] - pair[0];
        // 29.530589 days, to within a few milliseconds
        assert!((gap - 2_551_442_877).abs() < 100, "gap {}", gap);
    }
    let first = jd_to_unix_ms(jd_of_year_start(2024));
    let last = jd_to_unix_ms(jd_of_year_start(2027));
    assert!(moons.iter().all(|&m| first <= m && m < last));
    // At each event the mean elongation is zero to within the precision.
    for &m in &moons {
        let jd = 2_440_587_500_000_000 + (m as i128 * 10_000 / 864) as i64;
        let e = elongation_of(mean_sun(jd), mean_moon(jd));
        assert!(e.abs() < 1_000, "elongation {}", e);
    }
}

#[test]
fn mean_solar_terms_come_in_order_of_sector() {
    let terms = compute_solar_terms(2025, 2025, &mean_sun);
    assert_eq!(terms.len(), 24);
    for pair in terms.windows(2) {
        assert!(pair[0].0 < pair[1].0);
        assert_eq!((pair[0].1 + 1) % 24, pair[1].1);
    }
    for &(ms, sector) in &terms {
        let jd = 2_440_587_500_000_000 + (ms as i128 * 10_000 / 864) as i64;
        let offset = norm180(mean_sun(jd) - (sector as i64) * 15_000_000_000);
        assert!(offset.abs() < 1_000, "offset {}", offset);
    }
    assert!(compute_solar_terms(2026, 2025, &mean_sun).is_empty());
    assert!(compute_new_moons(2026, 2025, &mean_sun, &mean_moon).is_empty());
}

#[test]
fn window_of_three_years() {
    assert_eq!(event_window(1_750_464_000_000, 0), (2024, 2026));
    assert_eq!(event_window(1_735_689_600_000 - 1, 0), (2023, 2025));
    assert_eq!(event_window(1_735_689_600_000 - 1, 3600), (2024, 2026));
}

#[test]
fn converts_with_mean_longitudes() {
    let r = from_solar_date_auto(1_750_464_000_000, 28800, &mean_sun, &mean_moon).unwrap();
    assert_eq!(r.lunar_year, 2025);
    assert_eq!(r.year_stem, "乙");
    assert_eq!(r.year_branch, "巳");
    assert_eq!(r.lunar_month, 5);
    assert!(!r.is_leap_month);
    assert!(r.lunar_day >= 25 && r.lunar_day <= 27);
    assert_eq!(r.day_stem, "辛");
    assert_eq!(r.day_branch, "酉");
}

#[test]
fn silent_oracles_leave_nothing_to_convert() {
    let still = |_jd: i64| -> i64 { 0 };
    let r = from_solar_date_auto(1_750_464_000_000, 0, &still, &still);
    assert_eq!(r.unwrap_err(), ConvertError::InsufficientEventData);
    let r = from_solar_date_auto(i64::MAX, 0, &mean_sun, &mean_moon);
    assert_eq!(r.unwrap_err(), ConvertError::InsufficientEventData);
    // New moons but a Sun that never leaves its sector.
    let r = from_solar_date_auto(1_750_464_000_000, 0, &still, &mean_moon);
    assert_eq!(r.unwrap_err(), ConvertError::MissingSolsticeTerm);
}
