use lunisolar::civil::DateOnly;
use lunisolar::convert::{
    crossings_in_order, describe_period, from_solar_date_core, instants_in_order,
    lunar_day_in_period, lunar_year_of_period, ConvertError,
};
use lunisolar::segment::MonthPeriod;

fn ms(y: i32, m: u32, d: u32, h: i64, min: i64) -> i64 {
    lunisolar::civil::days_from_civil(y, m, d) * 86_400_000 + h * 3_600_000 + min * 60_000
}

fn new_moons() -> Vec<i64> {
    vec![
        ms(2024, 11, 1, 12, 47),
        ms(2024, 12, 1, 6, 21),
        ms(2024, 12, 30, 22, 27),
        ms(2025, 1, 29, 12, 36),
        ms(2025, 2, 28, 0, 45),
        ms(2025, 3, 29, 10, 58),
        ms(2025, 4, 27, 19, 31),
        ms(2025, 5, 27, 3, 2),
        ms(2025, 6, 25, 10, 31),
        ms(2025, 7, 24, 19, 11),
        ms(2025, 8, 23, 6, 6),
        ms(2025, 9, 21, 19, 54),
        ms(2025, 10, 21, 12, 25),
        ms(2025, 11, 20, 6, 47),
        ms(2025, 12, 20, 1, 43),
        ms(2026, 1, 18, 19, 52),
    ]
}

fn solar_terms() -> Vec<(i64, u32)> {
    vec![
        (ms(2024, 11, 22, 3, 56), 16),
        (ms(2024, 12, 6, 15, 17), 17),
        (ms(2024, 12, 21, 9, 21), 18),
        (ms(2025, 1, 5, 2, 33), 19),
        (ms(2025, 1, 19, 20, 0), 20),
        (ms(2025, 2, 3, 14, 10), 21),
        (ms(2025, 2, 18, 10, 7), 22),
        (ms(2025, 3, 5, 8, 7), 23),
        (ms(2025, 3, 20, 9, 1), 0),
        (ms(2025, 4, 4, 12, 48), 1),
        (ms(2025, 4, 19, 19, 56), 2),
        (ms(2025, 5, 5, 5, 57), 3),
        (ms(2025, 5, 20, 18, 55), 4),
        (ms(2025, 6, 5, 9, 56), 5),
        (ms(2025, 6, 21, 2, 42), 6),
        (ms(2025, 7, 6, 20, 5), 7),
        (ms(2025, 7, 22, 13, 29), 8),
        (ms(2025, 8, 7, 5, 51), 9),
        (ms(2025, 8, 23, 4, 34), 10),
        (ms(2025, 9, 7, 8, 52), 11),
        (ms(2025, 9, 22, 18, 19), 12),
        (ms(2025, 10, 8, 0, 41), 13),
        (ms(2025, 10, 23, 3, 51), 14),
        (ms(2025, 11, 7, 4, 4), 15),
        (ms(2025, 11, 22, 1, 36), 16),
        (ms(2025, 12, 6, 21, 5), 17),
        (ms(2025, 12, 21, 15, 3), 18),
    ]
}

#[test]
fn converts_midsummer_2025() {
    let r = from_solar_date_core(ms(2025, 6, 21, 0, 0), 0, &new_moons(), &solar_terms()).unwrap();
    assert_eq!(r.lunar_year, 2025);
    assert_eq!(r.lunar_month, 5);
    assert_eq!(r.lunar_day, 26);
    assert!(!r.is_leap_month);
    assert_eq!(r.year_stem, "乙");
    assert_eq!(r.year_branch, "巳");
    assert_eq!(r.year_cycle, 42);
    assert_eq!(r.month_stem, "壬");
    assert_eq!(r.month_branch, "午");
    assert_eq!(r.month_cycle, 19);
    assert_eq!(r.day_stem, "辛");
    assert_eq!(r.day_branch, "酉");
    assert_eq!(r.day_cycle, 58);
    assert_eq!(r.hour_stem, "戊");
    assert_eq!(r.hour_branch, "子");
    assert_eq!(r.hour_cycle, 25);
    assert_eq!(r.construction_star, "平");
    assert_eq!(r.gyp_spirit, "明堂");
    assert_eq!(r.gyp_path_type, "黄道");
}

#[test]
fn finds_the_leap_sixth_month_of_2025() {
    let r = from_solar_date_core(ms(2025, 8, 1, 4, 0), 28800, &new_moons(), &solar_terms()).unwrap();
    assert_eq!(r.lunar_year, 2025);
    assert_eq!(r.lunar_month, 6);
    assert!(r.is_leap_month);
    assert_eq!(r.lunar_day, 8);
    let before = from_solar_date_core(ms(2025, 7, 20, 4, 0), 28800, &new_moons(), &solar_terms()).unwrap();
    assert_eq!(before.lunar_month, 6);
    assert!(!before.is_leap_month);
    let after = from_solar_date_core(ms(2025, 8, 30, 4, 0), 28800, &new_moons(), &solar_terms()).unwrap();
    assert_eq!(after.lunar_month, 7);
    assert!(!after.is_leap_month);
}

#[test]
fn january_belongs_to_the_lunar_year_before() {
    let r = from_solar_date_core(ms(2025, 1, 10, 0, 0), 28800, &new_moons(), &solar_terms()).unwrap();
    assert_eq!(r.lunar_year, 2024);
    assert_eq!(r.lunar_month, 12);
    assert_eq!(r.lunar_day, 11);
    assert_eq!(r.year_stem, "甲");
    assert_eq!(r.year_branch, "辰");
    let new_year = from_solar_date_core(ms(2025, 1, 29, 0, 0), 28800, &new_moons(), &solar_terms()).unwrap();
    assert_eq!(new_year.lunar_year, 2025);
    assert_eq!(new_year.lunar_month, 1);
    assert_eq!(new_year.lunar_day, 1);
}

#[test]
fn months_before_the_anchor_count_down() {
    let r = from_solar_date_core(ms(2025, 11, 25, 0, 0), 28800, &new_moons(), &solar_terms()).unwrap();
    assert_eq!(r.lunar_month, 10);
    assert_eq!(r.lunar_year, 2025);
    let anchor = from_solar_date_core(ms(2025, 12, 25, 0, 0), 28800, &new_moons(), &solar_terms()).unwrap();
    assert_eq!(anchor.lunar_month, 11);
    assert!(!anchor.is_leap_month);
}

#[test]
fn a_new_moon_opens_its_month() {
    let nm = ms(2025, 5, 27, 3, 2);
    let r = from_solar_date_core(nm, 0, &new_moons(), &solar_terms()).unwrap();
    assert_eq!(r.lunar_month, 5);
    assert_eq!(r.lunar_day, 1);
    let eve = from_solar_date_core(ms(2025, 5, 26, 23, 59), 0, &new_moons(), &solar_terms()).unwrap();
    assert_eq!(eve.lunar_month, 4);
    assert_eq!(eve.lunar_day, 30);
}

#[test]
fn hour_pillar_rolls_over_at_eleven_at_night() {
    let late = from_solar_date_core(ms(2025, 6, 21, 23, 30), 0, &new_moons(), &solar_terms()).unwrap();
    assert_eq!(late.day_stem, "辛");
    assert_eq!(late.hour_branch, "子");
    assert_eq!(late.hour_stem, "庚");
    assert_eq!(late.hour_cycle, 37);
    let noon = from_solar_date_core(ms(2025, 6, 21, 12, 0), 0, &new_moons(), &solar_terms()).unwrap();
    assert_eq!(noon.hour_branch, "午");
    assert_eq!(noon.hour_stem, "甲");
    assert_eq!(noon.hour_cycle, 31);
}

#[test]
fn converting_twice_gives_the_same_result() {
    let a = from_solar_date_core(ms(2025, 6, 21, 0, 0), 0, &new_moons(), &solar_terms()).unwrap();
    let b = from_solar_date_core(ms(2025, 6, 21, 0, 0), 0, &new_moons(), &solar_terms()).unwrap();
    assert_eq!(format!("{:?}", a), format!("{:?}", b));
}

#[test]
fn one_new_moon_is_not_enough() {
    let r = from_solar_date_core(ms(2025, 6, 21, 0, 0), 0, &vec![ms(2025, 5, 27, 3, 2)], &solar_terms());
    assert_eq!(r.unwrap_err(), ConvertError::InsufficientEventData);
    let none = from_solar_date_core(ms(2025, 6, 21, 0, 0), 0, &Vec::new(), &solar_terms());
    assert_eq!(none.unwrap_err(), ConvertError::InsufficientEventData);
}

#[test]
fn events_out_of_order_are_refused() {
    let mut moons = new_moons();
    moons.swap(3, 4);
    let r = from_solar_date_core(ms(2025, 6, 21, 0, 0), 0, &moons, &solar_terms());
    assert_eq!(r.unwrap_err(), ConvertError::MalformedInput);
    let mut terms = solar_terms();
    terms.swap(0, 5);
    let r = from_solar_date_core(ms(2025, 6, 21, 0, 0), 0, &new_moons(), &terms);
    assert_eq!(r.unwrap_err(), ConvertError::MalformedInput);
    let mut terms = solar_terms();
    terms[4].1 = 24;
    let r = from_solar_date_core(ms(2025, 6, 21, 0, 0), 0, &new_moons(), &terms);
    assert_eq!(r.unwrap_err(), ConvertError::MalformedInput);
}

#[test]
fn a_winter_solstice_is_needed() {
    let terms: Vec<(i64, u32)> = solar_terms().into_iter().filter(|t| t.1 != 18).collect();
    let r = from_solar_date_core(ms(2025, 6, 21, 0, 0), 0, &new_moons(), &terms);
    assert_eq!(r.unwrap_err(), ConvertError::MissingSolsticeTerm);
    let r = from_solar_date_core(ms(2025, 6, 21, 0, 0), 0, &new_moons(), &Vec::new());
    assert_eq!(r.unwrap_err(), ConvertError::MissingSolsticeTerm);
}

#[test]
fn the_solstice_must_fall_between_the_new_moons() {
    let moons: Vec<i64> = new_moons().into_iter().skip(3).take(8).collect();
    let r = from_solar_date_core(ms(2025, 6, 21, 0, 0), 0, &moons, &solar_terms());
    assert_eq!(r.unwrap_err(), ConvertError::SolsticePeriodNotFound);
}

#[test]
fn the_instant_must_fall_between_the_new_moons() {
    let r = from_solar_date_core(ms(2026, 3, 1, 0, 0), 0, &new_moons(), &solar_terms());
    assert_eq!(r.unwrap_err(), ConvertError::PeriodNotFound);
    let r = from_solar_date_core(ms(2024, 10, 1, 0, 0), 0, &new_moons(), &solar_terms());
    assert_eq!(r.unwrap_err(), ConvertError::PeriodNotFound);
}

#[test]
fn error_messages() {
    assert_eq!(ConvertError::InsufficientEventData.message(), "Insufficient new moon data");
    assert_eq!(ConvertError::MissingSolsticeTerm.message(), "No Winter Solstice (Z11) term found");
    assert_eq!(
        ConvertError::SolsticePeriodNotFound.message(),
        "Failed to locate Zi-month containing Winter Solstice"
    );
    assert_eq!(ConvertError::PeriodNotFound.message(), "No lunar month period found for target date");
    assert_eq!(ConvertError::MalformedInput.message(), "Malformed event data");
}

#[test]
fn order_is_checked_pair_by_pair() {
    assert!(instants_in_order(&Vec::new()));
    assert!(instants_in_order(&vec![5]));
    assert!(instants_in_order(&vec![1, 1, 2]));
    assert!(!instants_in_order(&vec![1, 3, 2]));
    assert!(crossings_in_order(&Vec::new()));
    assert!(crossings_in_order(&vec![(1, 0), (1, 23), (2, 5)]));
    assert!(!crossings_in_order(&vec![(1, 0), (0, 1)]));
    assert!(!crossings_in_order(&vec![(1, 24)]));
}

#[test]
fn lunar_days_stay_between_one_and_thirty() {
    let start = DateOnly { y: 2025, m: 5, d: 27 };
    assert_eq!(lunar_day_in_period(&start, &start), 1);
    assert_eq!(lunar_day_in_period(&DateOnly { y: 2025, m: 6, d: 24 }, &start), 29);
    assert_eq!(lunar_day_in_period(&DateOnly { y: 2025, m: 6, d: 25 }, &start), 30);
    assert_eq!(lunar_day_in_period(&DateOnly { y: 2025, m: 7, d: 25 }, &start), 30);
    assert_eq!(lunar_day_in_period(&DateOnly { y: 2025, m: 5, d: 1 }, &start), 1);
}

fn period(start: i64, month_number: u32, is_leap: bool) -> MonthPeriod {
    MonthPeriod {
        start_utc_ms: start,
        end_utc_ms: start + 29 * 86_400_000,
        start_cst: lunisolar::civil::cst_date_of(start, 0),
        end_cst: lunisolar::civil::cst_date_of(start + 29 * 86_400_000, 0),
        has_principal: !is_leap,
        is_leap,
        month_number,
    }
}

#[test]
fn a_twelfth_month_that_starts_in_january_is_of_the_year_before() {
    assert_eq!(lunar_year_of_period(&period(ms(2025, 1, 29, 12, 36), 1, false)), 2025);
    assert_eq!(lunar_year_of_period(&period(ms(2024, 12, 30, 22, 27), 12, false)), 2024);
    assert_eq!(lunar_year_of_period(&period(ms(2025, 1, 5, 0, 0), 12, false)), 2024);
    assert_eq!(lunar_year_of_period(&period(ms(2025, 2, 28, 0, 0), 12, false)), 2024);
    assert_eq!(lunar_year_of_period(&period(ms(2025, 3, 1, 0, 0), 12, false)), 2025);
    assert_eq!(lunar_year_of_period(&period(ms(2025, 1, 5, 0, 0), 11, false)), 2025);
}

#[test]
fn a_period_is_described_by_its_number_and_start() {
    let p = period(ms(2025, 7, 24, 19, 11), 6, true);
    let r = describe_period(&p, ms(2025, 8, 1, 4, 0), 0);
    assert_eq!(r.lunar_year, 2025);
    assert_eq!(r.lunar_month, 6);
    assert!(r.is_leap_month);
    assert_eq!(r.lunar_day, 9);
    assert_eq!(r.month_stem, "癸");
    assert_eq!(r.month_branch, "未");
    assert_eq!(r.month_cycle, 20);
    assert_eq!(r.day_cycle, 39);
    assert_eq!(r.day_stem, "壬");
    assert_eq!(r.day_branch, "寅");
    assert_eq!(r.hour_branch, "寅");
    assert_eq!(r.hour_stem, "壬");
    assert_eq!(r.construction_star, "危");
    assert_eq!(r.gyp_spirit, "金匮");
    assert_eq!(r.gyp_path_type, "黄道");
}

#[test]
fn a_leap_month_and_the_month_before_it_share_a_number_before_the_anchor() {
    let day: i64 = 86_400_000;
    let moons = vec![0, 30 * day, 60 * day, 90 * day];
    let crossings = vec![(5 * day, 14), (70 * day, 18)];
    let leap = from_solar_date_core(40 * day, 0, &moons, &crossings).unwrap();
    assert_eq!(leap.lunar_month, 10);
    assert!(leap.is_leap_month);
    assert_eq!(leap.lunar_day, 11);
    let regular = from_solar_date_core(10 * day, 0, &moons, &crossings).unwrap();
    assert_eq!(regular.lunar_month, 10);
    assert!(!regular.is_leap_month);
    assert_eq!(regular.lunar_day, 11);
    let anchor = from_solar_date_core(80 * day, 0, &moons, &crossings).unwrap();
    assert_eq!(anchor.lunar_month, 11);
    assert!(!anchor.is_leap_month);
}
