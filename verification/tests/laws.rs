use lunisolar::civil::{
    civil_from_days, cst_date_of, date_only_compare, days_from_civil, within_cst_range, DateOnly,
    MAX_CIVIL_DAY, MIN_CIVIL_DAY,
};
use lunisolar::ganzhi::{
    branch_index, branch_name, cycle_from_stem_branch, day_cycle_number, hour_ganzhi, hour_pillar,
    month_ganzhi, month_pillar, stem_index, stem_name, year_cycle_number,
};
use lunisolar::bazi::ganzhi_from_cycle;
use lunisolar::leap::{find_nearest_solstice, find_solstice_of_year, resolve_leap_months, select_anchor};
use lunisolar::segment::{
    build_periods, build_principal_terms, find_period_with_date, find_period_with_instant, segment,
    term_index_for_sector,
};

fn ms(y: i32, m: u32, d: u32, h: i64, min: i64) -> i64 {
    days_from_civil(y, m, d) * 86_400_000 + h * 3_600_000 + min * 60_000
}

fn new_moons() -> Vec<i64> {
    vec![
        ms(2024, 12, 1, 6, 21),
        ms(2024, 12, 30, 22, 27),
        ms(2025, 1, 29, 12, 36),
        ms(2025, 2, 28, 0, 45),
        ms(2025, 3, 29, 10, 58),
        ms(2025, 4, 27, 19, 31),
        ms(2025, 5, 27, 3, 2),
        ms(2025, 6, 25, 10, 31),
        ms(2025, 7, 24, 19, 11),
        ms(2025, 8, 23, 6, 6),
        ms(2025, 9, 21, 19, 54),
        ms(2025, 10, 21, 12, 25),
        ms(2025, 11, 20, 6, 47),
        ms(2025, 12, 20, 1, 43),
        ms(2026, 1, 18, 19, 52),
    ]
}

fn principal_crossings() -> Vec<(i64, u32)> {
    vec![
        (ms(2024, 12, 6, 15, 17), 17),
        (ms(2024, 12, 21, 9, 21), 18),
        (ms(2025, 1, 19, 20, 0), 20),
        (ms(2025, 2, 18, 10, 7), 22),
        (ms(2025, 3, 20, 9, 1), 0),
        (ms(2025, 4, 19, 19, 56), 2),
        (ms(2025, 5, 20, 18, 55), 4),
        (ms(2025, 6, 21, 2, 42), 6),
        (ms(2025, 7, 22, 13, 29), 8),
        (ms(2025, 8, 23, 4, 34), 10),
        (ms(2025, 9, 22, 18, 19), 12),
        (ms(2025, 10, 23, 3, 51), 14),
        (ms(2025, 11, 22, 1, 36), 16),
        (ms(2025, 12, 21, 15, 3), 18),
    ]
}

#[test]
fn every_cycle_position_has_its_own_stem_and_branch() {
    let mut seen: Vec<(&str, &str)> = Vec::new();
    for cycle in 1..=60usize {
        let (stem, branch) = ganzhi_from_cycle(cycle);
        assert_eq!(stem, stem_name((cycle - 1) % 10));
        assert_eq!(branch, branch_name((cycle - 1) % 12));
        assert!(!seen.contains(&(stem, branch)));
        seen.push((stem, branch));
        let s = stem_index(stem).unwrap();
        let b = branch_index(branch).unwrap();
        assert_eq!(cycle_from_stem_branch(s + 1, b + 1), cycle);
    }
    assert_eq!(seen.len(), 60);
}

#[test]
fn a_stem_and_a_branch_of_unlike_parity_never_meet() {
    assert_eq!(cycle_from_stem_branch(1, 2), 1);
    assert_eq!(cycle_from_stem_branch(2, 1), 1);
    assert_eq!(cycle_from_stem_branch(10, 12), 60);
    assert_eq!(cycle_from_stem_branch(11, 1), 1);
    assert_eq!(cycle_from_stem_branch(1, 13), 1);
    assert_eq!(cycle_from_stem_branch(1, 11), 11);
    assert_eq!(stem_index("子"), None);
    assert_eq!(branch_index("甲"), None);
    assert_eq!(stem_index(""), None);
}

#[test]
fn day_numbers_and_dates_are_inverse() {
    let mut n: i64 = -800_000;
    while n < 800_000 {
        let (y, m, d) = civil_from_days(n);
        assert_eq!(days_from_civil(y, m, d), n);
        let (y2, m2, d2) = civil_from_days(n + 1);
        assert!((y, m, d) < (y2, m2, d2));
        n += 37;
    }
    assert_eq!(civil_from_days(-1), (1969, 12, 31));
    assert_eq!(civil_from_days(11016), (2000, 2, 29));
    assert_eq!(civil_from_days(11017), (2000, 3, 1));
    assert_eq!(days_from_civil(1900, 3, 1) - days_from_civil(1900, 2, 28), 1);
    assert_eq!(days_from_civil(2024, 3, 1) - days_from_civil(2024, 2, 28), 2);
    assert_eq!(days_from_civil(2001, 1, 1) - days_from_civil(2000, 1, 1), 366);
    assert_eq!(days_from_civil(4, 1, 31), -718_037);
    assert_eq!(days_from_civil(0, 1, 1), -719_528);
    assert_eq!(days_from_civil(-1, 12, 31), -719_529);
    assert_eq!(civil_from_days(MIN_CIVIL_DAY), (i32::MIN, 1, 1));
    assert_eq!(civil_from_days(MAX_CIVIL_DAY), (i32::MAX, 12, 31));
    assert_eq!(days_from_civil(i32::MIN, 1, 1), MIN_CIVIL_DAY);
    assert_eq!(days_from_civil(i32::MAX, 12, 31), MAX_CIVIL_DAY);
}

#[test]
fn dates_are_ordered_field_by_field() {
    let a = DateOnly { y: 2025, m: 6, d: 21 };
    let b = DateOnly { y: 2025, m: 7, d: 1 };
    let c = DateOnly { y: 2026, m: 1, d: 1 };
    assert_eq!(date_only_compare(&a, &a), 0);
    assert_eq!(date_only_compare(&a, &b), -1);
    assert_eq!(date_only_compare(&b, &a), 1);
    assert_eq!(date_only_compare(&a, &c), -1);
    assert_eq!(date_only_compare(&c, &b), 1);
    assert_eq!(date_only_compare(&DateOnly { y: 2025, m: 6, d: 1 }, &a), -20);
    assert!(within_cst_range(&a, &a, &b));
    assert!(!within_cst_range(&b, &a, &b));
    assert!(within_cst_range(&b, &a, &c));
    assert!(!within_cst_range(&a, &b, &c));
    assert_eq!(cst_date_of(-1, 0), DateOnly { y: 1969, m: 12, d: 31 });
    assert_eq!(cst_date_of(-1, 1), DateOnly { y: 1970, m: 1, d: 1 });
    assert_eq!(cst_date_of(-1000, 1), DateOnly { y: 1970, m: 1, d: 1 });
    assert_eq!(cst_date_of(-1001, 1), DateOnly { y: 1969, m: 12, d: 31 });
}

#[test]
fn periods_meet_without_gap_or_overlap() {
    let moons = new_moons();
    let terms = build_principal_terms(&principal_crossings(), 28800);
    let periods = segment(&moons, &terms, 28800);
    assert_eq!(periods.len(), moons.len() - 1);
    assert_eq!(periods[0].start_utc_ms, moons[0]);
    assert_eq!(periods[periods.len() - 1].end_utc_ms, moons[moons.len() - 1]);
    for pair in periods.windows(2) {
        assert_eq!(pair[0].end_utc_ms, pair[1].start_utc_ms);
        assert_eq!(pair[0].end_cst, pair[1].start_cst);
    }
    for (i, &m) in moons.iter().enumerate().take(periods.len()) {
        assert_eq!(find_period_with_instant(&periods, m), Some(i));
        assert_eq!(find_period_with_instant(&periods, m + 1), Some(i));
        if i > 0 {
            assert_eq!(find_period_with_instant(&periods, m - 1), Some(i - 1));
        }
    }
    assert_eq!(find_period_with_instant(&periods, moons[0] - 1), None);
    assert_eq!(find_period_with_instant(&periods, moons[moons.len() - 1]), None);
    assert!(build_periods(&vec![moons[0]], 0).is_empty());
    assert!(build_periods(&Vec::new(), 0).is_empty());
}

#[test]
fn principal_terms_mark_their_periods() {
    let terms = build_principal_terms(&principal_crossings(), 28800);
    // The crossing at an odd sector is no principal term.
    assert_eq!(terms.len(), 13);
    assert_eq!(terms[0].term_index, 11);
    assert_eq!(terms[0].cst_date, DateOnly { y: 2024, m: 12, d: 21 });
    assert_eq!(terms[1].term_index, 12);
    assert_eq!(terms[2].term_index, 1);
    assert_eq!(terms[3].term_index, 2);
    assert_eq!(term_index_for_sector(18), 11);
    assert_eq!(term_index_for_sector(20), 12);
    assert_eq!(term_index_for_sector(22), 1);
    assert_eq!(term_index_for_sector(0), 2);
    let periods = segment(&new_moons(), &terms, 28800);
    let marked: Vec<bool> = periods.iter().map(|p| p.has_principal).collect();
    assert_eq!(
        marked,
        vec![true, true, true, true, true, true, true, true, false, true, true, true, true, true]
    );
    let day = DateOnly { y: 2025, m: 8, d: 22 };
    assert_eq!(find_period_with_date(&periods, &day), Some(8));
    let next = DateOnly { y: 2025, m: 8, d: 23 };
    assert_eq!(find_period_with_date(&periods, &next), Some(9));
    assert_eq!(find_period_with_date(&periods, &DateOnly { y: 2024, m: 11, d: 30 }), None);
}

#[test]
fn a_month_without_principal_term_repeats_the_number_before_it() {
    let terms = build_principal_terms(&principal_crossings(), 28800);
    let mut periods = segment(&new_moons(), &terms, 28800);
    resolve_leap_months(&mut periods, 0);
    let numbers: Vec<(u32, bool)> = periods.iter().map(|p| (p.month_number, p.is_leap)).collect();
    assert_eq!(
        numbers,
        vec![
            (11, false),
            (12, false),
            (1, false),
            (2, false),
            (3, false),
            (4, false),
            (5, false),
            (6, false),
            (6, true),
            (7, false),
            (8, false),
            (9, false),
            (10, false),
            (11, false),
        ]
    );
    for i in 1..periods.len() {
        if !periods[i].has_principal {
            assert!(periods[i].is_leap);
            let before = (0..i).rev().find(|&j| !periods[j].is_leap).unwrap();
            assert_eq!(periods[i].month_number, periods[before].month_number);
        }
    }
}

#[test]
fn numbering_is_the_same_from_either_solstice() {
    let terms = build_principal_terms(&principal_crossings(), 28800);
    let mut forward = segment(&new_moons(), &terms, 28800);
    resolve_leap_months(&mut forward, 0);
    let mut backward = segment(&new_moons(), &terms, 28800);
    resolve_leap_months(&mut backward, 13);
    let numbers: Vec<(u32, bool)> = backward.iter().map(|p| (p.month_number, p.is_leap)).collect();
    assert_eq!(
        numbers,
        vec![
            (11, false),
            (12, false),
            (1, false),
            (2, false),
            (3, false),
            (4, false),
            (5, false),
            (6, false),
            (6, true),
            (7, false),
            (8, false),
            (9, false),
            (10, false),
            (11, false),
        ]
    );
    assert_eq!(forward, backward);
    for i in 1..backward.len() {
        if !backward[i].has_principal {
            assert!(backward[i].is_leap);
            let before = (0..i).rev().find(|&j| !backward[j].is_leap).unwrap();
            assert_eq!(backward[i].month_number, backward[before].month_number);
        }
    }
    let mut middle = segment(&new_moons(), &terms, 28800);
    resolve_leap_months(&mut middle, 9);
    let numbers: Vec<(u32, bool)> = middle.iter().map(|p| (p.month_number, p.is_leap)).collect();
    assert_eq!(
        numbers,
        vec![
            (3, false),
            (4, false),
            (5, false),
            (6, false),
            (7, false),
            (8, false),
            (9, false),
            (10, false),
            (10, true),
            (11, false),
            (12, false),
            (1, false),
            (2, false),
            (3, false),
        ]
    );
}

#[test]
fn a_leap_month_before_the_anchor_repeats_the_month_before_it() {
    let day: i64 = 86_400_000;
    let moons = vec![0, 30 * day, 60 * day, 90 * day];
    let terms = build_principal_terms(&vec![(5 * day, 14), (70 * day, 18)], 0);
    let mut periods = segment(&moons, &terms, 0);
    let marked: Vec<bool> = periods.iter().map(|p| p.has_principal).collect();
    assert_eq!(marked, vec![true, false, true]);
    resolve_leap_months(&mut periods, 2);
    let numbers: Vec<(u32, bool)> = periods.iter().map(|p| (p.month_number, p.is_leap)).collect();
    assert_eq!(numbers, vec![(10, false), (10, true), (11, false)]);
}

#[test]
fn the_anchor_is_the_solstice_at_or_before_the_instant() {
    let terms = build_principal_terms(&principal_crossings(), 28800);
    assert_eq!(find_solstice_of_year(&terms, 2024), Some(0));
    assert_eq!(find_solstice_of_year(&terms, 2025), Some(12));
    assert_eq!(find_solstice_of_year(&terms, 2026), None);
    assert_eq!(find_nearest_solstice(&terms, 2030), Some(12));
    assert_eq!(find_nearest_solstice(&terms, 2000), Some(0));
    assert_eq!(find_nearest_solstice(&Vec::new(), 2000), None);
    assert_eq!(select_anchor(&terms, ms(2025, 6, 21, 0, 0), 2025), Some(0));
    assert_eq!(select_anchor(&terms, ms(2025, 12, 21, 15, 3), 2025), Some(12));
    assert_eq!(select_anchor(&terms, ms(2025, 12, 21, 15, 2), 2025), Some(0));
    assert_eq!(select_anchor(&terms, ms(2026, 1, 5, 0, 0), 2026), Some(12));
    assert_eq!(select_anchor(&terms, ms(2024, 6, 1, 0, 0), 2024), Some(0));
    assert_eq!(select_anchor(&Vec::new(), 0, 1970), None);
}

#[test]
fn pillars_by_formula() {
    assert_eq!(year_cycle_number(4), 1);
    assert_eq!(year_cycle_number(3), 60);
    assert_eq!(year_cycle_number(1984), 1);
    assert_eq!(year_cycle_number(2025), 42);
    assert_eq!(year_cycle_number(-56), 1);
    assert_eq!(year_cycle_number(i32::MIN), 49);
    assert_eq!(month_ganzhi(2025, 5), ("壬", "午", 19));
    assert_eq!(month_ganzhi(2025, 1), ("戊", "寅", 15));
    assert_eq!(month_ganzhi(2024, 1), ("丙", "寅", 3));
    assert_eq!(month_ganzhi(2024, 11), ("丙", "子", 13));
    assert_eq!(month_ganzhi(2024, 12), ("丁", "丑", 14));
    assert_eq!(month_pillar(9, 1), (0, 2, 51));
    assert_eq!(day_cycle_number(-718_037), 1);
    assert_eq!(day_cycle_number(-718_038), 60);
    assert_eq!(day_cycle_number(20260), 58);
    assert_eq!(day_cycle_number(i64::MAX), 25);
    assert_eq!(hour_pillar(0, Some(0)), (0, 0, 1));
    assert_eq!(hour_pillar(1, Some(0)), (1, 1, 2));
    assert_eq!(hour_pillar(22, Some(0)), (1, 11, 12));
    assert_eq!(hour_pillar(23, Some(0)), (2, 0, 13));
    assert_eq!(hour_pillar(23, Some(9)), (0, 0, 1));
    assert_eq!(hour_pillar(12, None), (6, 6, 7));
    assert_eq!(hour_ganzhi(12 * 3_600_000, "甲"), ("庚", "午", 7));
    assert_eq!(hour_ganzhi(12 * 3_600_000, "?"), ("庚", "午", 7));
    assert_eq!(hour_ganzhi(-3_600_000, "癸"), ("甲", "子", 1));
    assert_eq!(hour_ganzhi(13 * 3_600_000 - 1, "乙"), ("壬", "午", 19));
}
