use lunisolar::civil::{civil_from_days, days_from_civil, utc_ms_to_date_parts};
use lunisolar::ganzhi::{day_ganzhi, year_ganzhi};
use lunisolar::huangdao::{construction_star, gyp_spirit};

#[test]
fn test_civil_from_days() {
    assert_eq!(civil_from_days(0), (1970, 1, 1));
    assert_eq!(civil_from_days(20089), (2025, 1, 1));
}

#[test]
fn test_days_from_civil() {
    assert_eq!(days_from_civil(1970, 1, 1), 0);
    assert_eq!(days_from_civil(2025, 1, 1), 20089);
}

#[test]
fn test_year_ganzhi() {
    let (stem, branch, _) = year_ganzhi(2025);
    assert_eq!(stem, "乙");
    assert_eq!(branch, "巳");
}

#[test]
fn test_day_ganzhi_reference() {
    let ref_ms = days_from_civil(4, 1, 31) * 86400000;
    let (stem, branch, cycle) = day_ganzhi(ref_ms);
    assert_eq!(stem, "甲");
    assert_eq!(branch, "子");
    assert_eq!(cycle, 1);
}

#[test]
fn test_utc_ms_to_date_parts() {
    let ms = 1750507200000;
    let (y, m, d, h, min, s) = utc_ms_to_date_parts(ms, 0);
    assert_eq!((y, m, d, h, min, s), (2025, 6, 21, 12, 0, 0));

    let (y, m, d, h, min, s) = utc_ms_to_date_parts(ms, 28800);
    assert_eq!((y, m, d, h, min, s), (2025, 6, 21, 20, 0, 0));
}

#[test]
fn test_construction_star() {
    assert_eq!(construction_star(5, 9), "平");
    assert_eq!(construction_star(1, 2), "建");
}

#[test]
fn test_gyp_spirit() {
    let (spirit, auspicious) = gyp_spirit(5, 9);
    assert_eq!(spirit, "明堂");
    assert!(auspicious);
    let (spirit, auspicious) = gyp_spirit(8, 10);
    assert_eq!(spirit, "天牢");
    assert!(!auspicious);
}
