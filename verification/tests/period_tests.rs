use vibe_coding_tracker::models::GroupingMode;
use vibe_coding_tracker::period::{date_to_iso_week, format_iso_week_key, to_period_key};

#[test]
fn test_date_to_iso_week_regular() {
    // 2025-01-06 is a Monday in ISO week 2025-W02
    assert_eq!(date_to_iso_week("2025-01-06"), "2025-W02");
}

#[test]
fn test_date_to_iso_week_year_boundary() {
    // 2024-12-30 is a Monday, belongs to ISO week 2025-W01
    assert_eq!(date_to_iso_week("2024-12-30"), "2025-W01");
}

#[test]
fn test_date_to_iso_week_midweek() {
    // 2025-03-12 is a Wednesday in ISO week 2025-W11
    assert_eq!(date_to_iso_week("2025-03-12"), "2025-W11");
}

#[test]
fn test_to_period_key_daily() {
    assert_eq!(to_period_key("2025-03-15", GroupingMode::Daily), "2025-03-15");
}

#[test]
fn test_to_period_key_weekly() {
    let result = to_period_key("2025-03-12", GroupingMode::Weekly);
    assert!(result.starts_with("2025-W"), "Expected ISO week format, got: {}", result);
}

#[test]
fn test_date_to_iso_week_invalid_input() {
    // Invalid date should return the input unchanged
    assert_eq!(date_to_iso_week("not-a-date"), "not-a-date");
}

#[test]
fn week_key_pads_single_digit_weeks() {
    assert_eq!(format_iso_week_key("x", Some((2025, 3))), "2025-W03");
    assert_eq!(format_iso_week_key("x", Some((2025, 42))), "2025-W42");
}

#[test]
fn week_key_of_negative_and_zero_years() {
    assert_eq!(format_iso_week_key("x", Some((-44, 10))), "-44-W10");
    assert_eq!(format_iso_week_key("x", Some((0, 1))), "0-W01");
}

#[test]
fn week_key_without_week_is_the_input() {
    assert_eq!(format_iso_week_key("2025-13-40", None), "2025-13-40");
}

#[test]
fn year_end_dates_fall_into_week_53_or_next_year() {
    // 2020-12-31 is a Thursday in ISO week 2020-W53
    assert_eq!(date_to_iso_week("2020-12-31"), "2020-W53");
    // 2021-01-03 is a Sunday that still belongs to 2020-W53
    assert_eq!(date_to_iso_week("2021-01-03"), "2020-W53");
    assert_eq!(to_period_key("2021-01-04", GroupingMode::Weekly), "2021-W01");
}
