//! Dates and times.

use aureus::calendar::{
    activity_timestamp, chooser_date, chooser_label, civil_from_days, current_date_string,
    date_is_future, date_string, day_of, days_from_civil, format_distribution_date,
    local_date_parts, month_name, parse_trade_date, relative_time, timestamp_year_month,
};

#[test]
fn epoch_is_day_zero() {
    assert_eq!(civil_from_days(0), (1970, 1, 1));
    assert_eq!(days_from_civil(1970, 1, 1), 0);
}

#[test]
fn days_and_dates_convert_both_ways() {
    for day in [-719_468, -719_163, -1, 59, 11_016, 19_782, 19_783, 2_932_896] {
        let (year, month, date) = civil_from_days(day);
        assert_eq!(days_from_civil(year, month, date), day);
    }
    assert_eq!(civil_from_days(19_782), (2024, 2, 29));
    assert_eq!(civil_from_days(11_016), (2000, 2, 29));
    assert_eq!(civil_from_days(-1), (1969, 12, 31));
    assert_eq!(civil_from_days(-719_468), (0, 3, 1));
    assert_eq!(days_from_civil(2026, 1, 1), 20_454);
}

#[test]
fn later_dates_have_later_days() {
    assert!(days_from_civil(2023, 12, 31) < days_from_civil(2024, 1, 1));
    assert_eq!(days_from_civil(2024, 3, 1) - days_from_civil(2024, 2, 28), 2);
    assert_eq!(days_from_civil(2100, 3, 1) - days_from_civil(2100, 2, 28), 1);
}

#[test]
fn trade_dates_are_read() {
    assert_eq!(parse_trade_date("2024-02-29"), Ok(19_782 * 86_400));
    assert_eq!(parse_trade_date(" 1970-1-2\n"), Ok(86_400));
    assert_eq!(parse_trade_date("1969-12-31"), Ok(-86_400));
    assert_eq!(activity_timestamp("2024-02-29"), Ok(1_709_164_800));
}

#[test]
fn impossible_dates_are_refused() {
    for value in [
        "2023-02-29", "2100-02-29", "2024-04-31", "2024-13-01", "2024-00-10", "2024-01-00",
        "2024-01-32", "2024-01", "2024-01-01-01", "", "today", "2024/01/01", "2024- 1-01",
        "-2024-01-01", "2147483648-01-01",
    ] {
        assert_eq!(parse_trade_date(value), Err(()), "{value}");
    }
}

#[test]
fn printed_dates_read_back() {
    for (year, month, day) in [(2024, 2, 29), (1, 1, 1), (0, 12, 31), (12_345, 6, 7)] {
        let text = date_string(year, month, day);
        assert_eq!(parse_trade_date(&text), Ok(days_from_civil(year, month, day) * 86_400));
    }
    assert_eq!(date_string(2024, 3, 9), "2024-03-09");
    assert_eq!(date_string(33, 1, 2), "0033-01-02");
}

#[test]
fn only_later_days_are_in_the_future() {
    assert!(date_is_future("2024-03-02", "2024-03-01"));
    assert!(!date_is_future("2024-03-01", "2024-03-01"));
    assert!(!date_is_future("2024-02-29", "2024-03-01"));
    assert!(!date_is_future("soon", "2024-03-01"));
    assert!(!date_is_future("2024-03-02", "now"));
}

#[test]
fn the_local_clock_comes_first() {
    assert_eq!(local_date_parts(Some((2024, 3, 1)), 0), (2024, 3, 1));
    assert_eq!(local_date_parts(None, 86_400 * 59), (1970, 3, 1));
    assert_eq!(current_date_string(None, -1), "1969-12-31");
    assert_eq!(current_date_string(Some((2024, 3, 1)), 0), "2024-03-01");
    assert_eq!(day_of(-1), -1);
    assert_eq!(day_of(-86_400), -1);
    assert_eq!(day_of(86_399), 0);
}

#[test]
fn a_chooser_begins_with_the_date_given() {
    assert_eq!(chooser_date("2024-02-29", Some((2026, 1, 1)), 0), (2024, 2, 29));
    assert_eq!(chooser_date("2023-02-29", Some((2026, 1, 1)), 0), (2026, 1, 1));
    assert_eq!(chooser_date("", None, 86_400), (1970, 1, 2));
    assert_eq!(chooser_label(2024, 2, 29), "Feb 29, 2024");
}

#[test]
fn distributions_are_dated() {
    assert_eq!(format_distribution_date(1_709_164_800), "Feb 29, 2024");
    assert_eq!(format_distribution_date(0), "Unknown date");
    assert_eq!(format_distribution_date(-5), "Unknown date");
    assert_eq!(timestamp_year_month(1_709_164_800), Some((2024, 2)));
    assert_eq!(timestamp_year_month(0), None);
    assert_eq!(month_name(12), "Dec");
    assert_eq!(month_name(13), "?");
}

#[test]
fn times_are_told_from_now() {
    assert_eq!(relative_time(1_000, 941), "just now");
    assert_eq!(relative_time(1_000, 2_000), "just now");
    assert_eq!(relative_time(1_000, 940), "1 min ago");
    assert_eq!(relative_time(10_000, 0), "2 h ago");
    assert_eq!(relative_time(86_399, 0), "23 h ago");
    assert_eq!(relative_time(172_800, 0), "2 d ago");
    assert_eq!(relative_time(i64::MAX, -5), "106751991167300 d ago");
}
