use calcu_rs::calendar::{days_in_range, Date, DateTime, Time, MAX_YEAR, MIN_YEAR};
use chrono::{Datelike, NaiveDate};

fn day(year: i32, month: u32, day: u32) -> Date {
    Date::from_ymd_opt(year, month, day).unwrap()
}

#[test]
fn date_keeps_its_fields() {
    let d = day(2024, 6, 19);
    assert_eq!(d.year(), 2024);
    assert_eq!(d.month(), 6);
    assert_eq!(d.day(), 19);
}

#[test]
fn date_rejects_days_off_the_calendar() {
    assert!(Date::from_ymd_opt(2015, 3, 14).is_some());
    assert!(Date::from_ymd_opt(2015, 0, 14).is_none());
    assert!(Date::from_ymd_opt(2015, 13, 1).is_none());
    assert!(Date::from_ymd_opt(2015, 2, 29).is_none());
    assert!(Date::from_ymd_opt(2015, 4, 31).is_none());
    assert!(Date::from_ymd_opt(2015, 4, 0).is_none());
    assert!(Date::from_ymd_opt(-4, 2, 29).is_some());
    assert!(Date::from_ymd_opt(1900, 2, 29).is_none());
    assert!(Date::from_ymd_opt(2000, 2, 29).is_some());
    assert!(Date::from_ymd_opt(400000, 1, 1).is_none());
    assert!(Date::from_ymd_opt(-400000, 1, 1).is_none());
    assert!(Date::from_ymd_opt(MAX_YEAR, 12, 31).is_some());
    assert!(Date::from_ymd_opt(MAX_YEAR + 1, 1, 1).is_none());
    assert!(Date::from_ymd_opt(MIN_YEAR, 1, 1).is_some());
    assert!(Date::from_ymd_opt(MIN_YEAR - 1, 12, 31).is_none());
}

#[test]
fn date_validity_agrees_with_chrono() {
    for year in [-262143, -400, -1, 0, 1, 1900, 2000, 2023, 2024, 2100, 262142] {
        for month in 0..14u32 {
            for d in 0..33u32 {
                assert_eq!(
                    Date::from_ymd_opt(year, month, d).is_some(),
                    NaiveDate::from_ymd_opt(year, month, d).is_some(),
                    "{year}-{month}-{d}"
                );
            }
        }
    }
}

#[test]
fn year_bounds_are_those_of_chrono() {
    assert_eq!(MIN_YEAR, NaiveDate::MIN.year());
    assert_eq!(MAX_YEAR, NaiveDate::MAX.year());
}

#[test]
fn successor_steps_over_month_and_year_ends() {
    assert_eq!(day(2015, 6, 3).succ_opt(), Some(day(2015, 6, 4)));
    assert_eq!(day(2024, 6, 30).succ_opt(), Some(day(2024, 7, 1)));
    assert_eq!(day(2024, 2, 28).succ_opt(), Some(day(2024, 2, 29)));
    assert_eq!(day(2024, 2, 29).succ_opt(), Some(day(2024, 3, 1)));
    assert_eq!(day(2023, 2, 28).succ_opt(), Some(day(2023, 3, 1)));
    assert_eq!(day(2023, 12, 31).succ_opt(), Some(day(2024, 1, 1)));
    assert_eq!(day(-1, 12, 31).succ_opt(), Some(day(0, 1, 1)));
    assert_eq!(day(MAX_YEAR, 12, 31).succ_opt(), None);
}

#[test]
fn successor_agrees_with_chrono_over_five_years() {
    let mut ours = day(1999, 1, 1);
    let mut theirs = NaiveDate::from_ymd_opt(1999, 1, 1).unwrap();
    for _ in 0..(5 * 366) {
        ours = ours.succ_opt().unwrap();
        theirs = theirs.succ_opt().unwrap();
        assert_eq!((ours.year(), ours.month(), ours.day()), (theirs.year(), theirs.month(), theirs.day()));
    }
}

#[test]
fn is_before_orders_by_year_month_day() {
    assert!(day(2024, 6, 1).is_before(&day(2024, 6, 2)));
    assert!(day(2024, 5, 31).is_before(&day(2024, 6, 1)));
    assert!(day(2023, 12, 31).is_before(&day(2024, 1, 1)));
    assert!(!day(2024, 6, 1).is_before(&day(2024, 6, 1)));
    assert!(!day(2024, 6, 2).is_before(&day(2024, 6, 1)));
    assert!(!day(2024, 1, 31).is_before(&day(2023, 12, 1)));
}

#[test]
fn range_is_half_open() {
    let days = days_in_range(&day(2024, 6, 1), &day(2024, 6, 3));
    assert_eq!(days, vec![day(2024, 6, 1), day(2024, 6, 2)]);
}

#[test]
fn range_of_one_day_to_itself_is_empty() {
    assert!(days_in_range(&day(2024, 6, 1), &day(2024, 6, 1)).is_empty());
}

#[test]
fn range_that_runs_backwards_is_empty() {
    assert!(days_in_range(&day(2024, 6, 3), &day(2024, 6, 1)).is_empty());
}

#[test]
fn range_crosses_a_leap_day() {
    let days = days_in_range(&day(2024, 2, 27), &day(2024, 3, 2));
    assert_eq!(days, vec![day(2024, 2, 27), day(2024, 2, 28), day(2024, 2, 29), day(2024, 3, 1)]);
}

#[test]
fn range_of_a_leap_year_has_366_days() {
    assert_eq!(days_in_range(&day(2024, 1, 1), &day(2025, 1, 1)).len(), 366);
    assert_eq!(days_in_range(&day(2023, 1, 1), &day(2024, 1, 1)).len(), 365);
}

#[test]
fn range_may_end_on_the_last_day() {
    let days = days_in_range(&day(MAX_YEAR, 12, 30), &day(MAX_YEAR, 12, 31));
    assert_eq!(days, vec![day(MAX_YEAR, 12, 30)]);
}

#[test]
fn time_keeps_its_fields() {
    let t = Time::from_hms_opt(21, 30, 5).unwrap();
    assert_eq!((t.hour(), t.minute(), t.second()), (21, 30, 5));
}

#[test]
fn time_rejects_what_the_clock_lacks() {
    assert!(Time::from_hms_opt(0, 0, 0).is_some());
    assert!(Time::from_hms_opt(23, 59, 59).is_some());
    assert!(Time::from_hms_opt(24, 0, 0).is_none());
    assert!(Time::from_hms_opt(0, 60, 0).is_none());
    assert!(Time::from_hms_opt(0, 0, 60).is_none());
}

#[test]
fn midnight_is_the_start_of_the_day() {
    assert_eq!(Time::midnight(), Time::from_hms_opt(0, 0, 0).unwrap());
}

#[test]
fn and_time_pairs_day_and_time() {
    let t = Time::from_hms_opt(8, 15, 0).unwrap();
    assert_eq!(day(2024, 6, 19).and_time(t), DateTime { date: day(2024, 6, 19), time: t });
}

#[test]
fn format_writes_a_day_under_a_layout() {
    assert_eq!(day(2024, 6, 9).format("%Y-%m-%d"), Some(String::from("2024-06-09")));
    assert_eq!(day(2024, 6, 9).format("%d/%m/%Y"), Some(String::from("09/06/2024")));
    assert_eq!(day(2024, 6, 9).format(""), Some(String::new()));
}

#[test]
fn format_refuses_a_layout_it_cannot_write() {
    assert_eq!(day(2024, 6, 9).format("%Q"), None);
    assert_eq!(day(2024, 6, 9).format("%H:%M"), None);
}

#[test]
fn format_agrees_with_chrono() {
    for (y, m, d) in [(2024, 2, 29), (1, 1, 1), (0, 12, 31), (9999, 12, 31), (10000, 1, 1), (-1, 6, 15)] {
        let naive = NaiveDate::from_ymd_opt(y, m, d).unwrap();
        assert_eq!(day(y, m, d).format("%Y-%m-%d"), Some(naive.format("%Y-%m-%d").to_string()));
    }
}
