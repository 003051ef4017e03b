use factor_analysis::date::{parse_iso_date, snapshot_day};
use factor_analysis::date::Date;

#[test]
fn calendar_dates_follow_gregorian_rules() {
    assert!(Date::from_calendar_date(2019, 1, 1).is_some());
    assert!(Date::from_calendar_date(2019, 12, 31).is_some());
    assert!(Date::from_calendar_date(2019, 2, 29).is_none());
    assert!(Date::from_calendar_date(2020, 2, 29).is_some());
    assert!(Date::from_calendar_date(1900, 2, 29).is_none());
    assert!(Date::from_calendar_date(2000, 2, 29).is_some());
    assert!(Date::from_calendar_date(2025, 4, 31).is_none());
    assert!(Date::from_calendar_date(2025, 13, 1).is_none());
    assert!(Date::from_calendar_date(2025, 0, 1).is_none());
    assert!(Date::from_calendar_date(2025, 1, 0).is_none());
    assert!(Date::from_calendar_date(10000, 1, 1).is_none());
    assert!(Date::from_calendar_date(-9999, 1, 1).is_some());
}

#[test]
fn dates_order_chronologically() {
    let a = Date { year: 2024, month: 12, day: 31 };
    let b = Date { year: 2025, month: 1, day: 1 };
    assert!(a.le(&b) && !b.le(&a) && a.le(&a));
    assert_eq!(a.max(b), b);
    assert_eq!(a.min(b), a);
    assert!(a < b);
}

#[test]
fn parse_iso_date_reads_calendar_days() {
    assert_eq!(parse_iso_date("2025-01-31"), Some(Date { year: 2025, month: 1, day: 31 }));
    assert_eq!(parse_iso_date("2024-02-29"), Some(Date { year: 2024, month: 2, day: 29 }));
    assert_eq!(parse_iso_date("2025-02-29"), None);
    assert_eq!(parse_iso_date("2025/01/31"), None);
    assert_eq!(parse_iso_date(""), None);
}

#[test]
fn snapshot_day_defaults_to_last_trading_day() {
    let last = Date { year: 2025, month: 6, day: 30 };
    assert_eq!(snapshot_day(None, last), Some(last));
    assert_eq!(snapshot_day(Some("2025-03-03"), last), Some(Date { year: 2025, month: 3, day: 3 }));
    assert_eq!(snapshot_day(Some("not a day"), last), None);
}
