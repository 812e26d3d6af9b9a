use chrono::{Datelike, NaiveDate, NaiveDateTime, NaiveTime, Timelike};
use irig106_time::chrono_interop::{
    calendar_from_naive, calendar_from_naive_fields, naive_from_absolute, naive_from_calendar,
    naive_year_for,
};
use irig106_time::{AbsoluteTime, CalendarTime, TimeError};

#[test]
fn absolute_to_chrono() {
    let mut t = AbsoluteTime::new(100, 12, 30, 25, 340_000_000).unwrap();
    t.set_year(Some(2025)).unwrap();
    let dt: NaiveDateTime = naive_from_absolute(t);
    assert_eq!(dt.year(), 2025);
    assert_eq!(dt.ordinal(), 100);
    assert_eq!(dt.hour(), 12);
    assert_eq!(dt.minute(), 30);
    assert_eq!(dt.second(), 25);
    assert_eq!(dt.nanosecond(), 340_000_000);
}

#[test]
fn calendar_to_chrono() {
    let ct = CalendarTime::from_parts(2025, 4, 10, 100, 12, 30, 25, 340_000_000).unwrap();
    let dt: NaiveDateTime = naive_from_calendar(ct);
    assert_eq!(dt.year(), 2025);
    assert_eq!(dt.month(), 4);
    assert_eq!(dt.day(), 10);
    assert_eq!(dt.hour(), 12);
    assert_eq!(dt.minute(), 30);
    assert_eq!(dt.second(), 25);
    assert_eq!(dt.nanosecond(), 340_000_000);
}

#[test]
fn chrono_to_calendar_time() {
    let date = NaiveDate::from_ymd_opt(2025, 4, 10).unwrap();
    let time = NaiveTime::from_hms_nano_opt(12, 30, 25, 340_000_000).unwrap();
    let dt = NaiveDateTime::new(date, time);
    let ct: CalendarTime = calendar_from_naive(&dt).unwrap();
    assert_eq!(ct.year(), Some(2025));
    assert_eq!(ct.day_of_year(), 100);
    assert_eq!(ct.month(), 4);
    assert_eq!(ct.day_of_month(), 10);
    assert_eq!(ct.hours(), 12);
    assert_eq!(ct.minutes(), 30);
    assert_eq!(ct.seconds(), 25);
    assert_eq!(ct.nanoseconds(), 340_000_000);
}

#[test]
fn round_trip_via_calendar_time() {
    let ct = CalendarTime::from_parts(2024, 7, 18, 200, 8, 15, 45, 123_456_789).unwrap();
    let dt: NaiveDateTime = naive_from_calendar(ct);
    let back: CalendarTime = calendar_from_naive(&dt).unwrap();
    assert_eq!(back.year(), Some(2024));
    assert_eq!(back.day_of_year(), 200);
    assert_eq!(back.month(), 7);
    assert_eq!(back.day_of_month(), 18);
    assert_eq!(back.hours(), 8);
    assert_eq!(back.minutes(), 15);
    assert_eq!(back.seconds(), 45);
    assert_eq!(back.nanoseconds(), 123_456_789);
}

#[test]
fn no_year_defaults_to_1970() {
    let t = AbsoluteTime::new(50, 6, 0, 0, 0).unwrap();
    let dt: NaiveDateTime = naive_from_absolute(t);
    assert_eq!(dt.year(), 1970);
    assert_eq!(dt.ordinal(), 50);
}

#[test]
fn calendar_to_absolute_drops_month_day() {
    let date = NaiveDate::from_ymd_opt(2025, 4, 10).unwrap();
    let time = NaiveTime::from_hms_nano_opt(12, 0, 0, 0).unwrap();
    let dt = NaiveDateTime::new(date, time);
    let ct: CalendarTime = calendar_from_naive(&dt).unwrap();
    let abs: AbsoluteTime = ct.into();
    assert_eq!(abs.year(), Some(2025));
    assert_eq!(abs.day_of_year(), 100);
}

#[test]
fn absolute_day_366_of_common_year_falls_back_to_new_year() {
    let mut t = AbsoluteTime::new(366, 1, 2, 3, 4).unwrap();
    t.set_year(Some(2025)).unwrap();
    let dt = naive_from_absolute(t);
    assert_eq!(dt.year(), 2025);
    assert_eq!(dt.ordinal(), 1);
    assert_eq!(dt.hour(), 1);
    assert_eq!(dt.nanosecond(), 4);
}

#[test]
fn absolute_with_out_of_range_clock_gives_midnight() {
    let t = AbsoluteTime {
        day_of_year: 10,
        hours: 25,
        minutes: 0,
        seconds: 0,
        nanoseconds: 0,
        month: None,
        day_of_month: None,
        year: Some(2020),
    };
    let dt = naive_from_absolute(t);
    assert_eq!(dt.ordinal(), 10);
    assert_eq!(dt.hour(), 0);
    assert_eq!(dt.minute(), 0);
}

#[test]
fn leap_second_nanos_are_clamped() {
    let date = NaiveDate::from_ymd_opt(2016, 12, 31).unwrap();
    let time = NaiveTime::from_hms_nano_opt(23, 59, 59, 1_500_000_000).unwrap();
    let dt = NaiveDateTime::new(date, time);
    let ct = calendar_from_naive(&dt).unwrap();
    assert_eq!(ct.seconds(), 59);
    assert_eq!(ct.nanoseconds(), 999_999_999);
    assert_eq!(ct.day_of_year(), 366);
}

#[test]
fn year_beyond_9999_is_refused() {
    let date = NaiveDate::from_ymd_opt(12000, 1, 1).unwrap();
    let time = NaiveTime::from_hms_nano_opt(0, 0, 0, 0).unwrap();
    let dt = NaiveDateTime::new(date, time);
    assert!(calendar_from_naive(&dt).is_none());
    assert_eq!(
        calendar_from_naive_fields(12000, 1, 1, 1, 0, 0, 0, 0),
        Err(TimeError::OutOfRange { field: "year", value: 12000, max: 9999 })
    );
}

#[test]
fn default_year_is_1970() {
    assert_eq!(naive_year_for(None), 1970);
    assert_eq!(naive_year_for(Some(2001)), 2001);
}
