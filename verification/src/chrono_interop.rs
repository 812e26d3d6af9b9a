//! Conversions between [`AbsoluteTime`] / [`CalendarTime`] and `chrono::NaiveDateTime`.
//!
//! | From | To | Notes |
//! |------|----|-------|
//! | `AbsoluteTime` | `NaiveDateTime` | Uses the day of year; the year defaults to 1970. |
//! | `CalendarTime` | `NaiveDateTime` | Uses month and day of month directly. |
//! | `NaiveDateTime` | `CalendarTime` | chrono always provides the full date. |
//!
//! To go from a `NaiveDateTime` back to an `AbsoluteTime`, convert through `CalendarTime`.
//!
//! `chrono`'s date and time values are opaque here: the contracts below say when chrono
//! accepts the fields it is handed and which fields those are, and what is done with the
//! fields that chrono reports back.

use vstd::prelude::*;
use chrono::{Datelike, Timelike};
use crate::absolute::{spec_calendar_error, spec_calendar_from_parts, AbsoluteTime, CalendarTime};
use crate::util::{spec_days_in_month, spec_days_in_year, spec_month_day_to_doy};

verus! {

#[verifier::external_type_specification]
#[verifier::external_body]
pub struct ExNaiveDate(chrono::NaiveDate);

#[verifier::external_type_specification]
#[verifier::external_body]
pub struct ExNaiveTime(chrono::NaiveTime);

#[verifier::external_type_specification]
#[verifier::external_body]
pub struct ExNaiveDateTime(chrono::NaiveDateTime);

/// Earliest year that `chrono::NaiveDate` represents.
pub const NAIVE_MIN_YEAR: i32 = -262143;

/// Latest year that `chrono::NaiveDate` represents.
pub const NAIVE_MAX_YEAR: i32 = 262142;

/// Year used when an `AbsoluteTime` carries none.
pub const DEFAULT_YEAR: u16 = 1970;

/// The ordinal date `year`-`ordinal` exists in chrono's proleptic Gregorian calendar.
pub open spec fn naive_ordinal_date_exists(year: int, ordinal: int) -> bool {
    &&& NAIVE_MIN_YEAR <= year <= NAIVE_MAX_YEAR
    &&& 1 <= ordinal <= spec_days_in_year(year)
}

/// The calendar date `year`-`month`-`day` exists in chrono's proleptic Gregorian calendar.
pub open spec fn naive_calendar_date_exists(year: int, month: int, day: int) -> bool {
    &&& NAIVE_MIN_YEAR <= year <= NAIVE_MAX_YEAR
    &&& 1 <= month <= 12
    &&& 1 <= day <= spec_days_in_month(year, month)
}

/// chrono accepts this time of day; a nanosecond value of one second or more stands for a
/// leap second and is only accepted in second 59.
pub open spec fn naive_time_exists(hour: int, minute: int, second: int, nano: int) -> bool {
    &&& hour < 24
    &&& minute < 60
    &&& second < 60
    &&& (nano < 1_000_000_000 || (second == 59 && nano < 2_000_000_000))
}

// ── What chrono's getters report ────────────────────────────────────

/// `Datelike::year` of a `NaiveDate`.
pub uninterp spec fn naive_date_year(d: chrono::NaiveDate) -> i32;

/// `Datelike::month` of a `NaiveDate`.
pub uninterp spec fn naive_date_month(d: chrono::NaiveDate) -> u32;

/// `Datelike::day` of a `NaiveDate`.
pub uninterp spec fn naive_date_day(d: chrono::NaiveDate) -> u32;

/// `Datelike::ordinal` of a `NaiveDate`.
pub uninterp spec fn naive_date_ordinal(d: chrono::NaiveDate) -> u32;

/// `Timelike::hour` of a `NaiveTime`.
pub uninterp spec fn naive_time_hour(t: chrono::NaiveTime) -> u32;

/// `Timelike::minute` of a `NaiveTime`.
pub uninterp spec fn naive_time_minute(t: chrono::NaiveTime) -> u32;

/// `Timelike::second` of a `NaiveTime`.
pub uninterp spec fn naive_time_second(t: chrono::NaiveTime) -> u32;

/// `Timelike::nanosecond` of a `NaiveTime`.
pub uninterp spec fn naive_time_nanosecond(t: chrono::NaiveTime) -> u32;

/// `Datelike::year` of a `NaiveDateTime`.
pub uninterp spec fn naive_dt_year(dt: chrono::NaiveDateTime) -> i32;

/// `Datelike::month` of a `NaiveDateTime`.
pub uninterp spec fn naive_dt_month(dt: chrono::NaiveDateTime) -> u32;

/// `Datelike::day` of a `NaiveDateTime`.
pub uninterp spec fn naive_dt_day(dt: chrono::NaiveDateTime) -> u32;

/// `Datelike::ordinal` of a `NaiveDateTime`.
pub uninterp spec fn naive_dt_ordinal(dt: chrono::NaiveDateTime) -> u32;

/// `Timelike::hour` of a `NaiveDateTime`.
pub uninterp spec fn naive_dt_hour(dt: chrono::NaiveDateTime) -> u32;

/// `Timelike::minute` of a `NaiveDateTime`.
pub uninterp spec fn naive_dt_minute(dt: chrono::NaiveDateTime) -> u32;

/// `Timelike::second` of a `NaiveDateTime`.
pub uninterp spec fn naive_dt_second(dt: chrono::NaiveDateTime) -> u32;

/// `Timelike::nanosecond` of a `NaiveDateTime`.
pub uninterp spec fn naive_dt_nanosecond(dt: chrono::NaiveDateTime) -> u32;

/// A date reports these year, month, day and day-of-year fields.
pub open spec fn naive_date_is(d: chrono::NaiveDate, year: int, month: int, day: int, ordinal: int) -> bool {
    &&& naive_date_year(d) == year
    &&& naive_date_month(d) == month
    &&& naive_date_day(d) == day
    &&& naive_date_ordinal(d) == ordinal
}

/// A time of day reports these hour, minute, second and nanosecond fields.
pub open spec fn naive_time_is(t: chrono::NaiveTime, hour: int, minute: int, second: int, nano: int) -> bool {
    &&& naive_time_hour(t) == hour
    &&& naive_time_minute(t) == minute
    &&& naive_time_second(t) == second
    &&& naive_time_nanosecond(t) == nano
}

// ── chrono's constructors and getters ────────────────────────────────

/// `chrono::NaiveDate::from_yo_opt`: the date of day `ordinal` of `year`, present exactly
/// when that day exists and the year is in chrono's range; that date reports the year and
/// day of year it was made from.
#[verifier::external_body]
fn naive_date_from_yo(year: i32, ordinal: u32) -> (r: Option<chrono::NaiveDate>)
    ensures
        r is Some <==> naive_ordinal_date_exists(year as int, ordinal as int),
        r matches Some(d) ==> naive_date_year(d) == year && naive_date_ordinal(d) == ordinal,
{
    chrono::NaiveDate::from_yo_opt(year, ordinal)
}

/// `chrono::NaiveDate::from_ymd_opt`: the date `year`-`month`-`day`, present exactly when
/// that date exists and the year is in chrono's range; that date reports the year, month
/// and day it was made from, and its day of year in that year.
#[verifier::external_body]
fn naive_date_from_ymd(year: i32, month: u32, day: u32) -> (r: Option<chrono::NaiveDate>)
    ensures
        r is Some <==> naive_calendar_date_exists(year as int, month as int, day as int),
        r matches Some(d) ==> naive_date_is(
            d,
            year as int,
            month as int,
            day as int,
            spec_month_day_to_doy(year as int, month as int, day as int),
        ),
{
    chrono::NaiveDate::from_ymd_opt(year, month, day)
}

/// `chrono::NaiveTime::from_hms_nano_opt`: the time of day, present exactly when the fields
/// are in range (see [`naive_time_exists`]); that time reports the fields it was made from.
#[verifier::external_body]
fn naive_time_from_hms_nano(hour: u32, minute: u32, second: u32, nano: u32) -> (r: Option<
    chrono::NaiveTime,
>)
    ensures
        r is Some <==> naive_time_exists(hour as int, minute as int, second as int, nano as int),
        r matches Some(t) ==> naive_time_is(t, hour as int, minute as int, second as int, nano as int),
{
    chrono::NaiveTime::from_hms_nano_opt(hour, minute, second, nano)
}

/// `chrono::NaiveTime::default`: midnight, 00:00:00 with no nanoseconds.
#[verifier::external_body]
fn naive_midnight() -> (r: chrono::NaiveTime)
    ensures
        naive_time_is(r, 0, 0, 0, 0),
{
    chrono::NaiveTime::default()
}

/// `chrono::NaiveDateTime::new`: the date-time made of a date and a time; it reports the
/// date's year, month, day and day of year and the time's hour, minute, second and
/// nanosecond.
#[verifier::external_body]
fn naive_date_time_new(date: chrono::NaiveDate, time: chrono::NaiveTime) -> (r:
    chrono::NaiveDateTime)
    ensures
        naive_dt_year(r) == naive_date_year(date),
        naive_dt_month(r) == naive_date_month(date),
        naive_dt_day(r) == naive_date_day(date),
        naive_dt_ordinal(r) == naive_date_ordinal(date),
        naive_dt_hour(r) == naive_time_hour(time),
        naive_dt_minute(r) == naive_time_minute(time),
        naive_dt_second(r) == naive_time_second(time),
        naive_dt_nanosecond(r) == naive_time_nanosecond(time),
{
    chrono::NaiveDateTime::new(date, time)
}

/// `Datelike::year` of a `NaiveDateTime`.
#[verifier::external_body]
fn naive_year(dt: &chrono::NaiveDateTime) -> (r: i32)
    ensures
        r == naive_dt_year(*dt),
{
    dt.year()
}

/// `Datelike::month` of a `NaiveDateTime`: documented to range from 1 to 12.
#[verifier::external_body]
fn naive_month(dt: &chrono::NaiveDateTime) -> (r: u32)
    ensures
        r == naive_dt_month(*dt),
        1 <= r <= 12,
{
    dt.month()
}

/// `Datelike::day` of a `NaiveDateTime`: documented to range from 1 to 31.
#[verifier::external_body]
fn naive_day(dt: &chrono::NaiveDateTime) -> (r: u32)
    ensures
        r == naive_dt_day(*dt),
        1 <= r <= 31,
{
    dt.day()
}

/// `Datelike::ordinal` of a `NaiveDateTime`: documented to range from 1 to 366.
#[verifier::external_body]
fn naive_ordinal(dt: &chrono::NaiveDateTime) -> (r: u32)
    ensures
        r == naive_dt_ordinal(*dt),
        1 <= r <= 366,
{
    dt.ordinal()
}

/// `Timelike::hour` of a `NaiveDateTime`: documented to range from 0 to 23.
#[verifier::external_body]
fn naive_hour(dt: &chrono::NaiveDateTime) -> (r: u32)
    ensures
        r == naive_dt_hour(*dt),
        r <= 23,
{
    dt.hour()
}

/// `Timelike::minute` of a `NaiveDateTime`: documented to range from 0 to 59.
#[verifier::external_body]
fn naive_minute(dt: &chrono::NaiveDateTime) -> (r: u32)
    ensures
        r == naive_dt_minute(*dt),
        r <= 59,
{
    dt.minute()
}

/// `Timelike::second` of a `NaiveDateTime`: documented to range from 0 to 59.
#[verifier::external_body]
fn naive_second(dt: &chrono::NaiveDateTime) -> (r: u32)
    ensures
        r == naive_dt_second(*dt),
        r <= 59,
{
    dt.second()
}

/// `Timelike::nanosecond` of a `NaiveDateTime`: below 2,000,000,000, values from one second
/// up standing for a leap second.
#[verifier::external_body]
fn naive_nanosecond(dt: &chrono::NaiveDateTime) -> (r: u32)
    ensures
        r == naive_dt_nanosecond(*dt),
        r < 2_000_000_000,
{
    dt.nanosecond()
}

/// The year handed to chrono for an optional year: the year itself, or 1970.
pub open spec fn naive_year_of(year: Option<u16>) -> int {
    match year {
        Some(y) => y as int,
        None => DEFAULT_YEAR as int,
    }
}

/// The year handed to chrono for an optional year: the year itself, or 1970.
pub fn naive_year_for(year: Option<u16>) -> (r: i32)
    ensures
        r == naive_year_of(year),
{
    match year {
        Some(y) => y as i32,
        None => DEFAULT_YEAR as i32,
    }
}

/// The hour, minute, second and nanosecond a date-time reports.
pub open spec fn naive_clock_of(dt: chrono::NaiveDateTime) -> (int, int, int, int) {
    (
        naive_dt_hour(dt) as int,
        naive_dt_minute(dt) as int,
        naive_dt_second(dt) as int,
        naive_dt_nanosecond(dt) as int,
    )
}

/// The time of day handed to chrono, or midnight where chrono rejects it.
pub open spec fn naive_clock_request(hour: u8, minute: u8, second: u8, nano: u32) -> (int, int, int, int) {
    if naive_time_exists(hour as int, minute as int, second as int, nano as int) {
        (hour as int, minute as int, second as int, nano as int)
    } else {
        (0, 0, 0, 0)
    }
}

/// January 1 of `year`, which chrono represents for every year a `u16` holds.
fn naive_new_year(year: i32) -> (r: chrono::NaiveDate)
    requires
        0 <= year <= 65535,
    ensures
        naive_date_is(r, year as int, 1, 1, 1),
{
    let d = naive_date_from_ymd(year, 1, 1);
    d.unwrap()
}

/// The time of day, or midnight where chrono rejects the fields.
fn naive_time_or_midnight(hour: u8, minute: u8, second: u8, nano: u32) -> (r: chrono::NaiveTime)
    ensures
        if naive_time_exists(hour as int, minute as int, second as int, nano as int) {
            naive_time_is(r, hour as int, minute as int, second as int, nano as int)
        } else {
            naive_time_is(r, 0, 0, 0, 0)
        },
{
    match naive_time_from_hms_nano(hour as u32, minute as u32, second as u32, nano) {
        Some(t) => t,
        None => naive_midnight(),
    }
}

/// `AbsoluteTime` as a chrono date-time: day `day_of_year` of the time's year (1970 when it
/// has none), or January 1 of that year where the year has no such day; the time of day, or
/// midnight where chrono rejects it.
pub fn naive_from_absolute(abs: AbsoluteTime) -> (r: chrono::NaiveDateTime)
    ensures
        naive_dt_year(r) == naive_year_of(abs.year),
        naive_dt_ordinal(r) == if naive_ordinal_date_exists(
            naive_year_of(abs.year),
            abs.day_of_year as int,
        ) {
            abs.day_of_year as int
        } else {
            1
        },
        naive_clock_of(r) == naive_clock_request(abs.hours, abs.minutes, abs.seconds, abs.nanoseconds),
{
    let year = naive_year_for(abs.year);
    let date = match naive_date_from_yo(year, abs.day_of_year as u32) {
        Some(d) => d,
        None => naive_new_year(year),
    };
    let time = naive_time_or_midnight(abs.hours, abs.minutes, abs.seconds, abs.nanoseconds);
    naive_date_time_new(date, time)
}

/// `CalendarTime` as a chrono date-time: its year (1970 when it has none), month and day of
/// month, or January 1 of that year where chrono rejects the date; the time of day, or
/// midnight where chrono rejects it.
pub fn naive_from_calendar(ct: CalendarTime) -> (r: chrono::NaiveDateTime)
    ensures
        ({
            let t = ct.inner();
            let y = naive_year_of(t.year);
            let exists = naive_calendar_date_exists(
                y,
                ct.spec_month() as int,
                ct.spec_day_of_month() as int,
            );
            &&& naive_dt_year(r) == y
            &&& naive_dt_month(r) == if exists {
                ct.spec_month() as int
            } else {
                1
            }
            &&& naive_dt_day(r) == if exists {
                ct.spec_day_of_month() as int
            } else {
                1
            }
            &&& naive_clock_of(r) == naive_clock_request(t.hours, t.minutes, t.seconds, t.nanoseconds)
        }),
{
    let t = ct.into_absolute_time();
    let year = naive_year_for(t.year);
    let date = match naive_date_from_ymd(year, ct.month() as u32, ct.day_of_month() as u32) {
        Some(d) => d,
        None => naive_new_year(year),
    };
    let time = naive_time_or_midnight(t.hours, t.minutes, t.seconds, t.nanoseconds);
    naive_date_time_new(date, time)
}

/// A chrono nanosecond value with a leap second folded into the last nanosecond of the
/// second.
pub open spec fn clamp_leap_nanos(nano: u32) -> u32 {
    if nano >= 1_000_000_000 {
        999_999_999
    } else {
        nano
    }
}

/// What `CalendarTime::from_parts` makes of the fields chrono reports: each taken to the
/// width `CalendarTime` stores (the low bits; the year as a `u16`), the nanoseconds of a
/// leap second clamped.
pub open spec fn spec_calendar_from_naive_fields(
    year: i32,
    month: u32,
    day: u32,
    ordinal: u32,
    hour: u32,
    minute: u32,
    second: u32,
    nano: u32,
) -> crate::error::Result<AbsoluteTime> {
    spec_calendar_from_parts(
        year as u16,
        month as u8,
        day as u8,
        ordinal as u16,
        hour as u8,
        minute as u8,
        second as u8,
        clamp_leap_nanos(nano),
    )
}

/// The `CalendarTime` for the fields of a chrono date-time (see
/// [`spec_calendar_from_naive_fields`]), or the error `CalendarTime::from_parts` reports for
/// them.
#[allow(clippy::too_many_arguments)]
pub fn calendar_from_naive_fields(
    year: i32,
    month: u32,
    day: u32,
    ordinal: u32,
    hour: u32,
    minute: u32,
    second: u32,
    nano: u32,
) -> (r: crate::error::Result<CalendarTime>)
    ensures
        match spec_calendar_from_naive_fields(year, month, day, ordinal, hour, minute, second, nano) {
            Ok(t) => r is Ok && r->Ok_0.inner() == t && r->Ok_0.spec_month() == month as u8
                && r->Ok_0.spec_day_of_month() == day as u8,
            Err(e) => r == Err::<CalendarTime, crate::error::TimeError>(e),
        },
{
    let ns: u32 = if nano >= 1_000_000_000 {
        999_999_999
    } else {
        nano
    };
    CalendarTime::from_parts(
        year as u16,
        month as u8,
        day as u8,
        ordinal as u16,
        hour as u8,
        minute as u8,
        second as u8,
        ns,
    )
}

/// A chrono date-time as a `CalendarTime`: the calendar time of its fields (see
/// [`calendar_from_naive_fields`]) when they make one, `None` when they do not (a year
/// outside 0-9999).
pub fn calendar_from_naive(dt: &chrono::NaiveDateTime) -> (r: Option<CalendarTime>)
    ensures
        match spec_calendar_from_naive_fields(
            naive_dt_year(*dt),
            naive_dt_month(*dt),
            naive_dt_day(*dt),
            naive_dt_ordinal(*dt),
            naive_dt_hour(*dt),
            naive_dt_minute(*dt),
            naive_dt_second(*dt),
            naive_dt_nanosecond(*dt),
        ) {
            Ok(t) => r is Some && r->Some_0.inner() == t && r->Some_0.spec_month()
                == naive_dt_month(*dt) as u8 && r->Some_0.spec_day_of_month() == naive_dt_day(
                *dt,
            ) as u8,
            Err(_) => r is None,
        },
        r matches Some(c) ==> c.inner().valid() && c.inner().year is Some && spec_calendar_error(
            c.inner(),
            c.spec_month(),
            c.spec_day_of_month(),
        ) is None,
{
    let year = naive_year(dt);
    let month = naive_month(dt);
    let day = naive_day(dt);
    let ordinal = naive_ordinal(dt);
    let hour = naive_hour(dt);
    let minute = naive_minute(dt);
    let second = naive_second(dt);
    let nano = naive_nanosecond(dt);
    match calendar_from_naive_fields(year, month, day, ordinal, hour, minute, second, nano) {
        Ok(c) => Some(c),
        Err(_) => None,
    }
}

} // verus!
