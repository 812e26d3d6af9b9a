#![allow(unused_imports)]

use irig106_time::{
    detect_version, AbsoluteTime, CalendarTime, Ch4BinaryTime, DateFormat, DayFormatTime,
    DmyFormatTime, Ertc, Ieee1588Time, IntraPacketTime, IntraPacketTimeFormat, Irig106Version,
    LeapSecondEntry, LeapSecondTable, NetworkTime, NetworkTimeProtocol, NtpTime, PtpTime,
    ReferencePoint, Rtc, RtcReset, SecHdrTimeFormat, SecondaryHeaderTime, TimeCorrelator,
    TimeError, TimeF1Csdw, TimeF2Csdw, TimeFormat, TimeJump, TimeSource, DEFAULT_TAI_UTC_OFFSET,
    NTP_UNIX_EPOCH_OFFSET,
};
use irig106_time::absolute::{
    NANOS_PER_DAY, NANOS_PER_HOUR, NANOS_PER_MINUTE, NANOS_PER_SECOND,
};
use irig106_time::correlation::DEFAULT_OOO_WINDOW_NS;
use irig106_time::intra_packet::parse_intra_packet_time;
use irig106_time::network_time::parse_time_f2_payload;
use irig106_time::packet_standard::PacketStandard;
use irig106_time::recording_event::{RecordingEvent, RecordingEventType};
use irig106_time::rtc::{MASK_48, NANOS_PER_TICK};
use irig106_time::secondary::{parse_secondary_header, validate_secondary_checksum};
use irig106_time::streaming::{StreamingRef, StreamingTimeCorrelator};
use irig106_time::util::{abs_diff_u64, days_in_month, is_leap_year, month_day_to_doy};

// ── Basic leap year rules ───────────────────────────────────────

#[test]
fn common_leap_years() {
    // Divisible by 4 but not by 100
    assert!(is_leap_year(2024));
    assert!(is_leap_year(2020));
    assert!(is_leap_year(2016));
    assert!(is_leap_year(2004));
    assert!(is_leap_year(1996));
}

#[test]
fn common_non_leap_years() {
    // Not divisible by 4
    assert!(!is_leap_year(2023));
    assert!(!is_leap_year(2022));
    assert!(!is_leap_year(2021));
    assert!(!is_leap_year(2019));
    assert!(!is_leap_year(2025));
}

#[test]
fn century_years_not_leap() {
    // Divisible by 100 but not by 400
    assert!(!is_leap_year(1900));
    assert!(!is_leap_year(1800));
    assert!(!is_leap_year(1700));
    assert!(!is_leap_year(2100));
    assert!(!is_leap_year(2200));
    assert!(!is_leap_year(2300));
}

#[test]
fn quad_century_years_are_leap() {
    // Divisible by 400
    assert!(is_leap_year(2000));
    assert!(is_leap_year(1600));
    assert!(is_leap_year(2400));
}

// ── Edge cases ──────────────────────────────────────────────────

#[test]
fn year_zero() {
    // Year 0 is divisible by 400
    assert!(is_leap_year(0));
}

#[test]
fn year_one() {
    assert!(!is_leap_year(1));
}

#[test]
fn max_u16_year() {
    // u16::MAX = 65535, not divisible by 4
    assert!(!is_leap_year(u16::MAX));
}

// ── Telemetry-relevant years ────────────────────────────────────

#[test]
fn irig106_era_years() {
    // Years commonly seen in IRIG 106 flight test data
    assert!(is_leap_year(2004)); // 106-04 era
    assert!(!is_leap_year(2005)); // 106-05 era
    assert!(!is_leap_year(2007)); // 106-07 era
    assert!(!is_leap_year(2017)); // 106-17 (Ch10/Ch11 split)
    assert!(!is_leap_year(2022)); // 106-22 (Network Time)
    assert!(!is_leap_year(2023)); // 106-23
    assert!(is_leap_year(2024)); // Current recordings
}

// ═══════════════════════════════════════════════════════════════════
// abs_diff_u64 tests
// ═══════════════════════════════════════════════════════════════════

#[test]
fn abs_diff_a_greater() {
    assert_eq!(abs_diff_u64(10, 3), 7);
    assert_eq!(abs_diff_u64(1_000_000, 1), 999_999);
}

#[test]
fn abs_diff_b_greater() {
    assert_eq!(abs_diff_u64(3, 10), 7);
    assert_eq!(abs_diff_u64(1, 1_000_000), 999_999);
}

#[test]
fn abs_diff_equal() {
    assert_eq!(abs_diff_u64(0, 0), 0);
    assert_eq!(abs_diff_u64(42, 42), 0);
    assert_eq!(abs_diff_u64(u64::MAX, u64::MAX), 0);
}

#[test]
fn abs_diff_extremes() {
    assert_eq!(abs_diff_u64(0, u64::MAX), u64::MAX);
    assert_eq!(abs_diff_u64(u64::MAX, 0), u64::MAX);
}

#[test]
fn abs_diff_commutative() {
    // abs_diff(a, b) == abs_diff(b, a) for all inputs
    let pairs: [(u64, u64); 5] = [
        (0, 1),
        (100, 200),
        (1_483_228_800, 1_600_000_000), // Unix timestamps near leap seconds
        (u64::MAX - 1, u64::MAX),
        (0, u64::MAX),
    ];
    for (a, b) in pairs {
        assert_eq!(abs_diff_u64(a, b), abs_diff_u64(b, a));
    }
}

#[test]
fn abs_diff_leap_second_timestamps() {
    // Real-world use case: distance from a leap second boundary
    let leap_2017 = 1_483_228_800u64; // 2017-01-01 leap second
    assert_eq!(abs_diff_u64(leap_2017, leap_2017 + 10), 10);
    assert_eq!(abs_diff_u64(leap_2017, leap_2017 - 10), 10);
    assert_eq!(abs_diff_u64(leap_2017 + 5, leap_2017 - 5), 10);
}
