#![allow(unused_imports)]

use irig106_time::{
    detect_version, AbsoluteTime, CalendarTime, Ch4BinaryTime, DateFormat, DayFormatTime,
    DmyFormatTime, Ertc, Ieee1588Time, IntraPacketTime, IntraPacketTimeFormat, Irig106Version,
    LeapSecondEntry, LeapSecondTable, NetworkTime, NetworkTimeProtocol, NtpTime, PtpTime,
    ReferencePoint, Rtc, RtcReset, SecHdrTimeFormat, SecondaryHeaderTime, TimeCorrelator,
    TimeError, TimeF1Csdw, TimeF2Csdw, TimeFormat, TimeJump, TimeSource, DEFAULT_TAI_UTC_OFFSET,
    NTP_UNIX_EPOCH_OFFSET,
};
use irig106_time::absolute::{
    NANOS_PER_DAY, NANOS_PER_HOUR, NANOS_PER_MINUTE, NANOS_PER_SECOND,
};
use irig106_time::correlation::DEFAULT_OOO_WINDOW_NS;
use irig106_time::intra_packet::parse_intra_packet_time;
use irig106_time::network_time::parse_time_f2_payload;
use irig106_time::packet_standard::PacketStandard;
use irig106_time::recording_event::{RecordingEvent, RecordingEventType};
use irig106_time::rtc::{MASK_48, NANOS_PER_TICK};
use irig106_time::secondary::{parse_secondary_header, validate_secondary_checksum};
use irig106_time::streaming::{StreamingRef, StreamingTimeCorrelator};
use irig106_time::util::{abs_diff_u64, days_in_month, is_leap_year, month_day_to_doy};


#[test]
fn version_tests_detect_version_pre07() {
    assert_eq!(detect_version(0x0000_0000), Irig106Version::Pre07);
}

#[test]
fn version_tests_detect_version_v07() {
    assert_eq!(detect_version(0x0000_0007), Irig106Version::V07);
}

#[test]
fn version_tests_detect_version_v22() {
    assert_eq!(detect_version(0x0000_000E), Irig106Version::V22);
}

#[test]
fn version_tests_detect_version_v23() {
    assert_eq!(detect_version(0x0000_000F), Irig106Version::V23);
}

#[test]
fn version_tests_detect_version_unknown() {
    assert_eq!(detect_version(0x0000_00FF), Irig106Version::Unknown(0xFF));
}

#[test]
fn version_tests_detect_version_ignores_upper_bits() {
    // Upper bits are TMATS config fields, not version
    assert_eq!(detect_version(0xFFFF_FF0E), Irig106Version::V22);
}

#[test]
fn version_tests_pre07_has_no_ordering_guarantee() {
    assert!(Irig106Version::Pre07.is_pre_ordering_guarantee());
    assert!(!Irig106Version::V07.is_pre_ordering_guarantee());
}

#[test]
fn version_tests_format_2_support() {
    assert!(!Irig106Version::Pre07.supports_format_2());
    assert!(!Irig106Version::V17.supports_format_2());
    assert!(Irig106Version::V22.supports_format_2());
    assert!(Irig106Version::V23.supports_format_2());
}

#[test]
fn version_tests_gps_time_source_mapping() {
    // Pre07 cannot distinguish 04 from 05, so GPS mapping is ambiguous
    assert!(!Irig106Version::Pre07.has_gps_time_source());
    assert!(Irig106Version::V07.has_gps_time_source());
    assert!(Irig106Version::V22.has_gps_time_source());
}

#[test]
fn version_tests_version_ordering() {
    assert!(Irig106Version::Pre07 < Irig106Version::V07);
    assert!(Irig106Version::V07 < Irig106Version::V22);
    assert!(Irig106Version::V22 < Irig106Version::V23);
}
