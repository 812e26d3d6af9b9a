#![allow(unused_imports)]

use irig106_time::{
    detect_version, AbsoluteTime, CalendarTime, Ch4BinaryTime, DateFormat, DayFormatTime,
    DmyFormatTime, Ertc, Ieee1588Time, IntraPacketTime, IntraPacketTimeFormat, Irig106Version,
    LeapSecondEntry, LeapSecondTable, NetworkTime, NetworkTimeProtocol, NtpTime, PtpTime,
    ReferencePoint, Rtc, RtcReset, SecHdrTimeFormat, SecondaryHeaderTime, TimeCorrelator,
    TimeError, TimeF1Csdw, TimeF2Csdw, TimeFormat, TimeJump, TimeSource, DEFAULT_TAI_UTC_OFFSET,
    NTP_UNIX_EPOCH_OFFSET,
};
use irig106_time::absolute::{
    NANOS_PER_DAY, NANOS_PER_HOUR, NANOS_PER_MINUTE, NANOS_PER_SECOND,
};
use irig106_time::correlation::DEFAULT_OOO_WINDOW_NS;
use irig106_time::intra_packet::parse_intra_packet_time;
use irig106_time::network_time::parse_time_f2_payload;
use irig106_time::packet_standard::PacketStandard;
use irig106_time::recording_event::{RecordingEvent, RecordingEventType};
use irig106_time::rtc::{MASK_48, NANOS_PER_TICK};
use irig106_time::secondary::{parse_secondary_header, validate_secondary_checksum};
use irig106_time::streaming::{StreamingRef, StreamingTimeCorrelator};
use irig106_time::util::{abs_diff_u64, days_in_month, is_leap_year, month_day_to_doy};


#[test]
fn pre17_is_ch10() {
    assert_eq!(PacketStandard::from_version(&Irig106Version::Pre07), PacketStandard::Ch10);
    assert_eq!(PacketStandard::from_version(&Irig106Version::V07), PacketStandard::Ch10);
    assert_eq!(PacketStandard::from_version(&Irig106Version::V09), PacketStandard::Ch10);
    assert_eq!(PacketStandard::from_version(&Irig106Version::V15), PacketStandard::Ch10);
}

#[test]
fn v17_and_later_is_ch11() {
    assert_eq!(PacketStandard::from_version(&Irig106Version::V17), PacketStandard::Ch11);
    assert_eq!(PacketStandard::from_version(&Irig106Version::V19), PacketStandard::Ch11);
    assert_eq!(PacketStandard::from_version(&Irig106Version::V22), PacketStandard::Ch11);
    assert_eq!(PacketStandard::from_version(&Irig106Version::V23), PacketStandard::Ch11);
}

#[test]
fn unknown_defaults_to_ch11() {
    assert_eq!(
        PacketStandard::from_version(&Irig106Version::Unknown(0xFF)),
        PacketStandard::Ch11
    );
}

#[test]
fn is_ch10_and_is_ch11() {
    assert!(PacketStandard::Ch10.is_ch10());
    assert!(!PacketStandard::Ch10.is_ch11());
    assert!(PacketStandard::Ch11.is_ch11());
    assert!(!PacketStandard::Ch11.is_ch10());
}

#[test]
fn display_formatting() {
    assert_eq!(PacketStandard::Ch10.to_string(), "Chapter 10");
    assert_eq!(PacketStandard::Ch11.to_string(), "Chapter 11");
}
