#![allow(unused_imports)]

use irig106_time::{
    detect_version, AbsoluteTime, CalendarTime, Ch4BinaryTime, DateFormat, DayFormatTime,
    DmyFormatTime, Ertc, Ieee1588Time, IntraPacketTime, IntraPacketTimeFormat, Irig106Version,
    LeapSecondEntry, LeapSecondTable, NetworkTime, NetworkTimeProtocol, NtpTime, PtpTime,
    ReferencePoint, Rtc, RtcReset, SecHdrTimeFormat, SecondaryHeaderTime, TimeCorrelator,
    TimeError, TimeF1Csdw, TimeF2Csdw, TimeFormat, TimeJump, TimeSource, DEFAULT_TAI_UTC_OFFSET,
    NTP_UNIX_EPOCH_OFFSET,
};
use irig106_time::absolute::{
    NANOS_PER_DAY, NANOS_PER_HOUR, NANOS_PER_MINUTE, NANOS_PER_SECOND,
};
use irig106_time::correlation::DEFAULT_OOO_WINDOW_NS;
use irig106_time::intra_packet::parse_intra_packet_time;
use irig106_time::network_time::parse_time_f2_payload;
use irig106_time::packet_standard::PacketStandard;
use irig106_time::recording_event::{RecordingEvent, RecordingEventType};
use irig106_time::rtc::{MASK_48, NANOS_PER_TICK};
use irig106_time::secondary::{parse_secondary_header, validate_secondary_checksum};
use irig106_time::streaming::{StreamingRef, StreamingTimeCorrelator};
use irig106_time::util::{abs_diff_u64, days_in_month, is_leap_year, month_day_to_doy};


#[test]
fn event_type_started() {
    assert_eq!(RecordingEventType::from_index(0x01), RecordingEventType::Started);
}

#[test]
fn event_type_stopped() {
    assert_eq!(RecordingEventType::from_index(0x02), RecordingEventType::Stopped);
}

#[test]
fn event_type_overrun() {
    assert_eq!(RecordingEventType::from_index(0x03), RecordingEventType::Overrun);
}

#[test]
fn event_type_index_point() {
    assert_eq!(RecordingEventType::from_index(0x04), RecordingEventType::IndexPoint(0x04));
    assert_eq!(RecordingEventType::from_index(0x0F), RecordingEventType::IndexPoint(0x0F));
}

#[test]
fn event_type_reserved() {
    assert_eq!(RecordingEventType::from_index(0x10), RecordingEventType::Reserved(0x10));
    assert_eq!(RecordingEventType::from_index(0xFF), RecordingEventType::Reserved(0xFF));
}

#[test]
fn may_cause_time_gap() {
    assert!(!RecordingEventType::Started.may_cause_time_gap());
    assert!(RecordingEventType::Stopped.may_cause_time_gap());
    assert!(RecordingEventType::Overrun.may_cause_time_gap());
    assert!(!RecordingEventType::IndexPoint(4).may_cause_time_gap());
}

#[test]
fn recording_event_with_abs_time() {
    let abs = AbsoluteTime::new(100, 12, 0, 0, 0).unwrap();
    let event = RecordingEvent::new(0x01, 1, Rtc::from_raw(10_000_000), Some(abs));
    assert_eq!(event.event_type, RecordingEventType::Started);
    assert!(event.has_reference_time());
}

#[test]
fn recording_event_without_abs_time() {
    let event = RecordingEvent::new(0x04, 2, Rtc::from_raw(20_000_000), None);
    assert_eq!(event.event_type, RecordingEventType::IndexPoint(4));
    assert!(!event.has_reference_time());
}

#[test]
fn event_type_display() {
    assert_eq!(RecordingEventType::Started.to_string(), "Recording Started");
    assert_eq!(RecordingEventType::Overrun.to_string(), "Recording Overrun");
    assert_eq!(RecordingEventType::IndexPoint(5).to_string(), "Index Point 5");
    assert_eq!(RecordingEventType::Reserved(0x20).to_string(), "Reserved(0x20)");
}
