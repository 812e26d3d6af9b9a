#![allow(unused_imports)]

use irig106_time::{
    detect_version, AbsoluteTime, CalendarTime, Ch4BinaryTime, DateFormat, DayFormatTime,
    DmyFormatTime, Ertc, Ieee1588Time, IntraPacketTime, IntraPacketTimeFormat, Irig106Version,
    LeapSecondEntry, LeapSecondTable, NetworkTime, NetworkTimeProtocol, NtpTime, PtpTime,
    ReferencePoint, Rtc, RtcReset, SecHdrTimeFormat, SecondaryHeaderTime, TimeCorrelator,
    TimeError, TimeF1Csdw, TimeF2Csdw, TimeFormat, TimeJump, TimeSource, DEFAULT_TAI_UTC_OFFSET,
    NTP_UNIX_EPOCH_OFFSET,
};
use irig106_time::absolute::{
    NANOS_PER_DAY, NANOS_PER_HOUR, NANOS_PER_MINUTE, NANOS_PER_SECOND,
};
use irig106_time::correlation::DEFAULT_OOO_WINDOW_NS;
use irig106_time::intra_packet::parse_intra_packet_time;
use irig106_time::network_time::parse_time_f2_payload;
use irig106_time::packet_standard::PacketStandard;
use irig106_time::recording_event::{RecordingEvent, RecordingEventType};
use irig106_time::rtc::{MASK_48, NANOS_PER_TICK};
use irig106_time::secondary::{parse_secondary_header, validate_secondary_checksum};
use irig106_time::streaming::{StreamingRef, StreamingTimeCorrelator};
use irig106_time::util::{abs_diff_u64, days_in_month, is_leap_year, month_day_to_doy};



#[test]
fn display_invalid_bcd_digit() {
    let err = TimeError::InvalidBcdDigit {
        nibble: 0xA,
        position: "tens of seconds",
    };
    let msg = err.to_string();
    assert!(msg.contains("10"));
    assert!(msg.contains("tens of seconds"));
}

#[test]
fn display_reserved_bit_set() {
    let err = TimeError::ReservedBitSet {
        position: "word 0 bit 15",
    };
    let msg = err.to_string();
    assert!(msg.contains("reserved bit set"));
    assert!(msg.contains("word 0 bit 15"));
}

#[test]
fn display_out_of_range() {
    let err = TimeError::OutOfRange {
        field: "hours",
        value: 25,
        max: 23,
    };
    let msg = err.to_string();
    assert!(msg.contains("hours"));
    assert!(msg.contains("25"));
    assert!(msg.contains("23"));
}

#[test]
fn display_checksum_mismatch() {
    let err = TimeError::ChecksumMismatch {
        stored: 0x1234,
        computed: 0x5678,
    };
    let msg = err.to_string();
    assert!(msg.contains("1234"));
    assert!(msg.contains("5678"));
}

#[test]
fn display_no_reference_point() {
    let err = TimeError::NoReferencePoint;
    let msg = err.to_string();
    assert!(msg.contains("no time reference point"));
}

#[test]
fn display_buffer_too_short() {
    let err = TimeError::BufferTooShort {
        expected: 12,
        actual: 8,
    };
    let msg = err.to_string();
    assert!(msg.contains("12"));
    assert!(msg.contains("8"));
}

#[test]
fn error_is_clone_eq() {
    let err = TimeError::NoReferencePoint;
    let cloned = err.clone();
    assert_eq!(err, cloned);
}
