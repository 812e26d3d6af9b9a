#![allow(unused_imports)]

use irig106_time::{
    detect_version, AbsoluteTime, CalendarTime, Ch4BinaryTime, DateFormat, DayFormatTime,
    DmyFormatTime, Ertc, Ieee1588Time, IntraPacketTime, IntraPacketTimeFormat, Irig106Version,
    LeapSecondEntry, LeapSecondTable, NetworkTime, NetworkTimeProtocol, NtpTime, PtpTime,
    ReferencePoint, Rtc, RtcReset, SecHdrTimeFormat, SecondaryHeaderTime, TimeCorrelator,
    TimeError, TimeF1Csdw, TimeF2Csdw, TimeFormat, TimeJump, TimeSource, DEFAULT_TAI_UTC_OFFSET,
    NTP_UNIX_EPOCH_OFFSET,
};
use irig106_time::absolute::{
    NANOS_PER_DAY, NANOS_PER_HOUR, NANOS_PER_MINUTE, NANOS_PER_SECOND,
};
use irig106_time::correlation::DEFAULT_OOO_WINDOW_NS;
use irig106_time::intra_packet::parse_intra_packet_time;
use irig106_time::network_time::parse_time_f2_payload;
use irig106_time::packet_standard::PacketStandard;
use irig106_time::recording_event::{RecordingEvent, RecordingEventType};
use irig106_time::rtc::{MASK_48, NANOS_PER_TICK};
use irig106_time::secondary::{parse_secondary_header, validate_secondary_checksum};
use irig106_time::streaming::{StreamingRef, StreamingTimeCorrelator};
use irig106_time::util::{abs_diff_u64, days_in_month, is_leap_year, month_day_to_doy};


#[test]
fn zero_constant() {
    assert_eq!(Rtc::zero().as_raw(), 0);
}

#[test]
fn max_constant() {
    assert_eq!(Rtc::max_value().as_raw(), 0x0000_FFFF_FFFF_FFFF);
}

#[test]
fn from_le_bytes_all_zeros() {
    let rtc = Rtc::from_le_bytes([0, 0, 0, 0, 0, 0]);
    assert_eq!(rtc, Rtc::zero());
}

#[test]
fn from_le_bytes_known_value() {
    // 0x00_00_01_00_00_00 in LE = [0x00, 0x00, 0x00, 0x01, 0x00, 0x00]
    // = 0x0000_0001_0000_00 = 16_777_216
    let rtc = Rtc::from_le_bytes([0x00, 0x00, 0x00, 0x01, 0x00, 0x00]);
    assert_eq!(rtc.as_raw(), 0x0000_0001_0000_00);
}

#[test]
fn from_le_bytes_max() {
    let rtc = Rtc::from_le_bytes([0xFF, 0xFF, 0xFF, 0xFF, 0xFF, 0xFF]);
    assert_eq!(rtc, Rtc::max_value());
}

#[test]
fn from_raw_masks_upper_bits() {
    let rtc = Rtc::from_raw(0xFFFF_FFFF_FFFF_FFFF);
    assert_eq!(rtc.as_raw(), 0x0000_FFFF_FFFF_FFFF);
}

#[test]
fn from_raw_preserves_lower() {
    let rtc = Rtc::from_raw(12345);
    assert_eq!(rtc.as_raw(), 12345);
}

#[test]
fn as_raw_round_trip() {
    let val = 0x0000_ABCD_1234_5678;
    let rtc = Rtc::from_raw(val);
    assert_eq!(rtc.as_raw(), val);
}

#[test]
fn elapsed_ticks_simple() {
    let earlier = Rtc::from_raw(1_000_000);
    let later = Rtc::from_raw(2_000_000);
    assert_eq!(earlier.elapsed_ticks(later), 1_000_000);
}

#[test]
fn elapsed_ticks_wrap_around() {
    // Simulate 48-bit wrap: later has a smaller raw value due to counter overflow.
    let earlier = Rtc::from_raw(0x0000_FFFF_FFFF_FFF0); // Near MAX
    let later = Rtc::from_raw(0x0000_0000_0000_000F); // Wrapped around
    // Expected: 0x10 + 0x0F = 0x1F = 31 ticks
    assert_eq!(earlier.elapsed_ticks(later), 31);
}

#[test]
fn elapsed_ticks_same_value() {
    let rtc = Rtc::from_raw(42);
    assert_eq!(rtc.elapsed_ticks(rtc), 0);
}

#[test]
fn elapsed_nanos_simple() {
    let earlier = Rtc::from_raw(0);
    let later = Rtc::from_raw(10); // 10 ticks
    assert_eq!(earlier.elapsed_nanos(later), 1_000); // 10 * 100 ns
}

#[test]
fn to_nanos_zero() {
    assert_eq!(Rtc::zero().to_nanos(), 0);
}

#[test]
fn to_nanos_one_tick() {
    assert_eq!(Rtc::from_raw(1).to_nanos(), 100);
}

#[test]
fn to_nanos_one_second() {
    // 10 MHz = 10_000_000 ticks/sec → 10_000_000 * 100 ns = 1_000_000_000 ns = 1 sec
    let rtc = Rtc::from_raw(10_000_000);
    assert_eq!(rtc.to_nanos(), 1_000_000_000);
}

#[test]
fn ordering() {
    let a = Rtc::from_raw(100);
    let b = Rtc::from_raw(200);
    assert!(a < b);
    assert!(b > a);
    assert_eq!(a, Rtc::from_raw(100));
}

#[test]
fn debug_display() {
    let rtc = Rtc::from_raw(42);
    let dbg = format!("{:?}", rtc);
    assert!(dbg.contains("42"));
}


#[test]
fn clone_copy_eq() {
    let rtc = Rtc::from_raw(999);
    let cloned = rtc.clone();
    let copied = rtc; // Copy
    assert_eq!(rtc, cloned);
    assert_eq!(rtc, copied);
}
