#![allow(unused_imports)]

use irig106_time::{
    detect_version, AbsoluteTime, CalendarTime, Ch4BinaryTime, DateFormat, DayFormatTime,
    DmyFormatTime, Ertc, Ieee1588Time, IntraPacketTime, IntraPacketTimeFormat, Irig106Version,
    LeapSecondEntry, LeapSecondTable, NetworkTime, NetworkTimeProtocol, NtpTime, PtpTime,
    ReferencePoint, Rtc, RtcReset, SecHdrTimeFormat, SecondaryHeaderTime, TimeCorrelator,
    TimeError, TimeF1Csdw, TimeF2Csdw, TimeFormat, TimeJump, TimeSource, DEFAULT_TAI_UTC_OFFSET,
    NTP_UNIX_EPOCH_OFFSET,
};
use irig106_time::absolute::{
    NANOS_PER_DAY, NANOS_PER_HOUR, NANOS_PER_MINUTE, NANOS_PER_SECOND,
};
use irig106_time::correlation::DEFAULT_OOO_WINDOW_NS;
use irig106_time::intra_packet::parse_intra_packet_time;
use irig106_time::network_time::parse_time_f2_payload;
use irig106_time::packet_standard::PacketStandard;
use irig106_time::recording_event::{RecordingEvent, RecordingEventType};
use irig106_time::rtc::{MASK_48, NANOS_PER_TICK};
use irig106_time::secondary::{parse_secondary_header, validate_secondary_checksum};
use irig106_time::streaming::{StreamingRef, StreamingTimeCorrelator};
use irig106_time::util::{abs_diff_u64, days_in_month, is_leap_year, month_day_to_doy};


#[test]
fn time_source_internal() {
    let csdw = TimeF1Csdw::from_raw(0x00);
    assert_eq!(csdw.time_source(), TimeSource::Internal);
}

#[test]
fn time_source_external() {
    let csdw = TimeF1Csdw::from_raw(0x01);
    assert_eq!(csdw.time_source(), TimeSource::External);
}

#[test]
fn time_source_gps() {
    let csdw = TimeF1Csdw::from_raw(0x03);
    assert_eq!(csdw.time_source(), TimeSource::Gps);
}

#[test]
fn time_source_none() {
    let csdw = TimeF1Csdw::from_raw(0x0F);
    assert_eq!(csdw.time_source(), TimeSource::NoSource);
}

#[test]
fn time_source_reserved() {
    let csdw = TimeF1Csdw::from_raw(0x07);
    assert_eq!(csdw.time_source(), TimeSource::Reserved(7));
}

#[test]
fn time_format_irig_b() {
    let csdw = TimeF1Csdw::from_raw(0x00); // bits [7:4] = 0
    assert_eq!(csdw.time_format(), TimeFormat::IrigB);
}

#[test]
fn time_format_gps() {
    let csdw = TimeF1Csdw::from_raw(0x50); // bits [7:4] = 5
    assert_eq!(csdw.time_format(), TimeFormat::Gps);
}

#[test]
fn time_format_reserved() {
    let csdw = TimeF1Csdw::from_raw(0x90); // bits [7:4] = 9
    assert_eq!(csdw.time_format(), TimeFormat::Reserved(9));
}

#[test]
fn leap_year_set() {
    let csdw = TimeF1Csdw::from_raw(1 << 8);
    assert!(csdw.is_leap_year());
}

#[test]
fn leap_year_clear() {
    let csdw = TimeF1Csdw::from_raw(0);
    assert!(!csdw.is_leap_year());
}

#[test]
fn date_format_doy() {
    let csdw = TimeF1Csdw::from_raw(0);
    assert_eq!(csdw.date_format(), DateFormat::DayOfYear);
}

#[test]
fn date_format_dmy() {
    let csdw = TimeF1Csdw::from_raw(1 << 9);
    assert_eq!(csdw.date_format(), DateFormat::DayMonthYear);
}

#[test]
fn from_le_bytes_round_trip() {
    let raw: u32 = 0x0000_0351; // Source=1(External), Format=5(GPS), Leap=1, DateFmt=1(DMY)
    let bytes = raw.to_le_bytes();
    let csdw = TimeF1Csdw::from_le_bytes(bytes);
    assert_eq!(csdw.as_raw(), raw);
}

#[test]
fn combined_fields() {
    // Build: Source=3(GPS), Format=0(IrigB), LeapYear=1, DateFormat=0(DOY)
    // Bits: [3:0]=0b0011, [7:4]=0b0000, [8]=1, [9]=0
    // = 0b0_1_0000_0011 = 0x103
    let csdw = TimeF1Csdw::from_raw(0x103);
    assert_eq!(csdw.time_source(), TimeSource::Gps);
    assert_eq!(csdw.time_format(), TimeFormat::IrigB);
    assert!(csdw.is_leap_year());
    assert_eq!(csdw.date_format(), DateFormat::DayOfYear);
}
