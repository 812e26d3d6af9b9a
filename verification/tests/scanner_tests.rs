use irig106_time::csdw::{DateFormat, TimeFormat, TimeSource};
use irig106_time::scanner::{
    f2_packets_fit, find_next_sync, fmt_abs_time, fmt_comma, fmt_data_type_short,
    fmt_time_format, fmt_time_source, walk_step, Ch10TimeScanner, PktHeader, WalkStep,
};
use irig106_time::{AbsoluteTime, Rtc};

/// A primary header with a valid checksum.
fn header(ch: u16, len: u32, flags: u8, dt: u8, rtc: u64) -> Vec<u8> {
    let mut h = vec![0u8; 24];
    h[0..2].copy_from_slice(&0xEB25u16.to_le_bytes());
    h[2..4].copy_from_slice(&ch.to_le_bytes());
    h[4..8].copy_from_slice(&len.to_le_bytes());
    h[8..12].copy_from_slice(&(len - 24).to_le_bytes());
    h[14] = flags;
    h[15] = dt;
    h[16..22].copy_from_slice(&rtc.to_le_bytes()[0..6]);
    let mut sum: u32 = 0;
    for j in 0..11 {
        sum += u16::from_le_bytes([h[2 * j], h[2 * j + 1]]) as u32;
    }
    h[22..24].copy_from_slice(&((sum & 0xFFFF) as u16).to_le_bytes());
    h
}

/// A Format 1 time packet: day 100, 12:30:25.340 (day-of-year BCD).
fn f1_packet(ch: u16, rtc: u64) -> Vec<u8> {
    let mut p = header(ch, 36, 0, 0x11, rtc);
    p.extend_from_slice(&0u32.to_le_bytes());
    for w in [0x2534u16, 0x1230, 0x0100, 0x0000] {
        p.extend_from_slice(&w.to_le_bytes());
    }
    p
}

/// A Format 2 time packet with PTP time 2025-01-01 00:00:00 UTC (TAI = UTC + 37 s).
fn f2_ptp_packet(ch: u16, rtc: u64) -> Vec<u8> {
    let mut p = header(ch, 38, 0, 0x12, rtc);
    p.extend_from_slice(&1u32.to_le_bytes());
    p.extend_from_slice(&1_735_689_637u64.to_le_bytes()[0..6]);
    p.extend_from_slice(&0u32.to_le_bytes());
    p
}

#[test]
fn header_parse_and_offsets() {
    let h = header(3, 40, 0x04, 0x09, 0x0102_0304_0506);
    let p = PktHeader::parse(&h).unwrap();
    assert_eq!(p.channel_id, 3);
    assert_eq!(p.packet_length, 40);
    assert_eq!(p.data_length, 16);
    assert_eq!(p.data_type, 0x09);
    assert_eq!(p.rtc, Rtc::from_raw(0x0102_0304_0506));
    assert!(p.has_secondary_header());
    assert_eq!(p.data_offset(), 36);
    assert!(PktHeader::parse(&h[0..23]).is_none());
    let mut bad = h.clone();
    bad[0] = 0;
    assert!(PktHeader::parse(&bad).is_none());
}

#[test]
fn sync_search_checks_header_checksum() {
    let mut buf = vec![0xEBu8, 0x25, 0x25, 0xEB, 0x00];
    buf.extend_from_slice(&header(1, 24, 0, 0x09, 0));
    buf.extend_from_slice(&[0u8; 24]);
    // The pattern at offset 2 has no valid checksum; the header at offset 5 does.
    assert_eq!(find_next_sync(&buf, 0), Some(5));
    assert_eq!(find_next_sync(&buf, 6), None);
    assert_eq!(walk_step(&buf, 0).0, WalkStep::Resync(5));
    assert_eq!(walk_step(&buf, 5).0, WalkStep::Packet(24));
}

#[test]
fn scan_time_and_data_packets() {
    let mut buf = f1_packet(1, 10_000_000);
    buf.extend_from_slice(&header(7, 28, 0, 0x09, 15_000_000));
    buf.extend_from_slice(&[0u8; 4]);
    let mut s = Ch10TimeScanner::new();
    assert!(f2_packets_fit(&buf, None));
    s.scan(&buf, true, None);
    assert_eq!(s.total_packets(), 2);
    assert_eq!(s.time_packets(), 1);
    assert_eq!(s.correlator().len(), 1);
    assert_eq!(s.first_rtc(), Some(Rtc::from_raw(10_000_000)));
    assert_eq!(s.last_rtc(), Some(Rtc::from_raw(15_000_000)));
    assert_eq!(s.data_type_counts().get(&0x11), Some(&1));
    assert_eq!(s.data_type_counts().get(&0x09), Some(&1));
    assert!(s.errors().is_empty());
    let info = s.time_channels().get(&1).unwrap();
    assert_eq!(info.packet_count, 1);
    assert_eq!(info.source, Some(TimeSource::Internal));
    assert_eq!(info.format, Some(TimeFormat::IrigB));
    assert_eq!(info.date_format, Some(DateFormat::DayOfYear));
    assert_eq!(info.is_leap_year, Some(false));
    let t = info.first_time.unwrap();
    assert_eq!(fmt_abs_time(&t), "Day 100 12:30:25.340.000");
    let resolved = s.resolved();
    assert_eq!(resolved.len(), 2);
    assert_eq!(resolved[1].packet_num, 1);
    assert_eq!(resolved[1].offset, 36);
    assert_eq!(resolved[1].channel_id, 7);
    let r = resolved[1].abs_time.unwrap();
    assert_eq!((r.hours, r.minutes, r.seconds, r.nanoseconds), (12, 30, 25, 840_000_000));
}

#[test]
fn scan_reports_lost_sync_and_bad_bcd() {
    let mut buf = vec![0u8; 5];
    let mut bad = f1_packet(2, 100);
    bad[28] = 0x0A; // tens of milliseconds nibble above 9
    buf.extend_from_slice(&bad);
    let mut s = Ch10TimeScanner::new();
    s.scan(&buf, false, None);
    assert_eq!(s.total_packets(), 1);
    assert_eq!(s.correlator().len(), 0);
    assert_eq!(
        s.errors().to_vec(),
        vec![
            "Sync lost at 0x0, recovered at 0x5 (5 bytes skipped)".to_string(),
            "Time packet ch=2: DOY BCD error: invalid BCD digit 10 at tens_of_ms".to_string(),
        ]
    );
}

#[test]
fn scan_stops_at_limit_and_truncation() {
    let mut buf = f1_packet(1, 0);
    buf.extend_from_slice(&f1_packet(1, 10_000_000));
    buf.extend_from_slice(&header(1, 100, 0, 0x09, 0));
    let mut s = Ch10TimeScanner::new();
    s.scan(&buf, true, Some(1));
    assert_eq!(s.total_packets(), 1);
    let mut s = Ch10TimeScanner::new();
    s.scan(&buf, false, None);
    // The third packet claims more bytes than remain.
    assert_eq!(s.total_packets(), 2);
    assert_eq!(s.time_channels().get(&1).unwrap().packet_count, 2);
}

#[test]
fn scan_format_2_packet() {
    let buf = f2_ptp_packet(8, 5_000);
    let mut s = Ch10TimeScanner::new();
    s.scan(&buf, false, None);
    assert!(s.errors().is_empty());
    let info = s.time_channels().get(&8).unwrap();
    assert_eq!(info.source, Some(TimeSource::External));
    assert_eq!(info.format, Some(TimeFormat::Gps));
    let t = info.last_time.unwrap();
    assert_eq!(t.year, Some(2025));
    assert_eq!(t.day_of_year, 1);
    assert_eq!(t.hours, 0);
}

#[test]
fn format_2_packet_shorter_than_secondary_header_is_flagged() {
    let buf = header(8, 30, 0x04, 0x12, 0);
    let mut buf = buf;
    buf.extend_from_slice(&[0u8; 6]);
    assert!(!f2_packets_fit(&buf, None));
}

#[test]
fn report_text() {
    assert_eq!(fmt_comma(0), "0");
    assert_eq!(fmt_comma(999), "999");
    assert_eq!(fmt_comma(1000), "1,000");
    assert_eq!(fmt_comma(1_234_567), "1,234,567");
    assert_eq!(fmt_data_type_short(0x11), "Time-F1");
    assert_eq!(fmt_data_type_short(0x77), "Other");
    assert_eq!(fmt_time_source(&TimeSource::InternalRtc), "Internal RTC");
    assert_eq!(fmt_time_format(&TimeFormat::IrigG), "IRIG-G");
    let mut t = AbsoluteTime::new(60, 1, 2, 3, 4_005_006).unwrap();
    t.year = Some(2024);
    t.month = Some(2);
    t.day_of_month = Some(29);
    assert_eq!(fmt_abs_time(&t), "2024-02-29 01:02:03.004.005");
}
