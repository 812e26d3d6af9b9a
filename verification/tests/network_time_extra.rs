use irig106_time::network_time::{
    parse_time_f2_payload, LeapSecondEntry, LeapSecondTable, NetworkTime, NtpTime, PtpTime,
    TimeF2Csdw,
};
use irig106_time::TimeError;

#[test]
fn ntp_last_day_of_leap_year_is_day_366() {
    // 2024-12-31 00:00:00 UTC = Unix 1_735_603_200.
    let ntp = NtpTime { seconds: 3_944_592_000, fraction: 0 };
    let abs = ntp.to_absolute().unwrap();
    assert_eq!(abs.year, Some(2024));
    assert_eq!(abs.day_of_year, 366);
}

#[test]
fn ntp_before_unix_epoch_is_out_of_range() {
    let ntp = NtpTime { seconds: 5, fraction: 0 };
    assert_eq!(
        ntp.to_absolute(),
        Err(TimeError::OutOfRange { field: "ntp_seconds", value: 5, max: u32::MAX })
    );
}

#[test]
fn ntp_fraction_exact_values() {
    assert_eq!(NtpTime { seconds: 0, fraction: 0 }.fraction_as_nanos(), 0);
    assert_eq!(NtpTime { seconds: 0, fraction: 1 << 31 }.fraction_as_nanos(), 500_000_000);
    assert_eq!(NtpTime { seconds: 0, fraction: u32::MAX }.fraction_as_nanos(), 999_999_999);
    assert_eq!(
        NtpTime { seconds: 2, fraction: 1 << 30 }.to_nanos_since_ntp_epoch(),
        2_250_000_000
    );
}

#[test]
fn ntp_bytes_encode_then_decode() {
    let t = NtpTime { seconds: 0x0403_0201, fraction: 0x0807_0605 };
    let b = t.to_le_bytes();
    assert_eq!(b, [1, 2, 3, 4, 5, 6, 7, 8]);
    assert_eq!(NtpTime::from_le_bytes(&b).unwrap(), t);
}

#[test]
fn ptp_bytes_encode_then_decode() {
    let t = PtpTime { seconds: 0x0000_0605_0403_0201, nanoseconds: 999_999_999 };
    let b = t.to_le_bytes();
    assert_eq!(&b[0..6], &[1, 2, 3, 4, 5, 6]);
    assert_eq!(PtpTime::from_le_bytes(&b).unwrap(), t);
}

#[test]
fn ptp_utc_seconds_saturate_and_accept_negative_offsets() {
    assert_eq!(PtpTime { seconds: 10, nanoseconds: 0 }.to_utc_seconds(37), 0);
    assert_eq!(PtpTime { seconds: 100, nanoseconds: 0 }.to_utc_seconds(-5), 105);
    assert_eq!(PtpTime { seconds: u64::MAX, nanoseconds: 0 }.to_utc_seconds(-1), u64::MAX);
    assert_eq!(
        PtpTime { seconds: 7, nanoseconds: 5 }.to_nanos_since_tai_epoch(),
        7_000_000_005
    );
}

#[test]
fn ptp_far_future_rejected_without_panic() {
    // The year walk stops at 65535; the day count left over is not a valid day of year.
    let ptp = PtpTime { seconds: 0xFFFF_FFFF_FFFF, nanoseconds: 0 };
    assert_eq!(
        ptp.to_absolute(37),
        Err(TimeError::OutOfRange { field: "day_of_year", value: 776, max: 366 })
    );
}

#[test]
fn f2_payload_errors() {
    assert_eq!(
        parse_time_f2_payload(&[0u8; 3]),
        Err(TimeError::BufferTooShort { expected: 4, actual: 3 })
    );
    // Reserved protocol value 7.
    assert_eq!(
        parse_time_f2_payload(&[7, 0, 0, 0, 0, 0, 0, 0, 0, 0, 0, 0]),
        Err(TimeError::OutOfRange { field: "network_time_protocol", value: 7, max: 1 })
    );
    // NTP protocol with only 4 bytes of time data.
    assert_eq!(
        parse_time_f2_payload(&[0, 0, 0, 0, 1, 2, 3, 4]),
        Err(TimeError::BufferTooShort { expected: 8, actual: 4 })
    );
    // PTP nanoseconds out of range.
    let mut p = [0u8; 14];
    p[0] = 1;
    p[10..14].copy_from_slice(&1_000_000_000u32.to_le_bytes());
    assert_eq!(
        parse_time_f2_payload(&p),
        Err(TimeError::OutOfRange { field: "ptp_nanoseconds", value: 1_000_000_000, max: 999_999_999 })
    );
    let (csdw, t) = parse_time_f2_payload(&[1, 0, 0, 0, 5, 0, 0, 0, 0, 0, 9, 0, 0, 0]).unwrap();
    assert_eq!(csdw.as_raw(), 1);
    assert_eq!(t, NetworkTime::Ptp(PtpTime { seconds: 5, nanoseconds: 9 }));
}

#[test]
fn f2_csdw_reserved_bits_error_value() {
    assert_eq!(
        TimeF2Csdw::from_raw(0x20).validate_reserved(),
        Err(TimeError::ReservedBitSet { position: "f2_csdw bits[31:4]" })
    );
    assert_eq!(TimeF2Csdw::from_raw(0x0F).validate_reserved(), Ok(()));
}

#[test]
fn leap_table_lookup_after_add_gives_added_offset() {
    let mut table = LeapSecondTable::empty();
    assert_eq!(table.offset_at_unix(0), 37);
    table.add(LeapSecondEntry { effective_unix: 100, tai_utc_offset: 5 });
    table.add(LeapSecondEntry { effective_unix: 100, tai_utc_offset: 7 });
    table.add(LeapSecondEntry { effective_unix: 50, tai_utc_offset: 3 });
    assert_eq!(table.len(), 3);
    assert_eq!(table.offset_at_unix(100), 7);
    assert_eq!(table.offset_at_unix(10), 3);
    assert_eq!(table.offset_at_unix(75), 3);
    assert_eq!(table.offset_at_unix(150), 5);
}

#[test]
fn leap_table_builtin_boundaries() {
    let table = LeapSecondTable::builtin();
    assert_eq!(table.len(), 28);
    assert!(!table.is_empty());
    assert_eq!(table.offset_at_unix(0), 10);
    assert_eq!(table.offset_at_unix(1_483_228_799), 36);
    assert_eq!(table.offset_at_unix(1_483_228_800), 37);
    assert_eq!(table.offset_at_tai(1_483_228_836), 36);
    assert_eq!(table.offset_at_tai(1_483_228_837), 37);
    assert_eq!(LeapSecondTable::default().len(), 28);
}

#[test]
fn leap_offset_for_format_1_days() {
    let table = LeapSecondTable::builtin();
    // 1980 day 100 starts at Unix 324_086_400.
    assert_eq!(table.offset_for_f1(1980, 100), 19);
    // Years before 1970 look up Unix time 0.
    assert_eq!(table.offset_for_f1(1960, 1), 10);
    assert_eq!(table.offset_for_f1(2016, 366), 36);
}

#[test]
fn ptp_year_beyond_9999_is_out_of_range() {
    let last = PtpTime { seconds: 253_402_300_799 + 37, nanoseconds: 0 };
    let t = last.to_absolute(37).unwrap();
    assert_eq!(t.year(), Some(9999));
    assert_eq!((t.day_of_year(), t.hours(), t.minutes(), t.seconds()), (365, 23, 59, 59));
    let next = PtpTime { seconds: 253_402_300_800 + 37, nanoseconds: 0 };
    assert_eq!(
        next.to_absolute(37),
        Err(TimeError::OutOfRange { field: "year", value: 10000, max: 9999 })
    );
}

#[test]
fn leap_table_offsets_everywhere_after_add() {
    let mut table = LeapSecondTable::empty();
    table.add(LeapSecondEntry { effective_unix: 1_000, tai_utc_offset: 10 });
    table.add(LeapSecondEntry { effective_unix: 3_000, tai_utc_offset: 30 });
    assert_eq!(table.offset_at_unix(100), 10);
    table.add(LeapSecondEntry { effective_unix: 2_000, tai_utc_offset: 20 });
    assert_eq!(table.offset_at_unix(1_999), 10);
    assert_eq!(table.offset_at_unix(2_000), 20);
    assert_eq!(table.offset_at_unix(2_999), 20);
    assert_eq!(table.offset_at_unix(3_000), 30);
    // A new first entry also governs the times before it.
    table.add(LeapSecondEntry { effective_unix: 500, tai_utc_offset: 5 });
    assert_eq!(table.offset_at_unix(100), 5);
    assert_eq!(table.offset_at_unix(1_000), 10);
}
