use irig106_time::network_time::{LeapSecondTable, NetworkTime, NtpTime};
use irig106_time::streaming::StreamingTimeCorrelator;
use irig106_time::{AbsoluteTime, Rtc, TimeError};

#[test]
fn streaming_tie_goes_to_lower_channel() {
    let mut sc = StreamingTimeCorrelator::new(60_000_000_000);
    sc.add_reference(5, Rtc::from_raw(100), AbsoluteTime::new(1, 12, 0, 0, 0).unwrap());
    sc.add_reference(3, Rtc::from_raw(300), AbsoluteTime::new(1, 13, 0, 0, 0).unwrap());
    let r = sc.correlate(Rtc::from_raw(200), None).unwrap();
    assert_eq!((r.hours, r.minutes, r.seconds, r.nanoseconds), (12, 59, 59, 999_990_000));
}

#[test]
fn streaming_window_keeps_only_recent_points() {
    let mut sc = StreamingTimeCorrelator::new(1_000); // 10 ticks
    sc.add_reference(1, Rtc::from_raw(100), AbsoluteTime::new(1, 0, 0, 0, 0).unwrap());
    sc.add_reference(2, Rtc::from_raw(105), AbsoluteTime::new(1, 0, 0, 0, 0).unwrap());
    assert_eq!(sc.len(), 2);
    // Latest RTC 111: cutoff 101, so the point at 100 goes and the one at 105 stays.
    sc.add_reference(2, Rtc::from_raw(111), AbsoluteTime::new(1, 0, 0, 1, 0).unwrap());
    assert_eq!(sc.len(), 2);
    assert_eq!(sc.total_evicted(), 1);
    assert_eq!(sc.channel_len(1), 0);
    assert_eq!(sc.channel_ids(), vec![2]);
    assert_eq!(sc.max_age_ns(), 1_000);
    // An insert older than the window is evicted at once.
    sc.add_reference(3, Rtc::from_raw(50), AbsoluteTime::new(1, 0, 0, 0, 0).unwrap());
    assert_eq!(sc.channel_len(3), 0);
    assert_eq!(sc.total_evicted(), 2);
    assert!(sc.correlate(Rtc::from_raw(50), Some(3)).is_err());
    assert_eq!(sc.latest_rtc(), Some(Rtc::from_raw(111)));
}

#[test]
fn streaming_f2_reference() {
    let mut sc = StreamingTimeCorrelator::new(60_000_000_000);
    let table = LeapSecondTable::builtin();
    let t = NetworkTime::Ntp(NtpTime { seconds: 3_944_678_400, fraction: 0 });
    sc.add_reference_f2(1, Rtc::from_raw(1_000), &t, &table).unwrap();
    let r = sc.correlate(Rtc::from_raw(1_000), Some(1)).unwrap();
    assert_eq!(r.year, Some(2025));
    assert_eq!(r.day_of_year, 1);
    let bad = NetworkTime::Ntp(NtpTime { seconds: 1, fraction: 0 });
    assert_eq!(
        sc.add_reference_f2(1, Rtc::from_raw(2_000), &bad, &table),
        Err(TimeError::OutOfRange { field: "ntp_seconds", value: 1, max: u32::MAX })
    );
    assert_eq!(sc.len(), 1);
    assert!(!sc.is_empty());
}

#[test]
fn streaming_correlate_after_add_gives_back_time() {
    let mut sc = StreamingTimeCorrelator::new(1_000_000_000);
    let t1 = AbsoluteTime::new(50, 1, 2, 3, 400).unwrap();
    let t2 = AbsoluteTime::new(50, 1, 2, 4, 500).unwrap();
    // Out of order, inside the window: both come back exactly.
    sc.add_reference(2, Rtc::from_raw(50_000_000), t2);
    sc.add_reference(2, Rtc::from_raw(45_000_000), t1);
    assert_eq!(sc.correlate(Rtc::from_raw(45_000_000), Some(2)), Ok(t1));
    assert_eq!(sc.correlate(Rtc::from_raw(50_000_000), Some(2)), Ok(t2));
    // Behind the window's cutoff: evicted on arrival.
    sc.add_reference(2, Rtc::from_raw(1_000_000), t1);
    assert_eq!(sc.len(), 2);
}

#[test]
fn streaming_insertions_are_counted_and_latest_is_max() {
    let mut sc = StreamingTimeCorrelator::new(1_000_000_000);
    let t = AbsoluteTime::new(10, 0, 0, 0, 0).unwrap();
    let rtcs = [5_000_000u64, 90_000_000, 20_000_000, 95_000_000, 1_000];
    for (i, r) in rtcs.iter().enumerate() {
        sc.add_reference((i % 2) as u16, Rtc::from_raw(*r), t);
        assert_eq!(sc.len() + sc.total_evicted(), i + 1);
    }
    assert_eq!(sc.latest_rtc(), Some(Rtc::from_raw(95_000_000)));
    // Cutoff 85_000_000: only the two recent points remain.
    assert_eq!(sc.len(), 2);
}
