use irig106_time::correlation::ReferencePoint;
use irig106_time::quality::{quality_counts, QualityCounts};
use irig106_time::{AbsoluteTime, Rtc};

fn make_ref(ch: u16, rtc_raw: u64, doy: u16, h: u8, m: u8, s: u8) -> ReferencePoint {
    ReferencePoint {
        channel_id: ch,
        rtc: Rtc::from_raw(rtc_raw),
        time: AbsoluteTime::new(doy, h, m, s, 0).unwrap(),
    }
}

/// Reference points per second over the RTC span.
fn ref_density_per_sec(q: &QualityCounts) -> Option<f64> {
    match q.rtc_span_ns {
        Some(span) if span > 0 => Some(q.total_refs as f64 / (span as f64 / 1_000_000_000.0)),
        _ => None,
    }
}

/// Mean drift in parts per million of each channel with drift samples.
fn drift_ppm_per_channel(q: &QualityCounts) -> Vec<(u16, f64)> {
    let mut out = Vec::new();
    for (ch, samples) in &q.drift_samples_per_channel {
        if samples.is_empty() {
            continue;
        }
        let mut total = 0.0f64;
        for (rtc_ns, abs_ns) in samples {
            let r = *rtc_ns as f64;
            let a = *abs_ns as f64;
            total += (r - a) / a * 1_000_000.0;
        }
        out.push((*ch, total / samples.len() as f64));
    }
    out
}

#[test]
fn empty_refs() {
    let q = quality_counts(&[]);
    assert_eq!(q.total_refs, 0);
    assert_eq!(q.channel_count, 0);
    assert!(q.max_rtc_gap_ns.is_none());
    assert!(ref_density_per_sec(&q).is_none());
    assert!(q.rtc_span_ns.is_none());
}

#[test]
fn single_ref() {
    let refs = [make_ref(1, 10_000_000, 100, 12, 0, 0)];
    let q = quality_counts(&refs);
    assert_eq!(q.total_refs, 1);
    assert_eq!(q.channel_count, 1);
    assert!(q.max_rtc_gap_ns.is_none());
    assert!(ref_density_per_sec(&q).is_none());
    assert!(q.rtc_span_ns.is_none());
}

#[test]
fn two_refs_one_channel() {
    let refs = [
        make_ref(1, 10_000_000, 100, 12, 0, 0),
        make_ref(1, 20_000_000, 100, 12, 0, 1),
    ];
    let q = quality_counts(&refs);
    assert_eq!(q.total_refs, 2);
    assert_eq!(q.channel_count, 1);
    assert_eq!(q.refs_per_channel, vec![(1, 2)]);
    // 10M ticks = 1 second = 1_000_000_000 ns
    assert_eq!(q.max_rtc_gap_ns, Some(1_000_000_000));
    assert_eq!(q.min_rtc_gap_ns, Some(1_000_000_000));
    assert_eq!(q.rtc_span_ns, Some(1_000_000_000));
    // 2 refs over 1 second = 2.0 refs/sec
    assert!((ref_density_per_sec(&q).unwrap() - 2.0).abs() < 0.01);
}

#[test]
fn multi_channel() {
    let refs = [
        make_ref(1, 10_000_000, 100, 12, 0, 0),
        make_ref(2, 15_000_000, 100, 12, 0, 0),
        make_ref(1, 20_000_000, 100, 12, 0, 1),
        make_ref(2, 25_000_000, 100, 12, 0, 1),
    ];
    let q = quality_counts(&refs);
    assert_eq!(q.total_refs, 4);
    assert_eq!(q.channel_count, 2);
}

#[test]
fn drift_ppm_populated_for_multi_ref_channels() {
    // Perfect sync: 1 second RTC = 1 second absolute
    let refs = [
        make_ref(1, 10_000_000, 100, 12, 0, 0),
        make_ref(1, 20_000_000, 100, 12, 0, 1),
    ];
    let q = quality_counts(&refs);
    let drift = drift_ppm_per_channel(&q);
    assert_eq!(drift.len(), 1);
    assert!(drift[0].1.abs() < 0.01);
}

#[test]
fn drift_ppm_not_populated_for_single_ref_channel() {
    let refs = [make_ref(1, 10_000_000, 100, 12, 0, 0)];
    let q = quality_counts(&refs);
    assert!(drift_ppm_per_channel(&q).is_empty());
}
