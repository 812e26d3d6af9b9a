//! Time quality metrics for assessing correlation health: the integer measures of a set of
//! reference points.

use vstd::prelude::*;
use std::collections::BTreeMap;
use crate::correlation::{
    drift_samples_of, lemma_on_channel_nonempty, on_channel, sorted_keys, spec_drift_samples,
    ReferencePoint,
};
use crate::rtc::spec_elapsed_ticks;

verus! {

broadcast use vstd::std_specs::btree::group_btree_axioms, vstd::laws_cmp::group_laws_cmp;

/// Integer quality measures of a set of reference points.
#[derive(Debug, Clone)]
pub struct QualityCounts {
    /// Total number of reference points.
    pub total_refs: usize,
    /// Number of distinct channels with reference points.
    pub channel_count: usize,
    /// Per-channel reference point counts, by increasing channel ID.
    pub refs_per_channel: Vec<(u16, usize)>,
    /// Largest RTC gap between consecutive points, in nanoseconds (`None` for fewer than 2
    /// points).
    pub max_rtc_gap_ns: Option<u64>,
    /// Smallest RTC gap between consecutive points, in nanoseconds (`None` for fewer than 2
    /// points).
    pub min_rtc_gap_ns: Option<u64>,
    /// RTC span from the smallest to the largest RTC, in nanoseconds (`None` for fewer than
    /// 2 points).
    pub rtc_span_ns: Option<u64>,
    /// For each channel with 2 or more points, by increasing channel ID, its drift samples.
    pub drift_samples_per_channel: Vec<(u16, Vec<(u64, i64)>)>,
}

/// Some pair of the list names channel `ch`.
pub open spec fn lists_channel<T>(pairs: Seq<(u16, T)>, ch: u16) -> bool {
    exists|k: int| 0 <= k < pairs.len() && (#[trigger] pairs[k]).0 == ch
}

/// Some point of `s` is on channel `ch`.
pub open spec fn has_channel(s: Seq<ReferencePoint>, ch: u16) -> bool {
    exists|i: int| 0 <= i < s.len() && (#[trigger] s[i]).channel_id == ch
}

/// RTC gap in nanoseconds from point `i` to point `i + 1`.
pub open spec fn gap_ns(s: Seq<ReferencePoint>, i: int) -> int {
    100 * spec_elapsed_ticks(s[i].rtc.raw(), s[i + 1].rtc.raw())
}

/// The largest gap between consecutive points (for 2 or more points).
pub open spec fn spec_max_gap(s: Seq<ReferencePoint>) -> int
    decreases s.len(),
{
    if s.len() <= 2 {
        gap_ns(s, 0)
    } else {
        let m = spec_max_gap(s.drop_last());
        let g = gap_ns(s, s.len() - 2);
        if g > m {
            g
        } else {
            m
        }
    }
}

/// The smallest gap between consecutive points (for 2 or more points).
pub open spec fn spec_min_gap(s: Seq<ReferencePoint>) -> int
    decreases s.len(),
{
    if s.len() <= 2 {
        gap_ns(s, 0)
    } else {
        let m = spec_min_gap(s.drop_last());
        let g = gap_ns(s, s.len() - 2);
        if g < m {
            g
        } else {
            m
        }
    }
}

/// The largest RTC value (for 1 or more points).
pub open spec fn spec_max_rtc(s: Seq<ReferencePoint>) -> u64
    decreases s.len(),
{
    if s.len() <= 1 {
        s[0].rtc.raw()
    } else {
        let m = spec_max_rtc(s.drop_last());
        if s.last().rtc.raw() > m {
            s.last().rtc.raw()
        } else {
            m
        }
    }
}

/// The smallest RTC value (for 1 or more points).
pub open spec fn spec_min_rtc(s: Seq<ReferencePoint>) -> u64
    decreases s.len(),
{
    if s.len() <= 1 {
        s[0].rtc.raw()
    } else {
        let m = spec_min_rtc(s.drop_last());
        if s.last().rtc.raw() < m {
            s.last().rtc.raw()
        } else {
            m
        }
    }
}

/// Compute the integer quality measures of a slice of reference points, taken in the
/// order given.
pub fn quality_counts(refs: &[ReferencePoint]) -> (r: QualityCounts)
    ensures
        r.total_refs == refs@.len(),
        r.channel_count == r.refs_per_channel@.len(),
        forall|i: int, j: int|
            0 <= i < j < r.refs_per_channel@.len() ==> r.refs_per_channel@[i].0
                < r.refs_per_channel@[j].0,
        forall|k: int|
            0 <= k < r.refs_per_channel@.len() ==> (#[trigger] r.refs_per_channel@[k]).1
                == on_channel(refs@, r.refs_per_channel@[k].0).len() && r.refs_per_channel@[k].1
                > 0,
        forall|ch: u16|
            #[trigger] lists_channel(r.refs_per_channel@, ch) <==> has_channel(refs@, ch),
        refs@.len() < 2 ==> r.max_rtc_gap_ns is None && r.min_rtc_gap_ns is None
            && r.rtc_span_ns is None,
        refs@.len() >= 2 ==> r.max_rtc_gap_ns == Some(spec_max_gap(refs@) as u64)
            && r.min_rtc_gap_ns == Some(spec_min_gap(refs@) as u64) && r.rtc_span_ns == Some(
            (100 * spec_elapsed_ticks(spec_min_rtc(refs@), spec_max_rtc(refs@))) as u64,
        ),
        forall|i: int, j: int|
            0 <= i < j < r.drift_samples_per_channel@.len() ==> r.drift_samples_per_channel@[i].0
                < r.drift_samples_per_channel@[j].0,
        forall|k: int|
            0 <= k < r.drift_samples_per_channel@.len() ==> (
            #[trigger] r.drift_samples_per_channel@[k]).1@ == spec_drift_samples(
                on_channel(refs@, r.drift_samples_per_channel@[k].0),
            ),
        forall|ch: u16|
            #[trigger] lists_channel(r.drift_samples_per_channel@, ch) <==> on_channel(
                refs@,
                ch,
            ).len() >= 2,
{
    // Group the points by channel, in the order given.
    let mut by_channel: BTreeMap<u16, Vec<ReferencePoint>> = BTreeMap::new();
    let mut i: usize = 0;
    while i < refs.len()
        invariant
            0 <= i <= refs@.len(),
            forall|ch: u16|
                #![trigger by_channel@.contains_key(ch)]
                #![trigger on_channel(refs@.take(i as int), ch)]
                by_channel@.contains_key(ch) <==> on_channel(refs@.take(i as int), ch).len() > 0,
            forall|ch: u16|
                #[trigger] by_channel@.contains_key(ch) ==> by_channel@[ch]@ == on_channel(
                    refs@.take(i as int),
                    ch,
                ),
        decreases refs@.len() - i,
    {
        let p = refs[i];
        let ghost before = by_channel@;
        let mut v = match by_channel.remove(&p.channel_id) {
            Some(v) => v,
            None => Vec::new(),
        };
        proof {
            if !before.contains_key(p.channel_id) {
                assert(v@ =~= on_channel(refs@.take(i as int), p.channel_id));
            }
        }
        v.push(p);
        by_channel.insert(p.channel_id, v);
        proof {
            let t = refs@.take(i as int + 1);
            assert(t.drop_last() =~= refs@.take(i as int));
            assert(t.last() == p);
        }
        i = i + 1;
    }
    proof {
        assert(refs@.take(refs@.len() as int) =~= refs@);
    }
    let ids = sorted_keys(&by_channel);
    let mut refs_per_channel: Vec<(u16, usize)> = Vec::new();
    let mut drift_samples_per_channel: Vec<(u16, Vec<(u64, i64)>)> = Vec::new();
    let mut k: usize = 0;
    while k < ids.len()
        invariant
            forall|a: int, b: int| 0 <= a < b < ids@.len() ==> ids@[a] < ids@[b],
            forall|c: u16| ids@.contains(c) <==> by_channel@.contains_key(c),
            forall|c: u16|
                #[trigger] by_channel@.contains_key(c) ==> by_channel@[c]@ == on_channel(refs@, c),
            forall|c: u16|
                #![trigger by_channel@.contains_key(c)]
                #![trigger on_channel(refs@, c)]
                by_channel@.contains_key(c) <==> on_channel(refs@, c).len() > 0,
            0 <= k <= ids@.len(),
            refs_per_channel@.len() == k,
            forall|a: int|
                0 <= a < k ==> (#[trigger] refs_per_channel@[a]).0 == ids@[a]
                    && refs_per_channel@[a].1 == on_channel(refs@, ids@[a]).len(),
            forall|a: int, b: int|
                0 <= a < b < drift_samples_per_channel@.len() ==> drift_samples_per_channel@[a].0
                    < drift_samples_per_channel@[b].0,
            forall|a: int|
                0 <= a < drift_samples_per_channel@.len() ==> (
                #[trigger] drift_samples_per_channel@[a]).1@ == spec_drift_samples(
                    on_channel(refs@, drift_samples_per_channel@[a].0),
                ) && ids@.take(k as int).contains(drift_samples_per_channel@[a].0)
                    && on_channel(refs@, drift_samples_per_channel@[a].0).len() >= 2,
            forall|c: u16|
                #[trigger] ids@.take(k as int).contains(c) && on_channel(refs@, c).len() >= 2
                    ==> lists_channel(drift_samples_per_channel@, c),
        decreases ids@.len() - k,
    {
        let ch = ids[k];
        proof {
            assert(ids@.contains(ch));
            assert(ids@.take(k as int + 1) =~= ids@.take(k as int).push(ch));
        }
        let v = by_channel.get(&ch).unwrap();
        refs_per_channel.push((ch, v.len()));
        let ghost old_d = drift_samples_per_channel@;
        if v.len() >= 2 {
            let samples = drift_samples_of(v);
            proof {
                assert forall|a: int| 0 <= a < drift_samples_per_channel@.len() implies
                    drift_samples_per_channel@[a].0 < ch by {
                    let c = drift_samples_per_channel@[a].0;
                    let q = choose|q: int| 0 <= q < k && ids@.take(k as int)[q] == c;
                    assert(ids@[q] < ids@[k as int]);
                }
            }
            drift_samples_per_channel.push((ch, samples));
        }
        proof {
            let t1 = ids@.take(k as int + 1);
            assert forall|a: int| 0 <= a < drift_samples_per_channel@.len() implies (
            #[trigger] drift_samples_per_channel@[a]).1@ == spec_drift_samples(
                on_channel(refs@, drift_samples_per_channel@[a].0),
            ) && t1.contains(drift_samples_per_channel@[a].0) && on_channel(
                refs@,
                drift_samples_per_channel@[a].0,
            ).len() >= 2 by {
                let c = drift_samples_per_channel@[a].0;
                if c == ch {
                    assert(t1[k as int] == ch);
                } else {
                    let q = choose|q: int| 0 <= q < k && ids@.take(k as int)[q] == c;
                    assert(t1[q] == c);
                }
            }
            assert forall|c: u16| #[trigger] t1.contains(c) && on_channel(refs@, c).len() >= 2 implies lists_channel(
                drift_samples_per_channel@,
                c,
            ) by {
                let q = choose|q: int| 0 <= q < t1.len() && t1[q] == c;
                if q == k {
                    assert(drift_samples_per_channel@[drift_samples_per_channel@.len() - 1].0 == c);
                } else {
                    assert(ids@.take(k as int)[q] == c);
                    assert(ids@.take(k as int).contains(c));
                    assert(lists_channel(old_d, c));
                    let a = choose|a: int| 0 <= a < old_d.len() && (#[trigger] old_d[a]).0 == c;
                    assert(drift_samples_per_channel@[a] == old_d[a]);
                }
            }
        }
        k = k + 1;
    }
    proof {
        assert(ids@.take(ids@.len() as int) =~= ids@);
        assert forall|c: u16| #[trigger] lists_channel(refs_per_channel@, c) <==> has_channel(
            refs@,
            c,
        ) by {
            lemma_on_channel_nonempty(refs@, c);
            if lists_channel(refs_per_channel@, c) {
                let a = choose|a: int| 0 <= a < refs_per_channel@.len()
                    && (#[trigger] refs_per_channel@[a]).0 == c;
                assert(ids@.contains(ids@[a]));
            }
            if has_channel(refs@, c) {
                assert(by_channel@.contains_key(c));
                assert(ids@.contains(c));
                let q = choose|q: int| 0 <= q < ids@.len() && ids@[q] == c;
                assert(refs_per_channel@[q].0 == c);
            }
        }
        assert forall|a: int| 0 <= a < refs_per_channel@.len() implies (
        #[trigger] refs_per_channel@[a]).1 > 0 by {
            assert(ids@.contains(ids@[a]));
        }
        assert forall|c: u16| #[trigger] lists_channel(drift_samples_per_channel@, c) <==> on_channel(
            refs@,
            c,
        ).len() >= 2 by {
            if on_channel(refs@, c).len() >= 2 {
                assert(by_channel@.contains_key(c));
                assert(ids@.contains(c));
                assert(ids@.take(k as int).contains(c));
            }
            if lists_channel(drift_samples_per_channel@, c) {
                let a = choose|a: int| 0 <= a < drift_samples_per_channel@.len()
                    && (#[trigger] drift_samples_per_channel@[a]).0 == c;
                assert(on_channel(refs@, drift_samples_per_channel@[a].0).len() >= 2);
            }
        }
    }
    let (max_rtc_gap_ns, min_rtc_gap_ns, rtc_span_ns) = rtc_measures(refs);
    QualityCounts {
        total_refs: refs.len(),
        channel_count: refs_per_channel.len(),
        refs_per_channel,
        max_rtc_gap_ns,
        min_rtc_gap_ns,
        rtc_span_ns,
        drift_samples_per_channel,
    }
}

/// Largest gap, smallest gap and span of the RTC values of a slice (all `None` for fewer
/// than 2 points).
fn rtc_measures(refs: &[ReferencePoint]) -> (r: (Option<u64>, Option<u64>, Option<u64>))
    ensures
        refs@.len() < 2 ==> r == (None::<u64>, None::<u64>, None::<u64>),
        refs@.len() >= 2 ==> r == (
            Some(spec_max_gap(refs@) as u64),
            Some(spec_min_gap(refs@) as u64),
            Some((100 * spec_elapsed_ticks(spec_min_rtc(refs@), spec_max_rtc(refs@))) as u64),
        ),
{
    if refs.len() < 2 {
        return (None, None, None);
    }
    let mut max_gap: u64 = refs[0].rtc.elapsed_nanos(refs[1].rtc);
    let mut min_gap: u64 = max_gap;
    let mut min_rtc = refs[0].rtc;
    let mut max_rtc = refs[0].rtc;
    if refs[1].rtc.as_raw() < min_rtc.as_raw() {
        min_rtc = refs[1].rtc;
    }
    if refs[1].rtc.as_raw() > max_rtc.as_raw() {
        max_rtc = refs[1].rtc;
    }
    proof {
        let t = refs@.take(2);
        assert(t.drop_last() =~= refs@.take(1));
        assert(refs@.take(1)[0] == refs@[0]);
        assert(t.last() == refs@[1]);
        assert(spec_min_rtc(refs@.take(1)) == refs@[0].rtc.raw());
        assert(spec_max_rtc(refs@.take(1)) == refs@[0].rtc.raw());
        assert(spec_min_rtc(t) == if refs@[1].rtc.raw() < refs@[0].rtc.raw() {
            refs@[1].rtc.raw()
        } else {
            refs@[0].rtc.raw()
        });
        assert(spec_max_rtc(t) == if refs@[1].rtc.raw() > refs@[0].rtc.raw() {
            refs@[1].rtc.raw()
        } else {
            refs@[0].rtc.raw()
        });
    }
    let mut k: usize = 2;
    while k < refs.len()
        invariant
            2 <= k <= refs@.len(),
            max_gap == spec_max_gap(refs@.take(k as int)),
            min_gap == spec_min_gap(refs@.take(k as int)),
            min_rtc.raw() == spec_min_rtc(refs@.take(k as int)),
            max_rtc.raw() == spec_max_rtc(refs@.take(k as int)),
        decreases refs@.len() - k,
    {
        proof {
            let t = refs@.take(k as int + 1);
            assert(t.drop_last() =~= refs@.take(k as int));
            assert(t[t.len() - 2] == refs@[k - 1] && t.last() == refs@[k as int]);
        }
        let g = refs[k - 1].rtc.elapsed_nanos(refs[k].rtc);
        if g > max_gap {
            max_gap = g;
        }
        if g < min_gap {
            min_gap = g;
        }
        if refs[k].rtc.as_raw() < min_rtc.as_raw() {
            min_rtc = refs[k].rtc;
        }
        if refs[k].rtc.as_raw() > max_rtc.as_raw() {
            max_rtc = refs[k].rtc;
        }
        k = k + 1;
    }
    proof {
        assert(refs@.take(refs@.len() as int) =~= refs@);
    }
    let span_ns = min_rtc.elapsed_nanos(max_rtc);
    (Some(max_gap), Some(min_gap), Some(span_ns))
}

} // verus!
