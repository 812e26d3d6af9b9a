//! Streaming RTC-to-absolute-time correlator for live data.
//!
//! Reference points are kept per channel, each channel's list sorted by RTC. Points whose
//! RTC is more than `max_age_ns` behind the latest RTC seen are evicted on every insert, so
//! the window stays bounded.

use vstd::prelude::*;
use std::collections::BTreeMap;
use crate::absolute::{lemma_total_bounds, AbsoluteTime};
use crate::correlation::{
    circular_distance, lemma_correlate_at_first, resolve_from, sorted_keys, spec_correlate,
    spec_f2_time, ReferencePoint,
};
use crate::error::{Result, TimeError};
use crate::network_time::{
    saturating_diff, spec_offset_at_unix, LeapSecondTable, NetworkTime, DEFAULT_TAI_UTC_OFFSET,
};
use crate::rtc::Rtc;
use crate::search::{
    count_below, insert_sorted, keys_sorted, lemma_count_below_prefix, lemma_count_below_split,
    lower_bound, SortKey,
};

verus! {

broadcast use vstd::std_specs::btree::group_btree_axioms, vstd::laws_cmp::group_laws_cmp;

/// A reference point in the streaming correlator.
#[derive(Debug, Clone, Copy, PartialEq, Eq, Structural)]
pub struct StreamingRef {
    /// Channel ID of the time source.
    pub channel_id: u16,
    /// RTC value at the instant the absolute time was valid.
    pub rtc: Rtc,
    /// Decoded absolute time from the time packet.
    pub time: AbsoluteTime,
}

impl SortKey for StreamingRef {
    open spec fn sort_key(&self) -> u64 {
        self.rtc.raw()
    }

    fn key(&self) -> (r: u64) {
        self.rtc.as_raw()
    }
}

impl StreamingRef {
    /// The same point as a correlator reference point.
    pub open spec fn point(self) -> ReferencePoint {
        ReferencePoint { channel_id: self.channel_id, rtc: self.rtc, time: self.time }
    }
}

// ── Model ────────────────────────────────────────────────────────────

/// The points as correlator reference points.
pub open spec fn as_points(s: Seq<StreamingRef>) -> Seq<ReferencePoint> {
    s.map_values(|r: StreamingRef| r.point())
}

/// The points whose RTC is at or after `cutoff`, in order.
pub open spec fn keep_recent(s: Seq<StreamingRef>, cutoff: u64) -> Seq<StreamingRef>
    decreases s.len(),
{
    if s.len() == 0 {
        s
    } else if s.last().rtc.raw() >= cutoff {
        keep_recent(s.drop_last(), cutoff).push(s.last())
    } else {
        keep_recent(s.drop_last(), cutoff)
    }
}

/// Each channel's points with those before `cutoff` removed.
pub open spec fn evicted(m: Map<u16, Seq<StreamingRef>>, cutoff: u64) -> Map<u16, Seq<StreamingRef>> {
    m.map_values(|s: Seq<StreamingRef>| keep_recent(s, cutoff))
}

/// Number of points on the channels with IDs below `n`.
pub open spec fn sum_lens(m: Map<u16, Seq<StreamingRef>>, n: int) -> nat
    decreases n,
{
    if n <= 0 {
        0
    } else {
        sum_lens(m, n - 1) + if m.contains_key((n - 1) as u16) {
            m[(n - 1) as u16].len()
        } else {
            0
        }
    }
}

/// Number of points on all channels.
pub open spec fn total_len(m: Map<u16, Seq<StreamingRef>>) -> nat {
    sum_lens(m, 0x1_0000)
}

/// A channel's points (empty when it has none).
pub open spec fn channel_points(m: Map<u16, Seq<StreamingRef>>, ch: u16) -> Seq<StreamingRef> {
    if m.contains_key(ch) {
        m[ch]
    } else {
        Seq::empty()
    }
}

/// The RTC below which points are evicted: the latest RTC less the window in ticks.
pub open spec fn eviction_cutoff(latest: Rtc, max_age_ns: u64) -> u64 {
    saturating_diff(latest.raw(), max_age_ns / 100)
}

/// The latest RTC after seeing `rtc`.
pub open spec fn next_latest(latest: Option<Rtc>, rtc: Rtc) -> Rtc {
    match latest {
        Some(l) => if rtc.raw() > l.raw() {
            rtc
        } else {
            l
        },
        None => rtc,
    }
}

/// A candidate replaces the best point so far only when strictly closer to the target.
pub open spec fn consider(best: Option<StreamingRef>, c: StreamingRef, target: u64) -> Option<
    StreamingRef,
> {
    match best {
        None => Some(c),
        Some(b) => if circular_distance(c.rtc.raw(), target) < circular_distance(
            b.rtc.raw(),
            target,
        ) {
            Some(c)
        } else {
            best
        },
    }
}

/// The nearest point over the channels with IDs below `n`, taken in increasing channel
/// order: in each channel the last point below the target and the first at or above it
/// (clamped to the channel's range) are candidates, in that order; the first candidate at
/// the least distance wins.
pub open spec fn nearest_upto(m: Map<u16, Seq<StreamingRef>>, target: u64, n: int) -> Option<
    StreamingRef,
>
    decreases n,
{
    if n <= 0 {
        None
    } else {
        let prev = nearest_upto(m, target, n - 1);
        let k = (n - 1) as u16;
        if m.contains_key(k) && m[k].len() > 0 {
            let s = m[k];
            let idx = count_below(s, target) as int;
            let c1 = s[if idx >= 1 {
                idx - 1
            } else {
                0
            }];
            let c2 = s[if idx < s.len() {
                idx
            } else {
                s.len() - 1
            }];
            consider(consider(prev, c1, target), c2, target)
        } else {
            prev
        }
    }
}

/// Every channel's points are sorted by RTC, lie on that channel and hold valid times.
pub open spec fn channels_wf(m: Map<u16, Seq<StreamingRef>>) -> bool {
    forall|ch: u16|
        #[trigger] m.contains_key(ch) ==> {
            &&& keys_sorted(m[ch])
            &&& forall|i: int|
                0 <= i < m[ch].len() ==> (#[trigger] m[ch][i]).channel_id == ch
                    && m[ch][i].time.valid()
        }
}

// ── Lemmas ───────────────────────────────────────────────────────────

/// Replacing one channel's points changes the count by the difference in length.
proof fn lemma_sum_lens_insert(m: Map<u16, Seq<StreamingRef>>, k: u16, v: Seq<StreamingRef>, n: int)
    requires
        0 <= n <= 0x1_0000,
    ensures
        sum_lens(m.insert(k, v), n) + (if k < n && m.contains_key(k) {
            m[k].len()
        } else {
            0
        }) == sum_lens(m, n) + (if k < n {
            v.len()
        } else {
            0
        }),
    decreases n,
{
    if n > 0 {
        lemma_sum_lens_insert(m, k, v, n - 1);
    }
}

/// Keeping the recent points of a sorted list keeps it sorted and the points on it.
proof fn lemma_keep_recent(s: Seq<StreamingRef>, cutoff: u64)
    ensures
        keep_recent(s, cutoff).len() <= s.len(),
        forall|j: int|
            0 <= j < keep_recent(s, cutoff).len() ==> s.contains(
                #[trigger] keep_recent(s, cutoff)[j],
            ) && keep_recent(s, cutoff)[j].rtc.raw() >= cutoff,
        keys_sorted(s) ==> keys_sorted(keep_recent(s, cutoff)),
    decreases s.len(),
{
    if s.len() > 0 {
        let t = s.drop_last();
        lemma_keep_recent(t, cutoff);
        let kt = keep_recent(t, cutoff);
        let ks = keep_recent(s, cutoff);
        assert forall|j: int| 0 <= j < ks.len() implies s.contains(#[trigger] ks[j])
            && ks[j].rtc.raw() >= cutoff by {
            if j < kt.len() {
                assert(ks[j] == kt[j]);
                let m = choose|m: int| 0 <= m < t.len() && t[m] == kt[j];
                assert(s[m] == t[m]);
            } else {
                assert(ks[j] == s[s.len() - 1]);
            }
        }
        if keys_sorted(s) {
            assert(keys_sorted(t)) by {
                assert forall|i: int, j: int| 0 <= i <= j < t.len() implies t[i].sort_key()
                    <= t[j].sort_key() by {
                    assert(t[i] == s[i] && t[j] == s[j]);
                }
            }
            assert forall|i: int, j: int| 0 <= i <= j < ks.len() implies ks[i].sort_key()
                <= ks[j].sort_key() by {
                if j < kt.len() {
                    assert(ks[i] == kt[i] && ks[j] == kt[j]);
                } else if i < j {
                    assert(ks[i] == kt[i]);
                    let m = choose|m: int| 0 <= m < t.len() && t[m] == kt[i];
                    assert(s[m] == t[m]);
                    assert(ks[j] == s[s.len() - 1]);
                }
            }
        }
    }
}

/// The points of a list as reference points are ordered and counted alike.
proof fn lemma_as_points(s: Seq<StreamingRef>, k: u64)
    ensures
        as_points(s).len() == s.len(),
        count_below(as_points(s), k) == count_below(s, k),
        keys_sorted(s) ==> keys_sorted(as_points(s)),
    decreases s.len(),
{
    if s.len() > 0 {
        assert(as_points(s.drop_last()) =~= as_points(s).drop_last());
        lemma_as_points(s.drop_last(), k);
    }
}

/// Channels without points do not change the nearest point.
proof fn lemma_nearest_skip(m: Map<u16, Seq<StreamingRef>>, target: u64, a: int, b: int)
    requires
        0 <= a <= b <= 0x1_0000,
        forall|k: u16| a <= k < b ==> !(#[trigger] m.contains_key(k)),
    ensures
        nearest_upto(m, target, b) == nearest_upto(m, target, a),
    decreases b - a,
{
    if a < b {
        lemma_nearest_skip(m, target, a, b - 1);
        assert(!m.contains_key((b - 1) as u16));
    }
}

/// A point is kept by eviction exactly when it was present and is not before the cutoff.
proof fn lemma_keep_recent_contains(s: Seq<StreamingRef>, cutoff: u64, x: StreamingRef)
    ensures
        keep_recent(s, cutoff).contains(x) <==> s.contains(x) && x.rtc.raw() >= cutoff,
    decreases s.len(),
{
    if s.len() > 0 {
        let t = s.drop_last();
        lemma_keep_recent_contains(t, cutoff, x);
        let kt = keep_recent(t, cutoff);
        let ks = keep_recent(s, cutoff);
        if s.contains(x) && x.rtc.raw() >= cutoff {
            let q = choose|q: int| 0 <= q < s.len() && s[q] == x;
            if q < t.len() {
                assert(t[q] == x);
                let r = choose|r: int| 0 <= r < kt.len() && kt[r] == x;
                assert(ks[r] == x);
            } else {
                assert(ks[ks.len() - 1] == x);
            }
        }
        if ks.contains(x) {
            let r = choose|r: int| 0 <= r < ks.len() && ks[r] == x;
            if r < kt.len() {
                assert(kt[r] == x);
                let q = choose|q: int| 0 <= q < t.len() && t[q] == x;
                assert(s[q] == x);
            } else {
                assert(x == s.last());
                assert(s[s.len() - 1] == x);
            }
        }
    }
}

/// In a sorted sequence, the points kept by eviction are those from the first one at or
/// after the cutoff on.
proof fn lemma_keep_recent_suffix(s: Seq<StreamingRef>, cutoff: u64)
    requires
        keys_sorted(s),
    ensures
        keep_recent(s, cutoff) == s.subrange(count_below(s, cutoff) as int, s.len() as int),
    decreases s.len(),
{
    if s.len() > 0 {
        let t = s.drop_last();
        assert(keys_sorted(t)) by {
            assert forall|i: int, j: int| 0 <= i <= j < t.len() implies t[i].sort_key()
                <= t[j].sort_key() by {
                assert(t[i] == s[i] && t[j] == s[j]);
            }
        }
        lemma_keep_recent_suffix(t, cutoff);
        lemma_count_below_prefix(t, cutoff);
        lemma_count_below_prefix(s, cutoff);
        if s.last().rtc.raw() >= cutoff {
            assert(count_below(s, cutoff) == count_below(t, cutoff));
            assert(keep_recent(s, cutoff) =~= s.subrange(
                count_below(s, cutoff) as int,
                s.len() as int,
            ));
        } else {
            assert forall|j: int| 0 <= j < t.len() implies t[j].sort_key() < cutoff by {
                assert(t[j] == s[j]);
                assert(s[j].sort_key() <= s[s.len() - 1].sort_key());
            }
            lemma_count_below_split(t, cutoff, t.len() as int);
            assert(keep_recent(s, cutoff) =~= s.subrange(
                count_below(s, cutoff) as int,
                s.len() as int,
            ));
        }
    }
}

/// Correlating, on its channel, the RTC of a point just added gives back the point's time
/// (without month and day of month), unless the point is already behind the window's cutoff.
pub proof fn lemma_correlate_after_add(
    m: Map<u16, Seq<StreamingRef>>,
    ch: u16,
    rtc: Rtc,
    time: AbsoluteTime,
    cutoff: u64,
)
    requires
        channels_wf(m),
        rtc.raw() < 0x1_0000_0000_0000,
        time.valid(),
        rtc.raw() >= cutoff,
    ensures
        ({
            let c = channel_points(m, ch);
            let p = StreamingRef { channel_id: ch, rtc, time };
            let inserted = m.insert(ch, c.insert(count_below(c, rtc.raw()) as int, p));
            spec_correlate(as_points(channel_points(evicted(inserted, cutoff), ch)), rtc.raw())
                == Ok::<AbsoluteTime, TimeError>(
                AbsoluteTime { month: None, day_of_month: None, ..time },
            )
        }),
{
    let k = rtc.raw();
    let c = channel_points(m, ch);
    let p = StreamingRef { channel_id: ch, rtc, time };
    let q = count_below(c, k) as int;
    let w = c.insert(q, p);
    let inserted = m.insert(ch, w);
    assert(keys_sorted(c)) by {
        if !m.contains_key(ch) {
            assert(c =~= Seq::<StreamingRef>::empty());
        }
    }
    lemma_count_below_prefix(c, k);
    crate::search::lemma_insert_sorted(c, p);
    assert(w[q] == p);
    lemma_count_below_prefix(w, cutoff);
    let j = count_below(w, cutoff) as int;
    assert(j <= q) by {
        if j > q {
            assert(w[q].sort_key() < cutoff);
        }
    }
    lemma_keep_recent_suffix(w, cutoff);
    let u = w.subrange(j, w.len() as int);
    assert(evicted(inserted, cutoff)[ch] == keep_recent(w, cutoff));
    assert(channel_points(evicted(inserted, cutoff), ch) == u);
    assert(u[q - j] == p);
    assert(keys_sorted(u));
    assert forall|x: int| 0 <= x < q - j implies u[x].sort_key() < k by {
        assert(u[x] == w[x + j]);
        assert(w[x + j] == c[x + j]);
    }
    assert forall|x: int| q - j <= x < u.len() implies u[x].sort_key() >= k by {
        assert(u[x] == w[x + j]);
        assert(w[q].sort_key() <= w[x + j].sort_key());
    }
    lemma_count_below_split(u, k, q - j);
    lemma_as_points(u, k);
    let a = as_points(u);
    assert(a[q - j] == p.point());
    lemma_correlate_at_first(a, q - j);
}

/// The points an insertion keeps: afterwards the channels are those of before plus the new
/// point's channel, each sorted by RTC, and a channel holds a point exactly when it held it
/// before, or it is the new point, and the point is not behind the cutoff.
pub proof fn lemma_add_reference_kept(
    m: Map<u16, Seq<StreamingRef>>,
    ch: u16,
    p: StreamingRef,
    cutoff: u64,
)
    requires
        channels_wf(m),
    ensures
        ({
            let c = channel_points(m, ch);
            let kept = evicted(m.insert(ch, c.insert(count_below(c, p.rtc.raw()) as int, p)), cutoff);
            &&& kept.dom() == m.dom().insert(ch)
            &&& forall|k: u16| #[trigger] kept.contains_key(k) ==> keys_sorted(kept[k])
            &&& forall|k: u16, x: StreamingRef|
                kept.contains_key(k) ==> (#[trigger] kept[k].contains(x) <==> (channel_points(
                    m,
                    k,
                ).contains(x) || (k == ch && x == p)) && x.rtc.raw() >= cutoff)
        }),
{
    let c = channel_points(m, ch);
    let q = count_below(c, p.rtc.raw()) as int;
    let w = c.insert(q, p);
    let inserted = m.insert(ch, w);
    assert(keys_sorted(c)) by {
        if !m.contains_key(ch) {
            assert(c =~= Seq::<StreamingRef>::empty());
        }
    }
    lemma_count_below_prefix(c, p.rtc.raw());
    crate::search::lemma_insert_sorted(c, p);
    lemma_evicted_window(inserted, cutoff);
    assert(inserted.dom() =~= m.dom().insert(ch));
    assert forall|k: u16, x: StreamingRef| inserted.contains_key(k) implies (
    #[trigger] inserted[k].contains(x) <==> channel_points(m, k).contains(x) || (k == ch && x == p)) by {
        if k == ch {
            if w.contains(x) {
                let j = choose|j: int| 0 <= j < w.len() && w[j] == x;
                if j < q {
                    assert(c[j] == x);
                } else if j > q {
                    assert(c[j - 1] == x);
                }
            }
            if c.contains(x) {
                let j = choose|j: int| 0 <= j < c.len() && c[j] == x;
                if j < q {
                    assert(w[j] == x);
                } else {
                    assert(w[j + 1] == x);
                }
            }
            if x == p {
                assert(w[q] == p);
            }
        }
    }
    assert forall|k: u16| #[trigger] inserted.contains_key(k) implies keys_sorted(inserted[k]) by {
        if k != ch {
            assert(m.contains_key(k));
        }
    }
}

/// Correlating on one channel gives what a batch correlator gives on that channel, whenever
/// the batch correlator holds the same points on it.
pub proof fn lemma_channel_correlate_agrees(
    m: Map<u16, Seq<StreamingRef>>,
    s: Seq<ReferencePoint>,
    ch: u16,
    target: u64,
)
    requires
        crate::correlation::on_channel(s, ch) == as_points(channel_points(m, ch)),
    ensures
        spec_correlate(as_points(channel_points(m, ch)), target) == spec_correlate(
            crate::correlation::on_channel(s, ch),
            target,
        ),
{
}

/// Over a run of insertions from a fresh correlator, the points held plus the points evicted
/// count the insertions, and the latest RTC is the largest RTC inserted.
pub proof fn lemma_insertions_counted(
    counts: Seq<nat>,
    latest: Seq<Option<Rtc>>,
    rtcs: Seq<Rtc>,
)
    requires
        counts.len() == rtcs.len() + 1,
        latest.len() == rtcs.len() + 1,
        counts[0] == 0,
        latest[0] == None::<Rtc>,
        forall|i: int| 0 <= i < rtcs.len() ==> #[trigger] counts[i + 1] == counts[i] + 1,
        forall|i: int|
            0 <= i < rtcs.len() ==> #[trigger] latest[i + 1] == Some(next_latest(latest[i], rtcs[i])),
    ensures
        counts.last() == rtcs.len(),
        rtcs.len() > 0 ==> {
            &&& latest.last() is Some
            &&& exists|j: int| 0 <= j < rtcs.len() && rtcs[j] == latest.last()->0
            &&& forall|j: int| 0 <= j < rtcs.len() ==> rtcs[j].raw() <= latest.last()->0.raw()
        },
    decreases rtcs.len(),
{
    let n = rtcs.len();
    if n > 0 {
        let c = counts.drop_last();
        let l = latest.drop_last();
        let r = rtcs.drop_last();
        assert forall|i: int| 0 <= i < r.len() implies #[trigger] c[i + 1] == c[i] + 1 by {
            assert(counts[i + 1] == counts[i] + 1);
        }
        assert forall|i: int| 0 <= i < r.len() implies #[trigger] l[i + 1] == Some(
            next_latest(l[i], r[i]),
        ) by {
            assert(latest[i + 1] == Some(next_latest(latest[i], rtcs[i])));
        }
        lemma_insertions_counted(c, l, r);
        assert(counts[n as int] == counts[n - 1] + 1);
        assert(latest[n as int] == Some(next_latest(latest[n - 1], rtcs[n - 1])));
        if n > 1 {
            let prev = l.last()->0;
            let j0 = choose|j: int| 0 <= j < r.len() && r[j] == prev;
            assert(rtcs[j0] == prev);
            assert forall|j: int| 0 <= j < n implies rtcs[j].raw() <= latest.last()->0.raw() by {
                if j < n - 1 {
                    assert(r[j] == rtcs[j]);
                }
            }
            if rtcs[n - 1].raw() > prev.raw() {
                assert(rtcs[n - 1] == latest.last()->0);
            }
        } else {
            assert(rtcs[0] == latest.last()->0);
        }
    }
}

/// After eviction each channel holds exactly its earlier points that are not before the
/// cutoff, in their order, and no channel appears or disappears.
pub proof fn lemma_evicted_window(m: Map<u16, Seq<StreamingRef>>, cutoff: u64)
    ensures
        evicted(m, cutoff).dom() == m.dom(),
        forall|ch: u16, x: StreamingRef|
            m.contains_key(ch) ==> (#[trigger] evicted(m, cutoff)[ch].contains(x) <==> m[ch].contains(
                x,
            ) && x.rtc.raw() >= cutoff),
        forall|ch: u16|
            #[trigger] m.contains_key(ch) && keys_sorted(m[ch]) ==> keys_sorted(
                evicted(m, cutoff)[ch],
            ),
{
    assert(evicted(m, cutoff).dom() =~= m.dom());
    assert forall|ch: u16, x: StreamingRef| m.contains_key(ch) implies (#[trigger] evicted(
        m,
        cutoff,
    )[ch].contains(x) <==> m[ch].contains(x) && x.rtc.raw() >= cutoff) by {
        lemma_keep_recent_contains(m[ch], cutoff, x);
    }
    assert forall|ch: u16| #[trigger] m.contains_key(ch) && keys_sorted(m[ch]) implies keys_sorted(
        evicted(m, cutoff)[ch],
    ) by {
        lemma_keep_recent(m[ch], cutoff);
    }
}

// ── The streaming correlator ─────────────────────────────────────────

/// A streaming correlator keeping a bounded sliding window of reference points.
pub struct StreamingTimeCorrelator {
    /// Per-channel reference points, each sorted by RTC.
    channel_refs: BTreeMap<u16, Vec<StreamingRef>>,
    /// Maximum age in nanoseconds.
    max_age_ns: u64,
    /// The highest RTC seen so far.
    latest_rtc: Option<Rtc>,
    /// Total reference points across all channels.
    total_refs: usize,
    /// Total references evicted since creation.
    total_evicted: usize,
}

impl StreamingTimeCorrelator {
    /// Each channel's points, by channel ID.
    pub closed spec fn channels(self) -> Map<u16, Seq<StreamingRef>> {
        self.channel_refs@.map_values(|v: Vec<StreamingRef>| v@)
    }

    /// The window in nanoseconds.
    pub closed spec fn spec_max_age(self) -> u64 {
        self.max_age_ns
    }

    /// The latest RTC seen.
    pub closed spec fn spec_latest(self) -> Option<Rtc> {
        self.latest_rtc
    }

    /// Number of points evicted since creation.
    pub closed spec fn spec_evicted(self) -> nat {
        self.total_evicted as nat
    }

    /// The channels are well formed and the point count matches them.
    pub closed spec fn wf(self) -> bool {
        &&& channels_wf(self.channels())
        &&& self.total_refs == total_len(self.channels())
    }

    /// A well-formed correlator's channels are well formed.
    pub proof fn lemma_wf(self)
        requires
            self.wf(),
        ensures
            channels_wf(self.channels()),
    {
    }

    /// Create a streaming correlator keeping points up to `max_age_ns` behind the latest
    /// RTC.
    pub fn new(max_age_ns: u64) -> (r: Self)
        ensures
            r.wf(),
            r.channels() == Map::<u16, Seq<StreamingRef>>::empty(),
            r.spec_max_age() == max_age_ns,
            r.spec_latest() == None::<Rtc>,
            r.spec_evicted() == 0,
            total_len(r.channels()) == 0,
    {
        let r = StreamingTimeCorrelator {
            channel_refs: BTreeMap::new(),
            max_age_ns,
            latest_rtc: None,
            total_refs: 0,
            total_evicted: 0,
        };
        proof {
            assert(r.channels() =~= Map::<u16, Seq<StreamingRef>>::empty());
            lemma_sum_lens_empty(0x1_0000);
        }
        r
    }

    /// Insert a reference point (before any point of its channel at the same RTC or later),
    /// then evict, on every channel, the points more than the window behind the latest RTC.
    pub fn add_reference(&mut self, channel_id: u16, rtc: Rtc, time: AbsoluteTime)
        requires
            old(self).wf(),
            time.valid(),
            old(self).spec_evicted() + total_len(old(self).channels()) + 1 <= usize::MAX,
        ensures
            final(self).wf(),
            final(self).spec_latest() == Some(next_latest(old(self).spec_latest(), rtc)),
            final(self).spec_max_age() == old(self).spec_max_age(),
            ({
                let c = channel_points(old(self).channels(), channel_id);
                let p = StreamingRef { channel_id, rtc, time };
                let inserted = old(self).channels().insert(
                    channel_id,
                    c.insert(count_below(c, rtc.raw()) as int, p),
                );
                let cutoff = eviction_cutoff(
                    next_latest(old(self).spec_latest(), rtc),
                    old(self).spec_max_age(),
                );
                &&& final(self).channels() == evicted(inserted, cutoff)
                &&& final(self).spec_evicted() == old(self).spec_evicted() + total_len(inserted)
                    - total_len(final(self).channels())
            }),
            final(self).spec_evicted() + total_len(final(self).channels()) == old(
                self,
            ).spec_evicted() + total_len(old(self).channels()) + 1,
    {
        let raw = rtc.as_raw();
        match self.latest_rtc {
            Some(latest) => {
                if raw > latest.as_raw() {
                    self.latest_rtc = Some(rtc);
                }
            },
            None => {
                self.latest_rtc = Some(rtc);
            },
        }
        let ghost m0 = self.channels();
        let mut refs = match self.channel_refs.remove(&channel_id) {
            Some(v) => v,
            None => Vec::new(),
        };
        proof {
            assert(refs@ == channel_points(m0, channel_id));
        }
        let point = StreamingRef { channel_id, rtc, time };
        insert_sorted(&mut refs, point);
        self.channel_refs.insert(channel_id, refs);
        proof {
            let c = channel_points(m0, channel_id);
            let m1 = m0.insert(channel_id, c.insert(count_below(c, raw) as int, point));
            assert(self.channels() =~= m1);
            lemma_sum_lens_insert(m0, channel_id, m1[channel_id], 0x1_0000);
            lemma_count_below_prefix(c, raw);
            assert forall|ch: u16| #[trigger] m1.contains_key(ch) implies {
                &&& keys_sorted(m1[ch])
                &&& forall|i: int|
                    0 <= i < m1[ch].len() ==> (#[trigger] m1[ch][i]).channel_id == ch
                        && m1[ch][i].time.valid()
            } by {
                if ch == channel_id {
                    let t = m1[ch];
                    let i0 = count_below(c, raw) as int;
                    assert forall|i: int| 0 <= i < t.len() implies (#[trigger] t[i]).channel_id
                        == ch && t[i].time.valid() by {
                        if i < i0 {
                            assert(t[i] == c[i]);
                        } else if i > i0 {
                            assert(t[i] == c[i - 1]);
                        }
                    }
                }
            }
        }
        self.total_refs = self.total_refs + 1;
        self.evict();
    }

    /// Insert a Format 2 (network time) reference point, converted as the batch correlator
    /// converts it.
    pub fn add_reference_f2(
        &mut self,
        channel_id: u16,
        rtc: Rtc,
        network_time: &NetworkTime,
        leap_table: &LeapSecondTable,
    ) -> (r: Result<()>)
        requires
            old(self).wf(),
            leap_table.wf(),
            old(self).spec_evicted() + total_len(old(self).channels()) + 1 <= usize::MAX,
            network_time matches NetworkTime::Ptp(p) ==> spec_offset_at_unix(
                leap_table@,
                saturating_diff(p.seconds, DEFAULT_TAI_UTC_OFFSET as u64),
            ) != i32::MIN,
        ensures
            final(self).wf(),
            final(self).spec_max_age() == old(self).spec_max_age(),
            match spec_f2_time(*network_time, leap_table@) {
                Ok(t) => {
                    let c = channel_points(old(self).channels(), channel_id);
                    let p = StreamingRef { channel_id, rtc, time: t };
                    let inserted = old(self).channels().insert(
                        channel_id,
                        c.insert(count_below(c, rtc.raw()) as int, p),
                    );
                    let cutoff = eviction_cutoff(
                        next_latest(old(self).spec_latest(), rtc),
                        old(self).spec_max_age(),
                    );
                    &&& r is Ok
                    &&& final(self).spec_latest() == Some(next_latest(old(self).spec_latest(), rtc))
                    &&& final(self).channels() == evicted(inserted, cutoff)
                    &&& final(self).spec_evicted() == old(self).spec_evicted() + total_len(
                        inserted,
                    ) - total_len(final(self).channels())
                    &&& final(self).spec_evicted() + total_len(final(self).channels()) == old(
                        self,
                    ).spec_evicted() + total_len(old(self).channels()) + 1
                },
                Err(e) => r == Err::<(), TimeError>(e) && *final(self) == *old(self),
            },
    {
        let abs_time = match network_time {
            NetworkTime::Ntp(ntp) => ntp.to_absolute()?,
            NetworkTime::Ptp(ptp) => {
                let offset = leap_table.offset_at_tai(ptp.seconds);
                ptp.to_absolute(offset)?
            },
        };
        self.add_reference(channel_id, rtc, abs_time);
        Ok(())
    }

    /// Correlate an RTC value to absolute time from the nearest point in the window; with a
    /// channel, only that channel's points are considered.
    pub fn correlate(&self, target_rtc: Rtc, channel_id: Option<u16>) -> (r: Result<AbsoluteTime>)
        requires
            self.wf(),
        ensures
            r == match channel_id {
                Some(ch) => spec_correlate(
                    as_points(channel_points(self.channels(), ch)),
                    target_rtc.raw(),
                ),
                None => match nearest_upto(self.channels(), target_rtc.raw(), 0x1_0000) {
                    Some(p) => Ok(resolve_from(p.point(), target_rtc.raw())),
                    None => Err(TimeError::NoReferencePoint),
                },
            },
    {
        let nearest = match channel_id {
            Some(id) => self.nearest_for_channel(target_rtc, id)?,
            None => self.nearest_any(target_rtc)?,
        };
        proof {
            lemma_total_bounds(nearest.time);
        }
        if target_rtc.as_raw() >= nearest.rtc.as_raw() {
            let delta_nanos = nearest.rtc.elapsed_nanos(target_rtc);
            Ok(nearest.time.add_nanos(delta_nanos))
        } else {
            let delta_nanos = target_rtc.elapsed_nanos(nearest.rtc);
            Ok(nearest.time.sub_nanos(delta_nanos))
        }
    }

    /// The nearest point across all channels.
    fn nearest_any(&self, target: Rtc) -> (r: Result<StreamingRef>)
        requires
            self.wf(),
        ensures
            match nearest_upto(self.channels(), target.raw(), 0x1_0000) {
                Some(p) => r == Ok::<StreamingRef, TimeError>(p) && p.time.valid(),
                None => r == Err::<StreamingRef, TimeError>(TimeError::NoReferencePoint),
            },
    {
        let ghost m = self.channels();
        let ghost t = target.raw();
        let ids = sorted_keys(&self.channel_refs);
        let mut best: Option<StreamingRef> = None;
        let mut best_dist: u64 = u64::MAX;
        let mut i: usize = 0;
        while i < ids.len()
            invariant
                m == self.channels(),
                channels_wf(m),
                t == target.raw(),
                forall|a: int, b: int| 0 <= a < b < ids@.len() ==> ids@[a] < ids@[b],
                forall|k: u16| ids@.contains(k) <==> m.contains_key(k),
                0 <= i <= ids@.len(),
                best == nearest_upto(m, t, if i == 0 {
                    0
                } else {
                    ids@[i - 1] + 1
                }),
                best is None ==> best_dist == u64::MAX,
                best matches Some(b) ==> best_dist == circular_distance(b.rtc.raw(), t)
                    && b.time.valid(),
            decreases ids@.len() - i,
        {
            let key = ids[i];
            proof {
                let lo = if i == 0 {
                    0
                } else {
                    ids@[i - 1] + 1
                };
                assert forall|k: u16| lo <= k < key implies !m.contains_key(k) by {
                    if m.contains_key(k) {
                        assert(ids@.contains(k));
                        let j = choose|j: int| 0 <= j < ids@.len() && ids@[j] == k;
                        if j < i {
                            assert(ids@[j] <= ids@[i - 1]);
                        } else if j > i {
                            assert(ids@[i as int] < ids@[j]);
                        }
                    }
                }
                lemma_nearest_skip(m, t, lo, key as int);
                assert(ids@.contains(key));
            }
            match self.channel_refs.get(&key) {
                Some(refs) => {
                    if refs.len() > 0 {
                        let idx = lower_bound(refs, target.as_raw());
                        let i1 = if idx >= 1 {
                            idx - 1
                        } else {
                            0
                        };
                        let i2 = if idx < refs.len() {
                            idx
                        } else {
                            refs.len() - 1
                        };
                        let c1 = refs[i1];
                        let f1 = c1.rtc.elapsed_ticks(target);
                        let b1 = target.elapsed_ticks(c1.rtc);
                        let d1 = if f1 <= b1 {
                            f1
                        } else {
                            b1
                        };
                        if d1 < best_dist {
                            best_dist = d1;
                            best = Some(c1);
                        }
                        let c2 = refs[i2];
                        let f2 = c2.rtc.elapsed_ticks(target);
                        let b2 = target.elapsed_ticks(c2.rtc);
                        let d2 = if f2 <= b2 {
                            f2
                        } else {
                            b2
                        };
                        if d2 < best_dist {
                            best_dist = d2;
                            best = Some(c2);
                        }
                    }
                },
                None => {},
            }
            i = i + 1;
        }
        proof {
            let lo = if ids@.len() == 0 {
                0
            } else {
                ids@[ids@.len() - 1] + 1
            };
            assert forall|k: u16| lo <= k < 0x1_0000 implies !m.contains_key(k) by {
                if m.contains_key(k) {
                    assert(ids@.contains(k));
                    let j = choose|j: int| 0 <= j < ids@.len() && ids@[j] == k;
                    assert(ids@[j] <= ids@[ids@.len() - 1]);
                }
            }
            lemma_nearest_skip(m, t, lo, 0x1_0000);
        }
        match best {
            Some(b) => Ok(b),
            None => Err(TimeError::NoReferencePoint),
        }
    }

    /// The nearest point of one channel.
    fn nearest_for_channel(&self, target: Rtc, channel_id: u16) -> (r: Result<StreamingRef>)
        requires
            self.wf(),
        ensures
            ({
                let c = channel_points(self.channels(), channel_id);
                let pc = as_points(c);
                &&& c.len() == 0 ==> r == Err::<StreamingRef, TimeError>(
                    TimeError::NoReferencePoint,
                )
                &&& c.len() > 0 ==> r is Ok && r->Ok_0.point() == pc[crate::correlation::nearest_index(
                    pc,
                    target.raw(),
                )] && r->Ok_0.time.valid()
            }),
    {
        let refs = match self.channel_refs.get(&channel_id) {
            Some(refs) => refs,
            None => {
                return Err(TimeError::NoReferencePoint);
            },
        };
        if refs.len() == 0 {
            return Err(TimeError::NoReferencePoint);
        }
        let ghost c = refs@;
        proof {
            lemma_as_points(c, target.raw());
        }
        let idx = lower_bound(refs, target.as_raw());
        if idx == 0 {
            Ok(refs[0])
        } else if idx >= refs.len() {
            Ok(refs[refs.len() - 1])
        } else {
            let a = refs[idx - 1];
            let b = refs[idx];
            let fa = a.rtc.elapsed_ticks(target);
            let ba = target.elapsed_ticks(a.rtc);
            let da = if fa <= ba {
                fa
            } else {
                ba
            };
            let fb = b.rtc.elapsed_ticks(target);
            let bb = target.elapsed_ticks(b.rtc);
            let db = if fb <= bb {
                fb
            } else {
                bb
            };
            if da <= db {
                Ok(a)
            } else {
                Ok(b)
            }
        }
    }

    /// Evict, on every channel, the points whose RTC is more than the window behind the
    /// latest RTC.
    fn evict(&mut self)
        requires
            channels_wf(old(self).channels()),
            old(self).total_refs == total_len(old(self).channels()),
            old(self).spec_latest() is Some,
            old(self).spec_evicted() + total_len(old(self).channels()) <= usize::MAX,
        ensures
            final(self).wf(),
            final(self).channels() == evicted(
                old(self).channels(),
                eviction_cutoff(old(self).spec_latest()->Some_0, old(self).spec_max_age()),
            ),
            final(self).spec_evicted() == old(self).spec_evicted() + total_len(
                old(self).channels(),
            ) - total_len(final(self).channels()),
            final(self).spec_latest() == old(self).spec_latest(),
            final(self).spec_max_age() == old(self).spec_max_age(),
    {
        let latest = match self.latest_rtc {
            Some(r) => r,
            None => {
                return ;
            },
        };
        let cutoff_ticks = self.max_age_ns / 100;
        let cutoff_raw = latest.as_raw().saturating_sub(cutoff_ticks);
        let ghost m0 = self.channels();
        let ghost te0 = self.total_evicted;
        let ids = sorted_keys(&self.channel_refs);
        let mut i: usize = 0;
        while i < ids.len()
            invariant
                forall|a: int, b: int| 0 <= a < b < ids@.len() ==> ids@[a] < ids@[b],
                forall|k: u16| ids@.contains(k) <==> m0.contains_key(k),
                0 <= i <= ids@.len(),
                self.channels().dom() == m0.dom(),
                forall|k: u16|
                    #[trigger] m0.contains_key(k) ==> self.channels()[k] == if ids@.take(
                        i as int,
                    ).contains(k) {
                        keep_recent(m0[k], cutoff_raw)
                    } else {
                        m0[k]
                    },
                channels_wf(m0),
                channels_wf(self.channels()),
                self.total_refs == total_len(self.channels()),
                self.total_evicted == te0 + total_len(m0) - total_len(self.channels()),
                total_len(self.channels()) <= total_len(m0),
                te0 + total_len(m0) <= usize::MAX,
                self.latest_rtc == old(self).latest_rtc,
                self.max_age_ns == old(self).max_age_ns,
                cutoff_raw == eviction_cutoff(
                    old(self).spec_latest()->Some_0,
                    old(self).spec_max_age(),
                ),
            decreases ids@.len() - i,
        {
            let key = ids[i];
            let ghost mc = self.channels();
            proof {
                assert(ids@.contains(key));
                assert(!ids@.take(i as int).contains(key)) by {
                    if ids@.take(i as int).contains(key) {
                        let j = choose|j: int| 0 <= j < i && ids@.take(i as int)[j] == key;
                        assert(ids@[j] < ids@[i as int]);
                    }
                }
            }
            let refs = match self.channel_refs.remove(&key) {
                Some(v) => v,
                None => Vec::new(),
            };
            let before = refs.len();
            let kept = retain_recent(refs, cutoff_raw);
            let evicted_here = before - kept.len();
            let ghost kept_view = kept@;
            self.channel_refs.insert(key, kept);
            proof {
                assert(self.channels() =~= mc.insert(key, kept_view));
                lemma_sum_lens_insert(mc, key, kept_view, 0x1_0000);
                lemma_keep_recent(m0[key], cutoff_raw);
                assert(ids@.take(i as int + 1) =~= ids@.take(i as int).push(key));
                assert forall|k: u16| #[trigger] m0.contains_key(k) implies self.channels()[k]
                    == if ids@.take(i as int + 1).contains(k) {
                    keep_recent(m0[k], cutoff_raw)
                } else {
                    m0[k]
                } by {
                    if k != key {
                        assert(ids@.take(i as int + 1).contains(k) == ids@.take(i as int).contains(
                            k,
                        ));
                    } else {
                        assert(ids@.take(i as int + 1)[i as int] == key);
                    }
                }
                assert forall|ch: u16| #[trigger] self.channels().contains_key(ch) implies {
                    &&& keys_sorted(self.channels()[ch])
                    &&& forall|j: int|
                        0 <= j < self.channels()[ch].len() ==> (
                        #[trigger] self.channels()[ch][j]).channel_id == ch
                            && self.channels()[ch][j].time.valid()
                } by {
                    if ch == key {
                        let s = m0[key];
                        let kr = keep_recent(s, cutoff_raw);
                        assert forall|j: int| 0 <= j < kr.len() implies (#[trigger] kr[j]).channel_id
                            == ch && kr[j].time.valid() by {
                            let q = choose|q: int| 0 <= q < s.len() && s[q] == kr[j];
                        }
                    }
                }
            }
            self.total_refs = self.total_refs - evicted_here;
            self.total_evicted = self.total_evicted + evicted_here;
            i = i + 1;
        }
        proof {
            assert(ids@.take(ids@.len() as int) =~= ids@);
            assert(self.channels() =~= evicted(m0, cutoff_raw));
        }
    }

    /// Total number of reference points currently in the window.
    pub fn len(&self) -> (r: usize)
        requires
            self.wf(),
        ensures
            r == total_len(self.channels()),
    {
        self.total_refs
    }

    /// Whether the window holds no reference points.
    pub fn is_empty(&self) -> (r: bool)
        requires
            self.wf(),
        ensures
            r == (total_len(self.channels()) == 0),
    {
        self.total_refs == 0
    }

    /// Total number of reference points evicted since creation.
    pub fn total_evicted(&self) -> (r: usize)
        ensures
            r == self.spec_evicted(),
    {
        self.total_evicted
    }

    /// The window in nanoseconds.
    pub fn max_age_ns(&self) -> (r: u64)
        ensures
            r == self.spec_max_age(),
    {
        self.max_age_ns
    }

    /// The latest RTC value seen.
    pub fn latest_rtc(&self) -> (r: Option<Rtc>)
        ensures
            r == self.spec_latest(),
    {
        self.latest_rtc
    }

    /// Channel IDs that currently have points in the window, in increasing order.
    pub fn channel_ids(&self) -> (r: Vec<u16>)
        ensures
            forall|i: int, j: int| 0 <= i < j < r@.len() ==> r@[i] < r@[j],
            forall|ch: u16|
                r@.contains(ch) <==> self.channels().contains_key(ch)
                    && self.channels()[ch].len() > 0,
    {
        let ids = sorted_keys(&self.channel_refs);
        let ghost m = self.channels();
        let mut out: Vec<u16> = Vec::new();
        let mut i: usize = 0;
        while i < ids.len()
            invariant
                m == self.channels(),
                forall|a: int, b: int| 0 <= a < b < ids@.len() ==> ids@[a] < ids@[b],
                forall|k: u16| ids@.contains(k) <==> m.contains_key(k),
                0 <= i <= ids@.len(),
                forall|a: int, b: int| 0 <= a < b < out@.len() ==> out@[a] < out@[b],
                out@.len() > 0 ==> i > 0 && out@[out@.len() - 1] <= ids@[i - 1],
                forall|ch: u16|
                    #![trigger out@.contains(ch)]
                    #![trigger ids@.take(i as int).contains(ch)]
                    out@.contains(ch) <==> ids@.take(i as int).contains(ch) && m[ch].len() > 0,
            decreases ids@.len() - i,
        {
            let key = ids[i];
            proof {
                assert(ids@.take(i as int + 1) =~= ids@.take(i as int).push(key));
                assert(ids@.contains(key));
            }
            let keep = match self.channel_refs.get(&key) {
                Some(v) => v.len() > 0,
                None => false,
            };
            let ghost old_out = out@;
            assert(keep == (m[key].len() > 0));
            if keep {
                proof {
                    if out@.len() > 0 {
                        assert(ids@[i - 1] < ids@[i as int]);
                    }
                }
                out.push(key);
            }
            proof {
                let t0 = ids@.take(i as int);
                let t1 = ids@.take(i as int + 1);
                assert forall|ch: u16| t1.contains(ch) <==> t0.contains(ch) || ch == key by {
                    if t1.contains(ch) {
                        let q = choose|q: int| 0 <= q < t1.len() && t1[q] == ch;
                        if q < i {
                            assert(t0[q] == ch);
                        }
                    }
                    if t0.contains(ch) {
                        let q = choose|q: int| 0 <= q < t0.len() && t0[q] == ch;
                        assert(t1[q] == ch);
                    }
                    if ch == key {
                        assert(t1[i as int] == key);
                    }
                }
                assert(!t0.contains(key)) by {
                    if t0.contains(key) {
                        let q = choose|q: int| 0 <= q < t0.len() && t0[q] == key;
                        assert(ids@[q] < ids@[i as int]);
                    }
                }
                assert forall|ch: u16| out@.contains(ch) <==> t1.contains(ch) && m[ch].len()
                    > 0 by {
                    assert(old_out.contains(ch) == (t0.contains(ch) && m[ch].len() > 0));
                    if keep {
                        assert(out@ =~= old_out.push(key));
                        if ch == key {
                            assert(out@[out@.len() - 1] == key);
                        } else if out@.contains(ch) {
                            let q = choose|q: int| 0 <= q < out@.len() && out@[q] == ch;
                            assert(old_out[q] == ch);
                        } else if old_out.contains(ch) {
                            let q = choose|q: int| 0 <= q < old_out.len() && old_out[q] == ch;
                            assert(out@[q] == ch);
                        }
                    }
                }
            }
            i = i + 1;
        }
        proof {
            assert(ids@.take(ids@.len() as int) =~= ids@);
        }
        out
    }

    /// Number of reference points of one channel in the window.
    pub fn channel_len(&self, channel_id: u16) -> (r: usize)
        ensures
            r == channel_points(self.channels(), channel_id).len(),
    {
        match self.channel_refs.get(&channel_id) {
            Some(r) => r.len(),
            None => 0,
        }
    }
}

/// Keep the points whose RTC is at or after `cutoff`, in order.
fn retain_recent(refs: Vec<StreamingRef>, cutoff: u64) -> (r: Vec<StreamingRef>)
    ensures
        r@ == keep_recent(refs@, cutoff),
        r@.len() <= refs@.len(),
{
    proof {
        lemma_keep_recent(refs@, cutoff);
    }
    let mut kept: Vec<StreamingRef> = Vec::new();
    let mut i: usize = 0;
    while i < refs.len()
        invariant
            0 <= i <= refs@.len(),
            kept@ == keep_recent(refs@.take(i as int), cutoff),
        decreases refs@.len() - i,
    {
        proof {
            assert(refs@.take(i as int + 1).drop_last() =~= refs@.take(i as int));
        }
        if refs[i].rtc.as_raw() >= cutoff {
            kept.push(refs[i]);
        }
        i = i + 1;
    }
    proof {
        assert(refs@.take(refs@.len() as int) =~= refs@);
    }
    kept
}

/// No channels, no points.
proof fn lemma_sum_lens_empty(n: int)
    ensures
        sum_lens(Map::<u16, Seq<StreamingRef>>::empty(), n) == 0,
    decreases n,
{
    if n > 0 {
        lemma_sum_lens_empty(n - 1);
    }
}

} // verus!
