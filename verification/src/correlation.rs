//! RTC-to-absolute-time correlation engine.
//!
//! Reference points pair an RTC value with an absolute time on a channel. They are kept in
//! two structures: a flat vector sorted by RTC (for any-channel lookup) and a per-channel
//! index of vectors sorted by RTC (for channel-filtered lookup). The index always holds, for
//! each channel, exactly the points of the flat vector on that channel, in the same order.

use vstd::prelude::*;
use std::collections::BTreeMap;
use crate::absolute::{
    lemma_total_bounds, lemma_total_round_trip, spec_add_nanos, spec_sub_nanos, AbsoluteTime,
};
use crate::error::{Result, TimeError};
use crate::network_time::{
    saturating_diff, spec_offset_at_unix, LeapSecondTable, NetworkTime, DEFAULT_TAI_UTC_OFFSET,
};
use crate::rtc::{spec_elapsed_ticks, Rtc};
use crate::search::{
    count_below, insert_sorted, insert_sorted_last, keys_sorted, lemma_count_below_prefix,
    lemma_count_below_split, lower_bound, stable_sort, SortKey,
};
use vstd::std_specs::btree::spec_keys_iter;
use vstd::std_specs::iter::IteratorSpec;

verus! {

broadcast use vstd::std_specs::btree::group_btree_axioms, vstd::laws_cmp::group_laws_cmp;

/// Default out-of-order window for post-105 files: 2 seconds in nanoseconds.
pub const DEFAULT_OOO_WINDOW_NS: u64 = 2_000_000_000;

/// A reference point pairing an RTC value with an absolute time on a channel.
#[derive(Debug, Clone, Copy, PartialEq, Eq, Structural)]
pub struct ReferencePoint {
    /// Channel ID of the time source.
    pub channel_id: u16,
    /// RTC value at the instant the absolute time was valid.
    pub rtc: Rtc,
    /// Decoded absolute time from the time packet.
    pub time: AbsoluteTime,
}

impl SortKey for ReferencePoint {
    open spec fn sort_key(&self) -> u64 {
        self.rtc.raw()
    }

    fn key(&self) -> (r: u64) {
        self.rtc.as_raw()
    }
}

/// A detected discontinuity in absolute time progression.
#[derive(Debug, Clone, PartialEq, Eq, Structural)]
pub struct TimeJump {
    /// Index of the later reference point in the correlator's list.
    pub index: usize,
    /// Channel ID where the jump was detected.
    pub channel_id: u16,
    /// Expected absolute time (nanoseconds of day) based on RTC progression.
    pub expected_nanos: u64,
    /// Actual absolute time (nanoseconds of day) from the reference point.
    pub actual_nanos: u64,
    /// Signed difference: actual - expected (positive = jump forward).
    pub delta_nanos: i64,
}

/// A detected RTC counter reset: the RTC went backward while absolute time advanced.
#[derive(Debug, Clone, PartialEq, Eq, Structural)]
pub struct RtcReset {
    /// Index of the reference point after the reset.
    pub index: usize,
    /// Channel ID where the reset was detected.
    pub channel_id: u16,
    /// RTC value before the reset.
    pub rtc_before: Rtc,
    /// RTC value after the reset.
    pub rtc_after: Rtc,
    /// Absolute time before the reset.
    pub time_before: AbsoluteTime,
    /// Absolute time after the reset.
    pub time_after: AbsoluteTime,
}

// ── Model ────────────────────────────────────────────────────────────

/// The points of `s` on channel `ch`, in order.
pub open spec fn on_channel(s: Seq<ReferencePoint>, ch: u16) -> Seq<ReferencePoint>
    decreases s.len(),
{
    if s.len() == 0 {
        Seq::empty()
    } else if s.last().channel_id == ch {
        on_channel(s.drop_last(), ch).push(s.last())
    } else {
        on_channel(s.drop_last(), ch)
    }
}

/// Every point holds a valid absolute time.
pub open spec fn points_valid(s: Seq<ReferencePoint>) -> bool {
    forall|i: int| 0 <= i < s.len() ==> (#[trigger] s[i]).time.valid()
}

/// Distance between two RTC values around the 48-bit circle.
pub open spec fn circular_distance(a: u64, b: u64) -> int {
    let forward = spec_elapsed_ticks(a, b);
    let backward = spec_elapsed_ticks(b, a);
    if forward <= backward {
        forward
    } else {
        backward
    }
}

/// Index of the point nearest to `target` in an RTC-sorted sequence: of the last point
/// below the target and the first point at or above it, the closer one around the 48-bit
/// circle, the earlier one on a tie; the first or last point when the target lies outside.
pub open spec fn nearest_index(s: Seq<ReferencePoint>, target: u64) -> int {
    let i = count_below(s, target) as int;
    if i == 0 {
        0
    } else if i >= s.len() {
        s.len() - 1
    } else if circular_distance(s[i - 1].rtc.raw(), target) <= circular_distance(
        s[i].rtc.raw(),
        target,
    ) {
        i - 1
    } else {
        i
    }
}

/// The absolute time at `target` reckoned from a reference point: forward by the elapsed
/// RTC time when the target is at or after the point, backward otherwise.
pub open spec fn resolve_from(p: ReferencePoint, target: u64) -> AbsoluteTime {
    if target >= p.rtc.raw() {
        spec_add_nanos(p.time, 100 * spec_elapsed_ticks(p.rtc.raw(), target))
    } else {
        spec_sub_nanos(p.time, 100 * spec_elapsed_ticks(target, p.rtc.raw()))
    }
}

/// What correlating `target` against the points `s` gives.
pub open spec fn spec_correlate(s: Seq<ReferencePoint>, target: u64) -> Result<AbsoluteTime> {
    if s.len() == 0 {
        Err(TimeError::NoReferencePoint)
    } else {
        Ok(resolve_from(s[nearest_index(s, target)], target))
    }
}

// ── Lemmas on the per-channel view ───────────────────────────────────

/// Taking the points of a channel distributes over concatenation.
pub proof fn lemma_on_channel_add(a: Seq<ReferencePoint>, b: Seq<ReferencePoint>, ch: u16)
    ensures
        on_channel(a + b, ch) == on_channel(a, ch) + on_channel(b, ch),
    decreases b.len(),
{
    if b.len() == 0 {
        assert(a + b =~= a);
        assert(on_channel(b, ch) =~= Seq::<ReferencePoint>::empty());
        assert(on_channel(a, ch) + on_channel(b, ch) =~= on_channel(a, ch));
    } else {
        assert((a + b).drop_last() =~= a + b.drop_last());
        assert((a + b).last() == b.last());
        lemma_on_channel_add(a, b.drop_last(), ch);
        if b.last().channel_id == ch {
            assert(on_channel(a, ch) + on_channel(b.drop_last(), ch).push(b.last()) =~= (on_channel(
                a,
                ch,
            ) + on_channel(b.drop_last(), ch)).push(b.last()));
        }
    }
}

/// The points of a channel are points of the sequence, on that channel.
pub proof fn lemma_on_channel_members(s: Seq<ReferencePoint>, ch: u16)
    ensures
        on_channel(s, ch).len() <= s.len(),
        forall|j: int|
            0 <= j < on_channel(s, ch).len() ==> (#[trigger] on_channel(s, ch)[j]).channel_id == ch
                && s.contains(on_channel(s, ch)[j]),
    decreases s.len(),
{
    if s.len() > 0 {
        let t = s.drop_last();
        lemma_on_channel_members(t, ch);
        let oc = on_channel(s, ch);
        assert forall|j: int| 0 <= j < oc.len() implies (#[trigger] oc[j]).channel_id == ch
            && s.contains(oc[j]) by {
            if j < on_channel(t, ch).len() {
                assert(oc[j] == on_channel(t, ch)[j]);
                let k = choose|k: int| 0 <= k < t.len() && t[k] == oc[j];
                assert(s[k] == oc[j]);
            } else {
                assert(oc[j] == s.last());
                assert(s[s.len() - 1] == oc[j]);
            }
        }
    }
}

/// A channel has points exactly when some point of the sequence is on it.
pub proof fn lemma_on_channel_nonempty(s: Seq<ReferencePoint>, ch: u16)
    ensures
        on_channel(s, ch).len() > 0 <==> exists|i: int|
            0 <= i < s.len() && (#[trigger] s[i]).channel_id == ch,
    decreases s.len(),
{
    if s.len() > 0 {
        let t = s.drop_last();
        lemma_on_channel_nonempty(t, ch);
        if exists|i: int| 0 <= i < s.len() && (#[trigger] s[i]).channel_id == ch {
            let i = choose|i: int| 0 <= i < s.len() && (#[trigger] s[i]).channel_id == ch;
            if i < t.len() {
                assert(t[i] == s[i]);
            }
        }
        if exists|i: int| 0 <= i < t.len() && (#[trigger] t[i]).channel_id == ch {
            let i = choose|i: int| 0 <= i < t.len() && (#[trigger] t[i]).channel_id == ch;
            assert(s[i] == t[i]);
        }
    }
}

/// The points of a channel of a sorted sequence are sorted.
pub proof fn lemma_on_channel_sorted(s: Seq<ReferencePoint>, ch: u16)
    requires
        keys_sorted(s),
    ensures
        keys_sorted(on_channel(s, ch)),
    decreases s.len(),
{
    if s.len() > 0 {
        let t = s.drop_last();
        assert(keys_sorted(t)) by {
            assert forall|i: int, j: int| 0 <= i <= j < t.len() implies t[i].sort_key()
                <= t[j].sort_key() by {
                assert(t[i] == s[i] && t[j] == s[j]);
            }
        }
        lemma_on_channel_sorted(t, ch);
        if s.last().channel_id == ch {
            let ot = on_channel(t, ch);
            let oc = on_channel(s, ch);
            lemma_on_channel_members(t, ch);
            assert forall|i: int, j: int| 0 <= i <= j < oc.len() implies oc[i].sort_key()
                <= oc[j].sort_key() by {
                if j == oc.len() - 1 {
                    if i < j {
                        assert(oc[i] == ot[i]);
                        assert(t.contains(ot[i]));
                        let k = choose|k: int| 0 <= k < t.len() && t[k] == ot[i];
                        assert(s[k] == t[k]);
                        assert(oc[j] == s[s.len() - 1]);
                    }
                } else {
                    assert(oc[i] == ot[i] && oc[j] == ot[j]);
                }
            }
        }
    }
}

/// The points of a channel are the points of the sequence on that channel, in order.
pub proof fn lemma_on_channel_is_filter(s: Seq<ReferencePoint>, ch: u16)
    ensures
        on_channel(s, ch) == s.filter(|r: ReferencePoint| r.channel_id == ch),
    decreases s.len(),
{
    reveal(Seq::filter);
    if s.len() > 0 {
        lemma_on_channel_is_filter(s.drop_last(), ch);
    }
}

/// A channel's points, as `channel_references` gives them, are the sequence's points on
/// that channel in order, and sorted by RTC when the sequence is.
pub proof fn lemma_channel_references(s: Seq<ReferencePoint>, ch: u16)
    ensures
        on_channel(s, ch) == s.filter(|r: ReferencePoint| r.channel_id == ch),
        on_channel(s, ch).to_multiset() == s.filter(|r: ReferencePoint| r.channel_id == ch).to_multiset(),
        keys_sorted(s) ==> keys_sorted(on_channel(s, ch)),
{
    lemma_on_channel_is_filter(s, ch);
    if keys_sorted(s) {
        lemma_on_channel_sorted(s, ch);
    }
}

/// Number of points on the channels with IDs below `n`.
pub open spec fn channel_total(s: Seq<ReferencePoint>, n: int) -> nat
    decreases n,
{
    if n <= 0 {
        0
    } else {
        channel_total(s, n - 1) + on_channel(s, (n - 1) as u16).len()
    }
}

/// Dropping the last point takes one point from the channels below `n` when its channel
/// is one of them.
proof fn lemma_channel_total_drop_last(s: Seq<ReferencePoint>, n: int)
    requires
        s.len() > 0,
        0 <= n <= 0x1_0000,
    ensures
        channel_total(s, n) == channel_total(s.drop_last(), n) + if (s.last().channel_id as int)
            < n {
            1nat
        } else {
            0
        },
    decreases n,
{
    if n > 0 {
        lemma_channel_total_drop_last(s, n - 1);
    }
}

/// The number of points is the sum, over all channels, of the number of points on each.
pub proof fn lemma_len_is_sum_of_channels(s: Seq<ReferencePoint>)
    ensures
        channel_total(s, 0x1_0000) == s.len(),
    decreases s.len(),
{
    if s.len() == 0 {
        lemma_channel_total_empty(s, 0x1_0000);
    } else {
        lemma_channel_total_drop_last(s, 0x1_0000);
        lemma_len_is_sum_of_channels(s.drop_last());
    }
}

/// With no points, every channel has none.
proof fn lemma_channel_total_empty(s: Seq<ReferencePoint>, n: int)
    requires
        s.len() == 0,
    ensures
        channel_total(s, n) == 0,
    decreases n,
{
    if n > 0 {
        lemma_channel_total_empty(s, n - 1);
    }
}

/// Adding a point keeps the points sorted and makes them those of before plus the new one;
/// the new point's channel likewise gains exactly that point, still sorted, and every other
/// channel is unchanged.
pub proof fn lemma_add_reference_permutation(s: Seq<ReferencePoint>, p: ReferencePoint)
    requires
        keys_sorted(s),
    ensures
        ({
            let t = s.insert(count_below(s, p.rtc.raw()) as int, p);
            &&& keys_sorted(t)
            &&& t.to_multiset() == s.push(p).to_multiset()
            &&& keys_sorted(on_channel(t, p.channel_id))
            &&& on_channel(t, p.channel_id).to_multiset() == on_channel(s, p.channel_id).push(
                p,
            ).to_multiset()
            &&& forall|ch: u16| ch != p.channel_id ==> #[trigger] on_channel(t, ch) == on_channel(s, ch)
        }),
{
    broadcast use vstd::seq_lib::to_multiset_insert, vstd::seq_lib::to_multiset_build;

    let i = count_below(s, p.rtc.raw()) as int;
    let t = s.insert(i, p);
    lemma_count_below_prefix(s, p.rtc.raw());
    crate::search::lemma_insert_sorted(s, p);
    lemma_on_channel_sorted(t, p.channel_id);
    lemma_on_channel_insert(s, p, p.channel_id);
    let c = on_channel(s, p.channel_id);
    lemma_on_channel_sorted(s, p.channel_id);
    lemma_count_below_prefix(c, p.rtc.raw());
    assert(t.to_multiset() == s.to_multiset().insert(p));
    assert(c.insert(count_below(c, p.rtc.raw()) as int, p).to_multiset() == c.to_multiset().insert(p));
    assert forall|ch: u16| ch != p.channel_id implies #[trigger] on_channel(t, ch) == on_channel(s, ch) by {
        lemma_on_channel_insert(s, p, ch);
    }
}

/// Inserting a point at its RTC position inserts it at its RTC position among the points of
/// its channel, and leaves the other channels unchanged.
pub proof fn lemma_on_channel_insert(s: Seq<ReferencePoint>, p: ReferencePoint, ch: u16)
    requires
        keys_sorted(s),
    ensures
        on_channel(s.insert(count_below(s, p.sort_key()) as int, p), ch) == if p.channel_id
            == ch {
            on_channel(s, ch).insert(count_below(on_channel(s, ch), p.sort_key()) as int, p)
        } else {
            on_channel(s, ch)
        },
{
    let k = p.sort_key();
    let i = count_below(s, k) as int;
    lemma_count_below_prefix(s, k);
    let a = s.subrange(0, i);
    let b = s.subrange(i, s.len() as int);
    assert(s =~= a + b);
    assert(s.insert(i, p) =~= a + (seq![p] + b));
    lemma_on_channel_add(a, seq![p] + b, ch);
    lemma_on_channel_add(seq![p], b, ch);
    lemma_on_channel_add(a, b, ch);
    let e = seq![p];
    assert(e.drop_last() =~= Seq::<ReferencePoint>::empty());
    assert(e.last() == p);
    assert(on_channel(e.drop_last(), ch).len() == 0);
    let oa = on_channel(a, ch);
    let ob = on_channel(b, ch);
    if p.channel_id == ch {
        assert(on_channel(e, ch) =~= seq![p]);
        let oc = on_channel(s, ch);
        lemma_on_channel_sorted(s, ch);
        lemma_on_channel_members(a, ch);
        lemma_on_channel_members(b, ch);
        assert forall|j: int| 0 <= j < oa.len() implies oc[j].sort_key() < k by {
            assert(oc[j] == oa[j]);
            assert(a.contains(oa[j]));
            let m = choose|m: int| 0 <= m < a.len() && a[m] == oa[j];
            assert(s[m] == a[m]);
        }
        assert forall|j: int| oa.len() <= j < oc.len() implies oc[j].sort_key() >= k by {
            assert(oc[j] == ob[j - oa.len()]);
            assert(b.contains(ob[j - oa.len()]));
            let m = choose|m: int| 0 <= m < b.len() && b[m] == ob[j - oa.len()];
            assert(s[i + m] == b[m]);
        }
        lemma_count_below_split(oc, k, oa.len() as int);
        assert(oa + (seq![p] + ob) =~= (oa + ob).insert(oa.len() as int, p));
    } else {
        assert(on_channel(e, ch) =~= Seq::<ReferencePoint>::empty());
        assert(oa + (Seq::<ReferencePoint>::empty() + ob) =~= oa + ob);
    }
}

/// Inserting a point with a valid time keeps all times valid.
proof fn lemma_points_valid_insert(s: Seq<ReferencePoint>, i: int, p: ReferencePoint)
    requires
        points_valid(s),
        p.time.valid(),
        0 <= i <= s.len(),
    ensures
        points_valid(s.insert(i, p)),
{
    let t = s.insert(i, p);
    assert forall|j: int| 0 <= j < t.len() implies (#[trigger] t[j]).time.valid() by {
        if j < i {
            assert(t[j] == s[j]);
        } else if j > i {
            assert(t[j] == s[j - 1]);
        }
    }
}

// ── The correlator ───────────────────────────────────────────────────

/// Correlates RTC values to absolute time using time reference points.
pub struct TimeCorrelator {
    /// All reference points sorted by RTC.
    references: Vec<ReferencePoint>,
    /// Per-channel reference points, each sorted by RTC.
    channel_index: BTreeMap<u16, Vec<ReferencePoint>>,
    /// Maximum out-of-order window in nanoseconds.
    ooo_window_ns: Option<u64>,
}

impl View for TimeCorrelator {
    type V = Seq<ReferencePoint>;

    /// All reference points, sorted by RTC.
    closed spec fn view(&self) -> Seq<ReferencePoint> {
        self.references@
    }
}

impl TimeCorrelator {
    /// The points are sorted by RTC and hold valid times, and the channel index holds, for
    /// each channel with points, exactly those points.
    pub closed spec fn wf(self) -> bool {
        &&& keys_sorted(self.references@)
        &&& points_valid(self.references@)
        &&& rtcs_valid(self.references@)
        &&& forall|ch: u16|
            #![trigger self.channel_index@.contains_key(ch)]
            #![trigger on_channel(self.references@, ch)]
            self.channel_index@.contains_key(ch) <==> on_channel(self.references@, ch).len() > 0
        &&& forall|ch: u16|
            #[trigger] self.channel_index@.contains_key(ch) ==> self.channel_index@[ch]@
                == on_channel(self.references@, ch)
    }

    /// The configured out-of-order window.
    pub closed spec fn ooo_window(self) -> Option<u64> {
        self.ooo_window_ns
    }

    /// A well-formed correlator's points are sorted by RTC and hold valid times.
    pub proof fn lemma_wf(self)
        requires
            self.wf(),
        ensures
            keys_sorted(self@),
            points_valid(self@),
            rtcs_valid(self@),
    {
    }

    /// Create an empty correlator with unbounded out-of-order tolerance.
    pub fn new() -> (r: Self)
        ensures
            r.wf(),
            r@ == Seq::<ReferencePoint>::empty(),
            r.ooo_window() == None::<u64>,
    {
        TimeCorrelator {
            references: Vec::new(),
            channel_index: BTreeMap::new(),
            ooo_window_ns: None,
        }
    }

    /// Create an empty correlator with a bounded out-of-order window (`None` for unbounded).
    pub fn with_ooo_window(ooo_window_ns: Option<u64>) -> (r: Self)
        ensures
            r.wf(),
            r@ == Seq::<ReferencePoint>::empty(),
            r.ooo_window() == ooo_window_ns,
    {
        TimeCorrelator { references: Vec::new(), channel_index: BTreeMap::new(), ooo_window_ns }
    }

    /// Number of reference points stored.
    pub fn len(&self) -> (r: usize)
        ensures
            r == self@.len(),
    {
        self.references.len()
    }

    /// Whether the correlator has no reference points.
    pub fn is_empty(&self) -> (r: bool)
        ensures
            r == (self@.len() == 0),
    {
        self.references.len() == 0
    }

    /// Insert a reference point, keeping RTC order in the flat list and in the channel's
    /// list: it goes before any point at the same RTC or later.
    pub fn add_reference(&mut self, channel_id: u16, rtc: Rtc, time: AbsoluteTime)
        requires
            old(self).wf(),
            time.valid(),
        ensures
            final(self).wf(),
            final(self)@ == old(self)@.insert(
                count_below(old(self)@, rtc.raw()) as int,
                ReferencePoint { channel_id, rtc, time },
            ),
            final(self).ooo_window() == old(self).ooo_window(),
    {
        let point = ReferencePoint { channel_id, rtc, time };
        let raw = rtc.as_raw();
        let ghost old_refs = self.references@;
        let ghost old_index = self.channel_index@;
        proof {
            lemma_count_below_prefix(old_refs, rtc.raw());
            lemma_points_valid_insert(old_refs, count_below(old_refs, rtc.raw()) as int, point);
            let t = old_refs.insert(count_below(old_refs, raw) as int, point);
            assert forall|j: int| 0 <= j < t.len() implies (#[trigger] t[j]).rtc.raw()
                < 0x1_0000_0000_0000 by {
                if j < count_below(old_refs, raw) {
                    assert(t[j] == old_refs[j]);
                } else if j > count_below(old_refs, raw) {
                    assert(t[j] == old_refs[j - 1]);
                }
            }
            lemma_on_channel_sorted(old_refs, channel_id);
        }
        insert_sorted(&mut self.references, point);
        let mut channel_refs = match self.channel_index.remove(&channel_id) {
            Some(v) => v,
            None => Vec::new(),
        };
        proof {
            lemma_on_channel_insert(old_refs, point, channel_id);
            if !old_index.contains_key(channel_id) {
                assert(on_channel(old_refs, channel_id).len() == 0);
                assert(channel_refs@ =~= on_channel(old_refs, channel_id));
            }
        }
        insert_sorted(&mut channel_refs, point);
        self.channel_index.insert(channel_id, channel_refs);
        proof {
            let new_refs = self.references@;
            assert forall|ch: u16| #[trigger]
                self.channel_index@.contains_key(ch) <==> on_channel(new_refs, ch).len() > 0 by {
                lemma_on_channel_insert(old_refs, point, ch);
            }
            assert forall|ch: u16| #[trigger]
                self.channel_index@.contains_key(ch) implies self.channel_index@[ch]@
                == on_channel(new_refs, ch) by {
                lemma_on_channel_insert(old_refs, point, ch);
            }
        }
    }

    /// Insert a Format 2 (network time) reference point: NTP time is converted directly;
    /// PTP time is converted from TAI to UTC with the table's offset at the TAI time.
    pub fn add_reference_f2(
        &mut self,
        channel_id: u16,
        rtc: Rtc,
        network_time: &NetworkTime,
        leap_table: &LeapSecondTable,
    ) -> (r: Result<()>)
        requires
            old(self).wf(),
            leap_table.wf(),
            network_time matches NetworkTime::Ptp(p) ==> spec_offset_at_unix(
                leap_table@,
                saturating_diff(p.seconds, DEFAULT_TAI_UTC_OFFSET as u64),
            ) != i32::MIN,
        ensures
            final(self).wf(),
            final(self).ooo_window() == old(self).ooo_window(),
            match spec_f2_time(*network_time, leap_table@) {
                Ok(t) => r is Ok && final(self)@ == old(self)@.insert(
                    count_below(old(self)@, rtc.raw()) as int,
                    ReferencePoint { channel_id, rtc, time: t },
                ),
                Err(e) => r == Err::<(), TimeError>(e) && *final(self) == *old(self),
            },
    {
        let abs_time = match network_time {
            NetworkTime::Ntp(ntp) => ntp.to_absolute()?,
            NetworkTime::Ptp(ptp) => {
                let offset = leap_table.offset_at_tai(ptp.seconds);
                ptp.to_absolute(offset)?
            },
        };
        self.add_reference(channel_id, rtc, abs_time);
        Ok(())
    }

    /// Correlate an RTC value to absolute time from the nearest reference point; with a
    /// channel, only that channel's points are considered.
    pub fn correlate(&self, target_rtc: Rtc, channel_id: Option<u16>) -> (r: Result<AbsoluteTime>)
        requires
            self.wf(),
        ensures
            r == match channel_id {
                Some(ch) => spec_correlate(on_channel(self@, ch), target_rtc.raw()),
                None => spec_correlate(self@, target_rtc.raw()),
            },
            r is Ok ==> r->Ok_0.valid(),
    {
        let nearest = match channel_id {
            Some(id) => self.nearest_for_channel(target_rtc, id)?,
            None => self.nearest_any(target_rtc)?,
        };
        proof {
            lemma_total_bounds(nearest.time);
        }
        if target_rtc.as_raw() >= nearest.rtc.as_raw() {
            let delta_nanos = nearest.rtc.elapsed_nanos(target_rtc);
            Ok(nearest.time.add_nanos(delta_nanos))
        } else {
            let delta_nanos = target_rtc.elapsed_nanos(nearest.rtc);
            Ok(nearest.time.sub_nanos(delta_nanos))
        }
    }

    /// The nearest reference point of any channel.
    fn nearest_any(&self, target: Rtc) -> (r: Result<ReferencePoint>)
        requires
            self.wf(),
        ensures
            self@.len() == 0 ==> r == Err::<ReferencePoint, TimeError>(TimeError::NoReferencePoint),
            self@.len() > 0 ==> r == Ok::<ReferencePoint, TimeError>(
                self@[nearest_index(self@, target.raw())],
            ),
            r is Ok ==> r->Ok_0.time.valid(),
    {
        nearest_in(&self.references, target)
    }

    /// The nearest reference point of one channel.
    fn nearest_for_channel(&self, target: Rtc, channel_id: u16) -> (r: Result<ReferencePoint>)
        requires
            self.wf(),
        ensures
            ({
                let c = on_channel(self@, channel_id);
                &&& c.len() == 0 ==> r == Err::<ReferencePoint, TimeError>(
                    TimeError::NoReferencePoint,
                )
                &&& c.len() > 0 ==> r == Ok::<ReferencePoint, TimeError>(
                    c[nearest_index(c, target.raw())],
                )
                &&& r is Ok ==> r->Ok_0.time.valid()
            }),
    {
        proof {
            lemma_on_channel_sorted(self.references@, channel_id);
            lemma_on_channel_valid(self.references@, channel_id);
        }
        match self.channel_index.get(&channel_id) {
            Some(ch_refs) => nearest_in(ch_refs, target),
            None => Err(TimeError::NoReferencePoint),
        }
    }

    /// Access all reference points, sorted by RTC across all channels.
    pub fn references(&self) -> (r: &[ReferencePoint])
        ensures
            r@ == self@,
    {
        self.references.as_slice()
    }

    /// Access the reference points of one channel, sorted by RTC (empty if it has none).
    pub fn channel_references(&self, channel_id: u16) -> (r: &[ReferencePoint])
        requires
            self.wf(),
        ensures
            r@ == on_channel(self@, channel_id),
    {
        match self.channel_index.get(&channel_id) {
            Some(v) => v.as_slice(),
            None => vstd::slice::slice_subrange(self.references.as_slice(), 0, 0),
        }
    }

    /// Global index of a point in the flat list: the first position holding an equal point,
    /// or 0 when there is none.
    fn global_index_of(&self, point: &ReferencePoint) -> (r: usize)
        ensures
            r == global_index(self@, *point),
    {
        let mut i: usize = 0;
        while i < self.references.len()
            invariant
                0 <= i <= self.references@.len(),
                first_position(self.references@.take(i as int), *point) == -1,
            decreases self.references@.len() - i,
        {
            proof {
                let s = self.references@;
                assert(s.take(i as int + 1).drop_last() =~= s.take(i as int));
            }
            if self.references[i] == *point {
                proof {
                    let s = self.references@;
                    lemma_first_position_prefix(s, i as int + 1, *point);
                }
                return i;
            }
            i = i + 1;
        }
        proof {
            assert(self.references@.take(i as int) =~= self.references@);
        }
        0
    }

    /// Detect time jumps on a channel: consecutive points (in RTC order) whose absolute
    /// times differ from what the elapsed RTC predicts by more than `threshold_ns`.
    #[verifier::spinoff_prover]
    #[verifier::rlimit(40)]
    pub fn detect_time_jump(&self, channel_id: u16, threshold_ns: u64) -> (r: Vec<TimeJump>)
        requires
            self.wf(),
        ensures
            r@ == spec_time_jumps(on_channel(self@, channel_id), self@, channel_id, threshold_ns),
            forall|j: TimeJump| #[trigger]
                r@.contains(j) ==> j.channel_id == channel_id && j.delta_nanos == j.actual_nanos
                    - j.expected_nanos && (j.delta_nanos > threshold_ns || -j.delta_nanos
                    > threshold_ns),
            forall|k: int|
                1 <= k < on_channel(self@, channel_id).len() && (on_channel(
                    self@,
                    channel_id,
                )[k].time.nanos_of_day() - predicted_nanos(
                    on_channel(self@, channel_id)[k - 1],
                    on_channel(self@, channel_id)[k],
                ) > threshold_ns || predicted_nanos(
                    on_channel(self@, channel_id)[k - 1],
                    on_channel(self@, channel_id)[k],
                ) - on_channel(self@, channel_id)[k].time.nanos_of_day() > threshold_ns)
                    ==> exists|j: TimeJump| #[trigger]
                    r@.contains(j) && j.actual_nanos == on_channel(
                        self@,
                        channel_id,
                    )[k].time.nanos_of_day() && j.expected_nanos == predicted_nanos(
                        on_channel(self@, channel_id)[k - 1],
                        on_channel(self@, channel_id)[k],
                    ),
    {
        proof {
            lemma_on_channel_valid(self.references@, channel_id);
            lemma_time_jumps_sound(on_channel(self@, channel_id), self@, channel_id, threshold_ns);
            lemma_time_jumps_complete(
                on_channel(self@, channel_id),
                self@,
                channel_id,
                threshold_ns,
            );
        }
        let ch_refs = match self.channel_index.get(&channel_id) {
            Some(refs) => refs,
            None => {
                proof {
                    assert(on_channel(self@, channel_id).len() == 0);
                }
                return Vec::new();
            },
        };
        let ghost c = ch_refs@;
        let mut jumps: Vec<TimeJump> = Vec::new();
        if ch_refs.len() < 2 {
            return jumps;
        }
        let mut k: usize = 1;
        while k < ch_refs.len()
            invariant
                c == ch_refs@,
                c == on_channel(self@, channel_id),
                points_valid(c),
                1 <= k <= c.len(),
                jumps@ == spec_time_jumps(c.take(k as int), self@, channel_id, threshold_ns),
            decreases c.len() - k,
        {
            let prev = ch_refs[k - 1];
            let curr = ch_refs[k];
            proof {
                lemma_total_bounds(prev.time);
                lemma_total_bounds(curr.time);
                let t = c.take(k as int + 1);
                assert(t.drop_last() =~= c.take(k as int));
                assert(t[t.len() - 2] == prev && t.last() == curr);
            }
            let rtc_delta_nanos = prev.rtc.elapsed_nanos(curr.rtc);
            let expected_nanos = prev.time.total_nanos_of_day() + rtc_delta_nanos;
            let actual_nanos = curr.time.total_nanos_of_day();
            let delta: i64 = actual_nanos as i64 - expected_nanos as i64;
            let magnitude: u64 = if delta >= 0 {
                delta as u64
            } else {
                (-delta) as u64
            };
            if magnitude > threshold_ns {
                let global_idx = self.global_index_of(&curr);
                jumps.push(
                    TimeJump {
                        index: global_idx,
                        channel_id,
                        expected_nanos,
                        actual_nanos,
                        delta_nanos: delta,
                    },
                );
            }
            k = k + 1;
        }
        proof {
            assert(c.take(c.len() as int) =~= c);
        }
        jumps
    }

    /// Detect RTC counter resets on a channel: taking the channel's points in order of
    /// absolute time (a stable sort, so points with equal times keep their RTC order),
    /// every consecutive pair whose RTC goes backward.
    #[verifier::spinoff_prover]
    pub fn detect_rtc_resets(&self, channel_id: u16) -> (r: Vec<RtcReset>)
        requires
            self.wf(),
        ensures
            r@ == spec_rtc_resets(
                time_ordered(on_channel(self@, channel_id)),
                self@,
                channel_id,
            ),
    {
        let ch_refs = match self.channel_index.get(&channel_id) {
            Some(refs) => refs,
            None => {
                proof {
                    assert(on_channel(self@, channel_id).len() == 0);
                    assert(by_time(on_channel(self@, channel_id)) =~= Seq::<ByTime>::empty());
                    assert(time_ordered(on_channel(self@, channel_id)) =~= Seq::<
                        ReferencePoint,
                    >::empty());
                }
                return Vec::new();
            },
        };
        let ghost c = ch_refs@;
        let mut sorted: Vec<ByTime> = Vec::new();
        let mut k: usize = 0;
        while k < ch_refs.len()
            invariant
                c == ch_refs@,
                0 <= k <= c.len(),
                sorted@ == stable_sort(by_time(c).take(k as int)),
                keys_sorted(sorted@),
            decreases c.len() - k,
        {
            proof {
                let t = by_time(c).take(k as int + 1);
                assert(t.drop_last() =~= by_time(c).take(k as int));
                assert(t.last() == ByTime(c[k as int]));
            }
            insert_sorted_last(&mut sorted, ByTime(ch_refs[k]));
            k = k + 1;
        }
        proof {
            assert(by_time(c).take(c.len() as int) =~= by_time(c));
            assert(c == on_channel(self@, channel_id));
        }
        let ghost o = time_ordered(c);
        assert(o.len() == sorted@.len());
        let mut resets: Vec<RtcReset> = Vec::new();
        if sorted.len() < 2 {
            proof {
                assert(spec_rtc_resets(o, self@, channel_id) =~= Seq::<RtcReset>::empty());
            }
            return resets;
        }
        let mut k: usize = 1;
        while k < sorted.len()
            invariant
                o == sorted@.map_values(|b: ByTime| b.0),
                o.len() == sorted@.len(),
                1 <= k <= o.len(),
                resets@ == spec_rtc_resets(o.take(k as int), self@, channel_id),
            decreases o.len() - k,
        {
            let prev = sorted[k - 1].0;
            let curr = sorted[k].0;
            proof {
                let t = o.take(k as int + 1);
                assert(t.drop_last() =~= o.take(k as int));
                assert(t[t.len() - 2] == prev && t.last() == curr);
            }
            if curr.rtc.as_raw() < prev.rtc.as_raw() {
                let index = self.global_index_of(&curr);
                resets.push(
                    RtcReset {
                        index,
                        channel_id,
                        rtc_before: prev.rtc,
                        rtc_after: curr.rtc,
                        time_before: prev.time,
                        time_after: curr.time,
                    },
                );
            }
            k = k + 1;
        }
        proof {
            assert(o.take(o.len() as int) =~= o);
        }
        resets
    }

    /// The channel IDs that have reference points, in increasing order.
    pub fn channel_ids(&self) -> (r: Vec<u16>)
        requires
            self.wf(),
        ensures
            forall|i: int, j: int| 0 <= i < j < r@.len() ==> r@[i] < r@[j],
            forall|ch: u16|
                r@.contains(ch) <==> exists|i: int|
                    0 <= i < self@.len() && (#[trigger] self@[i]).channel_id == ch,
    {
        let ids = sorted_keys(&self.channel_index);
        proof {
            assert forall|ch: u16| ids@.contains(ch) <==> exists|i: int|
                0 <= i < self@.len() && (#[trigger] self@[i]).channel_id == ch by {
                lemma_on_channel_nonempty(self.references@, ch);
            }
        }
        ids
    }

    /// The samples that clock drift on a channel is estimated from: for each consecutive
    /// pair of points (in RTC order) whose elapsed RTC time and absolute-time difference
    /// are both nonzero, the pair `(elapsed RTC nanoseconds, absolute nanoseconds
    /// difference)`. `None` when the channel has fewer than two points.
    pub fn drift_samples(&self, channel_id: u16) -> (r: Option<Vec<(u64, i64)>>)
        requires
            self.wf(),
        ensures
            on_channel(self@, channel_id).len() < 2 ==> r is None,
            on_channel(self@, channel_id).len() >= 2 ==> r is Some && r->Some_0@
                == spec_drift_samples(on_channel(self@, channel_id)),
    {
        let ch_refs = match self.channel_index.get(&channel_id) {
            Some(refs) => refs,
            None => {
                return None;
            },
        };
        if ch_refs.len() < 2 {
            return None;
        }
        Some(drift_samples_of(ch_refs))
    }

    /// The configured out-of-order window, if any.
    pub fn ooo_window_ns(&self) -> (r: Option<u64>)
        ensures
            r == self.ooo_window(),
    {
        self.ooo_window_ns
    }
}

impl Default for TimeCorrelator {
    /// An empty correlator with unbounded out-of-order tolerance.
    fn default() -> (r: Self)
        ensures
            r.wf(),
            r@ == Seq::<ReferencePoint>::empty(),
            r.ooo_window() == None::<u64>,
    {
        Self::new()
    }
}

/// The absolute time a Format 2 network time converts to, with PTP time taken from TAI to
/// UTC by the table's offset at the TAI time.
pub open spec fn spec_f2_time(network_time: NetworkTime, table: Seq<crate::network_time::LeapSecondEntry>) -> Result<AbsoluteTime> {
    match network_time {
        NetworkTime::Ntp(ntp) => ntp.spec_to_absolute(),
        NetworkTime::Ptp(ptp) => ptp.spec_to_absolute(
            spec_offset_at_unix(table, saturating_diff(ptp.seconds, DEFAULT_TAI_UTC_OFFSET as u64)),
        ),
    }
}

// ── Jumps, resets and drift ──────────────────────────────────────────

/// Position of the first point of `s` equal to `p`, or -1 when there is none.
pub open spec fn first_position(s: Seq<ReferencePoint>, p: ReferencePoint) -> int
    decreases s.len(),
{
    if s.len() == 0 {
        -1
    } else {
        let k = first_position(s.drop_last(), p);
        if k >= 0 {
            k
        } else if s.last() == p {
            s.len() - 1
        } else {
            -1
        }
    }
}

/// The index reported for a point: its first position in `s`, or 0 when absent.
pub open spec fn global_index(s: Seq<ReferencePoint>, p: ReferencePoint) -> int {
    let k = first_position(s, p);
    if k >= 0 {
        k
    } else {
        0
    }
}

/// A point found in a prefix is found at the same position in the whole sequence.
proof fn lemma_first_position_prefix(s: Seq<ReferencePoint>, n: int, p: ReferencePoint)
    requires
        0 <= n <= s.len(),
        first_position(s.take(n), p) >= 0,
    ensures
        first_position(s, p) == first_position(s.take(n), p),
    decreases s.len(),
{
    if n == s.len() {
        assert(s.take(n) =~= s);
    } else {
        let d = s.drop_last();
        assert(d.take(n) =~= s.take(n));
        lemma_first_position_prefix(d, n, p);
    }
}

/// Absolute-time key used to order points of a channel in time: whole days before the
/// day of year plus nanoseconds of the day.
pub open spec fn spec_time_key(t: AbsoluteTime) -> u64 {
    ((if t.day_of_year >= 1 {
        t.day_of_year - 1
    } else {
        0
    }) * 86_400_000_000_000 + t.nanos_of_day()) as u64
}

/// Compute the absolute-time key of a time.
fn time_key(t: &AbsoluteTime) -> (r: u64)
    ensures
        r == spec_time_key(*t),
{
    (t.day_of_year as u64).saturating_sub(1) * 86_400_000_000_000 + t.total_nanos_of_day()
}

/// A reference point ordered by its absolute time.
#[derive(Debug, Clone, Copy, PartialEq, Eq, Structural)]
pub struct ByTime(pub ReferencePoint);

impl SortKey for ByTime {
    open spec fn sort_key(&self) -> u64 {
        spec_time_key(self.0.time)
    }

    fn key(&self) -> (r: u64) {
        time_key(&self.0.time)
    }
}

/// The points, each ordered by absolute time.
pub open spec fn by_time(c: Seq<ReferencePoint>) -> Seq<ByTime> {
    c.map_values(|p: ReferencePoint| ByTime(p))
}

/// The points in order of absolute time (stable: equal times keep their order).
pub open spec fn time_ordered(c: Seq<ReferencePoint>) -> Seq<ReferencePoint> {
    stable_sort(by_time(c)).map_values(|b: ByTime| b.0)
}

/// The jump reported between two consecutive points of a channel.
pub open spec fn jump_between(
    prev: ReferencePoint,
    curr: ReferencePoint,
    all: Seq<ReferencePoint>,
    ch: u16,
) -> TimeJump {
    let expected = prev.time.nanos_of_day() + 100 * spec_elapsed_ticks(
        prev.rtc.raw(),
        curr.rtc.raw(),
    );
    let actual = curr.time.nanos_of_day();
    TimeJump {
        index: global_index(all, curr) as usize,
        channel_id: ch,
        expected_nanos: expected as u64,
        actual_nanos: actual as u64,
        delta_nanos: (actual - expected) as i64,
    }
}

/// The jumps among consecutive points of `c`: pairs whose actual time of day differs from
/// the expected one by more than the threshold, in order.
pub open spec fn spec_time_jumps(
    c: Seq<ReferencePoint>,
    all: Seq<ReferencePoint>,
    ch: u16,
    threshold_ns: u64,
) -> Seq<TimeJump>
    decreases c.len(),
{
    if c.len() < 2 {
        Seq::empty()
    } else {
        let j = jump_between(c[c.len() - 2], c.last(), all, ch);
        let delta = j.actual_nanos - j.expected_nanos;
        spec_time_jumps(c.drop_last(), all, ch, threshold_ns) + if delta > threshold_ns || -delta
            > threshold_ns {
            seq![j]
        } else {
            Seq::empty()
        }
    }
}

/// The time of day a point predicts for the next point: its own time of day plus the RTC
/// time elapsed between them.
pub open spec fn predicted_nanos(prev: ReferencePoint, curr: ReferencePoint) -> int {
    prev.time.nanos_of_day() + 100 * ((curr.rtc.raw() - prev.rtc.raw()) % 0x1_0000_0000_0000)
}

/// The jumps of a channel's points are those of all but the last point, followed by the last
/// pair's jump when its actual time of day is more than the threshold away from the
/// predicted one; that jump carries both times and their difference.
proof fn lemma_last_jump(c: Seq<ReferencePoint>, all: Seq<ReferencePoint>, ch: u16, threshold_ns: u64)
    requires
        points_valid(c),
        c.len() >= 2,
    ensures
        ({
            let n = c.len() - 1;
            let e = predicted_nanos(c[n - 1], c[n]);
            let a = c[n].time.nanos_of_day();
            let jb = jump_between(c[n - 1], c[n], all, ch);
            &&& jb.expected_nanos == e
            &&& jb.actual_nanos == a
            &&& jb.delta_nanos == a - e
            &&& jb.channel_id == ch
            &&& spec_time_jumps(c, all, ch, threshold_ns) == spec_time_jumps(
                c.drop_last(),
                all,
                ch,
                threshold_ns,
            ) + if a - e > threshold_ns || e - a > threshold_ns {
                seq![jb]
            } else {
                Seq::<TimeJump>::empty()
            }
        }),
{
    let n = c.len() - 1;
    let prev = c[n - 1];
    let curr = c[n];
    assert(prev.time.valid() && curr.time.valid());
    lemma_total_bounds(prev.time);
    lemma_total_bounds(curr.time);
    assert(0 <= (curr.rtc.raw() - prev.rtc.raw()) % 0x1_0000_0000_0000 < 0x1_0000_0000_0000);
    assert(c[c.len() - 2] == prev && c.last() == curr);
}

/// The points of all but the last are valid when all are.
proof fn lemma_points_valid_drop_last(c: Seq<ReferencePoint>)
    requires
        points_valid(c),
        c.len() > 0,
    ensures
        points_valid(c.drop_last()),
{
    let d = c.drop_last();
    assert forall|i: int| 0 <= i < d.len() implies (#[trigger] d[i]).time.valid() by {
        assert(d[i] == c[i]);
    }
}

/// Every time jump reported is a consecutive pair of the channel whose actual time of day is
/// more than the threshold away from the predicted one, ahead or behind; it carries the
/// pair's actual and predicted times and their signed difference.
#[verifier::spinoff_prover]
pub proof fn lemma_time_jumps_sound(
    c: Seq<ReferencePoint>,
    all: Seq<ReferencePoint>,
    ch: u16,
    threshold_ns: u64,
)
    requires
        points_valid(c),
    ensures
        forall|j: TimeJump| #[trigger]
            spec_time_jumps(c, all, ch, threshold_ns).contains(j) ==> exists|k: int|
                1 <= k < c.len() && j.actual_nanos == c[k].time.nanos_of_day()
                    && j.expected_nanos == predicted_nanos(c[k - 1], c[k]) && j.channel_id == ch
                    && j.delta_nanos == j.actual_nanos - j.expected_nanos && (j.delta_nanos
                    > threshold_ns || -j.delta_nanos > threshold_ns),
    decreases c.len(),
{
    if c.len() >= 2 {
        let d = c.drop_last();
        lemma_points_valid_drop_last(c);
        lemma_time_jumps_sound(d, all, ch, threshold_ns);
        lemma_last_jump(c, all, ch, threshold_ns);
        let n = c.len() - 1;
        let jb = jump_between(c[n - 1], c[n], all, ch);
        let rest = spec_time_jumps(d, all, ch, threshold_ns);
        let whole = spec_time_jumps(c, all, ch, threshold_ns);
        assert forall|j: TimeJump| #[trigger] whole.contains(j) implies exists|k: int|
            1 <= k < c.len() && j.actual_nanos == c[k].time.nanos_of_day() && j.expected_nanos
                == predicted_nanos(c[k - 1], c[k]) && j.channel_id == ch && j.delta_nanos
                == j.actual_nanos - j.expected_nanos && (j.delta_nanos > threshold_ns
                || -j.delta_nanos > threshold_ns) by {
            let q = choose|q: int| 0 <= q < whole.len() && whole[q] == j;
            if q < rest.len() {
                assert(rest[q] == j);
                assert(rest.contains(j));
                let k = choose|k: int|
                    1 <= k < d.len() && j.actual_nanos == d[k].time.nanos_of_day()
                        && j.expected_nanos == predicted_nanos(d[k - 1], d[k]) && j.channel_id
                        == ch && j.delta_nanos == j.actual_nanos - j.expected_nanos && (
                    j.delta_nanos > threshold_ns || -j.delta_nanos > threshold_ns);
                assert(d[k] == c[k] && d[k - 1] == c[k - 1]);
            } else {
                assert(j == jb);
            }
        }
    }
}

/// Every consecutive pair of the channel whose actual time of day is more than the threshold
/// away from the predicted one, ahead or behind, is reported as a jump carrying those times.
#[verifier::spinoff_prover]
pub proof fn lemma_time_jumps_complete(
    c: Seq<ReferencePoint>,
    all: Seq<ReferencePoint>,
    ch: u16,
    threshold_ns: u64,
)
    requires
        points_valid(c),
    ensures
        forall|k: int|
            1 <= k < c.len() && (c[k].time.nanos_of_day() - predicted_nanos(c[k - 1], c[k])
                > threshold_ns || predicted_nanos(c[k - 1], c[k]) - c[k].time.nanos_of_day()
                > threshold_ns) ==> exists|j: TimeJump| #[trigger]
                spec_time_jumps(c, all, ch, threshold_ns).contains(j) && j.actual_nanos
                    == c[k].time.nanos_of_day() && j.expected_nanos == predicted_nanos(
                    c[k - 1],
                    c[k],
                ) && j.delta_nanos == j.actual_nanos - j.expected_nanos,
    decreases c.len(),
{
    if c.len() >= 2 {
        let d = c.drop_last();
        lemma_points_valid_drop_last(c);
        lemma_time_jumps_complete(d, all, ch, threshold_ns);
        lemma_last_jump(c, all, ch, threshold_ns);
        let n = c.len() - 1;
        let jb = jump_between(c[n - 1], c[n], all, ch);
        let rest = spec_time_jumps(d, all, ch, threshold_ns);
        let whole = spec_time_jumps(c, all, ch, threshold_ns);
        assert forall|k: int|
            1 <= k < c.len() && (c[k].time.nanos_of_day() - predicted_nanos(c[k - 1], c[k])
                > threshold_ns || predicted_nanos(c[k - 1], c[k]) - c[k].time.nanos_of_day()
                > threshold_ns) implies exists|j: TimeJump| #[trigger] whole.contains(j)
                && j.actual_nanos == c[k].time.nanos_of_day() && j.expected_nanos
                == predicted_nanos(c[k - 1], c[k]) && j.delta_nanos == j.actual_nanos
                - j.expected_nanos by {
            if k < n {
                assert(d[k] == c[k] && d[k - 1] == c[k - 1]);
                let j = choose|j: TimeJump|
                    #[trigger] rest.contains(j) && j.actual_nanos == d[k].time.nanos_of_day()
                        && j.expected_nanos == predicted_nanos(d[k - 1], d[k]) && j.delta_nanos
                        == j.actual_nanos - j.expected_nanos;
                let q = choose|q: int| 0 <= q < rest.len() && rest[q] == j;
                assert(whole[q] == j);
                assert(whole.contains(j));
            } else {
                assert(whole[rest.len() as int] == jb);
                assert(whole.contains(jb));
            }
        }
    }
}

/// The resets among consecutive points of `sorted` (already in time order): pairs whose
/// RTC decreases, in order.
pub open spec fn spec_rtc_resets(
    sorted: Seq<ReferencePoint>,
    all: Seq<ReferencePoint>,
    ch: u16,
) -> Seq<RtcReset>
    decreases sorted.len(),
{
    if sorted.len() < 2 {
        Seq::empty()
    } else {
        let prev = sorted[sorted.len() - 2];
        let curr = sorted.last();
        spec_rtc_resets(sorted.drop_last(), all, ch) + if curr.rtc.raw() < prev.rtc.raw() {
            seq![
                RtcReset {
                    index: global_index(all, curr) as usize,
                    channel_id: ch,
                    rtc_before: prev.rtc,
                    rtc_after: curr.rtc,
                    time_before: prev.time,
                    time_after: curr.time,
                },
            ]
        } else {
            Seq::empty()
        }
    }
}

/// The drift samples of consecutive points of `c`: elapsed RTC nanoseconds and the
/// difference of absolute-time keys, for pairs where both are nonzero.
pub open spec fn spec_drift_samples(c: Seq<ReferencePoint>) -> Seq<(u64, i64)>
    decreases c.len(),
{
    if c.len() < 2 {
        Seq::empty()
    } else {
        let r0 = c[c.len() - 2];
        let r1 = c.last();
        let rtc_delta = 100 * spec_elapsed_ticks(r0.rtc.raw(), r1.rtc.raw());
        let abs_delta = spec_time_key(r1.time) - spec_time_key(r0.time);
        spec_drift_samples(c.drop_last()) + if rtc_delta != 0 && abs_delta != 0 {
            seq![(rtc_delta as u64, abs_delta as i64)]
        } else {
            Seq::empty()
        }
    }
}

/// The drift samples of consecutive points of a list.
pub(crate) fn drift_samples_of(c: &Vec<ReferencePoint>) -> (r: Vec<(u64, i64)>)
    ensures
        r@ == spec_drift_samples(c@),
{
    let mut samples: Vec<(u64, i64)> = Vec::new();
    if c.len() < 2 {
        return samples;
    }
    let mut k: usize = 1;
    while k < c.len()
        invariant
            1 <= k <= c@.len(),
            samples@ == spec_drift_samples(c@.take(k as int)),
        decreases c@.len() - k,
    {
        let r0 = c[k - 1];
        let r1 = c[k];
        proof {
            let t = c@.take(k as int + 1);
            assert(t.drop_last() =~= c@.take(k as int));
            assert(t[t.len() - 2] == r0 && t.last() == r1);
        }
        let rtc_delta_ns = r0.rtc.elapsed_nanos(r1.rtc);
        let abs_ns_0 = time_key(&r0.time);
        let abs_ns_1 = time_key(&r1.time);
        let abs_delta_ns: i64 = abs_ns_1 as i64 - abs_ns_0 as i64;
        if rtc_delta_ns != 0 && abs_delta_ns != 0 {
            samples.push((rtc_delta_ns, abs_delta_ns));
        }
        k = k + 1;
    }
    proof {
        assert(c@.take(c@.len() as int) =~= c@);
    }
    samples
}

/// The keys of a map with `u16` keys, in increasing order.
pub(crate) fn sorted_keys<V>(m: &BTreeMap<u16, V>) -> (r: Vec<u16>)
    ensures
        forall|i: int, j: int| 0 <= i < j < r@.len() ==> r@[i] < r@[j],
        forall|k: u16| r@.contains(k) <==> m@.contains_key(k),
{
    let mut ids: Vec<u16> = Vec::new();
    for id in it: m.keys()
        invariant
            ids@.len() == it.index(),
            forall|i: int| 0 <= i < it.index() ==> ids@[i] == *it.seq()[i],
    {
        ids.push(*id);
    }
    proof {
        let ks = spec_keys_iter(m).remaining();
        assert(ids@ =~= ks.unref());
        lemma_keys_increasing(ks);
        assert forall|k: u16| ids@.contains(k) <==> m@.contains_key(k) by {
            if ids@.contains(k) {
                assert(ks.unref().to_set().contains(k));
            } else if m@.contains_key(k) {
                assert(ks.unref().to_set().contains(k));
            }
        }
    }
    ids
}

/// The keys a `BTreeMap` hands out are strictly increasing.
proof fn lemma_keys_increasing(ks: Seq<&u16>)
    requires
        vstd::std_specs::btree::increasing_seq(ks),
    ensures
        forall|i: int, j: int| 0 <= i < j < ks.len() ==> *ks[i] < *ks[j],
{
    assert(vstd::laws_cmp::obeys_cmp::<&u16>());
    vstd::std_specs::btree::axiom_increasing_seq_meaning(ks);
    assert forall|i: int, j: int| 0 <= i < j < ks.len() implies *ks[i] < *ks[j] by {
        assert(vstd::std_specs::cmp::OrdSpec::cmp_spec(&ks[i], &ks[j]) is Less);
    }
}

/// All RTC values fit in 48 bits.
pub open spec fn rtcs_valid(s: Seq<ReferencePoint>) -> bool {
    forall|i: int| 0 <= i < s.len() ==> (#[trigger] s[i]).rtc.raw() < 0x1_0000_0000_0000
}

/// Two 48-bit RTC values at circular distance zero are equal.
proof fn lemma_circular_distance_zero(a: u64, b: u64)
    requires
        a < 0x1_0000_0000_0000,
        b < 0x1_0000_0000_0000,
        a != b,
    ensures
        circular_distance(a, b) > 0,
{
    let m = 0x1_0000_0000_0000int;
    if b > a {
        vstd::arithmetic::div_mod::lemma_small_mod((b - a) as nat, m as nat);
        assert((a - b) % m == m - (b - a)) by {
            vstd::arithmetic::div_mod::lemma_fundamental_div_mod_converse(a - b, m, -1, m - (b - a));
        }
    } else {
        vstd::arithmetic::div_mod::lemma_small_mod((a - b) as nat, m as nat);
        assert((b - a) % m == m - (a - b)) by {
            vstd::arithmetic::div_mod::lemma_fundamental_div_mod_converse(b - a, m, -1, m - (a - b));
        }
    }
}

/// Correlating the RTC of the first point at that RTC gives that point's time (without month
/// and day of month).
pub proof fn lemma_correlate_at_first(t: Seq<ReferencePoint>, i: int)
    requires
        keys_sorted(t),
        0 <= i < t.len(),
        count_below(t, t[i].rtc.raw()) == i,
        t[i].rtc.raw() < 0x1_0000_0000_0000,
        t[i].time.valid(),
    ensures
        spec_correlate(t, t[i].rtc.raw()) == Ok::<AbsoluteTime, TimeError>(
            AbsoluteTime { month: None, day_of_month: None, ..t[i].time },
        ),
{
    let p = t[i];
    let k = p.rtc.raw();
    lemma_count_below_prefix(t, k);
    if i > 0 {
        assert(t[i - 1].sort_key() < k);
        lemma_circular_distance_zero(t[i - 1].rtc.raw(), k);
        assert(spec_elapsed_ticks(k, k) == 0);
    }
    assert(nearest_index(t, k) == i);
    assert(spec_elapsed_ticks(k, k) == 0);
    lemma_total_bounds(p.time);
    vstd::arithmetic::div_mod::lemma_small_mod(
        p.time.total_ns() as nat,
        crate::absolute::NANOS_PER_LEAP_YEAR as nat,
    );
    lemma_total_round_trip(p.time);
}

/// Correlating the RTC of a point just inserted at its RTC position gives that point's time
/// (without month and day of month).
proof fn lemma_correlate_inserted(s: Seq<ReferencePoint>, p: ReferencePoint)
    requires
        keys_sorted(s),
        p.rtc.raw() < 0x1_0000_0000_0000,
        p.time.valid(),
    ensures
        spec_correlate(s.insert(count_below(s, p.rtc.raw()) as int, p), p.rtc.raw()) == Ok::<
            AbsoluteTime,
            TimeError,
        >(AbsoluteTime { month: None, day_of_month: None, ..p.time }),
{
    let k = p.rtc.raw();
    let i = count_below(s, k) as int;
    let t = s.insert(i, p);
    lemma_count_below_prefix(s, k);
    crate::search::lemma_insert_sorted(s, p);
    lemma_count_below_prefix(t, k);
    assert(t[i] == p);
    assert forall|j: int| 0 <= j < i implies t[j].sort_key() < k by {
        assert(t[j] == s[j]);
    }
    assert(count_below(t, k) == i) by {
        if count_below(t, k) > i {
            assert(t[i].sort_key() < k);
        } else if count_below(t, k) < i {
            let c = count_below(t, k) as int;
            assert(t[c].sort_key() >= k);
        }
    }
    lemma_correlate_at_first(t, i);
}

/// Correlating the RTC of a reference point just added gives back its time (without month
/// and day of month), whether all channels or only the point's channel are consulted.
pub proof fn lemma_correlate_after_add(s: Seq<ReferencePoint>, p: ReferencePoint)
    requires
        keys_sorted(s),
        p.rtc.raw() < 0x1_0000_0000_0000,
        p.time.valid(),
    ensures
        ({
            let t = s.insert(count_below(s, p.rtc.raw()) as int, p);
            let expected = Ok::<AbsoluteTime, TimeError>(
                AbsoluteTime { month: None, day_of_month: None, ..p.time },
            );
            &&& spec_correlate(t, p.rtc.raw()) == expected
            &&& spec_correlate(on_channel(t, p.channel_id), p.rtc.raw()) == expected
        }),
{
    lemma_correlate_inserted(s, p);
    let c = on_channel(s, p.channel_id);
    lemma_on_channel_insert(s, p, p.channel_id);
    lemma_on_channel_sorted(s, p.channel_id);
    lemma_correlate_inserted(c, p);
}

/// The points of a channel of a sequence of valid points are valid.
proof fn lemma_on_channel_valid(s: Seq<ReferencePoint>, ch: u16)
    requires
        points_valid(s),
    ensures
        points_valid(on_channel(s, ch)),
{
    lemma_on_channel_members(s, ch);
    let c = on_channel(s, ch);
    assert forall|j: int| 0 <= j < c.len() implies (#[trigger] c[j]).time.valid() by {
        let k = choose|k: int| 0 <= k < s.len() && s[k] == c[j];
        assert(s[k].time.valid());
    }
}

/// Whichever of two points is closer to the target around the 48-bit circle (the first on a
/// tie).
fn closer_ref(a: ReferencePoint, b: ReferencePoint, target: Rtc) -> (r: ReferencePoint)
    ensures
        r == if circular_distance(a.rtc.raw(), target.raw()) <= circular_distance(
            b.rtc.raw(),
            target.raw(),
        ) {
            a
        } else {
            b
        },
{
    let fa = a.rtc.elapsed_ticks(target);
    let ba = target.elapsed_ticks(a.rtc);
    let da = if fa <= ba {
        fa
    } else {
        ba
    };
    let fb = b.rtc.elapsed_ticks(target);
    let bb = target.elapsed_ticks(b.rtc);
    let db = if fb <= bb {
        fb
    } else {
        bb
    };
    if da <= db {
        a
    } else {
        b
    }
}

/// The nearest point of an RTC-sorted vector of valid points.
fn nearest_in(refs: &Vec<ReferencePoint>, target: Rtc) -> (r: Result<ReferencePoint>)
    requires
        keys_sorted(refs@),
        points_valid(refs@),
    ensures
        refs@.len() == 0 ==> r == Err::<ReferencePoint, TimeError>(TimeError::NoReferencePoint),
        refs@.len() > 0 ==> r == Ok::<ReferencePoint, TimeError>(
            refs@[nearest_index(refs@, target.raw())],
        ),
        r is Ok ==> r->Ok_0.time.valid(),
{
    if refs.len() == 0 {
        return Err(TimeError::NoReferencePoint);
    }
    let idx = lower_bound(refs, target.as_raw());
    if idx == 0 {
        Ok(refs[0])
    } else if idx >= refs.len() {
        Ok(refs[refs.len() - 1])
    } else {
        Ok(closer_ref(refs[idx - 1], refs[idx], target))
    }
}

} // verus!
