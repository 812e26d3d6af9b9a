//! Binary search over vectors kept sorted by an integer key.

use vstd::prelude::*;

verus! {

/// Items ordered by an unsigned integer key.
pub trait SortKey {
    /// The key of an item.
    spec fn sort_key(&self) -> u64;

    /// Read the key of an item.
    fn key(&self) -> (r: u64)
        ensures
            r == self.sort_key(),
    ;
}

/// The keys of `s` do not decrease.
pub open spec fn keys_sorted<T: SortKey>(s: Seq<T>) -> bool {
    forall|i: int, j: int| 0 <= i <= j < s.len() ==> s[i].sort_key() <= s[j].sort_key()
}

/// Number of items whose key is below `k`.
pub open spec fn count_below<T: SortKey>(s: Seq<T>, k: u64) -> nat
    decreases s.len(),
{
    if s.len() == 0 {
        0
    } else {
        count_below(s.drop_last(), k) + if s.last().sort_key() < k {
            1nat
        } else {
            0
        }
    }
}

/// Number of items whose key is at most `k`.
pub open spec fn count_at_most<T: SortKey>(s: Seq<T>, k: u64) -> nat
    decreases s.len(),
{
    if s.len() == 0 {
        0
    } else {
        count_at_most(s.drop_last(), k) + if s.last().sort_key() <= k {
            1nat
        } else {
            0
        }
    }
}

/// In a sorted sequence, the items below `k` are exactly the first `r`.
pub proof fn lemma_count_below_split<T: SortKey>(s: Seq<T>, k: u64, r: int)
    requires
        keys_sorted(s),
        0 <= r <= s.len(),
        forall|j: int| 0 <= j < r ==> s[j].sort_key() < k,
        forall|j: int| r <= j < s.len() ==> s[j].sort_key() >= k,
    ensures
        count_below(s, k) == r,
    decreases s.len(),
{
    if s.len() > 0 {
        let t = s.drop_last();
        if r == s.len() {
            lemma_count_below_split(t, k, r - 1);
        } else {
            lemma_count_below_split(t, k, r);
        }
    }
}

/// In a sorted sequence, the items at most `k` are exactly the first `r`.
pub proof fn lemma_count_at_most_split<T: SortKey>(s: Seq<T>, k: u64, r: int)
    requires
        keys_sorted(s),
        0 <= r <= s.len(),
        forall|j: int| 0 <= j < r ==> s[j].sort_key() <= k,
        forall|j: int| r <= j < s.len() ==> s[j].sort_key() > k,
    ensures
        count_at_most(s, k) == r,
    decreases s.len(),
{
    if s.len() > 0 {
        let t = s.drop_last();
        if r == s.len() {
            lemma_count_at_most_split(t, k, r - 1);
        } else {
            lemma_count_at_most_split(t, k, r);
        }
    }
}

/// In a sorted sequence, the items below `k` come first.
pub proof fn lemma_count_below_prefix<T: SortKey>(s: Seq<T>, k: u64)
    requires
        keys_sorted(s),
    ensures
        count_below(s, k) <= s.len(),
        forall|j: int| 0 <= j < count_below(s, k) ==> s[j].sort_key() < k,
        forall|j: int| count_below(s, k) <= j < s.len() ==> s[j].sort_key() >= k,
    decreases s.len(),
{
    if s.len() > 0 {
        let t = s.drop_last();
        lemma_count_below_prefix(t, k);
        assert forall|j: int| 0 <= j < t.len() implies t[j] == s[j] by {}
    }
}

/// In a sorted sequence, the items at most `k` come first.
pub proof fn lemma_count_at_most_prefix<T: SortKey>(s: Seq<T>, k: u64)
    requires
        keys_sorted(s),
    ensures
        count_at_most(s, k) <= s.len(),
        forall|j: int| 0 <= j < count_at_most(s, k) ==> s[j].sort_key() <= k,
        forall|j: int| count_at_most(s, k) <= j < s.len() ==> s[j].sort_key() > k,
    decreases s.len(),
{
    if s.len() > 0 {
        let t = s.drop_last();
        lemma_count_at_most_prefix(t, k);
        assert forall|j: int| 0 <= j < t.len() implies t[j] == s[j] by {}
    }
}

/// Index of the first item whose key is at least `k` (the number of items below `k`).
pub fn lower_bound<T: SortKey>(v: &Vec<T>, k: u64) -> (r: usize)
    requires
        keys_sorted(v@),
    ensures
        r == count_below(v@, k),
        r <= v@.len(),
        forall|j: int| 0 <= j < r ==> v@[j].sort_key() < k,
        forall|j: int| r <= j < v@.len() ==> v@[j].sort_key() >= k,
{
    let mut lo: usize = 0;
    let mut hi: usize = v.len();
    while lo < hi
        invariant
            keys_sorted(v@),
            0 <= lo <= hi <= v@.len(),
            forall|j: int| 0 <= j < lo ==> v@[j].sort_key() < k,
            forall|j: int| hi <= j < v@.len() ==> v@[j].sort_key() >= k,
        decreases hi - lo,
    {
        let mid = lo + (hi - lo) / 2;
        if v[mid].key() < k {
            lo = mid + 1;
        } else {
            hi = mid;
        }
    }
    proof {
        lemma_count_below_split(v@, k, lo as int);
    }
    lo
}

/// Index of the first item whose key is above `k` (the number of items at most `k`).
pub fn upper_bound<T: SortKey>(v: &Vec<T>, k: u64) -> (r: usize)
    requires
        keys_sorted(v@),
    ensures
        r == count_at_most(v@, k),
        r <= v@.len(),
        forall|j: int| 0 <= j < r ==> v@[j].sort_key() <= k,
        forall|j: int| r <= j < v@.len() ==> v@[j].sort_key() > k,
{
    let mut lo: usize = 0;
    let mut hi: usize = v.len();
    while lo < hi
        invariant
            keys_sorted(v@),
            0 <= lo <= hi <= v@.len(),
            forall|j: int| 0 <= j < lo ==> v@[j].sort_key() <= k,
            forall|j: int| hi <= j < v@.len() ==> v@[j].sort_key() > k,
        decreases hi - lo,
    {
        let mid = lo + (hi - lo) / 2;
        if v[mid].key() <= k {
            lo = mid + 1;
        } else {
            hi = mid;
        }
    }
    proof {
        lemma_count_at_most_split(v@, k, lo as int);
    }
    lo
}

/// Inserting an item at the position of its key keeps the sequence sorted.
pub proof fn lemma_insert_sorted<T: SortKey>(s: Seq<T>, x: T)
    requires
        keys_sorted(s),
    ensures
        keys_sorted(s.insert(count_below(s, x.sort_key()) as int, x)),
{
    lemma_count_below_prefix(s, x.sort_key());
    let i = count_below(s, x.sort_key()) as int;
    let t = s.insert(i, x);
    assert forall|a: int, b: int| 0 <= a <= b < t.len() implies t[a].sort_key() <= t[b].sort_key()
        by {
        if a < i && b > i {
            assert(t[a] == s[a]);
            assert(t[b] == s[b - 1]);
        } else if a < i && b == i {
        } else if a < i {
            assert(t[a] == s[a] && t[b] == s[b]);
        } else if a == i && b > i {
            assert(t[b] == s[b - 1]);
        } else if a > i {
            assert(t[a] == s[a - 1] && t[b] == s[b - 1]);
        }
    }
}

/// Insert an item at the first position whose key is not below the item's key, keeping the
/// vector sorted.
pub fn insert_sorted<T: SortKey>(v: &mut Vec<T>, x: T)
    requires
        keys_sorted(old(v)@),
    ensures
        final(v)@ == old(v)@.insert(count_below(old(v)@, x.sort_key()) as int, x),
        keys_sorted(final(v)@),
{
    let k = x.key();
    let pos = lower_bound(v, k);
    proof {
        lemma_insert_sorted(v@, x);
    }
    v.insert(pos, x);
}

/// Inserting an item after every item whose key is at most its own keeps the sequence
/// sorted.
pub proof fn lemma_insert_sorted_last<T: SortKey>(s: Seq<T>, x: T)
    requires
        keys_sorted(s),
    ensures
        keys_sorted(s.insert(count_at_most(s, x.sort_key()) as int, x)),
{
    lemma_count_at_most_prefix(s, x.sort_key());
    let i = count_at_most(s, x.sort_key()) as int;
    let t = s.insert(i, x);
    assert forall|a: int, b: int| 0 <= a <= b < t.len() implies t[a].sort_key() <= t[b].sort_key()
        by {
        if a < i && b > i {
            assert(t[a] == s[a]);
            assert(t[b] == s[b - 1]);
        } else if a < i && b == i {
        } else if a < i {
            assert(t[a] == s[a] && t[b] == s[b]);
        } else if a == i && b > i {
            assert(t[b] == s[b - 1]);
        } else if a > i {
            assert(t[a] == s[a - 1] && t[b] == s[b - 1]);
        }
    }
}

/// Insert an item after every item whose key is at most its own, keeping the vector
/// sorted and items with equal keys in insertion order.
pub fn insert_sorted_last<T: SortKey>(v: &mut Vec<T>, x: T)
    requires
        keys_sorted(old(v)@),
    ensures
        final(v)@ == old(v)@.insert(count_at_most(old(v)@, x.sort_key()) as int, x),
        keys_sorted(final(v)@),
{
    let k = x.key();
    let pos = upper_bound(v, k);
    proof {
        lemma_insert_sorted_last(v@, x);
    }
    v.insert(pos, x);
}

/// The stable sort of a sequence by key: each item in turn goes after every item already
/// placed whose key is at most its own, so items with equal keys keep their order.
pub open spec fn stable_sort<T: SortKey>(s: Seq<T>) -> Seq<T>
    decreases s.len(),
{
    if s.len() == 0 {
        s
    } else {
        let t = stable_sort(s.drop_last());
        t.insert(count_at_most(t, s.last().sort_key()) as int, s.last())
    }
}

/// A stable sort is sorted and has the items of the sequence.
pub proof fn lemma_stable_sort<T: SortKey>(s: Seq<T>)
    ensures
        keys_sorted(stable_sort(s)),
        stable_sort(s).len() == s.len(),
        stable_sort(s).to_multiset() == s.to_multiset(),
    decreases s.len(),
{
    if s.len() == 0 {
        assert(keys_sorted(s));
    } else {
        let d = s.drop_last();
        lemma_stable_sort(d);
        let t = stable_sort(d);
        let x = s.last();
        lemma_insert_sorted_last(t, x);
        lemma_count_at_most_prefix(t, x.sort_key());
        vstd::seq_lib::to_multiset_insert(t, count_at_most(t, x.sort_key()) as int, x);
        vstd::seq_lib::to_multiset_build(d, x);
        assert(d.push(x) =~= s);
    }
}

} // verus!
