//! The ordered sample store of a keyframe channel: frame/value pairs kept
//! strictly ascending by frame, with binary search for exact lookups and for
//! the neighbours of a query frame.

use vstd::prelude::*;

verus! {

/// A frame index: the non-negative integer time at which a sample can sit.
pub type Frame = usize;

/// The frames of a series of stored samples, in storage order.
pub open spec fn keys_of<V>(s: Seq<(Frame, V)>) -> Seq<Frame> {
    s.map_values(|p: (Frame, V)| p.0)
}

/// Samples are strictly ascending by frame, so frames are unique.
pub open spec fn sorted<V>(s: Seq<(Frame, V)>) -> bool {
    forall|i: int, j: int| 0 <= i < j < s.len() ==> s[i].0 < s[j].0
}

/// Whether some sample sits exactly at frame `t`.
pub open spec fn has_frame<V>(s: Seq<(Frame, V)>, t: Frame) -> bool {
    exists|i: int| 0 <= i < s.len() && s[i].0 == t
}

/// Index of the first sample whose frame is `t` or later; `s.len()` if none.
pub open spec fn first_geq<V>(s: Seq<(Frame, V)>, t: Frame) -> int
    decreases s.len(),
{
    if s.len() == 0 {
        0
    } else if s[0].0 >= t {
        0
    } else {
        1 + first_geq(s.drop_first(), t)
    }
}

/// The value stored exactly at frame `t`, if any; meaningful on sorted stores.
pub open spec fn spec_get<V>(s: Seq<(Frame, V)>, t: Frame) -> Option<V> {
    let i = first_geq(s, t);
    if i < s.len() && s[i].0 == t {
        Some(s[i].1)
    } else {
        None
    }
}

/// A store with the sample at `t` set to `v`: overwritten in place when `t`
/// already has a sample, spliced in at its ordered position otherwise.
pub open spec fn spec_insert<V>(s: Seq<(Frame, V)>, t: Frame, v: V) -> Seq<(Frame, V)> {
    let i = first_geq(s, t);
    if i < s.len() && s[i].0 == t {
        s.update(i, (t, v))
    } else {
        s.insert(i, (t, v))
    }
}

/// `first_geq` partitions any store: everything before it is strictly below
/// `t`, and the entry at it (when in range) is at or above `t`.
pub proof fn lemma_first_geq_bounds<V>(s: Seq<(Frame, V)>, t: Frame)
    ensures
        0 <= first_geq(s, t) <= s.len(),
        forall|j: int| 0 <= j < first_geq(s, t) ==> s[j].0 < t,
        first_geq(s, t) < s.len() ==> s[first_geq(s, t)].0 >= t,
    decreases s.len(),
{
    if s.len() == 0 {
    } else if s[0].0 >= t {
    } else {
        let tail = s.drop_first();
        lemma_first_geq_bounds(tail, t);
        assert forall|j: int| 0 <= j < first_geq(s, t) implies s[j].0 < t by {
            if j > 0 {
                assert(tail[j - 1] == s[j]);
            }
        }
        if first_geq(s, t) < s.len() {
            assert(tail[first_geq(tail, t)] == s[first_geq(s, t)]);
        }
    }
}

/// Any index with the partition properties of `first_geq` is `first_geq`.
pub proof fn lemma_first_geq_unique<V>(s: Seq<(Frame, V)>, t: Frame, i: int)
    requires
        0 <= i <= s.len(),
        forall|j: int| 0 <= j < i ==> s[j].0 < t,
        i < s.len() ==> s[i].0 >= t,
    ensures
        i == first_geq(s, t),
{
    lemma_first_geq_bounds(s, t);
    let f = first_geq(s, t);
    if i < f {
        assert(s[i].0 < t);
    } else if f < i {
        assert(s[f].0 < t);
    }
}

/// On a sorted store, a sample sits at `t` exactly when the entry `first_geq`
/// points at carries frame `t`.
pub proof fn lemma_first_geq_finds<V>(s: Seq<(Frame, V)>, t: Frame)
    requires
        sorted(s),
    ensures
        has_frame(s, t) <==> (first_geq(s, t) < s.len() && s[first_geq(s, t)].0 == t),
{
    lemma_first_geq_bounds(s, t);
    let f = first_geq(s, t);
    if has_frame(s, t) {
        let i = choose|i: int| 0 <= i < s.len() && s[i].0 == t;
        if i < f {
            assert(s[i].0 < t);
        } else if f < i {
            assert(s[f].0 < s[i].0);
        }
        assert(i == f);
    }
}

/// On a sorted store every frame carries at most one sample.
pub proof fn lemma_sorted_unique_frames<V>(s: Seq<(Frame, V)>)
    requires
        sorted(s),
    ensures
        forall|i: int, j: int|
            0 <= i < s.len() && 0 <= j < s.len() && i != j ==> s[i].0 != s[j].0,
{
    assert forall|i: int, j: int|
        0 <= i < s.len() && 0 <= j < s.len() && i != j implies s[i].0 != s[j].0 by {
        if i < j {
            assert(s[i].0 < s[j].0);
        } else {
            assert(s[j].0 < s[i].0);
        }
    }
}

/// Setting a sample keeps the store sorted, stores exactly `v` at `t`, and
/// shifts or keeps every other entry; the store grows only when `t` is new.
pub proof fn lemma_spec_insert_entries<V>(s: Seq<(Frame, V)>, t: Frame, v: V)
    requires
        sorted(s),
    ensures
        sorted(spec_insert(s, t, v)),
        first_geq(spec_insert(s, t, v), t) == first_geq(s, t),
        spec_insert(s, t, v)[first_geq(s, t)] == (t, v),
        spec_get(spec_insert(s, t, v), t) == Some(v),
        forall|j: int| 0 <= j < first_geq(s, t) ==> spec_insert(s, t, v)[j] == s[j],
        has_frame(s, t) ==> spec_insert(s, t, v).len() == s.len(),
        has_frame(s, t) ==> (forall|j: int|
            first_geq(s, t) < j < s.len() ==> spec_insert(s, t, v)[j] == s[j]),
        !has_frame(s, t) ==> spec_insert(s, t, v).len() == s.len() + 1,
        !has_frame(s, t) ==> (forall|j: int|
            first_geq(s, t) < j <= s.len() ==> spec_insert(s, t, v)[j] == s[j - 1]),
{
    lemma_first_geq_bounds(s, t);
    lemma_first_geq_finds(s, t);
    let i = first_geq(s, t);
    let r = spec_insert(s, t, v);
    if has_frame(s, t) {
        // Overwrite in place: every frame stays where it was.
        assert(r == s.update(i, (t, v)));
        assert forall|a: int, b: int| 0 <= a < b < r.len() implies r[a].0 < r[b].0 by {
            assert(r[a].0 == s[a].0);
            assert(r[b].0 == s[b].0);
        }
        lemma_first_geq_unique(r, t, i);
    } else {
        // Splice in at the partition point.
        assert(r == s.insert(i, (t, v)));
        s.insert_ensures(i, (t, v));
        assert forall|j: int| i < j <= s.len() implies r[j] == s[j - 1] by {
            assert(s.insert(i, (t, v))[(j - 1) + 1] == s[j - 1]);
        }
        assert forall|a: int, b: int| 0 <= a < b < r.len() implies r[a].0 < r[b].0 by {
            if b < i {
                assert(r[a] == s[a] && r[b] == s[b]);
            } else if b == i {
                assert(r[a] == s[a] && r[b] == (t, v));
            } else {
                // r[b] sits at or above t, strictly, since t itself is absent.
                assert(r[b] == s[b - 1]);
                assert(s[b - 1].0 >= t);
                assert(s[b - 1].0 != t);
                if a < i {
                    assert(r[a] == s[a]);
                } else if a == i {
                    assert(r[a] == (t, v));
                } else {
                    assert(r[a] == s[a - 1]);
                }
            }
        }
        lemma_first_geq_unique(r, t, i);
    }
}

/// Setting the sample at `t` leaves the sample at every other frame alone.
pub proof fn lemma_spec_insert_get_other<V>(s: Seq<(Frame, V)>, t: Frame, v: V, u: Frame)
    requires
        sorted(s),
        u != t,
    ensures
        spec_get(spec_insert(s, t, v), u) == spec_get(s, u),
{
    lemma_first_geq_bounds(s, t);
    lemma_first_geq_bounds(s, u);
    lemma_spec_insert_entries(s, t, v);
    let i = first_geq(s, t);
    let j = first_geq(s, u);
    let r = spec_insert(s, t, v);
    if has_frame(s, t) {
        // Frames are unchanged, so the partition point for `u` is too.
        lemma_first_geq_unique(r, u, j);
    } else if u < t {
        // Everything below `u` is untouched; the partition point keeps.
        assert(j <= i) by {
            if i < j {
                assert(s[i].0 < u);
            }
        }
        assert(j < r.len() ==> r[j].0 >= u) by {
            if j < i {
                assert(r[j] == s[j]);
            }
        }
        lemma_first_geq_unique(r, u, j);
        if j < s.len() && s[j].0 == u {
            assert(j < i) by {
                if j == i {
                    assert(s[i].0 >= t);
                }
            }
            assert(r[j] == s[j]);
        }
    } else {
        // u > t: entries at or above `u` shift one place to the right.
        assert(i <= j) by {
            if j < i {
                assert(s[j].0 < t);
            }
        }
        assert forall|k: int| 0 <= k < j + 1 implies r[k].0 < u by {
            if k < i {
                assert(r[k] == s[k]);
            } else if k == i {
                assert(r[k] == (t, v));
            } else {
                assert(r[k] == s[k - 1]);
            }
        }
        assert(j + 1 < r.len() ==> r[j + 1].0 >= u) by {
            if j + 1 < r.len() {
                assert(r[j + 1] == s[j]);
            }
        }
        lemma_first_geq_unique(r, u, j + 1);
        if j < s.len() && s[j].0 == u {
            assert(r[j + 1] == s[j]);
        }
    }
}

/// The sample store: frame/value pairs in strictly ascending frame order.
pub struct SampleMap<V> {
    entries: Vec<(Frame, V)>,
}

impl<V> View for SampleMap<V> {
    type V = Seq<(Frame, V)>;

    closed spec fn view(&self) -> Seq<(Frame, V)> {
        self.entries@
    }
}

impl<V: Copy> SampleMap<V> {
    /// An empty store.
    pub fn new() -> (r: SampleMap<V>)
        ensures
            r@ == Seq::<(Frame, V)>::empty(),
    {
        SampleMap { entries: Vec::new() }
    }

    /// How many samples are stored.
    pub fn len(&self) -> (n: usize)
        ensures
            n == self@.len(),
    {
        self.entries.len()
    }

    /// The sample at storage position `i`.
    pub fn entry(&self, i: usize) -> (e: (Frame, V))
        requires
            i < self@.len(),
        ensures
            e == self@[i as int],
    {
        self.entries[i]
    }

    /// Binary search for the position of the first sample at or after `t`.
    pub fn first_geq_index(&self, t: Frame) -> (i: usize)
        requires
            sorted(self@),
        ensures
            i == first_geq(self@, t),
    {
        let mut lo: usize = 0;
        let mut hi: usize = self.entries.len();
        while lo < hi
            invariant
                lo <= hi <= self@.len(),
                sorted(self@),
                forall|j: int| 0 <= j < lo ==> self@[j].0 < t,
                forall|j: int| hi <= j < self@.len() ==> self@[j].0 >= t,
            decreases hi - lo,
        {
            let mid = lo + (hi - lo) / 2;
            if self.entries[mid].0 < t {
                lo = mid + 1;
            } else {
                hi = mid;
            }
        }
        proof {
            lemma_first_geq_unique(self@, t, lo as int);
        }
        lo
    }

    /// The value sampled exactly at frame `t`, if one is stored there.
    pub fn get(&self, t: Frame) -> (r: Option<V>)
        requires
            sorted(self@),
        ensures
            r == spec_get(self@, t),
            r is Some <==> has_frame(self@, t),
    {
        proof {
            lemma_first_geq_finds(self@, t);
        }
        let i = self.first_geq_index(t);
        if i < self.entries.len() && self.entries[i].0 == t {
            Some(self.entries[i].1)
        } else {
            None
        }
    }

    /// Set the sample at frame `t` to `v`, overwriting any sample already
    /// there and keeping the store sorted.
    pub fn insert(&mut self, t: Frame, v: V)
        requires
            sorted(old(self)@),
        ensures
            final(self)@ == spec_insert(old(self)@, t, v),
    {
        proof {
            lemma_first_geq_bounds(self@, t);
        }
        let i = self.first_geq_index(t);
        if i < self.entries.len() && self.entries[i].0 == t {
            self.entries[i] = (t, v);
        } else {
            self.entries.insert(i, (t, v));
        }
    }

    /// All sample frames, in ascending order.
    pub fn keys(&self) -> (r: Vec<Frame>)
        ensures
            r@ == keys_of(self@),
    {
        let mut r: Vec<Frame> = Vec::new();
        let n = self.entries.len();
        let mut idx: usize = 0;
        while idx < n
            invariant
                idx <= n == self@.len(),
                r@.len() == idx,
                forall|j: int| 0 <= j < idx ==> r@[j] == self@[j].0,
            decreases n - idx,
        {
            r.push(self.entries[idx].0);
            idx += 1;
        }
        proof {
            assert(r@ =~= keys_of(self@));
        }
        r
    }
}

} // verus!
