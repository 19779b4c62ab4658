//! The keyframe channel: a value that is either constant for its whole
//! existence or keyframed, holding time-ordered samples, a one-entry
//! evaluation cache, and an evaluator that finds the exact sample or the two
//! neighbouring samples of a query frame.

use vstd::prelude::*;

use crate::samples::{
    first_geq, has_frame, keys_of, lemma_first_geq_bounds, lemma_first_geq_unique,
    lemma_spec_insert_entries, sorted, spec_get, spec_insert, Frame, SampleMap,
};

verus! {

/// The outcome of evaluating a channel at one frame: either the channel takes
/// an exact value there, or the frame falls strictly between two neighbouring
/// samples and the value is found by tweening between them.
#[derive(Clone, Copy)]
pub enum Eval<V> {
    /// The channel's value at the queried frame, with no tweening needed.
    Value(V),
    /// The queried frame lies strictly between these two samples, given as
    /// (earlier frame, its value, later frame, its value); the channel's
    /// value is the linear tween of the pair, evaluated at the queried frame.
    Tween(Frame, V, Frame, V),
}

/// What evaluating a sorted, non-empty sample store at frame `t` yields:
/// the exact sample at `t` when there is one; the nearest sample's value when
/// `t` lies before the first or after the last sample; otherwise the two
/// samples that surround `t`, to be tweened.
pub open spec fn eval_keyed<V>(s: Seq<(Frame, V)>, t: Frame) -> Eval<V>
    recommends
        s.len() > 0,
{
    let i = first_geq(s, t);
    if i < s.len() && s[i].0 == t {
        Eval::Value(s[i].1)
    } else if i >= s.len() {
        Eval::Value(s[s.len() - 1].1)
    } else if i == 0 {
        Eval::Value(s[0].1)
    } else {
        Eval::Tween(s[i - 1].0, s[i - 1].1, s[i].0, s[i].1)
    }
}

/// A keyframable value. Either it holds one value for its whole existence, or
/// it holds keyframed samples. It is split this way, rather than being a
/// store with one entry from the start, because there is no sensible default
/// frame to file the initial value under.
pub enum KeyframeV3<V> {
    Single(V),
    Multiple { tree: SampleMap<V>, cache: Option<(Frame, Eval<V>)> },
}

impl<V> KeyframeV3<V> {
    /// The stored samples; none yet while the channel is still constant.
    pub open spec fn sample_seq(self) -> Seq<(Frame, V)> {
        match self {
            KeyframeV3::Single(_) => Seq::empty(),
            KeyframeV3::Multiple { tree, .. } => tree@,
        }
    }

    /// Well-formed: samples are sorted and, once keyframed, never empty; the
    /// cache, when filled, holds exactly the evaluation of the current
    /// samples at the cached frame.
    pub open spec fn wf(self) -> bool {
        match self {
            KeyframeV3::Single(_) => true,
            KeyframeV3::Multiple { tree, cache } => {
                &&& sorted(tree@)
                &&& tree@.len() > 0
                &&& (cache matches Some(c) ==> c.1 == eval_keyed(tree@, c.0))
            },
        }
    }
}

/// Everything `at` does: a constant channel returns its value and is left
/// untouched; a keyframed channel returns the evaluation of its samples at
/// the queried frame, leaves the samples alone, and remembers the result in
/// the cache.
pub open spec fn at_post<V>(pre: KeyframeV3<V>, post: KeyframeV3<V>, frame: Frame, r: Eval<
    V,
>) -> bool {
    match pre {
        KeyframeV3::Single(v) => r == Eval::Value(v) && post == pre,
        KeyframeV3::Multiple { tree, cache } => {
            &&& r == eval_keyed(tree@, frame)
            &&& post == (KeyframeV3::Multiple { tree, cache: Some((frame, r)) })
        },
    }
}

/// Everything `set_at` does: the channel is keyframed afterwards, its samples
/// are the old ones with the sample at `frame` set to `val` (a constant
/// channel contributes no old samples; its constant is discarded), and the
/// cache is cleared unconditionally.
pub open spec fn set_at_post<V>(pre: KeyframeV3<V>, post: KeyframeV3<V>, frame: Frame, val: V) -> bool {
    &&& post is Multiple
    &&& post->Multiple_cache is None
    &&& post.sample_seq() == spec_insert(pre.sample_seq(), frame, val)
}

/// Evaluate a sorted, non-empty sample store at `frame` by binary search:
/// the exact sample if present, the nearest end value outside the sampled
/// range, or the two surrounding samples.
fn eval_tree<V: Copy>(tree: &SampleMap<V>, frame: Frame) -> (r: Eval<V>)
    requires
        sorted(tree@),
        tree@.len() > 0,
    ensures
        r == eval_keyed(tree@, frame),
{
    proof {
        lemma_first_geq_bounds(tree@, frame);
    }
    let n = tree.len();
    let i = tree.first_geq_index(frame);
    if i < n && tree.entry(i).0 == frame {
        Eval::Value(tree.entry(i).1)
    } else if i == n {
        Eval::Value(tree.entry(n - 1).1)
    } else if i == 0 {
        Eval::Value(tree.entry(0).1)
    } else {
        let prev = tree.entry(i - 1);
        let next = tree.entry(i);
        Eval::Tween(prev.0, prev.1, next.0, next.1)
    }
}

impl<V: Copy> KeyframeV3<V> {
    /// A fresh channel holding `init` as its constant value at every frame.
    pub fn new(init: V) -> (r: KeyframeV3<V>)
        ensures
            r == KeyframeV3::<V>::Single(init),
            r.wf(),
    {
        KeyframeV3::Single(init)
    }

    /// The value this channel takes at the given frame. A constant channel
    /// returns its value; a keyframed channel answers from the cache when the
    /// frame matches, and otherwise evaluates the samples and refills the
    /// cache with the result.
    pub fn at(&mut self, frame: Frame) -> (r: Eval<V>)
        requires
            old(self).wf(),
        ensures
            final(self).wf(),
            at_post(*old(self), *final(self), frame, r),
    {
        match self {
            KeyframeV3::Single(v) => Eval::Value(*v),
            KeyframeV3::Multiple { tree, cache } => {
                if let Some(c) = cache {
                    if c.0 == frame {
                        return c.1;
                    }
                }
                let r = eval_tree(tree, frame);
                *cache = Some((frame, r));
                r
            },
        }
    }

    /// All keyframed frames, ascending: absent while the channel is still
    /// constant, as opposed to empty, which a keyframed channel never is.
    pub fn frames(&self) -> (r: Option<Vec<Frame>>)
        ensures
            r is None <==> *self is Single,
            r matches Some(ks) ==> ks@ == keys_of(self.sample_seq()),
            self.wf() ==> (r matches Some(ks) ==> (forall|a: int, b: int|
                0 <= a < b < ks@.len() ==> ks@[a] < ks@[b])),
    {
        match self {
            KeyframeV3::Single(_) => None,
            KeyframeV3::Multiple { tree, .. } => {
                let ks = tree.keys();
                proof {
                    if self.wf() {
                        assert forall|a: int, b: int|
                            0 <= a < b < ks@.len() implies ks@[a] < ks@[b] by {
                            assert(ks@[a] == tree@[a].0);
                            assert(ks@[b] == tree@[b].0);
                        }
                    }
                }
                Some(ks)
            },
        }
    }

    /// Set the sample at `frame` to `val`. A constant channel becomes
    /// keyframed with this single sample, discarding its constant value; a
    /// keyframed channel stores the sample, overwriting any sample already at
    /// that frame. Either way the cache is cleared: an edit can change the
    /// tweened value at every frame.
    pub fn set_at(&mut self, frame: Frame, val: V)
        requires
            old(self).wf(),
        ensures
            final(self).wf(),
            set_at_post(*old(self), *final(self), frame, val),
    {
        proof {
            lemma_spec_insert_entries(old(self).sample_seq(), frame, val);
        }
        match self {
            KeyframeV3::Single(_) => {
                let mut tree = SampleMap::new();
                tree.insert(frame, val);
                *self = KeyframeV3::Multiple { tree, cache: None };
            },
            KeyframeV3::Multiple { tree, cache } => {
                tree.insert(frame, val);
                *cache = None;
            },
        }
    }
}

/// A constant channel returns its constant at every frame and is left
/// exactly as it was.
pub proof fn lemma_constant_at<V>(v: V, post: KeyframeV3<V>, t: Frame, r: Eval<V>)
    requires
        at_post(KeyframeV3::Single(v), post, t, r),
    ensures
        r == Eval::<V>::Value(v),
        post == KeyframeV3::<V>::Single(v),
{
}

/// Evaluating a store right at a freshly set sample yields exactly that
/// sample's value, with no tweening.
pub proof fn lemma_eval_at_set_frame<V>(s: Seq<(Frame, V)>, t: Frame, v: V)
    requires
        sorted(s),
    ensures
        eval_keyed(spec_insert(s, t, v), t) == Eval::<V>::Value(v),
{
    lemma_first_geq_bounds(s, t);
    lemma_spec_insert_entries(s, t, v);
}

/// At a frame that carries a sample, evaluation returns exactly that
/// sample's value, with no tweening.
pub proof fn lemma_exact_hit<V>(s: Seq<(Frame, V)>, t: Frame)
    requires
        sorted(s),
    ensures
        spec_get(s, t) matches Some(v) ==> eval_keyed(s, t) == Eval::<V>::Value(v),
{
}

/// Immediately after `set_at(t, v)`, `at(t)` returns exactly `v`, whatever
/// the channel held before.
pub proof fn lemma_at_after_set<V>(
    pre: KeyframeV3<V>,
    mid: KeyframeV3<V>,
    post: KeyframeV3<V>,
    t: Frame,
    v: V,
    r: Eval<V>,
)
    requires
        pre.wf(),
        set_at_post(pre, mid, t, v),
        at_post(mid, post, t, r),
    ensures
        r == Eval::<V>::Value(v),
{
    lemma_eval_at_set_frame(pre.sample_seq(), t, v);
}

/// Evaluating twice at the same frame with no edit in between returns
/// identical results, and the second evaluation changes nothing.
pub proof fn lemma_at_idempotent<V>(
    pre: KeyframeV3<V>,
    mid: KeyframeV3<V>,
    post: KeyframeV3<V>,
    t: Frame,
    r1: Eval<V>,
    r2: Eval<V>,
)
    requires
        at_post(pre, mid, t, r1),
        at_post(mid, post, t, r2),
    ensures
        r2 == r1,
        post == mid,
{
}

/// Between two samples at neighbouring positions, evaluation hands out
/// exactly those two samples to tween between.
pub proof fn lemma_tween_neighbours<V>(s: Seq<(Frame, V)>, i: int, t: Frame)
    requires
        sorted(s),
        0 <= i,
        i + 1 < s.len(),
        s[i].0 < t < s[i + 1].0,
    ensures
        eval_keyed(s, t) == Eval::<V>::Tween(s[i].0, s[i].1, s[i + 1].0, s[i + 1].1),
{
    assert forall|j: int| 0 <= j < i + 1 implies s[j].0 < t by {
        if j < i {
            assert(s[j].0 < s[i].0);
        }
    }
    lemma_first_geq_unique(s, t, i + 1);
}

/// Flat extrapolation: at or before the first sample the channel takes the
/// first sample's value; at or after the last, the last sample's value.
pub proof fn lemma_flat_extrapolation<V>(s: Seq<(Frame, V)>, t: Frame)
    requires
        sorted(s),
        s.len() > 0,
    ensures
        t <= s[0].0 ==> eval_keyed(s, t) == Eval::<V>::Value(s[0].1),
        t >= s[s.len() - 1].0 ==> eval_keyed(s, t) == Eval::<V>::Value(s[s.len() - 1].1),
{
    lemma_first_geq_bounds(s, t);
    if t >= s[s.len() - 1].0 {
        if t == s[s.len() - 1].0 {
            assert forall|j: int| 0 <= j < s.len() - 1 implies s[j].0 < t by {
                assert(s[j].0 < s[s.len() - 1].0);
            }
            lemma_first_geq_unique(s, t, s.len() - 1);
        } else {
            assert forall|j: int| 0 <= j < s.len() implies s[j].0 < t by {
                if j < s.len() - 1 {
                    assert(s[j].0 < s[s.len() - 1].0);
                }
            }
            lemma_first_geq_unique(s, t, s.len() as int);
        }
    }
}

/// Setting a frame twice keeps the second value and exactly one sample at
/// that frame: the store is the same as if only the second set had happened,
/// and the stored frames do not change at the second set.
pub proof fn lemma_overwrite<V>(s: Seq<(Frame, V)>, t: Frame, v1: V, v2: V)
    requires
        sorted(s),
    ensures
        spec_insert(spec_insert(s, t, v1), t, v2) == spec_insert(s, t, v2),
        keys_of(spec_insert(spec_insert(s, t, v1), t, v2)) == keys_of(spec_insert(s, t, v1)),
        spec_get(spec_insert(spec_insert(s, t, v1), t, v2), t) == Some(v2),
{
    lemma_first_geq_bounds(s, t);
    lemma_spec_insert_entries(s, t, v1);
    lemma_spec_insert_entries(s, t, v2);
    let s1 = spec_insert(s, t, v1);
    let i = first_geq(s, t);
    assert(has_frame(s1, t));
    lemma_spec_insert_entries(s1, t, v2);
    let s2 = spec_insert(s1, t, v2);
    assert(s2 =~= spec_insert(s, t, v2)) by {
        assert forall|j: int| 0 <= j < s2.len() implies s2[j] == spec_insert(s, t, v2)[j] by {
            if j > i {
                assert(s2[j] == s1[j]);
            }
        }
    }
    assert(keys_of(s2) =~= keys_of(s1));
}

/// After any edit, a later evaluation is computed from the edited samples
/// alone: whatever was cached before the edit cannot survive it.
pub proof fn lemma_cache_invalidation<V>(
    pre: KeyframeV3<V>,
    mid: KeyframeV3<V>,
    post: KeyframeV3<V>,
    t1: Frame,
    t2: Frame,
    v: V,
    r: Eval<V>,
)
    requires
        set_at_post(pre, mid, t2, v),
        at_post(mid, post, t1, r),
    ensures
        r == eval_keyed(spec_insert(pre.sample_seq(), t2, v), t1),
{
}

/// A channel's first sample gives it exactly one keyframed frame.
pub proof fn lemma_frames_after_first_set<V>(v0: V, mid: KeyframeV3<V>, t: Frame, v: V)
    requires
        set_at_post(KeyframeV3::Single(v0), mid, t, v),
    ensures
        keys_of(mid.sample_seq()) == seq![t],
{
    let s = Seq::<(Frame, V)>::empty();
    lemma_spec_insert_entries(s, t, v);
    assert(keys_of(mid.sample_seq()) =~= seq![t]);
}

} // verus!
