use std::cmp::Ordering;
use vstd::prelude::*;

verus! {

/// One measured frame (or one span inside a frame): its name, start time, duration and the
/// spans measured inside it.
pub struct FrameTimeSample {
    pub name: String,
    pub start: u64,
    pub dur: u64,
    pub inner: Vec<FrameTimeSample>,
}

impl PartialEq for FrameTimeSample {
    fn eq(&self, other: &Self) -> (r: bool) {
        self.name == other.name
    }
}

impl vstd::std_specs::cmp::PartialEqSpecImpl for FrameTimeSample {
    open spec fn obeys_eq_spec() -> bool {
        true
    }

    /// Samples are told apart by name alone.
    open spec fn eq_spec(&self, other: &Self) -> bool {
        self.name@ == other.name@
    }
}

impl Eq for FrameTimeSample {}

impl Default for FrameTimeSample {
    /// An unnamed sample at time 0 with no duration and no inner spans.
    fn default() -> (r: Self)
        ensures
            r.name@ == Seq::<char>::empty(),
            r.start == 0,
            r.dur == 0,
            r.inner@ == Seq::<FrameTimeSample>::empty(),
    {
        FrameTimeSample { name: String::new(), start: 0, dur: 0, inner: Vec::new() }
    }
}

/// Two samples agree in name and times.
pub open spec fn same_head(a: FrameTimeSample, b: FrameTimeSample) -> bool {
    &&& a.name@ == b.name@
    &&& a.start == b.start
    &&& a.dur == b.dur
}

/// Two samples agree in name and times, and so do their inner spans, pairwise, down to
/// `depth` levels of nesting.
pub open spec fn same_upto(a: FrameTimeSample, b: FrameTimeSample, depth: nat) -> bool
    decreases depth, 0nat,
{
    &&& same_head(a, b)
    &&& a.inner@.len() == b.inner@.len()
    &&& depth > 0 ==> same_all(a.inner@, b.inner@, (depth - 1) as nat)
}

/// Two sequences of samples agree pairwise down to `depth` levels of nesting.
pub open spec fn same_all(xs: Seq<FrameTimeSample>, ys: Seq<FrameTimeSample>, depth: nat) -> bool
    decreases depth, xs.len() + 1,
{
    &&& xs.len() == ys.len()
    &&& xs.len() > 0 ==> same_upto(xs[0], ys[0], depth) && same_all(
        xs.drop_first(),
        ys.drop_first(),
        depth,
    )
}

/// Sequences that agree element by element agree as sequences.
proof fn lemma_same_all(xs: Seq<FrameTimeSample>, ys: Seq<FrameTimeSample>, depth: nat)
    requires
        xs.len() == ys.len(),
        forall|k: int| 0 <= k < xs.len() ==> #[trigger] same_upto(xs[k], ys[k], depth),
    ensures
        same_all(xs, ys, depth),
    decreases xs.len(),
{
    if xs.len() > 0 {
        assert(same_upto(xs[0], ys[0], depth));
        assert forall|k: int| 0 <= k < xs.drop_first().len() implies #[trigger] same_upto(
            xs.drop_first()[k],
            ys.drop_first()[k],
            depth,
        ) by {
            assert(xs.drop_first()[k] == xs[k + 1] && ys.drop_first()[k] == ys[k + 1]);
        }
        lemma_same_all(xs.drop_first(), ys.drop_first(), depth);
    }
}

/// Two samples agree at every level of nesting: each is a copy of the other.
pub open spec fn same_sample(a: FrameTimeSample, b: FrameTimeSample) -> bool {
    forall|depth: nat| #[trigger] same_upto(a, b, depth)
}

impl Clone for FrameTimeSample {
    /// A copy with the same name and times, whose inner spans are copies of the inner spans in
    /// turn, at every level of nesting.
    fn clone(&self) -> (r: Self)
        ensures
            same_sample(r, *self),
        decreases self,
    {
        let mut inner: Vec<FrameTimeSample> = Vec::new();
        let mut i: usize = 0;
        while i < self.inner.len()
            invariant
                i <= self.inner@.len(),
                inner@.len() == i,
                forall|k: int| 0 <= k < i ==> #[trigger] same_sample(inner@[k], self.inner@[k]),
            decreases self.inner@.len() - i,
        {
            assert(decreases_to!(self => self.inner@[i as int]));
            inner.push(self.inner[i].clone());
            i = i + 1;
        }
        let r = FrameTimeSample { name: self.name.clone(), start: self.start, dur: self.dur, inner };
        assert forall|depth: nat| #[trigger] same_upto(r, *self, depth) by {
            if depth > 0 {
                assert forall|k: int| 0 <= k < r.inner@.len() implies #[trigger] same_upto(
                    r.inner@[k],
                    self.inner@[k],
                    (depth - 1) as nat,
                ) by {
                    assert(same_sample(inner@[k], self.inner@[k]));
                }
                lemma_same_all(r.inner@, self.inner@, (depth - 1) as nat);
            }
        }
        r
    }
}

impl PartialOrd for FrameTimeSample {
    fn partial_cmp(&self, other: &Self) -> (r: Option<Ordering>) {
        if self.dur < other.dur {
            Some(Ordering::Less)
        } else if self.dur == other.dur {
            Some(Ordering::Equal)
        } else {
            Some(Ordering::Greater)
        }
    }
}

impl vstd::std_specs::cmp::PartialOrdSpecImpl for FrameTimeSample {
    open spec fn obeys_partial_cmp_spec() -> bool {
        true
    }

    /// Samples are ordered by duration alone.
    open spec fn partial_cmp_spec(&self, other: &Self) -> Option<Ordering> {
        if self.dur < other.dur {
            Some(Ordering::Less)
        } else if self.dur == other.dur {
            Some(Ordering::Equal)
        } else {
            Some(Ordering::Greater)
        }
    }
}

} // verus!
