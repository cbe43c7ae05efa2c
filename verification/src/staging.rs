use std::collections::BTreeMap;
use std::ops::Range;
use crate::ordered::{lemma_increasing_same_values, lemma_increasing_u64_keys};
use vstd::prelude::*;
use vstd::std_specs::btree::spec_btree_map_iter;
use vstd::std_specs::iter::IteratorSpec;

verus! {

/// Size in bytes of the staging buffer that uploads pass through.
pub const STAGING_BUFFER_SIZE: u64 = 134217728;

/// The allocations are non-empty, ordered by start, do not overlap and lie inside a buffer of
/// `total` bytes.
pub open spec fn allocations_wf(a: Seq<Range<u64>>, total: u64) -> bool {
    &&& forall|i: int| 0 <= i < a.len() ==> (#[trigger] a[i]).start < a[i].end && a[i].end <= total
    &&& forall|i: int, j: int|
        0 <= i < j < a.len() ==> (#[trigger] a[i]).end <= (#[trigger] a[j]).start
}

/// First fit, scanning from allocation `i` with the previous allocation ending at `end`: the
/// index of the first gap of at least `size` bytes and the offset where it starts.
pub open spec fn first_fit_from(a: Seq<Range<u64>>, i: nat, end: u64, size: u64, total: u64) -> Option<
    (nat, u64),
>
    decreases a.len() - i,
{
    if i >= a.len() {
        if total - end >= size {
            Some((i, end))
        } else {
            None
        }
    } else if a[i as int].start - end >= size {
        Some((i, end))
    } else {
        first_fit_from(a, i + 1, a[i as int].end, size, total)
    }
}

/// The first gap of at least `size` bytes, scanning from the start of the buffer: the index of
/// the allocation it precedes and the offset where it starts.
pub open spec fn first_fit(a: Seq<Range<u64>>, size: u64, total: u64) -> Option<(nat, u64)> {
    first_fit_from(a, 0, 0, size, total)
}

/// The allocations after recording `r` in front of allocation `k`. An empty range takes no
/// byte of the buffer and is not recorded, so it can never stand in the way of a later range.
pub open spec fn record(a: Seq<Range<u64>>, k: nat, r: Range<u64>) -> Seq<Range<u64>> {
    if r.start == r.end {
        a
    } else {
        a.insert(k as int, r)
    }
}

/// The two ranges share no byte.
pub open spec fn disjoint(r: Range<u64>, q: Range<u64>) -> bool {
    r.end <= q.start || q.end <= r.start
}

/// The map from start to end holds exactly the ranges of `a`, each under its start.
pub open spec fn indexes_ranges(m: Map<u64, u64>, a: Seq<Range<u64>>) -> bool {
    &&& forall|i: int|
        0 <= i < a.len() ==> m.contains_key((#[trigger] a[i]).start) && m[a[i].start] == a[i].end
    &&& forall|k: u64| #[trigger] m.contains_key(k) ==> exists|i: int| 0 <= i < a.len() && (#[trigger] a[i]).start == k
}

/// The ranges of the staging buffer handed out since the last `free_allocations`, kept in an
/// ordered map from start to end.
pub struct StagingManager {
    allocations: BTreeMap<u64, u64>,
    order: Ghost<Seq<Range<u64>>>,
}

impl StagingManager {
    /// The allocations, ordered by start.
    pub closed spec fn allocations(&self) -> Seq<Range<u64>> {
        self.order@
    }

    /// The allocations are well formed and the map holds exactly them.
    pub closed spec fn wf(&self) -> bool {
        &&& allocations_wf(self.order@, STAGING_BUFFER_SIZE)
        &&& indexes_ranges(self.allocations@, self.order@)
    }

    /// No allocations.
    pub fn new() -> (s: Self)
        ensures
            s.wf(),
            s.allocations() == Seq::<Range<u64>>::empty(),
    {
        StagingManager { allocations: BTreeMap::new(), order: Ghost(Seq::empty()) }
    }

    /// Walks the allocations in order of start and returns where the first gap of `size` bytes
    /// begins, with what the allocation needs to know of it.
    fn find_gap(&self, size: u64) -> (r: Option<u64>)
        requires
            self.wf(),
        ensures
            r is Some <==> first_fit(self.allocations(), size, STAGING_BUFFER_SIZE) is Some,
            r matches Some(g) ==> {
                let a = self.allocations();
                let (k, h) = first_fit(a, size, STAGING_BUFFER_SIZE)->0;
                &&& h == g
                &&& k <= a.len()
                &&& g + size <= STAGING_BUFFER_SIZE
                &&& k > 0 ==> a[k - 1].end <= g
                &&& k < a.len() ==> g + size <= a[k as int].start
            },
    {
        let ghost a = self.order@;
        let iter = self.allocations.iter();
        let ghost v = iter.remaining();
        proof {
            lemma_increasing_u64_keys(v);
            lemma_walk_in_order(&self.allocations, a, v);
        }
        let mut end: u64 = 0;
        for entry in it: iter
            invariant
                a == self.order@,
                allocations_wf(a, STAGING_BUFFER_SIZE),
                it.seq() == v,
                v.len() == a.len(),
                forall|j: int| 0 <= j < a.len() ==> *v[j].0 == a[j].start && *v[j].1 == a[j].end,
                end <= STAGING_BUFFER_SIZE,
                it.index() == 0 ==> end == 0,
                it.index() > 0 ==> end == a[it.index() - 1].end,
                first_fit(a, size, STAGING_BUFFER_SIZE) == first_fit_from(
                    a,
                    it.index() as nat,
                    end,
                    size,
                    STAGING_BUFFER_SIZE,
                ),
        {
            let ghost i = it.index();
            let start = *entry.0;
            assert(start == a[i].start && *entry.1 == a[i].end);
            assert(end <= start) by {
                if i > 0 {
                    assert(a[i - 1].end <= a[i].start);
                }
            }
            if start - end >= size {
                return Some(end);
            }
            end = *entry.1;
        }
        if STAGING_BUFFER_SIZE - end >= size {
            Some(end)
        } else {
            None
        }
    }

    /// Whether a gap of `size` bytes is left in the staging buffer.
    pub fn can_allocate(&self, size: u64) -> (b: bool)
        requires
            self.wf(),
        ensures
            b == first_fit(self.allocations(), size, STAGING_BUFFER_SIZE) is Some,
    {
        self.find_gap(size).is_some()
    }

    /// Finds the first gap of `size` bytes in the staging buffer and records the range it
    /// takes; an empty range takes no byte and is not recorded. A gap must be left
    /// (`can_allocate`); without one the allocation fails ("Attempt to allocate .. bytes in
    /// staging buffer failed!").
    pub fn allocate(&mut self, size: u64) -> (res: Range<u64>)
        requires
            old(self).wf(),
            first_fit(old(self).allocations(), size, STAGING_BUFFER_SIZE) is Some,
        ensures
            final(self).wf(),
            allocations_wf(final(self).allocations(), STAGING_BUFFER_SIZE),
            ({
                let (k, g) = first_fit(old(self).allocations(), size, STAGING_BUFFER_SIZE)->0;
                &&& res == Range { start: g, end: (g + size) as u64 }
                &&& final(self).allocations() == record(old(self).allocations(), k, res)
            }),
    {
        let ghost a = self.order@;
        let g = match self.find_gap(size) {
            Some(g) => g,
            None => {
                assert(false);
                0
            },
        };
        let ghost k = (first_fit(a, size, STAGING_BUFFER_SIZE)->0).0;
        let r = Range { start: g, end: g + size };
        if size > 0 {
            self.allocations.insert(g, g + size);
            let ghost t = a.insert(k as int, r);
            proof {
                lemma_insert_keeps_wf(a, k, r);
                assert forall|i: int| 0 <= i < t.len() implies self.allocations@.contains_key(
                    (#[trigger] t[i]).start,
                ) && self.allocations@[t[i].start] == t[i].end by {
                    if i < k {
                        assert(t[i] == a[i]);
                    } else if i > k {
                        assert(t[i] == a[i - 1]);
                    }
                }
                assert forall|q: u64| #[trigger] self.allocations@.contains_key(q) implies exists|
                    i: int,
                | 0 <= i < t.len() && (#[trigger] t[i]).start == q by {
                    if q == g {
                        assert(t[k as int].start == q);
                    } else {
                        let i = choose|i: int| 0 <= i < a.len() && (#[trigger] a[i]).start == q;
                        if i < k {
                            assert(t[i] == a[i]);
                        } else {
                            assert(t[i + 1] == a[i]);
                        }
                    }
                }
            }
            self.order = Ghost(t);
        }
        r
    }

    /// Forgets every allocation.
    pub fn free_allocations(&mut self)
        ensures
            final(self).wf(),
            final(self).allocations() == Seq::<Range<u64>>::empty(),
    {
        self.allocations.clear();
        self.order = Ghost(Seq::empty());
    }
}

/// Recording a non-empty range in a gap between allocations keeps them well formed.
proof fn lemma_insert_keeps_wf(a: Seq<Range<u64>>, k: nat, r: Range<u64>)
    requires
        allocations_wf(a, STAGING_BUFFER_SIZE),
        k <= a.len(),
        r.start < r.end <= STAGING_BUFFER_SIZE,
        k > 0 ==> a[k - 1].end <= r.start,
        k < a.len() ==> r.end <= a[k as int].start,
    ensures
        allocations_wf(a.insert(k as int, r), STAGING_BUFFER_SIZE),
{
    let t = a.insert(k as int, r);
    assert forall|i: int| 0 <= i < t.len() implies (#[trigger] t[i]).start < t[i].end && t[i].end
        <= STAGING_BUFFER_SIZE by {
        if i < k {
            assert(t[i] == a[i]);
        } else if i > k {
            assert(t[i] == a[i - 1]);
        }
    }
    assert forall|i: int, j: int| 0 <= i < j < t.len() implies (#[trigger] t[i]).end <= (
    #[trigger] t[j]).start by {
        if i < k && j < k {
            assert(t[i] == a[i] && t[j] == a[j]);
        } else if i < k && j == k {
            assert(t[i] == a[i]);
            if i < k - 1 {
                assert(a[i].end <= a[k - 1].start);
                assert(a[k - 1].start < a[k - 1].end);
            }
        } else if i < k && j > k {
            assert(t[i] == a[i] && t[j] == a[j - 1]);
        } else if i == k && j > k {
            assert(t[j] == a[j - 1]);
            if j - 1 > k {
                assert(a[k as int].end <= a[j - 1].start);
                assert(a[k as int].start < a[k as int].end);
            }
        } else {
            assert(t[i] == a[i - 1] && t[j] == a[j - 1]);
        }
    }
}

/// Walking the map of a well-formed staging manager in order of start meets the allocations
/// in their order.
proof fn lemma_walk_in_order<'a>(
    m: &'a BTreeMap<u64, u64>,
    a: Seq<Range<u64>>,
    v: Seq<(&'a u64, &'a u64)>,
)
    requires
        allocations_wf(a, STAGING_BUFFER_SIZE),
        indexes_ranges(m@, a),
        v == spec_btree_map_iter(m).remaining(),
        forall|i: int, j: int| 0 <= i < j < v.len() ==> *v[i].0 < *v[j].0,
    ensures
        v.len() == a.len(),
        forall|i: int| 0 <= i < a.len() ==> *v[i].0 == a[i].start && *v[i].1 == a[i].end,
{
    let s = Seq::new(v.len(), |i: int| *v[i].0 as int);
    let t = Seq::new(a.len(), |i: int| a[i].start as int);
    assert forall|i: int, j: int| 0 <= i < j < t.len() implies t[i] < t[j] by {
        assert(a[i].end <= a[j].start);
        assert(a[i].start < a[i].end);
    }
    assert forall|i: int| 0 <= i < s.len() implies t.contains(#[trigger] s[i]) by {
        assert(m@.contains_key(*v[i].0));
        let k = choose|k: int| 0 <= k < a.len() && (#[trigger] a[k]).start == *v[i].0;
        assert(t[k] == s[i]);
    }
    assert forall|j: int| 0 <= j < t.len() implies s.contains(#[trigger] t[j]) by {
        let key = a[j].start;
        assert(m@.contains_key(key));
        assert(v.contains((&key, &m@[key])));
        let i = choose|i: int| 0 <= i < v.len() && v[i] == (&key, &m@[key]);
        assert(s[i] == t[j]);
    }
    lemma_increasing_same_values(s, t);
    assert forall|i: int| 0 <= i < a.len() implies *v[i].0 == a[i].start && *v[i].1 == a[i].end by {
        assert(s[i] == t[i]);
        assert(m@.contains_key(*v[i].0) && m@[*v[i].0] == *v[i].1);
    }
}

/// A copy from the staging buffer into a GPU buffer: byte count, source and destination offset.
#[derive(Debug, Copy, Clone, PartialEq, Eq, Structural)]
pub struct BufferCopyRegion {
    pub size: u64,
    pub src_offset: u64,
    pub dst_offset: u64,
}

/// The copy that moves an allocated staging range into a buffer at `buffer_offset`.
pub fn buffer_copy_region(staging_range: &Range<u64>, buffer_offset: u64) -> (c: BufferCopyRegion)
    requires
        staging_range.start <= staging_range.end,
    ensures
        c == (BufferCopyRegion {
            size: (staging_range.end - staging_range.start) as u64,
            src_offset: staging_range.start,
            dst_offset: buffer_offset,
        }),
{
    BufferCopyRegion {
        size: staging_range.end - staging_range.start,
        src_offset: staging_range.start,
        dst_offset: buffer_offset,
    }
}

} // verus!
