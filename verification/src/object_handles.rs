use vstd::prelude::*;

verus! {

/// Identifies one drawable object on both sides of the update stream.
pub type ObjectId = usize;

/// Identifies one uniform resource (a uniform buffer or an image).
pub type UniformResourceId = usize;

/// The successor of a counter value; the counters wrap around like an atomic `fetch_add`.
pub open spec fn next_counter(n: usize) -> usize {
    if n == usize::MAX {
        0
    } else {
        (n + 1) as usize
    }
}

/// The counter value after `k` more ids have been handed out from `n`.
pub open spec fn advance(n: usize, k: nat) -> usize
    decreases k,
{
    if k == 0 {
        n
    } else {
        next_counter(advance(n, (k - 1) as nat))
    }
}

/// The two handle counters: one for object ids and one for uniform resource ids.
pub struct HandleCounters {
    next_object: usize,
    next_uniform: usize,
}

impl HandleCounters {
    /// The id that the next call of `get_new_object_id` hands out.
    pub closed spec fn next_object(&self) -> usize {
        self.next_object
    }

    /// The id that the next call of `get_new_uniform_id` hands out.
    pub closed spec fn next_uniform(&self) -> usize {
        self.next_uniform
    }

    /// Both counters start at zero.
    pub fn new() -> (c: Self)
        ensures
            c.next_object() == 0,
            c.next_uniform() == 0,
    {
        HandleCounters { next_object: 0, next_uniform: 0 }
    }
}

/// Hands out a fresh object id: the current counter value, after which the counter advances.
pub fn get_new_object_id(counters: &mut HandleCounters) -> (id: ObjectId)
    ensures
        id == old(counters).next_object(),
        final(counters).next_object() == next_counter(old(counters).next_object()),
        final(counters).next_uniform() == old(counters).next_uniform(),
{
    let id = counters.next_object;
    counters.next_object = id.wrapping_add(1);
    id
}

/// Hands out a fresh uniform resource id: the current counter value, after which the counter
/// advances.
pub fn get_new_uniform_id(counters: &mut HandleCounters) -> (id: UniformResourceId)
    ensures
        id == old(counters).next_uniform(),
        final(counters).next_uniform() == next_counter(old(counters).next_uniform()),
        final(counters).next_object() == old(counters).next_object(),
{
    let id = counters.next_uniform;
    counters.next_uniform = id.wrapping_add(1);
    id
}

} // verus!
