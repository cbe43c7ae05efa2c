use std::ops::Range;
use crate::updates::BufferUpdateData;
use vstd::prelude::*;

verus! {

/// The smallest range that covers `r2` and, when present, `r1`.
pub open spec fn merged_range(r1: Option<Range<usize>>, r2: Range<usize>) -> Range<usize> {
    match r1 {
        Some(r) => Range {
            start: if r.start <= r2.start { r.start } else { r2.start },
            end: if r.end >= r2.end { r.end } else { r2.end },
        },
        None => r2,
    }
}

/// Merges a newly modified range into the range that is already marked as modified.
pub fn merge_ranges(r1: Option<Range<usize>>, r2: Range<usize>) -> (res: Option<Range<usize>>)
    ensures
        res == Some(merged_range(r1, r2)),
{
    match r1 {
        Some(r) => {
            let start = if r.start <= r2.start { r.start } else { r2.start };
            let end = if r.end >= r2.end { r.end } else { r2.end };
            Some(Range { start, end })
        },
        None => Some(r2),
    }
}

} // verus!

verus! {

/// `r` is a well-ordered range inside a buffer of `len` bytes.
pub open spec fn range_within(r: Range<usize>, len: nat) -> bool {
    r.start <= r.end && r.end <= len
}

/// The byte image of one layout value together with the byte range that changed since
/// the last time the changes were handed out.
pub struct StateUpdatesBytes {
    inner: Vec<u8>,
    modified: Option<Range<usize>>,
}

impl StateUpdatesBytes {
    /// The modified range, when there is one, is well ordered and lies inside the bytes. Every
    /// value keeps this; `use_type_invariant` on a value gives it.
    #[verifier::type_invariant]
    pub open spec fn modified_in_bounds(self) -> bool {
        match self.modified() {
            Some(r) => range_within(r, self.bytes().len()),
            None => true,
        }
    }

    /// The current bytes of the value.
    pub closed spec fn bytes(&self) -> Seq<u8> {
        self.inner@
    }

    /// The byte range changed since the changes were last cleared, if any.
    pub closed spec fn modified(&self) -> Option<Range<usize>> {
        self.modified
    }

    /// A fresh state: every byte counts as modified.
    pub fn new(v: Vec<u8>) -> (s: Self)
        ensures
            s.bytes() == v@,
            s.modified() == Some(Range { start: 0usize, end: v.len() }),
    {
        let len = v.len();
        StateUpdatesBytes { inner: v, modified: Some(Range { start: 0, end: len }) }
    }

    /// The size in bytes of the value.
    pub fn size(&self) -> (n: usize)
        ensures
            n == self.bytes().len(),
    {
        self.inner.len()
    }

    /// The current bytes of the value.
    pub fn as_bytes(&self) -> (b: &[u8])
        ensures
            b@ == self.bytes(),
    {
        self.inner.as_slice()
    }

    /// Replaces the whole value; every byte counts as modified.
    pub fn set(&mut self, v: Vec<u8>)
        requires
            v@.len() == old(self).bytes().len(),
        ensures
            final(self).bytes() == v@,
            final(self).modified() == Some(Range { start: 0usize, end: v.len() }),
    {
        let len = v.len();
        self.modified = None;
        self.inner = v;
        self.modified = Some(Range { start: 0, end: len });
    }

    /// Overwrites the bytes of one field and widens the modified range to cover it.
    pub fn modify_field(&mut self, range: Range<usize>, value: &[u8])
        requires
            range_within(range, old(self).bytes().len()),
            value@.len() == range.end - range.start,
        ensures
            final(self).bytes() == old(self).bytes().subrange(0, range.start as int) + value@
                + old(self).bytes().subrange(range.end as int, old(self).bytes().len() as int),
            final(self).modified() == Some(merged_range(old(self).modified(), range)),
    {
        proof {
            use_type_invariant(&*self);
        }
        let ghost old_bytes = self.inner@;
        let len = self.inner.len();
        let mut written: Vec<u8> = Vec::with_capacity(len);
        let mut k: usize = 0;
        while k < len
            invariant
                len == old_bytes.len(),
                self.inner@ == old_bytes,
                self.modified == old(self).modified,
                self.modified matches Some(r) ==> range_within(r, old_bytes.len()),
                range_within(range, old_bytes.len()),
                value@.len() == range.end - range.start,
                k <= len,
                written@.len() == k,
                forall|j: int|
                    0 <= j < k ==> #[trigger] written@[j] == if range.start <= j < range.end {
                        value@[j - range.start]
                    } else {
                        old_bytes[j]
                    },
            decreases len - k,
        {
            if range.start <= k && k < range.end {
                written.push(value[k - range.start]);
            } else {
                written.push(self.inner[k]);
            }
            k = k + 1;
        }
        self.inner = written;
        let current = match &self.modified {
            Some(r) => Some(Range { start: r.start, end: r.end }),
            None => None,
        };
        let merged = merge_ranges(current, range);
        self.modified = merged;
        assert(self.inner@ =~= old_bytes.subrange(0, range.start as int) + value@
            + old_bytes.subrange(range.end as int, old_bytes.len() as int));
    }

    /// The modified bytes and the offset at which they start, if anything changed.
    pub fn modified_range(&self) -> (res: Option<(&[u8], usize)>)
        ensures
            match self.modified() {
                Some(r) => res matches Some((b, off)) && off == r.start && b@ == self.bytes().subrange(
                    r.start as int,
                    r.end as int,
                ),
                None => res is None,
            },
            self.modified_in_bounds(),
    {
        proof {
            use_type_invariant(self);
        }
        match &self.modified {
            Some(r) => {
                let b = vstd::slice::slice_subrange(self.inner.as_slice(), r.start, r.end);
                Some((b, r.start))
            },
            None => None,
        }
    }

    /// The modified bytes as a buffer write, if anything changed.
    pub fn modified_bytes(&self) -> (res: Option<BufferUpdateData<'_>>)
        ensures
            match self.modified() {
                Some(r) => res matches Some(d) && d.buffer_offset == r.start && d.modified_bytes@
                    == self.bytes().subrange(r.start as int, r.end as int),
                None => res is None,
            },
            self.modified_in_bounds(),
    {
        match self.modified_range() {
            Some((b, off)) => Some(BufferUpdateData { modified_bytes: b, buffer_offset: off }),
            None => None,
        }
    }

    /// Forgets the modified range: nothing counts as changed any more.
    pub fn clear_modified(&mut self)
        ensures
            final(self).bytes() == old(self).bytes(),
            final(self).modified() is None,
    {
        self.modified = None;
    }
}

} // verus!
