use sha2::Digest;
use vstd::prelude::*;
use vstd::string::StringSliceAdditionalSpecFns;

verus! {

/// The SHA-256 digest of a byte string.
pub uninterp spec fn sha256(data: Seq<u8>) -> Seq<u8>;

/// `sha2::Sha256::digest`: the 32-byte SHA-256 digest of `data`.
#[verifier::external_body]
fn sha256_digest(data: &[u8]) -> (d: Vec<u8>)
    ensures
        d@ == sha256(data@),
        d@.len() == 32,
{
    sha2::Sha256::digest(data).to_vec()
}

/// The byte that picks the hue of the colour shown for an event name: the first byte of the
/// SHA-256 digest of the name.
pub fn color_hue_byte(name: &str) -> (b: u8)
    ensures
        b == sha256(name.spec_bytes())[0],
{
    let digest = sha256_digest(name.as_bytes());
    digest[0]
}

/// Tracks the smallest overhead of one profiling event, measured from the spacing of the
/// periodic dense events.
pub struct DenseEventTracker {
    prev_dense_event: Option<u64>,
    min_event_overhead: Option<u64>,
}

impl DenseEventTracker {
    /// The time of the last dense event seen.
    pub closed spec fn prev(&self) -> Option<u64> {
        self.prev_dense_event
    }

    /// The smallest event overhead found so far.
    pub closed spec fn min_overhead(&self) -> Option<u64> {
        self.min_event_overhead
    }

    /// Nothing seen yet.
    pub fn new() -> (t: Self)
        ensures
            t.prev() is None,
            t.min_overhead() is None,
    {
        DenseEventTracker { prev_dense_event: None, min_event_overhead: None }
    }

    /// The time of the last dense event seen.
    pub fn prev_event(&self) -> (p: Option<u64>)
        ensures
            p == self.prev(),
    {
        self.prev_dense_event
    }

    /// The smallest event overhead found so far.
    pub fn min_event_overhead(&self) -> (m: Option<u64>)
        ensures
            m == self.min_overhead(),
    {
        self.min_event_overhead
    }

    /// Records a dense event at time `tm`. The first gap between two events sets the overhead;
    /// later, a gap `d` with `2 * d` below the overhead lowers it to `2 * d`.
    pub fn dense_event(&mut self, tm: u64)
        requires
            old(self).prev() matches Some(p) ==> p <= tm && (old(self).min_overhead() is Some ==> 2
                * (tm - p) <= u64::MAX),
        ensures
            final(self).prev() == Some(tm),
            final(self).min_overhead() == match old(self).prev() {
                None => old(self).min_overhead(),
                Some(p) => match old(self).min_overhead() {
                    None => Some((tm - p) as u64),
                    Some(v) => if 2 * (tm - p) < v {
                        Some((2 * (tm - p)) as u64)
                    } else {
                        Some(v)
                    },
                },
            },
    {
        let prev = match self.prev_dense_event {
            Some(p) => p,
            None => {
                self.prev_dense_event = Some(tm);
                return ;
            },
        };
        let dur = tm - prev;
        match self.min_event_overhead {
            Some(v) => {
                if dur * 2 < v {
                    self.min_event_overhead = Some(dur * 2);
                }
            },
            None => {},
        }
        if self.min_event_overhead.is_none() {
            self.min_event_overhead = Some(dur);
        }
        self.prev_dense_event = Some(tm);
    }
}

} // verus!
