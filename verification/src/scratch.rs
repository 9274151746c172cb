//! Reusable scratch arena.
//!
//! The pipeline needs a working buffer once per frame. To keep per-frame
//! allocation bounded, the arena grows monotonically: a request never
//! shrinks it, and a request at or below the current capacity leaves it
//! unchanged. The caller constructs one arena and passes it into every
//! call; exclusive access is the caller's `&mut` borrow.

use vstd::prelude::*;

verus! {

/// Capacity of the arena after a request of `cap` bytes against a region
/// currently `len` bytes long: the larger of the two.
pub open spec fn grown_capacity(len: nat, cap: nat) -> nat {
    if cap <= len {
        len
    } else {
        cap
    }
}

/// Scratch monotonicity: however the arena is used afterwards, a later
/// request never brings the capacity below what an earlier request
/// established.
pub proof fn lemma_scratch_monotonic(len: nat, first: nat, later: nat)
    ensures
        grown_capacity(grown_capacity(len, first), later) >= first,
        grown_capacity(len, first) >= len,
{
}

/// A reusable byte region that only ever grows.
pub struct Scratch {
    buf: Vec<u8>,
}

impl View for Scratch {
    type V = Seq<u8>;

    closed spec fn view(&self) -> Seq<u8> {
        self.buf@
    }
}

impl Scratch {
    /// An empty arena; the first frame sizes it.
    pub fn new() -> (s: Scratch)
        ensures
            s@.len() == 0,
    {
        Scratch { buf: Vec::new() }
    }

    /// Current capacity of the region in bytes.
    pub fn capacity(&self) -> (n: usize)
        ensures
            n == self@.len(),
    {
        self.buf.len()
    }

    /// Grow the region to hold at least `cap` bytes. Existing bytes are
    /// kept and any new tail bytes are zero; a request at or below the
    /// current capacity is a no-op.
    pub fn ensure_scratch(&mut self, cap: usize)
        ensures
            final(self)@.len() == grown_capacity(old(self)@.len(), cap as nat),
            forall|k: int| 0 <= k < old(self)@.len() ==> final(self)@[k] == old(self)@[k],
            forall|k: int| old(self)@.len() <= k < final(self)@.len() ==> final(self)@[k] == 0,
    {
        if self.buf.len() < cap {
            while self.buf.len() < cap
                invariant
                    old(self)@.len() <= self.buf@.len() <= cap,
                    forall|k: int| 0 <= k < old(self)@.len() ==> self.buf@[k] == old(self)@[k],
                    forall|k: int|
                        old(self)@.len() <= k < self.buf@.len() ==> self.buf@[k] == 0,
                decreases cap - self.buf@.len(),
            {
                self.buf.push(0);
            }
        }
    }

    /// Pre-size the region for the largest expected frame: `4` bytes per
    /// pixel covers the RGBA output, the widest of the pipeline's needs
    /// for a single region. Idempotent, and never shrinks the region.
    pub fn init_buffers(&mut self, max_width: usize, max_height: usize)
        requires
            max_width * max_height * 4 <= usize::MAX,
        ensures
            final(self)@.len() == grown_capacity(
                old(self)@.len(),
                (max_width * max_height * 4) as nat,
            ),
            forall|k: int| 0 <= k < old(self)@.len() ==> final(self)@[k] == old(self)@[k],
            forall|k: int| old(self)@.len() <= k < final(self)@.len() ==> final(self)@[k] == 0,
    {
        let cap = max_width * max_height * 4;
        self.ensure_scratch(cap);
    }
}

} // verus!
