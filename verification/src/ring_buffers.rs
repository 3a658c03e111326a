//! The cursor of a fixed-size ring of reusable buffers: callers take the
//! next slot in order, wrapping at the ring's size. The buffers themselves
//! live with the runtime that owns them.

use vstd::prelude::*;

verus! {

/// Number of slots in a ring.
pub const RB_SIZE: usize = 500;

/// A ring cursor: hands out slot indices round-robin.
pub struct RingBuffer {
    /// The slot the next taker receives.
    pub iter: usize,
}

impl RingBuffer {
    pub open spec fn wf(self) -> bool {
        self.iter < RB_SIZE
    }

    pub fn new() -> (r: Self)
        ensures
            r.wf(),
            r.iter == 0,
    {
        RingBuffer { iter: 0 }
    }

    /// The slot of the next element in the ring; the cursor moves forward
    /// and wraps at the ring's size.
    pub fn get_next(&mut self) -> (r: usize)
        requires
            old(self).wf(),
        ensures
            final(self).wf(),
            r == old(self).iter,
            r < RB_SIZE,
            final(self).iter == (old(self).iter + 1) % (RB_SIZE as int),
    {
        let idx = self.iter;
        if idx + 1 == RB_SIZE {
            // Reset the write iterator
            self.iter = 0;
        } else {
            self.iter = idx + 1;
        }
        idx
    }
}

} // verus!
