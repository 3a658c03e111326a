//! Sliding-window anti-replay check for received packet counters: a
//! fixed-size bitmap with a high-water mark. A counter is accepted when it
//! lies ahead of the mark, or within the window and not yet seen.

use vstd::prelude::*;
use crate::errors::WireGuardError;

verus! {

/// Width of the replay window in counters.
pub const WINDOW_SIZE: u64 = 2048;

/// Validator for the counters received inside one session.
pub struct ReceivingCounterValidator {
    /// The highest counter marked as received.
    pub max_counter: u64,
    /// Bit `c % WINDOW_SIZE` says whether counter `c` was received, for
    /// every `c` in the window `(max_counter - WINDOW_SIZE, max_counter]`.
    pub bitmap: Vec<bool>,
}

impl ReceivingCounterValidator {
    pub open spec fn wf(self) -> bool {
        self.bitmap@.len() == WINDOW_SIZE
    }

    /// Is `c` inside the window ending at `max`?
    pub open spec fn in_window(max: u64, c: u64) -> bool {
        c <= max && c + WINDOW_SIZE > max
    }

    /// Was `c` marked received? Meaningful for `c` in the window.
    pub open spec fn seen(self, c: u64) -> bool {
        self.bitmap@[(c % WINDOW_SIZE) as int]
    }

    /// A counter passes exactly when it is ahead of everything received,
    /// or inside the window and not yet received.
    pub open spec fn accepts(self, c: u64) -> bool {
        c > self.max_counter || (Self::in_window(self.max_counter, c) && !self.seen(c))
    }

    pub fn new() -> (r: Self)
        ensures
            r.wf(),
            r.max_counter == 0,
            forall|c: u64| Self::in_window(0, c) ==> !r.seen(c),
    {
        let mut bitmap: Vec<bool> = Vec::new();
        let mut i: usize = 0;
        while i < WINDOW_SIZE as usize
            invariant
                i <= WINDOW_SIZE,
                bitmap@.len() == i,
                forall|j: int| 0 <= j < i ==> !bitmap@[j],
            decreases WINDOW_SIZE - i,
        {
            bitmap.push(false);
            i = i + 1;
        }
        ReceivingCounterValidator { max_counter: 0, bitmap }
    }

    /// Check a counter without recording it. A counter at or below the
    /// high-water mark minus the window size, or one already received,
    /// is reported as a duplicate.
    pub fn will_accept(&self, c: u64) -> (r: Result<(), WireGuardError>)
        requires
            self.wf(),
        ensures
            r is Ok <==> self.accepts(c),
            r is Err ==> r == Err::<(), WireGuardError>(WireGuardError::DuplicateCounter),
    {
        if c > self.max_counter {
            Ok(())
        } else if self.max_counter - c >= WINDOW_SIZE {
            Err(WireGuardError::DuplicateCounter)
        } else {
            let idx = (c % WINDOW_SIZE) as usize;
            if self.bitmap[idx] {
                Err(WireGuardError::DuplicateCounter)
            } else {
                Ok(())
            }
        }
    }

    /// Record an accepted counter: slide the window when it moves the
    /// high-water mark, then set its bit. Inside the new window, exactly
    /// the still-covered old counters and `c` itself count as received.
    pub fn mark_did_receive(&mut self, c: u64)
        requires
            old(self).wf(),
            old(self).accepts(c),
        ensures
            final(self).wf(),
            final(self).max_counter == (if c > old(self).max_counter {
                c
            } else {
                old(self).max_counter
            }),
            forall|d: u64|
                Self::in_window(final(self).max_counter, d) ==> (final(self).seen(d) <==> (d == c
                    || (Self::in_window(old(self).max_counter, d) && old(self).seen(d)))),
    {
        let ghost old_max = self.max_counter;
        if c > self.max_counter {
            let delta = c - self.max_counter;
            if delta >= WINDOW_SIZE {
                // The whole window moves past everything recorded.
                let mut i: usize = 0;
                while i < WINDOW_SIZE as usize
                    invariant
                        i <= WINDOW_SIZE,
                        self.bitmap@.len() == WINDOW_SIZE,
                        self.max_counter == old(self).max_counter,
                        forall|j: int| 0 <= j < i ==> !self.bitmap@[j],
                    decreases WINDOW_SIZE - i,
                {
                    self.bitmap.set(i, false);
                    i = i + 1;
                }
            } else {
                // Clear the bits of the counters the window slides over.
                let mut d: u64 = self.max_counter + 1;
                while d < c
                    invariant
                        old(self).max_counter < d <= c,
                        c - old(self).max_counter < WINDOW_SIZE,
                        self.bitmap@.len() == WINDOW_SIZE,
                        self.max_counter == old(self).max_counter,
                        forall|e: u64|
                            old(self).max_counter < e < d ==> !self.bitmap@[#[trigger] (e % WINDOW_SIZE) as int],
                        forall|e: u64|
                            (e <= old(self).max_counter && e + WINDOW_SIZE > c)
                                ==> self.bitmap@[#[trigger] (e % WINDOW_SIZE) as int] == old(
                                self,
                            ).bitmap@[(e % WINDOW_SIZE) as int],
                    decreases c - d,
                {
                    proof {
                        // The slot being cleared belongs to no counter that
                        // must survive the slide.
                        assert forall|e: u64| e <= old(self).max_counter && e + WINDOW_SIZE > c
                            implies #[trigger] (e % WINDOW_SIZE) != (d % WINDOW_SIZE) by {
                            lemma_mod_distinct(e, d);
                        }
                    }
                    let idx = (d % WINDOW_SIZE) as usize;
                    self.bitmap.set(idx, false);
                    d = d + 1;
                }
            }
            self.max_counter = c;
        }
        let ghost pre = *self;
        let idx = (c % WINDOW_SIZE) as usize;
        self.bitmap.set(idx, true);
        proof {
            assert forall|e: u64|
                Self::in_window(self.max_counter, e) && e != c implies (e % WINDOW_SIZE) != (c
                % WINDOW_SIZE) by {
                if e < c {
                    lemma_mod_distinct(e, c);
                } else {
                    lemma_mod_distinct(c, e);
                }
            }
            assert forall|e: u64| Self::in_window(self.max_counter, e) implies (self.seen(e) <==> (
            e == c || (Self::in_window(old_max, e) && old(self).seen(e)))) by {
                if e != c && e <= old_max {
                    if c > old_max && c - old_max >= WINDOW_SIZE {
                        assert(e + WINDOW_SIZE > c);
                        assert(false);
                    }
                }
                if e != c && old_max < e {
                    assert(!pre.bitmap@[(e % WINDOW_SIZE) as int]);
                }
            }
        }
    }
}

/// Two distinct counters less than one window apart land on distinct
/// bitmap slots.
proof fn lemma_mod_distinct(d: u64, e: u64)
    requires
        d < e,
        e - d < WINDOW_SIZE,
    ensures
        d % WINDOW_SIZE != e % WINDOW_SIZE,
{
    assert(d % 2048 != e % 2048) by (bit_vector)
        requires
            d < e,
            e - d < 2048,
    ;
}

} // verus!
