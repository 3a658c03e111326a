//! A linear-feedback shift register implemented as xorshift, used to
//! distribute peer indexes across the 24-bit space reserved for peer
//! identification. It obscures the number of peers using the system;
//! anything more ambitious is wasted with only 24 bits of space.

use vstd::prelude::*;
use crate::rng::random_u32;

verus! {

/// Largest 24-bit value: seeds, states and emitted indices stay at or below it.
pub const LFSR_MAX: u32 = 0xffffff;

/// 24-bit polynomial, arbitrarily chosen to inject bitflips into the value.
pub const LFSR_POLY: u32 = 0xd80000;

/// One advance of the register.
pub open spec fn lfsr_step(s: u32) -> u32 {
    if s & 1 == 1 {
        (s >> 1) ^ LFSR_POLY
    } else {
        s >> 1
    }
}

/// The value emitted while the register holds state `s` (never zero).
pub open spec fn lfsr_output(s: u32, mask: u32) -> u32 {
    (((s as int) - 1) as u32) ^ mask
}

/// The state after `i` advances from `seed`.
pub open spec fn lfsr_state(seed: u32, i: nat) -> u32
    decreases i,
{
    if i == 0 {
        seed
    } else {
        lfsr_step(lfsr_state(seed, (i - 1) as nat))
    }
}

/// Advancing keeps the state 24-bit and nonzero.
proof fn lemma_step_in_range(s: u32)
    by (bit_vector)
    requires
        0 < s <= 0xffffff,
    ensures
        0 < lfsr_step(s) <= 0xffffff,
{
}

/// Advancing is injective on 24-bit states.
proof fn lemma_step_injective(a: u32, b: u32)
    by (bit_vector)
    requires
        a <= 0xffffff,
        b <= 0xffffff,
        lfsr_step(a) == lfsr_step(b),
    ensures
        a == b,
{
}

/// Masking with XOR keeps distinct words distinct.
proof fn lemma_xor_injective(x: u32, y: u32, m: u32)
    by (bit_vector)
    requires
        x != y,
    ensures
        x ^ m != y ^ m,
{
}

/// Distinct nonzero states emit distinct values under one mask.
proof fn lemma_output_injective(a: u32, b: u32, mask: u32)
    requires
        0 < a <= 0xffffff,
        0 < b <= 0xffffff,
        a != b,
    ensures
        lfsr_output(a, mask) != lfsr_output(b, mask),
{
    let x = ((a as int) - 1) as u32;
    let y = ((b as int) - 1) as u32;
    assert(x != y);
    lemma_xor_injective(x, y, mask);
}

/// Every state reached from a 24-bit nonzero seed is 24-bit and nonzero.
proof fn lemma_state_in_range(seed: u32, i: nat)
    requires
        0 < seed <= LFSR_MAX,
    ensures
        0 < lfsr_state(seed, i) <= LFSR_MAX,
    decreases i,
{
    if i > 0 {
        lemma_state_in_range(seed, (i - 1) as nat);
        lemma_step_in_range(lfsr_state(seed, (i - 1) as nat));
    }
}

/// While the register has not returned to its seed, no state repeats.
proof fn lemma_states_distinct(seed: u32, i: nat, j: nat)
    requires
        0 < seed <= LFSR_MAX,
        i < j,
        forall|k: nat| 0 < k <= j ==> lfsr_state(seed, k) != seed,
    ensures
        lfsr_state(seed, i) != lfsr_state(seed, j),
    decreases i,
{
    if i == 0 {
        assert(lfsr_state(seed, j) != seed);
    } else {
        lemma_states_distinct(seed, (i - 1) as nat, (j - 1) as nat);
        lemma_state_in_range(seed, (i - 1) as nat);
        lemma_state_in_range(seed, (j - 1) as nat);
        if lfsr_state(seed, i) == lfsr_state(seed, j) {
            lemma_step_injective(lfsr_state(seed, (i - 1) as nat), lfsr_state(seed, (j - 1) as nat));
        }
    }
}

/// Within a single register, the sequence of emitted 24-bit values holds
/// no duplicates as long as the state has not returned to its seed (the
/// point at which `try_next` refuses to emit further values).
pub proof fn lemma_lfsr_outputs_distinct(seed: u32, mask: u32, n: nat)
    requires
        0 < seed <= LFSR_MAX,
        forall|k: nat| 0 < k < n ==> lfsr_state(seed, k) != seed,
    ensures
        forall|i: nat, j: nat|
            i < j < n ==> lfsr_output(lfsr_state(seed, i), mask) != lfsr_output(
                lfsr_state(seed, j),
                mask,
            ),
{
    assert forall|i: nat, j: nat| i < j < n implies lfsr_output(lfsr_state(seed, i), mask)
        != lfsr_output(lfsr_state(seed, j), mask) by {
        lemma_states_distinct(seed, i, j);
        lemma_state_in_range(seed, i);
        lemma_state_in_range(seed, j);
        lemma_output_injective(lfsr_state(seed, i), lfsr_state(seed, j), mask);
    }
}

/// The 24-bit peer-index generator.
pub struct IndexLfsr {
    /// The seed: emission stops when the state would return to it.
    pub initial: u32,
    /// The current state, never zero.
    pub lfsr: u32,
    /// XOR mask applied to every emitted value.
    pub mask: u32,
}

impl IndexLfsr {
    pub open spec fn wf(self) -> bool {
        &&& 0 < self.initial <= LFSR_MAX
        &&& 0 < self.lfsr <= LFSR_MAX
        &&& self.mask <= LFSR_MAX
    }

    /// Generate a random 24-bit nonzero integer to seed or mask a register.
    pub fn random_index() -> (r: u32)
        ensures
            0 < r <= LFSR_MAX,
    {
        let mut attempt: usize = 0;
        while attempt < 64
            decreases 64 - attempt,
        {
            let word: u32 = random_u32();
            let i: u32 = word & LFSR_MAX;
            proof {
                let w: u32 = word;
                let masked: u32 = i;
                assert(masked <= 0xffffff) by (bit_vector)
                    requires
                        masked == w & 0xffffffu32,
                ;
            }
            if i > 0 {
                // LFSR seed must be non-zero
                return i;
            }
            attempt = attempt + 1;
        }
        // An entropy source that returns zero this many times in a row has
        // failed outright; any nonzero seed keeps the register sound.
        1
    }

    /// Generate the next value in the pseudorandom sequence. The caller
    /// must know the register is not exhausted; `try_next` checks it.
    pub fn next(&mut self) -> (r: u32)
        requires
            old(self).wf(),
            lfsr_step(old(self).lfsr) != old(self).initial,
        ensures
            final(self).wf(),
            final(self).initial == old(self).initial,
            final(self).mask == old(self).mask,
            final(self).lfsr == lfsr_step(old(self).lfsr),
            r == lfsr_output(old(self).lfsr, old(self).mask),
            r <= LFSR_MAX,
    {
        let value: u32 = self.lfsr - 1;  // lfsr never has the value 0
        let stepped: u32 = if self.lfsr & 1 == 1 {
            (self.lfsr >> 1) ^ LFSR_POLY
        } else {
            self.lfsr >> 1
        };
        proof {
            lemma_step_in_range(self.lfsr);
            assert(value == ((self.lfsr as int) - 1) as u32);
            let v: u32 = value;
            let m: u32 = self.mask;
            assert(v ^ m <= 0xffffff) by (bit_vector)
                requires
                    v <= 0xffffffu32,
                    m <= 0xffffffu32,
            ;
        }
        self.lfsr = stepped;
        value ^ self.mask
    }

    /// Emit the next index, or nothing once the register is exhausted.
    pub fn try_next(&mut self) -> (r: Option<u32>)
        requires
            old(self).wf(),
        ensures
            final(self).wf(),
            final(self).initial == old(self).initial,
            final(self).mask == old(self).mask,
            match r {
                Some(v) => {
                    &&& lfsr_step(old(self).lfsr) != old(self).initial
                    &&& final(self).lfsr == lfsr_step(old(self).lfsr)
                    &&& v == lfsr_output(old(self).lfsr, old(self).mask)
                    &&& v <= LFSR_MAX
                },
                None => {
                    &&& lfsr_step(old(self).lfsr) == old(self).initial
                    &&& final(self).lfsr == old(self).lfsr
                },
            },
    {
        let stepped: u32 = if self.lfsr & 1 == 1 {
            (self.lfsr >> 1) ^ LFSR_POLY
        } else {
            self.lfsr >> 1
        };
        if stepped == self.initial {
            None
        } else {
            Some(self.next())
        }
    }
}

impl Default for IndexLfsr {
    /// A register with random seed and mask; nothing else can be promised
    /// of freshly drawn entropy.
    fn default() -> (r: Self)
        ensures
            r.wf(),
            r.lfsr == r.initial,
    {
        let seed: u32 = Self::random_index();
        IndexLfsr { initial: seed, lfsr: seed, mask: Self::random_index() }
    }
}

} // verus!
