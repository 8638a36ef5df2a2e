//! Deterministic pseudo-random generator.
//!
//! A 64-bit linear congruential generator drives lazy mine placement. The
//! contracts state only what callers rely on — the bound of
//! [`Prng::next_below`] — never a distribution.

use vstd::prelude::*;

verus! {

/// Pseudo-random generator state. Seeded once; every draw advances it.
#[derive(Clone, Copy, PartialEq, Eq, Structural, Debug)]
pub struct Prng {
    pub state: u64,
}

impl Prng {
    /// A generator starting from `seed`.
    pub fn new(seed: u64) -> (r: Prng)
        ensures
            r.state == seed,
    {
        Prng { state: seed }
    }

    /// Advances the state and returns the next raw 64-bit value.
    pub fn next_u64(&mut self) -> (r: u64)
        ensures
            r == final(self).state,
    {
        let s = self.state as u128;
        proof {
            assert(s * 6364136223846793005u128 + 1442695040888963407u128 <= u128::MAX)
                by (nonlinear_arith)
                requires s <= 0xFFFF_FFFF_FFFF_FFFFu128;
        }
        let wide = s * 6364136223846793005u128 + 1442695040888963407u128;
        let next = wide % 0x1_0000_0000_0000_0000u128;
        self.state = next as u64;
        self.state
    }

    /// A value uniformly-ish below `n`, drawn from the high state bits.
    pub fn next_below(&mut self, n: usize) -> (r: usize)
        requires
            n >= 1,
        ensures
            r < n,
    {
        let v = self.next_u64();
        let high = v >> 33;
        proof {
            assert(v >> 33 < 0x8000_0000u64) by (bit_vector);
        }
        let small = high as usize;
        small % n
    }
}

} // verus!
