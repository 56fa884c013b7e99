//! A linear congruential generator with a 32-bit state.

use vstd::prelude::*;

verus! {

/// Multiplier of the generator.
pub const LCG_MUL: u32 = 1103515245;

/// Increment of the generator.
pub const LCG_INC: u32 = 12345;

/// Number of distinct outputs: every draw lies in `0..DRAW_RANGE`.
pub const DRAW_RANGE: u32 = 32768;

/// The state that follows `seed`.
pub open spec fn next_seed(seed: u32) -> u32 {
    ((seed * LCG_MUL + LCG_INC) % 0x1_0000_0000) as u32
}

/// The number a generator hands out on reaching the state `seed`: bits 16 to 30.
pub open spec fn output_of(seed: u32) -> u32 {
    ((seed / 65536) % 32768) as u32
}

/// The state reached from `seed` after `n` draws.
pub open spec fn seed_after(seed: u32, n: nat) -> u32
    decreases n,
{
    if n == 0 {
        seed
    } else {
        next_seed(seed_after(seed, (n - 1) as nat))
    }
}

/// The `n`-th number (counting from zero) drawn by a generator started at `seed`.
pub open spec fn nth_draw(seed: u32, n: nat) -> u32 {
    output_of(seed_after(seed, n + 1))
}

/// The pseudo-random source of a simulation.
#[derive(Clone, Copy, Debug, PartialEq, Eq, Structural)]
pub struct Prng {
    pub seed: u32,
}

impl Prng {
    /// A generator in the state `seed`.
    pub fn new(seed: u32) -> (rng: Prng)
        ensures
            rng.seed == seed,
    {
        Prng { seed }
    }

    /// Advances the state once and returns the draw, a number below `DRAW_RANGE`.
    ///
    /// The host maps a draw `d` to the unit interval as `d / DRAW_RANGE`.
    pub fn next_raw(&mut self) -> (draw: u32)
        ensures
            final(self).seed == next_seed(old(self).seed),
            draw == output_of(final(self).seed),
            draw < DRAW_RANGE,
    {
        self.seed = self.seed.wrapping_mul(LCG_MUL).wrapping_add(LCG_INC);
        assert(self.seed == next_seed(old(self).seed)) by {
            let s = old(self).seed as int;
            let m = (s * 1103515245) % 0x1_0000_0000;
            assert((s * 1103515245 + 12345) % 0x1_0000_0000 == (m + 12345) % 0x1_0000_0000)
                by (nonlinear_arith)
                requires
                    m == (s * 1103515245) % 0x1_0000_0000,
            ;
        }
        (self.seed / 65536) % 32768
    }
}

} // verus!
