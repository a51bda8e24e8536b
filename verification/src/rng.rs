//! A small deterministic pseudo-random generator (SplitMix64) used to draw the
//! election roll from a seed, so that every node that knows the seed draws the
//! same proposer.

use vstd::prelude::*;
use vstd::arithmetic::div_mod::lemma_small_mod;
use vstd::wrapping::u64_specs::{wrapping_add, wrapping_mul};

verus! {

/// The increment of the SplitMix64 state per draw.
pub const GOLDEN_GAMMA: u64 = 0x9E37_79B9_7F4A_7C15;

/// The SplitMix64 output function applied to the advanced state `z`.
pub open spec fn mix64(z: u64) -> u64 {
    let z1 = wrapping_mul(z ^ (z >> 30u64), 0xBF58_476D_1CE4_E5B9u64);
    let z2 = wrapping_mul(z1 ^ (z1 >> 27u64), 0x94D0_49BB_1331_11EBu64);
    z2 ^ (z2 >> 31u64)
}

/// The state after one draw from `state`.
pub open spec fn next_state(state: u64) -> u64 {
    wrapping_add(state, GOLDEN_GAMMA)
}

/// The value of one draw from `state`.
pub open spec fn draw(state: u64) -> u64 {
    mix64(next_state(state))
}

/// A value in `low..high` from a draw `x`: `low + x mod (high - low)`.
pub open spec fn reduce_into(x: u64, low: u64, high: u64) -> u64
    recommends
        low < high,
{
    (low + x % ((high - low) as u64)) as u64
}

/// Reducing a draw into `low..high` keeps its remainder modulo the width of
/// the range and shifts it to start at `low`; in particular a draw below the
/// width lands on `low` plus the draw itself, so every value of the range is
/// the reduction of some draw.
pub proof fn lemma_reduce_into_remainder(x: u64, low: u64, high: u64)
    requires
        low < high,
    ensures
        reduce_into(x, low, high) as int == low as int + (x as int) % (high as int - low as int),
        low <= reduce_into(x, low, high) < high,
        (x as int) < high - low ==> reduce_into(x, low, high) == low + x,
{
    if (x as int) < high - low {
        lemma_small_mod(x as nat, (high - low) as nat);
    }
}

/// The generator: a single 64-bit state.
pub struct SimpleRng {
    state: u64,
}

impl SimpleRng {
    /// The generator's current state.
    pub closed spec fn state(self) -> u64 {
        self.state
    }

    /// A generator whose state is the seed.
    pub fn seed_from_u64(seed: u64) -> (rng: SimpleRng)
        ensures
            rng.state() == seed,
    {
        SimpleRng { state: seed }
    }

    /// Advances the state and returns the next 64-bit value.
    pub fn next_u64(&mut self) -> (x: u64)
        ensures
            final(self).state() == next_state(old(self).state()),
            x == draw(old(self).state()),
    {
        self.state = self.state.wrapping_add(GOLDEN_GAMMA);
        let z = self.state;
        let z = (z ^ (z >> 30u64)).wrapping_mul(0xBF58_476D_1CE4_E5B9u64);
        let z = (z ^ (z >> 27u64)).wrapping_mul(0x94D0_49BB_1331_11EBu64);
        z ^ (z >> 31u64)
    }

    /// Draws a value in the half-open range `range` (which must not be empty).
    pub fn gen_range(&mut self, range: std::ops::Range<u64>) -> (x: u64)
        requires
            range.start < range.end,
        ensures
            final(self).state() == next_state(old(self).state()),
            x == reduce_into(draw(old(self).state()), range.start, range.end),
            range.start <= x < range.end,
    {
        let r = self.next_u64();
        let width = range.end - range.start;
        range.start + r % width
    }
}

} // verus!
