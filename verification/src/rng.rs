//! Deterministic SplitMix64 stream.

use vstd::prelude::*;

verus! {

/// The additive constant of SplitMix64.
pub const GOLDEN_GAMMA: u64 = 0x9E3779B97F4A7C15;

/// First multiplier of the SplitMix64 finalizer.
pub const MIX_A: u64 = 0xBF58476D1CE4E5B9;

/// Second multiplier of the SplitMix64 finalizer.
pub const MIX_B: u64 = 0x94D049BB133111EB;

/// The state that follows `state` in the stream.
pub open spec fn next_state(state: u64) -> u64 {
    state.wrapping_add(GOLDEN_GAMMA)
}

/// The SplitMix64 finalizer applied to an already advanced state.
pub open spec fn mix(z: u64) -> u64 {
    let a = (z ^ (z >> 30)).wrapping_mul(MIX_A);
    let b = (a ^ (a >> 27)).wrapping_mul(MIX_B);
    b ^ (b >> 31)
}

/// State after `n` draws from a generator that starts at `seed`.
pub open spec fn state_after(seed: u64, n: nat) -> u64
    decreases n,
{
    if n == 0 {
        seed
    } else {
        next_state(state_after(seed, (n - 1) as nat))
    }
}

/// The `n`-th value (counting from zero) of the stream seeded with `seed`.
pub open spec fn nth_output(seed: u64, n: nat) -> u64 {
    mix(state_after(seed, n + 1))
}

/// A SplitMix64 generator: the same seed gives the same stream on every
/// machine.
#[derive(Copy, Clone, Debug)]
pub struct DeterministicRng {
    state: u64,
}

impl DeterministicRng {
    /// The current state of the generator.
    pub closed spec fn state(&self) -> u64 {
        self.state
    }

    /// A generator whose stream is that of `seed`.
    pub fn new(seed: u64) -> (rng: Self)
        ensures
            rng.state() == seed,
    {
        Self { state: seed }
    }

    /// Advances the state by one step and returns the mixed value.
    pub fn next_u64(&mut self) -> (out: u64)
        ensures
            final(self).state() == next_state(old(self).state()),
            out == mix(final(self).state()),
    {
        let z0: u64 = self.state.wrapping_add(GOLDEN_GAMMA);
        self.state = z0;
        let z1: u64 = (z0 ^ (z0 >> 30)).wrapping_mul(MIX_A);
        let z2: u64 = (z1 ^ (z1 >> 27)).wrapping_mul(MIX_B);
        z2 ^ (z2 >> 31)
    }
}

/// The stream is a function of the seed alone: a generator that has been
/// drawn from `n` times since it was seeded holds `state_after(seed, n)`,
/// and one more draw advances it to `state_after(seed, n + 1)` and yields
/// `nth_output(seed, n)`.
pub proof fn lemma_stream_step(seed: u64, n: nat)
    ensures
        state_after(seed, n + 1) == next_state(state_after(seed, n)),
        nth_output(seed, n) == mix(next_state(state_after(seed, n))),
{
}

} // verus!
