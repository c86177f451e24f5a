//! A seedable random source, threaded explicitly through every sampling
//! call: the estimator holds no hidden global state, so a render is a pure
//! function of its inputs and the seed.
//!
//! The generator is a 64-bit mixed congruential step (a splitmix-style
//! sequence): strong enough to decorrelate samples, simple enough that each
//! draw has an exact specification.

use vstd::prelude::*;

use crate::fixed::Fixed;

verus! {

/// The state after one draw.
pub open spec fn rng_next_state(s: u64) -> u64 {
    vstd::wrapping::u64_specs::wrapping_add(s, 0x9E3779B97F4A7C15)
}

/// The value one draw yields.
pub open spec fn rng_output(s: u64) -> u64 {
    let s1 = rng_next_state(s);
    let z1 = vstd::wrapping::u64_specs::wrapping_mul(s1 ^ (s1 >> 30u64), 0xBF58476D1CE4E5B9);
    let z2 = vstd::wrapping::u64_specs::wrapping_mul(z1 ^ (z1 >> 27u64), 0x94D049BB133111EB);
    z2 ^ (z2 >> 31u64)
}

/// The raw value of one uniform draw from `[0, 1)`.
pub open spec fn rng_unit(s: u64) -> int {
    (rng_output(s) % 65536) as int
}

/// A deterministic random source.
#[derive(Clone, Copy, Debug, PartialEq, Eq, Structural)]
pub struct Rng {
    state: u64,
}

impl Rng {
    /// The current state.
    pub closed spec fn m(self) -> u64 {
        self.state
    }

    /// A source starting from the given seed.
    pub fn new(seed: u64) -> (r: Rng)
        ensures
            r.m() == seed,
    {
        Rng { state: seed }
    }

    /// Draw 64 fresh bits.
    pub fn next_u64(&mut self) -> (r: u64)
        ensures
            final(self).m() == rng_next_state(old(self).m()),
            r == rng_output(old(self).m()),
    {
        self.state = self.state.wrapping_add(0x9E3779B97F4A7C15);
        let s1 = self.state;
        let z1 = (s1 ^ (s1 >> 30u64)).wrapping_mul(0xBF58476D1CE4E5B9);
        let z2 = (z1 ^ (z1 >> 27u64)).wrapping_mul(0x94D049BB133111EB);
        z2 ^ (z2 >> 31u64)
    }

    /// Draw a uniform scalar from `[0, 1)`.
    pub fn next_unit(&mut self) -> (r: Fixed)
        ensures
            final(self).m() == rng_next_state(old(self).m()),
            r.val() == rng_unit(old(self).m()),
            0 <= r.val() < 65536,
    {
        let bits = self.next_u64();
        let raw = (bits % 65536) as i64;
        Fixed::from_raw(raw)
    }

    /// Draw a uniform index below `n`.
    pub fn next_below(&mut self, n: u64) -> (r: u64)
        requires
            n >= 1,
        ensures
            final(self).m() == rng_next_state(old(self).m()),
            r == rng_output(old(self).m()) % n,
            r < n,
    {
        let bits = self.next_u64();
        bits % n
    }
}

} // verus!
