//! The deterministic pseudo-random source of synthetic captures (splitmix64),
//! so that a seed always yields the same capture.
use vstd::prelude::*;
use vstd::wrapping::u64_specs::{wrapping_add, wrapping_mul};

verus! {

/// The golden-ratio increment of the splitmix64 state.
pub const SPLITMIX_INCREMENT: u64 = 0x9E37_79B9_7F4A_7C15;

/// The first multiplier of the splitmix64 finaliser.
pub const SPLITMIX_FIRST: u64 = 0xBF58_476D_1CE4_E5B9;

/// The second multiplier of the splitmix64 finaliser.
pub const SPLITMIX_SECOND: u64 = 0x94D0_49BB_1331_11EB;

/// The splitmix64 finaliser: the output drawn from an advanced state.
pub open spec fn splitmix_output(state: u64) -> u64 {
    let first = wrapping_mul(state ^ (state >> 30u64), SPLITMIX_FIRST);
    let second = wrapping_mul(first ^ (first >> 27u64), SPLITMIX_SECOND);
    second ^ (second >> 31u64)
}

/// Minimal deterministic pseudo-random generator (splitmix64).
#[derive(Debug, Clone, Copy, PartialEq, Eq, Structural)]
pub struct Rng(pub u64);

impl Rng {
    /// A generator seeded with `seed`.
    pub fn new(seed: u64) -> (rng: Rng)
        ensures
            rng.0 == seed,
    {
        Rng(seed)
    }

    /// Advances the state by the golden-ratio increment and returns the
    /// finalised new state.
    pub fn next_u64(&mut self) -> (value: u64)
        ensures
            final(self).0 == wrapping_add(old(self).0, SPLITMIX_INCREMENT),
            value == splitmix_output(final(self).0),
    {
        self.0 = self.0.wrapping_add(SPLITMIX_INCREMENT);
        let mut value = self.0;
        value = (value ^ (value >> 30)).wrapping_mul(SPLITMIX_FIRST);
        value = (value ^ (value >> 27)).wrapping_mul(SPLITMIX_SECOND);
        value ^ (value >> 31)
    }
}

} // verus!
