//! Deterministic seeded random source.
//!
//! A 64-bit linear congruential generator (Knuth's MMIX multiplier). The
//! renderer's reproducibility contract — the same seed yields the same
//! sample sequence on every run — holds because each draw is pinned down
//! by its contract as an exact function of the generator state.

use crate::fixed::{lemma_div_strict_bound, SCALE};
use vstd::arithmetic::div_mod::*;
use vstd::prelude::*;

verus! {

/// Multiplier of the linear congruence.
pub const LCG_MUL: u64 = 6_364_136_223_846_793_005;

/// Increment of the linear congruence.
pub const LCG_ADD: u64 = 1_442_695_040_888_963_407;

pub struct Rng64 {
    pub state: u64,
}

/// One step of the linear congruence, modulo two to the sixty-fourth.
pub open spec fn spec_step(s: u64) -> int {
    (s * LCG_MUL + LCG_ADD) % 0x1_0000_0000_0000_0000
}

/// The scalar in `[0, SCALE)` read off the top twenty bits of a state.
pub open spec fn spec_unit_of(s: u64) -> int {
    ((s / 17_592_186_044_416) * 1_000_000) / 1_048_576
}

/// The next uniform draw and the state after it, as a function of the
/// state before it.
pub open spec fn spec_next_unit(s: u64) -> (int, int) {
    (spec_unit_of(spec_step(s) as u64), spec_step(s))
}

impl Rng64 {
    /// A generator seeded for one scanline or one scene.
    pub fn new(seed: u64) -> (r: Rng64)
        ensures
            r.state == seed,
    {
        Rng64 { state: seed }
    }

    /// Uniform fixed-point scalar in `[0, 1)` units.
    pub fn next_unit(&mut self) -> (r: i64)
        ensures
            final(self).state == spec_step(old(self).state),
            r == spec_unit_of(final(self).state),
            0 <= r < SCALE,
    {
        proof {
            crate::fixed::lemma_mul_fits(
                self.state as int,
                LCG_MUL as int,
                18_446_744_073_709_551_615,
                6_364_136_223_846_793_005,
            );
        }
        let w: u128 = (self.state as u128) * (LCG_MUL as u128) + (LCG_ADD as u128);
        self.state = (w % 0x1_0000_0000_0000_0000u128) as u64;
        let h: u64 = self.state / 17_592_186_044_416;
        proof {
            lemma_div_strict_bound(self.state as int, 1_048_576, 17_592_186_044_416);
            lemma_div_pos_is_pos(self.state as int, 17_592_186_044_416);
            lemma_div_pos_is_pos(h as int * 1_000_000, 1_048_576);
            lemma_div_strict_bound(h as int * 1_000_000, 1_000_000, 1_048_576);
        }
        ((h * 1_000_000) / 1_048_576) as i64
    }
}

} // verus!
