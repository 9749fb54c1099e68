//! Seedable random number generation for tile spawning.
//!
//! The generator state lives in `rand`'s `StdRng`; the crate only relies on
//! the bounds of what it hands back, never on particular draws. A seeded
//! generator replays the same sequence of draws, which the tests exercise.

use vstd::prelude::*;

verus! {

/// `rand::rngs::StdRng`, treated as an opaque generator state.
#[verifier::external_type_specification]
#[verifier::external_body]
pub struct ExStdRng(rand::rngs::StdRng);

/// Relies on `rand_core::SeedableRng::seed_from_u64`: builds a generator
/// whose draws are determined by the seed.
#[verifier::external_body]
fn std_rng_from_seed(seed: u64) -> rand::rngs::StdRng {
    <rand::rngs::StdRng as rand::SeedableRng>::seed_from_u64(seed)
}

/// Relies on `rand_core::SeedableRng::from_entropy`: builds a generator
/// seeded from the operating system.
#[verifier::external_body]
fn std_rng_from_entropy() -> rand::rngs::StdRng {
    <rand::rngs::StdRng as rand::SeedableRng>::from_entropy()
}

/// Relies on `rand::Rng::gen_range` over `0..bound`: returns a value below
/// the bound; the range must not be empty (`gen_range` panics on an empty
/// range).
#[verifier::external_body]
fn std_rng_below(rng: &mut rand::rngs::StdRng, bound: usize) -> (r: usize)
    requires
        bound >= 1,
    ensures
        r < bound,
{
    rand::Rng::gen_range(rng, 0..bound)
}

/// Relies on `<StdRng as Clone>::clone` (a derived impl): copies the
/// generator state.
#[verifier::external_body]
fn std_rng_clone(rng: &rand::rngs::StdRng) -> rand::rngs::StdRng {
    rng.clone()
}

/// Game random number generator with seed support.
#[derive(Debug)]
pub struct GameRng {
    rng: rand::rngs::StdRng,
}

impl GameRng {
    /// Create a new generator; with a seed its draws are reproducible,
    /// without one it is seeded from the operating system.
    pub fn new(seed: Option<u64>) -> Self {
        let rng = match seed {
            Some(s) => std_rng_from_seed(s),
            None => std_rng_from_entropy(),
        };
        Self { rng }
    }

    /// A value in `[0, max)`, or 0 when `max` is 0.
    pub fn gen_range(&mut self, max: usize) -> (r: usize)
        ensures
            max >= 1 ==> r < max,
            max == 0 ==> r == 0,
    {
        if max == 0 {
            return 0;
        }
        std_rng_below(&mut self.rng, max)
    }

    /// A random tile value: 2 in nine of ten draws, otherwise 4.
    pub fn gen_tile_value(&mut self) -> (r: u32)
        ensures
            r == 2 || r == 4,
    {
        let d = std_rng_below(&mut self.rng, 10);
        if d < 9 {
            2
        } else {
            4
        }
    }

    /// The seed this generator was built from. The seed is not retained,
    /// so this is always `None`.
    pub fn get_seed(&self) -> (r: Option<u64>)
        ensures
            r is None,
    {
        None
    }

    /// A copy of the generator in its current state.
    pub fn clone(&self) -> Self {
        Self { rng: std_rng_clone(&self.rng) }
    }
}

impl Default for GameRng {
    fn default() -> Self {
        Self::new(None)
    }
}

} // verus!
