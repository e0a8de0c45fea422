//! The source of random draws that builds random tables and places machines.

use rand::rngs::SmallRng;
use rand::Rng;
use rand::SeedableRng;
use vstd::prelude::*;

verus! {

#[verifier::external_type_specification]
#[verifier::external_body]
pub struct ExSmallRng(SmallRng);

/// Relies on `SeedableRng::seed_from_u64` for `SmallRng`: a generator seeded
/// from the 64-bit value.
#[verifier::external_body]
fn small_rng_from_seed(seed: u64) -> SmallRng {
    SmallRng::seed_from_u64(seed)
}

/// Relies on `Rng::gen_range` over `0..n`: a value in the half-open range,
/// which must not be empty.
#[verifier::external_body]
fn small_rng_below(rng: &mut SmallRng, n: usize) -> (r: usize)
    requires
        n > 0,
    ensures
        r < n,
{
    rng.gen_range(0..n)
}

/// The random generator that a simulation draws from. Each simulation owns
/// its own, so that a seed reproduces a run.
pub struct SimRng {
    rng: SmallRng,
}

impl SimRng {
    pub fn from_seed(seed: u64) -> (r: SimRng) {
        SimRng { rng: small_rng_from_seed(seed) }
    }

    /// A uniform draw from `[0, n)`.
    pub fn below(&mut self, n: usize) -> (r: usize)
        requires
            n > 0,
        ensures
            r < n,
    {
        small_rng_below(&mut self.rng, n)
    }
}

} // verus!
