//! The randomness used by generation and spawn picking, behind a seedable
//! source so that worlds can be reproduced run for run.

use vstd::prelude::*;
use rand::Rng;
use rand::SeedableRng;

verus! {

#[verifier::external_type_specification]
#[verifier::external_body]
pub struct ExStdRng(rand::rngs::StdRng);

/// Relies on rand::SeedableRng::seed_from_u64: builds a generator whose
/// stream is a function of the seed alone.
#[verifier::external_body]
fn seeded_std_rng(seed: u64) -> rand::rngs::StdRng {
    rand::rngs::StdRng::seed_from_u64(seed)
}

/// Relies on rand::Rng::random_range over `0..bound`: the sample lies in
/// that half-open range, and the call panics only on an empty range, which
/// the precondition rules out.  Nothing more is promised: the value drawn
/// depends on the generator's state.
#[verifier::external_body]
fn std_rng_below(rng: &mut rand::rngs::StdRng, bound: u64) -> (r: u64)
    requires
        bound > 0,
    ensures
        r < bound,
{
    rng.random_range(0..bound)
}

/// A pseudo-random source.  Two sources built from the same seed draw the
/// same stream of values.
pub struct RandomSource {
    inner: rand::rngs::StdRng,
}

impl RandomSource {
    /// A source reproducible from `seed`.
    pub fn from_seed(seed: u64) -> RandomSource {
        RandomSource { inner: seeded_std_rng(seed) }
    }

    /// A value drawn uniformly from `[0, bound)`.
    pub fn below(&mut self, bound: u64) -> (r: u64)
        requires
            bound > 0,
        ensures
            r < bound,
    {
        std_rng_below(&mut self.inner, bound)
    }
}

} // verus!
