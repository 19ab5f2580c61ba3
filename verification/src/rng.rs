//! The randomness source handed into every sampling operation.
//!
//! The urns only ever ask for two things: a uniform integer in a closed
//! range, and a weighted coin flip. Both are answered by a seeded
//! generator of the `rand` crate held behind this module's `Rand` type.

use vstd::prelude::*;

verus! {

#[verifier::external_type_specification]
#[verifier::external_body]
pub struct ExStdRng(rand::rngs::StdRng);

/// A stateful pseudo-random generator. Nothing is promised about the
/// numbers it hands out beyond the ranges stated on each method, so
/// every caller is verified for every outcome.
pub struct Rand {
    inner: rand::rngs::StdRng,
}

impl Rand {
    /// Relies on `rand::rngs::StdRng::seed_from_u64` (via `rand::SeedableRng`)
    /// to build a generator from a seed.
    #[verifier::external_body]
    pub fn from_seed(seed: u64) -> (r: Rand) {
        Rand { inner: <rand::rngs::StdRng as rand::SeedableRng>::seed_from_u64(seed) }
    }

    /// Relies on `rand::Rng::gen_range` over `low..=high`: a uniform
    /// integer in the closed range `[low, high]`.
    #[verifier::external_body]
    pub(crate) fn uniform(&mut self, low: usize, high: usize) -> (r: usize)
        requires
            low <= high,
        ensures
            low <= r <= high,
    {
        rand::Rng::gen_range(&mut self.inner, low..=high)
    }

    /// Relies on `rand::Rng::gen_ratio`: a Bernoulli trial that succeeds
    /// with probability `numerator / denominator`. Either outcome is
    /// possible, so nothing is promised of the result.
    #[verifier::external_body]
    pub(crate) fn ratio(&mut self, numerator: u32, denominator: u32) -> bool
        requires
            0 < denominator,
            numerator <= denominator,
    {
        rand::Rng::gen_ratio(&mut self.inner, numerator, denominator)
    }
}

} // verus!
