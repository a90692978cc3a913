//! Trusted boundary to the pseudo-random source used for grid seeding.
//! Nothing is promised about the drawn values: every caller must hold for
//! every outcome.

use vstd::prelude::*;

verus! {

#[verifier::external_type_specification]
#[verifier::external_body]
pub struct ExStdRng(rand::rngs::StdRng);

/// Relies on rand::SeedableRng::seed_from_u64: builds a deterministic
/// pseudo-random generator from the given seed and does not panic.
#[verifier::external_body]
pub(crate) fn rng_from_seed(seed: u64) -> rand::rngs::StdRng {
    <rand::rngs::StdRng as rand::SeedableRng>::seed_from_u64(seed)
}

/// Relies on rand::Rng::gen_ratio: returns true with probability
/// `numerator / denominator`, and panics only when `denominator == 0` or
/// `numerator > denominator`, which the precondition rules out.
#[verifier::external_body]
pub(crate) fn rng_gen_ratio(rng: &mut rand::rngs::StdRng, numerator: u32, denominator: u32) -> (b:
    bool)
    requires
        denominator > 0,
        numerator <= denominator,
{
    rand::Rng::gen_ratio(rng, numerator, denominator)
}

} // verus!
