//! The shared random source consumed by duration and drop-quantity sampling.

use vstd::prelude::*;

verus! {

/// rand's standard generator, the single random source of the simulation.
/// It is seedable, so a fixed seed gives a deterministic run for testing.
#[verifier::external_type_specification]
#[verifier::external_body]
pub struct ExStdRng(rand::rngs::StdRng);

/// Relies on rand::SeedableRng::seed_from_u64 to build a generator from a
/// 64-bit seed. Nothing is stated of the generator's state.
#[verifier::external_body]
pub(crate) fn rng_from_seed(seed: u64) -> rand::rngs::StdRng {
    <rand::rngs::StdRng as rand::SeedableRng>::seed_from_u64(seed)
}

/// Relies on rand::Rng::gen_range over the inclusive range `min..=max`: the
/// sample always lies within the bounds. The call panics on an empty range,
/// which `min <= max` rules out.
#[verifier::external_body]
pub(crate) fn sample_inclusive(rng: &mut rand::rngs::StdRng, min: u32, max: u32) -> (r: u32)
    requires
        min <= max,
    ensures
        min <= r && r <= max,
{
    rand::Rng::gen_range(rng, min..=max)
}

} // verus!
