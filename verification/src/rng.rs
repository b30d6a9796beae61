use vstd::prelude::*;

verus! {

#[verifier::external_type_specification]
#[verifier::external_body]
pub struct ExStdRng(rand::rngs::StdRng);

/// Relies on rand's `StdRng::seed_from_u64` (via `SeedableRng`): builds a
/// generator deterministically from a seed, so AI runs are reproducible.
#[verifier::external_body]
pub fn rng_from_seed(seed: u64) -> (r: rand::rngs::StdRng) {
    <rand::rngs::StdRng as rand::SeedableRng>::seed_from_u64(seed)
}

/// Relies on rand's `Rng::gen_range`: the sample lies within the given
/// (non-empty) range; nothing more is assumed of which value comes out.
#[verifier::external_body]
pub fn gen_step(rng: &mut rand::rngs::StdRng) -> (r: i32)
    ensures
        -1 <= r <= 1,
{
    rand::Rng::gen_range(rng, -1..=1)
}

} // verus!
