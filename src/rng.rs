//! The random number generator that the random strategies draw from.
use vstd::prelude::*;

use rand::rngs::StdRng;
use rand::Rng;
use rand::SeedableRng;

verus! {

/// rand's standard generator, carried through the strategies as an opaque value.
#[verifier::external_type_specification]
#[verifier::external_body]
pub struct ExStdRng(StdRng);

/// Relies on rand's `SeedableRng::seed_from_u64`: a generator whose draws depend on `seed`
/// alone. Nothing is promised of the draws.
#[verifier::external_body]
pub(crate) fn seeded_rng(seed: u64) -> StdRng {
    StdRng::seed_from_u64(seed)
}

/// Relies on rand's `SeedableRng::from_rng` and `rand::rng`: a generator seeded from the
/// thread-local generator. Nothing is promised of the draws.
#[verifier::external_body]
pub(crate) fn fresh_rng() -> StdRng {
    StdRng::from_rng(&mut rand::rng())
}

/// Relies on rand's `Rng::random_range` on `0..n`: a value in the range, which it panics on
/// when empty (so `n` must be positive).
#[verifier::external_body]
pub(crate) fn random_below(rng: &mut StdRng, n: usize) -> (r: usize)
    requires
        n > 0,
    ensures
        r < n,
{
    rng.random_range(0..n)
}

} // verus!
