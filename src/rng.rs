//! The single seeded random source that every stochastic decision draws from.

use vstd::prelude::*;

verus! {

/// `rand::rngs::StdRng`, the seeded generator owned by the driver and passed
/// by `&mut` through every call; the library only carries it.
#[verifier::external_type_specification]
#[verifier::external_body]
pub struct ExStdRng(rand::rngs::StdRng);

/// Relies on `rand::Rng::random_range` over `0..n`: a value drawn uniformly
/// from `[0, n)`; the call panics on an empty range, which `requires` excludes.
#[verifier::external_body]
pub(crate) fn draw_below(rng: &mut rand::rngs::StdRng, n: u32) -> (r: u32)
    requires
        0 < n,
    ensures
        r < n,
{
    rand::Rng::random_range(rng, 0..n)
}

} // verus!
