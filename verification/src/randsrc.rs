//! The trusted boundary to the injected randomness source: range
//! selection spreads load by a uniform draw, and the generator is
//! passed in by the caller so tests can seed it deterministically.

use vstd::prelude::*;

verus! {

#[verifier::external_type_specification]
#[verifier::external_body]
pub struct ExStdRng(rand::rngs::StdRng);

/// Relies on rand's `Rng::random_range` over `0..bound`: a draw below
/// `bound`; the call panics on an empty range, which the precondition
/// rules out.  Nothing is promised about which value comes back.
#[verifier::external_body]
pub(crate) fn random_index(rng: &mut rand::rngs::StdRng, bound: usize) -> (r: usize)
    requires
        bound >= 1,
    ensures
        r < bound,
{
    rand::Rng::random_range(rng, 0..bound)
}

} // verus!
