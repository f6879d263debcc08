//! The randomness boundary: index draws from a caller-injected
//! generator, so that a seeded run is reproducible.

use vstd::prelude::*;

verus! {

/// Declares rand's StdRng to the verifier: an opaque generator state
/// that callers seed and thread through a run.
#[verifier::external_type_specification]
#[verifier::external_body]
pub struct ExStdRng(rand::rngs::StdRng);

/// Relies on rand's RngExt::random_range over `0..n`: a value drawn
/// uniformly from the non-empty range, so strictly below `n`. Which
/// value comes back is not stated: every caller must be correct for
/// all of them.
#[verifier::external_body]
pub(crate) fn gen_index(rng: &mut rand::rngs::StdRng, n: usize) -> (i: usize)
    requires
        n > 0,
    ensures
        i < n,
{
    rand::RngExt::random_range(rng, 0..n)
}

} // verus!
