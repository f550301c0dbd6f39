use rand::Rng;
use vstd::prelude::*;

verus! {

/// Calls `rand::rng().random_range(0..bound)`: a sample of the thread-local
/// generator, uniform over `0..bound`. Which value comes back depends on
/// chance; rand guarantees only that it lies in the range, and panics on
/// an empty range, hence `bound > 0`.
#[verifier::external_body]
pub(crate) fn random_below(bound: u32) -> (r: u32)
    requires
        bound > 0,
    ensures
        r < bound,
{
    rand::rng().random_range(0..bound)
}

} // verus!
