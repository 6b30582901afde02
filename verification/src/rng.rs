use rand::Rng;
use vstd::prelude::*;

verus! {

/// Draws a number uniformly from the inclusive range `low..=high` with the
/// thread-local generator: `rand::thread_rng().gen_range(low..=high)`.
///
/// Trusted: rand 0.8's `Rng::gen_range` asserts that the range is not empty
/// (hence `low <= high` is required) and, for integers, samples a value between
/// both bounds inclusive. Which value comes back depends on the generator's
/// state, so nothing more is claimed of it.
#[verifier::external_body]
pub(crate) fn random_in_range(low: usize, high: usize) -> (r: usize)
    requires
        low <= high,
    ensures
        low <= r <= high,
{
    rand::thread_rng().gen_range(low..=high)
}

} // verus!
