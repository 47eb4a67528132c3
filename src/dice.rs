//! The random draws that level generation makes, over a seedable generator.
use rand::rngs::StdRng;
use rand::Rng;
use vstd::prelude::*;

verus! {

#[verifier::external_type_specification]
#[verifier::external_body]
pub struct ExStdRng(StdRng);

/// Relies on rand's `Rng::gen_range(low, high)`: a value drawn uniformly from
/// `[low, high)`. It panics unless `low < high`.
#[verifier::external_body]
pub(crate) fn roll(rng: &mut StdRng, low: usize, high: usize) -> (r: usize)
    requires
        low < high,
    ensures
        low <= r < high,
{
    rng.gen_range(low, high)
}

/// Relies on rand's `Rng::gen::<bool>()`: a fair coin.
#[verifier::external_body]
pub(crate) fn flip(rng: &mut StdRng) -> (r: bool) {
    rng.gen::<bool>()
}

} // verus!
