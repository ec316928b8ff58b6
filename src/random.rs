use rand::rngs::StdRng;
use rand::Rng;
use vstd::prelude::*;

verus! {

/// The seedable random number generator that the engine draws from.
#[verifier::external_type_specification]
#[verifier::external_body]
pub struct ExStdRng(rand::rngs::StdRng);

/// Relies on `rand::Rng::gen_range` over a half-open range: the value drawn
/// lies in `[low, high)`. It panics on an empty range, which `requires` rules out.
#[verifier::external_body]
pub(crate) fn draw_below(rng: &mut StdRng, low: u64, high: u64) -> (r: u64)
    requires
        low < high,
    ensures
        low <= r < high,
{
    rng.gen_range(low..high)
}

/// Relies on `rand::Rng::gen::<bool>`: a fair coin flip; either value may come.
#[verifier::external_body]
pub(crate) fn flip_coin(rng: &mut StdRng) -> (r: bool) {
    rng.gen::<bool>()
}

} // verus!
