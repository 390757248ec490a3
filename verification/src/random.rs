use vstd::prelude::*;

use rand::rngs::SmallRng;
use rand::Rng;

verus! {

#[verifier::external_type_specification]
#[verifier::external_body]
pub struct ExSmallRng(SmallRng);

/// Calls `Rng::random_range` on the range `0..n`: a number below `n`
/// drawn from `rng` (the range must not be empty).
#[verifier::external_body]
pub(crate) fn random_below(rng: &mut SmallRng, n: usize) -> (r: usize)
    requires
        n > 0,
    ensures
        r < n,
{
    rng.random_range(0..n)
}

/// Calls `Rng::random_ratio`: `true` with chance `numerator` in
/// `denominator`. It draws as `random_bool` does with the probability
/// `numerator as f64 / denominator as f64`.
#[verifier::external_body]
pub(crate) fn random_ratio(rng: &mut SmallRng, numerator: u32, denominator: u32) -> bool
    requires
        0 < denominator,
        numerator <= denominator,
{
    rng.random_ratio(numerator, denominator)
}

} // verus!
