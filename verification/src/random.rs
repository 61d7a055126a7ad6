use vstd::prelude::*;
use rand::rngs::StdRng;
use rand::Rng;

verus! {

#[verifier::external_type_specification]
#[verifier::external_body]
pub struct ExStdRng(StdRng);

/// Calls rand's `Rng::random_range` with the range `0..len`, which the rand
/// documentation and source describe as a uniform draw from that range (it
/// panics on an empty range, which `requires` rules out). The contract claims
/// the range only, since the draw is chance; slices' `choose` in rand is this
/// very call followed by indexing.
#[verifier::external_body]
pub(crate) fn random_index(rng: &mut StdRng, len: usize) -> (r: usize)
    requires
        len > 0,
    ensures
        r < len,
{
    rng.random_range(0..len)
}

/// Calls rand's `Rng::random_ratio`, true with the chance
/// `numerator / denominator` (it panics when the denominator is zero or below
/// the numerator, which `requires` rules out). The rand source builds a
/// Bernoulli distribution that is never true for a zero numerator and always
/// true when the numerator equals the denominator; that is all the contract
/// claims.
#[verifier::external_body]
pub(crate) fn random_ratio(rng: &mut StdRng, numerator: u32, denominator: u32) -> (r: bool)
    requires
        0 < denominator,
        numerator <= denominator,
    ensures
        numerator == 0 ==> !r,
        numerator == denominator ==> r,
{
    rng.random_ratio(numerator, denominator)
}

/// Calls rand's `Rng::random_range` with the inclusive range `0..=n`, a
/// uniform draw from it by rand's documentation; the contract claims the
/// range only, since the draw is chance.
#[verifier::external_body]
pub(crate) fn random_up_to(rng: &mut StdRng, n: usize) -> (r: usize)
    ensures
        r <= n,
{
    rng.random_range(0..=n)
}

/// Calls rand's `Rng::random_range` with the range `low..high` of `u64` (it
/// panics on an empty range, which `requires` rules out); the contract
/// claims the range only, since the draw is chance.
#[verifier::external_body]
pub(crate) fn random_between(rng: &mut StdRng, low: u64, high: u64) -> (r: u64)
    requires
        low < high,
    ensures
        low <= r < high,
{
    rng.random_range(low..high)
}

} // verus!
