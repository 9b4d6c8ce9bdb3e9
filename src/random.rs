use rand::Rng;
use vstd::prelude::*;

verus! {

/// Relies on `rand::random::<bool>`: a fair coin; nothing is known of the outcome.
#[verifier::external_body]
pub(crate) fn random_bit() -> (r: bool) {
    rand::random::<bool>()
}

/// Relies on `Rng::gen_range` on the thread-local generator: a value drawn uniformly from
/// `lo..hi`; it panics on an empty range.
#[verifier::external_body]
pub(crate) fn random_below(lo: usize, hi: usize) -> (r: usize)
    requires
        lo < hi,
    ensures
        lo <= r < hi,
{
    rand::thread_rng().gen_range(lo..hi)
}

/// Relies on `Rng::gen_ratio` on the thread-local generator: `true` with probability
/// `numerator / denominator`, never for a numerator of 0, always when the two are equal;
/// it panics on a zero denominator or a numerator above it.
#[verifier::external_body]
pub(crate) fn random_chance(numerator: u32, denominator: u32) -> (r: bool)
    requires
        0 < denominator,
        numerator <= denominator,
    ensures
        numerator == 0 ==> !r,
        numerator == denominator ==> r,
{
    rand::thread_rng().gen_ratio(numerator, denominator)
}

} // verus!
