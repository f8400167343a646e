//! The draws that place a new tile. Nothing the board does depends on
//! what a draw returns, beyond what is stated here.

use vstd::prelude::*;

verus! {

/// Calls `rand::random::<usize>()`, which draws from the thread's
/// generator. Any value may come back, so nothing is claimed of it.
#[verifier::external_body]
pub(crate) fn random_index() -> (n: usize) {
    rand::random::<usize>()
}

/// Calls `rand::Rng::gen_ratio` on `rand::thread_rng()`: true with
/// probability `numerator / denominator`. The method panics where the
/// denominator is zero or smaller than the numerator, which the
/// precondition leaves out. Its documentation fixes the result at the two
/// ends, and only there.
#[verifier::external_body]
pub(crate) fn random_ratio(numerator: u32, denominator: u32) -> (hit: bool)
    requires
        0 < denominator,
        numerator <= denominator,
    ensures
        numerator == denominator ==> hit,
        numerator == 0 ==> !hit,
{
    rand::Rng::gen_ratio(&mut rand::thread_rng(), numerator, denominator)
}

} // verus!
