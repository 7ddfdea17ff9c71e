//! The random draws the library makes, through `rand`'s `StdRng`.
//!
//! What a draw returns depends on the generator's hidden state, so each
//! contract below says only what holds of every outcome.

use rand::rngs::StdRng;
use rand::Rng;
use vstd::prelude::*;

verus! {

/// `rand`'s standard generator, carried through opaquely.
#[verifier::external_type_specification]
#[verifier::external_body]
pub struct ExStdRng(StdRng);

/// `true` with chance `num / den`, by `rand::Rng::gen_ratio`.
///
/// Trusted: `gen_ratio` panics when `den == 0` or `num > den` (left out by
/// `requires`); its documentation promises `true` when `num == den` and
/// `false` when `num == 0`. Nothing else is stated of the outcome.
#[verifier::external_body]
pub(crate) fn draw_ratio(rng: &mut StdRng, num: u32, den: u32) -> (r: bool)
    requires
        0 < den,
        num <= den,
    ensures
        num == 0 ==> !r,
        num == den ==> r,
{
    rng.gen_ratio(num, den)
}

/// A number below `n`, by `rand::Rng::gen_range(0..n)`.
///
/// Trusted: `gen_range` panics on an empty range (left out by `requires`) and
/// otherwise returns a value inside the range; which one is not stated.
#[verifier::external_body]
pub(crate) fn draw_below(rng: &mut StdRng, n: usize) -> (r: usize)
    requires
        n > 0,
    ensures
        r < n,
{
    rng.gen_range(0..n)
}

/// The face of a six-sided die, by `rand::Rng::gen_range(1..=6)`.
///
/// Trusted: `gen_range` on the inclusive range returns a value inside it;
/// which one is not stated.
#[verifier::external_body]
pub(crate) fn draw_die(rng: &mut StdRng) -> (r: i32)
    ensures
        1 <= r <= 6,
{
    rng.gen_range(1..=6)
}

} // verus!
