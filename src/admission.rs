//! The admission decision of the write path: drop a write with the
//! probability given by the discard ratio.

use crate::ratio::RATIO_SCALE;
use vstd::prelude::*;

verus! {

/// Relies on `rand::Rng::gen_ratio` on `rand::thread_rng()`: true with
/// probability `numerator / denominator`. Its source always answers false
/// for a zero numerator and true when numerator and denominator are equal;
/// it panics when `denominator == 0` or `numerator > denominator`, which
/// `requires` rules out (and, whatever the arguments, when the thread's
/// generator cannot be seeded from the operating system).
#[verifier::external_body]
fn gen_ratio(numerator: u32, denominator: u32) -> (r: bool)
    requires
        0 < denominator,
        numerator <= denominator,
    ensures
        numerator == 0 ==> !r,
        numerator == denominator ==> r,
{
    rand::Rng::gen_ratio(&mut rand::thread_rng(), numerator, denominator)
}

/// Whether to drop a write under `discard_ratio` (a probability scaled by
/// `RATIO_SCALE`): true with probability `discard_ratio / RATIO_SCALE`,
/// drawn afresh on each call; never at 0, always from `RATIO_SCALE` up.
pub fn should_drop(discard_ratio: u32) -> (r: bool)
    ensures
        discard_ratio == 0 ==> !r,
        discard_ratio >= RATIO_SCALE ==> r,
{
    let numerator = if discard_ratio as u64 > RATIO_SCALE { RATIO_SCALE as u32 } else { discard_ratio };
    gen_ratio(numerator, RATIO_SCALE as u32)
}

} // verus!
