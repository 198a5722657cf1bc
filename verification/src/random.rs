//! Draws from the random number generator of `rltk`.

use rltk::RandomNumberGenerator;
use vstd::prelude::*;

verus! {

/// The generator of `rltk`; nothing of its state is visible here.
#[verifier::external_type_specification]
#[verifier::external_body]
pub struct ExRandomNumberGenerator(RandomNumberGenerator);

/// Calls `RandomNumberGenerator::range`, which draws a value that is at
/// least `min` and less than `max`. The call panics on an empty range, so
/// `min < max` is required. Which value comes is not determined here.
#[verifier::external_body]
pub(crate) fn draw_range(rng: &mut RandomNumberGenerator, min: i32, max: i32) -> (value: i32)
    requires
        min < max,
    ensures
        min <= value < max,
{
    rng.range(min, max)
}

/// Calls `RandomNumberGenerator::roll_dice` for one die with `sides`
/// sides, which draws a value from 1 to `sides`, both included. The call
/// draws from the range `1..sides + 1`, so `sides` must be at least 1 and
/// less than `i32::MAX`.
#[verifier::external_body]
pub(crate) fn roll_die(rng: &mut RandomNumberGenerator, sides: i32) -> (value: i32)
    requires
        1 <= sides < i32::MAX,
    ensures
        1 <= value <= sides,
{
    rng.roll_dice(1, sides)
}

} // verus!
