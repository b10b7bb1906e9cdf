//! The random source that seeds a grid.

use vstd::prelude::*;

verus! {

/// The random number generator of `rltk`. Nothing is known of its inner state:
/// a value of it is only ever handed on to [`roll_dice`].
#[verifier::external_type_specification]
#[verifier::external_body]
pub struct ExRandomNumberGenerator(rltk::RandomNumberGenerator);

/// Rolls `n` dice of `die_type` faces and returns their sum, by
/// `rltk::RandomNumberGenerator::roll_dice`.
///
/// Not proved, but taken from that method: it draws each die from the
/// half-open range `1 .. die_type + 1` and adds the draws up, so every die
/// shows a face between `1` and `die_type`, and the sum lies between `n` and
/// `n * die_type`. Which faces come up is left open. The method panics on an
/// empty range and where `die_type + 1` or the sum leaves `i32`, hence the
/// preconditions.
#[verifier::external_body]
pub(crate) fn roll_dice(rng: &mut rltk::RandomNumberGenerator, n: i32, die_type: i32) -> (total: i32)
    requires
        0 <= n,
        1 <= die_type < i32::MAX,
        n * die_type <= i32::MAX,
    ensures
        n <= total <= n * die_type,
{
    rng.roll_dice(n, die_type)
}

} // verus!
