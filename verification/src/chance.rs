//! The random choices of the game.

use vstd::prelude::*;

verus! {

/// A random number from 0 up to, but not including, `bound`.
///
/// Calls `rand::Rng::gen_range` with the bounds 0 and `bound` on the generator
/// that `rand::thread_rng` returns. `gen_range` panics unless the lower bound
/// is below the upper one, hence the precondition, and it returns a value of
/// the half-open range. Which one is not known here: two calls may differ.
/// (`thread_rng` panics if the operating system cannot seed the generator.)
#[verifier::external_body]
pub(crate) fn random_below(bound: u8) -> (drawn: u8)
    requires
        bound > 0,
    ensures
        drawn < bound,
{
    rand::Rng::gen_range(&mut rand::thread_rng(), 0u8, bound)
}

} // verus!
