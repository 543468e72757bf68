//! Random draws, taken from `bracket_lib`'s generator.
//!
//! Nothing here is proved: each function states what the generator's source
//! shows of every outcome, and the verified code that draws is proved for
//! whatever comes back.

use vstd::prelude::*;
use bracket_lib::random::RandomNumberGenerator;
use crate::entity::Entity;

verus! {

/// `bracket_lib`'s generator, carried around and never looked into.
#[verifier::external_type_specification]
#[verifier::external_body]
pub struct ExRandomNumberGenerator(RandomNumberGenerator);

/// `RandomNumberGenerator::new`: a generator seeded from the operating
/// system. Nothing is claimed of its state.
#[verifier::external_body]
pub(crate) fn fresh_rng() -> (rng: RandomNumberGenerator) {
    RandomNumberGenerator::new()
}

/// `RandomNumberGenerator::range` on `i32`: a draw from `min` up to but not
/// including `max`. The generator panics on an empty range, which the
/// precondition leaves out.
#[verifier::external_body]
pub(crate) fn range(rng: &mut RandomNumberGenerator, min: i32, max: i32) -> (r: i32)
    requires
        min < max,
    ensures
        min <= r < max,
{
    rng.range(min, max)
}

/// `RandomNumberGenerator::roll_dice`: the sum of `n` draws from `1` to
/// `die_type`, both included. The precondition leaves out a die without
/// faces and a sum that does not fit.
#[verifier::external_body]
pub(crate) fn roll_dice(rng: &mut RandomNumberGenerator, n: i32, die_type: i32) -> (r: i32)
    requires
        0 <= n,
        1 <= die_type < i32::MAX,
        n * die_type <= i32::MAX,
    ensures
        n <= r <= n * die_type,
{
    rng.roll_dice(n, die_type)
}

/// `RandomNumberGenerator::random_slice_entry`: some entry of the slice, or
/// nothing if the slice is empty. The length has to fit the die that picks.
#[verifier::external_body]
pub(crate) fn random_slice_entry(rng: &mut RandomNumberGenerator, slice: &Vec<Entity>) -> (r:
    Option<Entity>)
    requires
        slice@.len() < i32::MAX,
    ensures
        r is None <==> slice@.len() == 0,
        r is Some ==> slice@.contains(r->0),
{
    rng.random_slice_entry(slice.as_slice()).copied()
}

} // verus!
