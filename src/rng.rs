use vstd::prelude::*;
use rltk::RandomNumberGenerator;

verus! {

/// The seedable random number generator of rltk, carried through as an opaque value.
#[verifier::external_type_specification]
#[verifier::external_body]
pub struct ExRandomNumberGenerator(RandomNumberGenerator);

/// Relies on RandomNumberGenerator::seeded: a generator whose stream is fixed by `seed`.
#[verifier::external_body]
pub(crate) fn seeded_rng(seed: u64) -> (r: RandomNumberGenerator) {
    RandomNumberGenerator::seeded(seed)
}

/// Relies on RandomNumberGenerator::range, which samples the half-open range
/// `min .. max` and panics when it is empty.
#[verifier::external_body]
pub(crate) fn rng_range(rng: &mut RandomNumberGenerator, min: i32, max: i32) -> (r: i32)
    requires
        min < max,
    ensures
        min <= r < max,
{
    rng.range(min, max)
}

/// Relies on RandomNumberGenerator::roll_dice: the sum of `n` draws, each from
/// `1 ..= die_type`.
#[verifier::external_body]
pub(crate) fn rng_roll_dice(rng: &mut RandomNumberGenerator, n: i32, die_type: i32) -> (r: i32)
    requires
        0 <= n,
        1 <= die_type < i32::MAX,
        n * die_type <= i32::MAX,
    ensures
        n <= r <= n * die_type,
{
    rng.roll_dice(n, die_type)
}

} // verus!
