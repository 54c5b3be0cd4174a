//! The randomness source.
//!
//! Every operation that consumes randomness takes the generator as an explicit
//! argument. The generator is the `rand` crate's `StdRng`; nothing is known of
//! the values it yields beyond the bounds stated here, so whatever is proved of
//! a caller holds for every stream of draws.
//!
//! The contracts in this file are not proved: they restate what the `rand`
//! crate documents of the functions called.

use rand::rngs::StdRng;
use rand::Rng;
use vstd::prelude::*;

verus! {

/// `rand::rngs::StdRng`, carried through as an opaque value.
#[verifier::external_type_specification]
#[verifier::external_body]
pub struct ExStdRng(rand::rngs::StdRng);

/// Draws a cell value from the half-open range `low..high` with
/// `Rng::gen_range`, which panics on an empty range and otherwise returns a
/// value of the range.
#[verifier::external_body]
pub(crate) fn draw_value(rng: &mut StdRng, low: i32, high: i32) -> (value: i32)
    requires
        low < high,
    ensures
        low <= value < high,
{
    rng.gen_range(low..high)
}

/// Draws an index from the half-open range `low..high` with `Rng::gen_range`,
/// which panics on an empty range and otherwise returns a value of the range.
#[verifier::external_body]
pub(crate) fn draw_index(rng: &mut StdRng, low: usize, high: usize) -> (index: usize)
    requires
        low < high,
    ensures
        low <= index < high,
{
    rng.gen_range(low..high)
}

/// Draws a length from the closed range `low..=high` with `Rng::gen_range`,
/// which panics on an empty range and otherwise returns a value of the range.
#[verifier::external_body]
pub(crate) fn draw_length(rng: &mut StdRng, low: usize, high: usize) -> (length: usize)
    requires
        low <= high,
    ensures
        low <= length <= high,
{
    rng.gen_range(low..=high)
}

/// Decides an event of probability `numerator / denominator` with
/// `Rng::gen_ratio`, which panics if the denominator is zero or smaller than
/// the numerator, always returns `false` for a zero numerator, and always
/// returns `true` where numerator and denominator are equal.
#[verifier::external_body]
pub(crate) fn draw_chance(rng: &mut StdRng, numerator: u32, denominator: u32) -> (hit: bool)
    requires
        0 < denominator,
        numerator <= denominator,
    ensures
        numerator == 0 ==> !hit,
        numerator == denominator ==> hit,
{
    rng.gen_ratio(numerator, denominator)
}

} // verus!
