//! The random numbers of the simulation, drawn from macroquad's generator.

use vstd::prelude::*;

verus! {

/// Draws from `macroquad::rand::gen_range::<usize>(0, len)`.
///
/// quad-rand computes the result as `(len as f64 * (x as f64 / 2^32)) as usize`
/// for a fresh 32-bit draw `x`; for `len` up to 2^53 the product is below
/// `len`, so the result lies in `[0, len)`, and it is 0 when `len` is 0.
/// Which value comes out is not stated: it depends on the generator's state.
#[verifier::external_body]
pub(crate) fn random_index(len: usize) -> (r: usize)
    requires
        len <= 0x20_0000_0000_0000,
    ensures
        len == 0 ==> r == 0,
        len > 0 ==> r < len,
{
    macroquad::rand::gen_range(0usize, len)
}

/// Draws from `macroquad::rand::gen_range::<u16>(low, high)`.
///
/// quad-rand computes `(low as f64 + (high - low) as f64 * (x as f64 / 2^32)) as u16`
/// for a fresh 32-bit draw `x`, which is exact for 16-bit bounds: the result lies
/// in `[low, high)`, and it is `low` when the bounds are equal.
/// Which value comes out is not stated: it depends on the generator's state.
#[verifier::external_body]
pub(crate) fn random_u16(low: u16, high: u16) -> (r: u16)
    requires
        low <= high,
    ensures
        low == high ==> r == low,
        low < high ==> low <= r < high,
{
    macroquad::rand::gen_range(low, high)
}

} // verus!
