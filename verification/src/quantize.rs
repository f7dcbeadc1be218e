//! Storing an iteration count in one byte.

use vstd::prelude::*;

verus! {

/// An iteration count capped at 255, the largest that a byte holds.
pub open spec fn capped(iterations: u16) -> u8 {
    if iterations <= 255 {
        iterations as u8
    } else {
        255u8
    }
}

/// The byte that `clamp_to_byte` gives for `iterations` under the budget
/// `max_iter`: under a budget of at most 255 the low eight bits of the count,
/// under a larger one the count capped at 255.
pub open spec fn byte_of(iterations: u16, max_iter: u16) -> u8 {
    if max_iter <= 255 {
        (iterations % 256) as u8
    } else {
        capped(iterations)
    }
}

/// Narrows an iteration count to the byte stored for its pixel.
///
/// Under a budget of at most 255 a count within the budget is stored as it is.
/// Under a larger budget the count is capped at 255, so that every count from
/// 255 on is stored as 255.
pub fn clamp_to_byte(iterations: u16, max_iter: u16) -> (byte: u8)
    ensures
        byte == byte_of(iterations, max_iter),
        iterations <= max_iter ==> byte == capped(iterations),
        iterations <= max_iter <= 255 ==> byte == iterations,
{
    if max_iter <= 255 {
        (iterations % 256) as u8
    } else if iterations <= 255 {
        iterations as u8
    } else {
        255u8
    }
}

/// A count within its budget is stored capped at 255, whatever the budget; and
/// where the budget is at most 255, the cap changes nothing.
pub proof fn lemma_byte_within_budget(iterations: u16, max_iter: u16)
    requires
        iterations <= max_iter,
    ensures
        byte_of(iterations, max_iter) == capped(iterations),
        max_iter <= 255 ==> byte_of(iterations, max_iter) == iterations,
        max_iter > 255 && iterations >= 255 ==> byte_of(iterations, max_iter) == 255,
{
}

} // verus!
