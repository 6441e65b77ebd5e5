use vstd::prelude::*;
use macroquad::rand::ChooseRandom;

verus! {

/// Calls `rand::random_ratio`: a draw that comes out `true` with a chance of
/// `numerator / denominator`. The crate documents that the draw is always
/// `true` when the two are equal and always `false` when the numerator is 0,
/// and that it panics unless `0 < denominator` and `numerator <= denominator`.
/// Which value comes out otherwise is left to chance and not stated.
#[verifier::external_body]
pub(crate) fn random_ratio(numerator: u32, denominator: u32) -> (r: bool)
    requires
        0 < denominator,
        numerator <= denominator,
    ensures
        numerator == denominator ==> r,
        numerator == 0 ==> !r,
{
    rand::random_ratio(numerator, denominator)
}

/// Calls `rand::random_range(0..bound)`: a number below `bound`, drawn by
/// chance (the crate panics on an empty range). Which number comes out is
/// not stated.
#[verifier::external_body]
pub(crate) fn random_below(bound: u32) -> (r: u32)
    requires
        bound > 0,
    ensures
        r < bound,
{
    rand::random_range(0..bound)
}

/// Calls macroquad's `ChooseRandom::choose` on a slice of neighbour numbers:
/// one of its elements, drawn by chance, or `None` for an empty slice. The
/// source picks index `floor(len * u)` for a `u` below 1, which is an
/// element for every non-empty slice as short as the neighbour list; which
/// element comes out is not stated.
#[verifier::external_body]
pub(crate) fn choose_neighbor(candidates: &[usize]) -> (r: Option<usize>)
    ensures
        candidates@.len() == 0 ==> r is None,
        0 < candidates@.len() <= 8 ==> r is Some,
        r matches Some(v) ==> candidates@.contains(v),
{
    candidates.choose().copied()
}

} // verus!
