//! The sum of a slice that lives for the whole program, taken in two halves.

use vstd::prelude::*;
use crate::halves::{halves_fit, seq_sum, sum_of_halves};

verus! {

/// The sum of all items of the slice, computed as the sum of its two halves
/// (split at `len / 2`).
pub fn sum(slice: &'static [i32]) -> (res: i32)
    requires
        halves_fit(slice@),
    ensures
        res == seq_sum(slice@),
{
    sum_of_halves(slice)
}

} // verus!
