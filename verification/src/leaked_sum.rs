//! The sum of a vector whose buffer is handed over for good, taken in two
//! halves.

use vstd::prelude::*;
use crate::halves::{halves_fit, seq_sum, sum_of_halves};

verus! {

/// The sum of all items of the vector, computed as the sum of its two
/// halves (split at `len / 2`).
pub fn sum(v: Vec<i32>) -> (res: i32)
    requires
        halves_fit(v@),
    ensures
        res == seq_sum(v@),
{
    sum_of_halves(v.as_slice())
}

} // verus!
