//! The connection to the process-level random source.

use vstd::prelude::*;

verus! {

/// Relies on `rand::random_range`, a draw from the thread-local generator:
/// for a non-empty range `0..bound` it returns a value of that range, so the
/// result is always below `bound`. Nothing more is promised of a random
/// draw.
#[verifier::external_body]
pub(crate) fn random_index_below(bound: usize) -> (r: usize)
    requires
        bound > 0,
    ensures
        r < bound,
{
    rand::random_range(0..bound)
}

} // verus!
