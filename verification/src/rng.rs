//! The crate's one source of randomness, behind a trusted boundary.

use vstd::prelude::*;

verus! {

/// Relies on rand::random_range over an integer half-open range: the result
/// is drawn from `lo..hi`. It panics only on an empty range, which the
/// precondition rules out. Nothing more is promised of a random draw.
#[verifier::external_body]
pub(crate) fn rand_between(lo: i64, hi: i64) -> (r: i64)
    requires
        lo < hi,
    ensures
        lo <= r < hi,
{
    rand::random_range(lo..hi)
}

} // verus!
