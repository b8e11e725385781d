//! Randomness for matchmaking and map choice, behind contracts that hold of
//! every outcome.

use vstd::prelude::*;

verus! {

/// Relies on fastrand::shuffle: it reorders the slice in place by swapping
/// pairs of elements, so the result holds exactly the old elements, each as
/// often as before.
#[verifier::external_body]
pub(crate) fn shuffle_ids(v: &mut Vec<u64>)
    ensures
        final(v)@.to_multiset() == old(v)@.to_multiset(),
        final(v)@.len() == old(v)@.len(),
{
    fastrand::shuffle(v);
}

/// Relies on fastrand::usize: it returns a value inside the given range, and
/// panics only when the range is empty.
#[verifier::external_body]
pub(crate) fn random_index(lo: usize, hi: usize) -> (r: usize)
    requires
        lo < hi,
    ensures
        lo <= r < hi,
{
    fastrand::usize(lo..hi)
}

} // verus!
