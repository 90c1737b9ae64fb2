use vstd::prelude::*;

verus! {

/// Relies on `rand::random_range`: a sample from the thread-local generator,
/// uniform over `[lo, hi)`; it panics only on an empty range, which the
/// precondition rules out. Nothing relates one sample to the next, so the
/// contract promises the bounds alone.
#[verifier::external_body]
pub(crate) fn random_in_range(lo: i32, hi: i32) -> (r: i32)
    requires
        lo < hi,
    ensures
        lo <= r < hi,
{
    rand::random_range(lo..hi)
}

} // verus!
