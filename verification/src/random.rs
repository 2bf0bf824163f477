//! The one randomness primitive the library needs.

use rand::Rng;
use vstd::prelude::*;

verus! {

/// Relies on rand's `Rng::gen_range` over the inclusive range `lo..=hi`:
/// the sampled value lies within the bounds, and the call panics only
/// when the range is empty, which the precondition rules out.
#[verifier::external_body]
pub(crate) fn sample_inclusive(lo: i32, hi: i32) -> (r: i32)
    requires
        lo <= hi,
    ensures
        lo <= r <= hi,
{
    rand::thread_rng().gen_range(lo..=hi)
}

} // verus!
