//! Random draws for placing the snake and the food.

use rand::Rng;
use vstd::prelude::*;

verus! {

/// Relies on `rand::thread_rng` and `rand::Rng::gen_range`: a value drawn
/// from `lo..hi`; `gen_range` panics on an empty range.
#[verifier::external_body]
pub(crate) fn random_in(lo: i16, hi: i16) -> (r: i16)
    requires
        lo < hi,
    ensures
        lo <= r < hi,
{
    rand::thread_rng().gen_range(lo..hi)
}

} // verus!
