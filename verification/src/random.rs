//! The one source of chance in the library.
use rand::Rng;
use vstd::prelude::*;

verus! {

/// Draws a number with `rand::Rng::gen_range(lo..hi)` on the thread-local
/// generator of `rand::thread_rng`. Claimed: the number lies in `lo..hi`
/// (the range is non-empty, so `gen_range` does not panic). Not claimed:
/// which number comes out; the generator is seeded by the system, so two
/// calls with the same bounds may give different numbers.
#[verifier::external_body]
pub(crate) fn random_in(lo: usize, hi: usize) -> (r: usize)
    requires
        lo < hi,
    ensures
        lo <= r < hi,
{
    rand::thread_rng().gen_range(lo..hi)
}

} // verus!
