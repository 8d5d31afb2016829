//! The library's only random source: a seedable generator of the `rand`
//! crate, drawn from through one narrow trusted wrapper.
//!
//! Nothing is assumed of the distribution; callers only learn that a draw
//! lies in the requested range, and every contract downstream states what
//! holds of each possible outcome.

use vstd::prelude::*;

verus! {

#[verifier::external_type_specification]
#[verifier::external_body]
pub struct ExStdRng(rand::rngs::StdRng);

/// Relies on rand's `Rng::random_range` over an `i64` range: it returns a
/// value of the half-open range and panics only when the range is empty,
/// which the precondition rules out.
#[verifier::external_body]
pub(crate) fn rand_range(rng: &mut rand::rngs::StdRng, lo: i64, hi: i64) -> (r: i64)
    requires
        lo < hi,
    ensures
        lo <= r < hi,
{
    rand::Rng::random_range(rng, lo..hi)
}

} // verus!
