//! Randomness for the initial simulation state.

use rand::Rng;
use vstd::prelude::*;

verus! {

/// Relies on rand::thread_rng and rand::Rng::gen_range on an inclusive
/// range: `lo..=hi` is nonempty under the precondition, so the call does
/// not panic, and the sample lies within the bounds.  Nothing more is
/// assumed of the sample.
#[verifier::external_body]
pub(crate) fn rand_i64_inclusive(lo: i64, hi: i64) -> (r: i64)
    requires
        lo <= hi,
    ensures
        lo <= r <= hi,
{
    rand::thread_rng().gen_range(lo..=hi)
}

} // verus!
