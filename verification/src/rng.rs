//! The randomness source of the resolver.

use vstd::prelude::*;

verus! {

/// Relies on rand's thread-local generator and `gen_range` over the
/// inclusive range `lo..=hi`: the sample lies within the bounds.
/// Nothing more is assumed of the outcome.
#[verifier::external_body]
pub(crate) fn roll_range(lo: i64, hi: i64) -> (r: i64)
    requires
        lo <= hi,
    ensures
        lo <= r <= hi,
{
    rand::Rng::gen_range(&mut rand::thread_rng(), lo..=hi)
}

} // verus!
