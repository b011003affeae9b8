//! The crate's single source of randomness.

use vstd::prelude::*;

verus! {

/// Relies on rand's `thread_rng` and `Rng::gen_range`: sampling the range
/// `0..n` yields a value below `n` and panics only when the range is empty,
/// which the precondition rules out. Nothing more is assumed of the draw.
#[verifier::external_body]
pub fn rand_below(n: usize) -> (r: usize)
    requires
        n > 0,
    ensures
        r < n,
{
    rand::Rng::gen_range(&mut rand::thread_rng(), 0..n)
}

} // verus!
