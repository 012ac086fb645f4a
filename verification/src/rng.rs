//! The engine's one source of randomness.

use vstd::prelude::*;

verus! {

/// Relies on `rand::random_range` over `0..n`: a uniformly distributed
/// `u32` below `n`, drawn from the thread-local generator. The call panics
/// only on an empty range, which the precondition rules out.
#[verifier::external_body]
pub(crate) fn random_below(n: u32) -> (r: u32)
    requires
        n > 0,
    ensures
        r < n,
{
    rand::random_range(0..n)
}

} // verus!
