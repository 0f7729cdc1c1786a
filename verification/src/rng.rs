//! The one randomness source of the simulation, behind a trusted wrapper.

use vstd::prelude::*;

verus! {

/// Relies on rand::random_range: returns a sample from the half-open range
/// `0..n` drawn from the thread-local generator; it panics only on an empty
/// range, which the precondition rules out. Nothing is assumed about which
/// value comes back beyond its bound.
#[verifier::external_body]
pub(crate) fn rand_below(n: usize) -> (r: usize)
    requires
        1 <= n,
    ensures
        r < n,
{
    rand::random_range(0..n)
}

} // verus!
