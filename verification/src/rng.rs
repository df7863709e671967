//! The one randomized primitive of the crate, behind a trusted boundary.

use rand::Rng;
use vstd::prelude::*;

verus! {

/// Relies on `rand::Rng::gen_range` over the range `0..n`: the call draws a
/// uniformly random value in that range, so the result is below `n`. The
/// call panics on an empty range, which `n > 0` rules out; beyond that,
/// the thread-local generator behind it can abort on its first use in a
/// thread if the operating system's randomness source fails — an
/// environmental failure no input avoids. Nothing more is assumed of
/// which value comes back.
#[verifier::external_body]
pub(crate) fn rand_below(n: usize) -> (r: usize)
    requires
        n > 0,
    ensures
        r < n,
{
    rand::thread_rng().gen_range(0..n)
}

} // verus!
