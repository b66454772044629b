//! The one place the library touches the random generator.

use vstd::prelude::*;

verus! {

/// Relies on rand's `Rng::gen_range` over the thread-local generator:
/// on the half-open integer range `0..n` it panics only when the range is
/// empty and otherwise returns a value drawn from `[0, n)`.
#[verifier::external_body]
pub(crate) fn random_below(n: u64) -> (r: u64)
    requires
        n >= 1,
    ensures
        r < n,
{
    rand::Rng::gen_range(&mut rand::thread_rng(), 0..n)
}

} // verus!
