//! Small arithmetic helpers shared across the crate.

use vstd::prelude::*;

verus! {

/// The maximum number of faulty validators a network of `n` nodes can
/// tolerate: the largest `f` with `3 * f < n`, that is `(n - 1) / 3`.
pub open spec fn spec_max_faulty(n: nat) -> nat {
    if n == 0 {
        0
    } else {
        ((n - 1) / 3) as nat
    }
}

/// Returns the maximum tolerated number of faulty nodes among `n` validators.
pub fn max_faulty(n: usize) -> (f: usize)
    ensures
        f == spec_max_faulty(n as nat),
        3 * f < n || n == 0,
{
    if n == 0 {
        0
    } else {
        (n - 1) / 3
    }
}

} // verus!
