//! Small helpers for building the machine's fixed-size buffers.

use vstd::prelude::*;

verus! {

/// Builds a vector of `n` copies of `x`.
pub fn filled<T: Copy>(n: usize, x: T) -> (v: Vec<T>)
    ensures
        v@.len() == n,
        forall|k: int| 0 <= k < n ==> v@[k] == x,
{
    let mut v: Vec<T> = Vec::new();
    let mut j: usize = 0;
    while j < n
        invariant
            j <= n,
            v@.len() == j,
            forall|k: int| 0 <= k < j ==> v@[k] == x,
        decreases n - j,
    {
        v.push(x);
        j = j + 1;
    }
    v
}

} // verus!
