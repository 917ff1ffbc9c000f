//! Fixed-size pieces of byte strings.

use vstd::prelude::*;

verus! {

/// Copies the `N` bytes that start at `at` out of `bytes`.
pub(crate) fn read_array<const N: usize>(bytes: &[u8], at: usize) -> (out: [u8; N])
    requires
        at + N <= bytes.len(),
    ensures
        out@ == bytes@.subrange(at as int, at + N),
{
    let mut out = [0u8;N];
    let mut k: usize = 0;
    while k < N
        invariant
            k <= N,
            at + N <= bytes.len(),
            forall|j: int| 0 <= j < k ==> out@[j] == bytes@[at + j],
        decreases N - k,
    {
        out[k] = bytes[at + k];
        k = k + 1;
    }
    proof {
        assert(out@ =~= bytes@.subrange(at as int, at + N));
    }
    out
}

} // verus!
