//! Byte-slice helpers: copying and exchanging contents.

use vstd::prelude::*;

verus! {

/// Overwrites `dst` with the bytes of `src`.
pub(crate) fn copy_bytes(dst: &mut [u8], src: &[u8])
    requires
        old(dst)@.len() == src@.len(),
    ensures
        final(dst)@ == src@,
{
    let n = dst.len();
    let mut i: usize = 0;
    while i < n
        invariant
            i <= n,
            n == dst@.len(),
            n == src@.len(),
            forall|j: int| 0 <= j < i ==> dst@[j] == src@[j],
        decreases n - i,
    {
        dst[i] = src[i];
        i = i + 1;
    }
    assert(dst@ =~= src@);
}

/// Exchanges the contents of two equally long slices.
pub(crate) fn swap_bytes(a: &mut [u8], b: &mut [u8])
    requires
        old(a)@.len() == old(b)@.len(),
    ensures
        final(a)@ == old(b)@,
        final(b)@ == old(a)@,
{
    let n = a.len();
    let mut i: usize = 0;
    while i < n
        invariant
            i <= n,
            n == a@.len(),
            n == b@.len(),
            n == old(a)@.len(),
            forall|j: int| 0 <= j < i ==> a@[j] == old(b)@[j] && b@[j] == old(a)@[j],
            forall|j: int| i <= j < n ==> a@[j] == old(a)@[j] && b@[j] == old(b)@[j],
        decreases n - i,
    {
        let t = a[i];
        a[i] = b[i];
        b[i] = t;
        i = i + 1;
    }
    assert(a@ =~= old(b)@);
    assert(b@ =~= old(a)@);
}

} // verus!
