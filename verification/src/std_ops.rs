//! Trusted specifications of the few standard-library slice, vector and
//! string operations that vstd does not specify.  Each function makes one
//! standard-library call and states what its documentation promises.

use vstd::prelude::*;

verus! {

/// `<*const u8>::align_offset(64)` on the start of `v`'s storage: the number
/// of bytes to skip to reach a 64-byte boundary.  The standard library may
/// answer `usize::MAX` when it cannot compute it; nothing else is promised,
/// since the address depends on the allocator.
#[verifier::external_body]
pub(crate) fn storage_alignment_offset(v: &Vec<u8>) -> (r: usize) {
    v.as_ptr().align_offset(64)
}

/// `&mut s[start..end]`: a mutable view of a sub-range.  Writing through the
/// view writes into `s`; a slice cannot change its length.
#[verifier::external_body]
pub(crate) fn subslice_mut<T>(s: &mut [T], start: usize, end: usize) -> (r: &mut [T])
    requires
        start <= end <= old(s)@.len(),
    ensures
        r@ == old(s)@.subrange(start as int, end as int),
        final(r)@.len() == end - start,
        final(s)@ == old(s)@.subrange(0, start as int) + final(r)@ + old(s)@.subrange(
            end as int,
            old(s)@.len() as int,
        ),
{
    &mut s[start..end]
}

/// `&mut v[start..end]` on a vector: a mutable view of a sub-range of its
/// elements; writing through the view writes into `v`.  Indexing within
/// bounds does not panic.
#[verifier::external_body]
pub(crate) fn vec_subslice_mut<T>(v: &mut Vec<T>, start: usize, end: usize) -> (r: &mut [T])
    requires
        start <= end <= old(v)@.len(),
    ensures
        r@ == old(v)@.subrange(start as int, end as int),
        final(r)@.len() == end - start,
        final(v)@ == old(v)@.subrange(0, start as int) + final(r)@ + old(v)@.subrange(
            end as int,
            old(v)@.len() as int,
        ),
    no_unwind
{
    &mut v[start..end]
}

/// `&mut s[i]`: a mutable reference to one element; writing through it
/// writes into `s`.
#[verifier::external_body]
pub(crate) fn slice_elem_mut<T>(s: &mut [T], i: usize) -> (r: &mut T)
    requires
        i < old(s)@.len(),
    ensures
        *r == old(s)@[i as int],
        final(s)@ == old(s)@.update(i as int, *final(r)),
{
    &mut s[i]
}

/// `<[T]>::swap` on a vector: exchanges the elements at `i` and `j`.
#[verifier::external_body]
pub(crate) fn vec_swap<T>(v: &mut Vec<T>, i: usize, j: usize)
    requires
        i < old(v)@.len(),
        j < old(v)@.len(),
    ensures
        final(v)@ == old(v)@.update(i as int, old(v)@[j as int]).update(j as int, old(v)@[i as int]),
{
    v.swap(i, j)
}

/// `String::push`: appends one character at the end.
#[verifier::external_body]
pub(crate) fn push_char(s: &mut String, c: char)
    ensures
        final(s)@ == old(s)@.push(c),
{
    s.push(c)
}

} // verus!
