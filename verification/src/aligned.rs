//! Aligned memory buffer: 64-byte aligned heap storage for hot paths.
//!
//! The buffer over-allocates a vector by `ALIGN - 1` bytes and starts its
//! contents at the first 64-byte boundary of that storage, so encoder,
//! decoder and matrix rows hand aligned slices to the kernels.

use crate::slices::copy_bytes;
use crate::std_ops::{storage_alignment_offset, vec_subslice_mut};
use vstd::prelude::*;

verus! {

/// AVX-512 requires 64-byte alignment for aligned load/store instructions.
/// Using 64 as the default covers all tiers: SSE (16), AVX2 (32), AVX-512 (64).
pub const ALIGN: usize = 64;

/// A heap-allocated byte buffer whose contents start on a 64-byte boundary.
#[derive(Debug)]
pub struct AlignedBuffer {
    storage: Vec<u8>,
    offset: usize,
    len: usize,
}

impl View for AlignedBuffer {
    type V = Seq<u8>;

    closed spec fn view(&self) -> Seq<u8> {
        self.storage@.subrange(self.offset as int, self.offset + self.len)
    }
}

impl AlignedBuffer {
    #[verifier::type_invariant]
    closed spec fn storage_covers_contents(self) -> bool {
        &&& self.offset < ALIGN
        &&& self.storage@.len() == self.len + (ALIGN - 1)
    }

    /// Allocate `len` bytes, all set to `val`.
    fn filled(len: usize, val: u8) -> (r: Self)
        requires
            len <= usize::MAX - (ALIGN - 1),
        ensures
            r@ == Seq::new(len as nat, |i: int| val),
    {
        let storage = vec![val; len + (ALIGN - 1)];
        let skip = storage_alignment_offset(&storage);
        let offset = if skip < ALIGN {
            skip
        } else {
            0
        };
        let r = AlignedBuffer { storage, offset, len };
        assert(r@ =~= Seq::new(len as nat, |i: int| val));
        r
    }

    /// Allocate a zero-initialised buffer of `len` bytes, 64-byte aligned.
    pub fn zeroed(len: usize) -> (r: Self)
        requires
            len <= usize::MAX - (ALIGN - 1),
        ensures
            r@ == Seq::new(len as nat, |i: int| 0u8),
    {
        Self::filled(len, 0)
    }

    /// Allocate and copy from `src`.
    pub fn from_slice(src: &[u8]) -> (r: Self)
        requires
            src@.len() <= usize::MAX - (ALIGN - 1),
        ensures
            r@ == src@,
    {
        let mut buf = Self::filled(src.len(), 0);
        copy_bytes(buf.as_mut_slice(), src);
        buf
    }

    /// Length of the buffer in bytes.
    pub fn len(&self) -> (r: usize)
        ensures
            r == self@.len(),
            r <= usize::MAX - (ALIGN - 1),
    {
        proof {
            use_type_invariant(self);
            assert(self.storage@.len() == self.storage.len());
        }
        self.len
    }

    /// True if the buffer is empty.
    pub fn is_empty(&self) -> (r: bool)
        ensures
            r == (self@.len() == 0),
    {
        proof {
            use_type_invariant(self);
        }
        self.len == 0
    }

    /// Immutable slice view.
    pub fn as_slice(&self) -> (r: &[u8])
        ensures
            r@ == self@,
    {
        proof {
            use_type_invariant(self);
            assert(self.storage@.len() == self.storage.len());
        }
        &self.storage.as_slice()[self.offset..self.offset + self.len]
    }

    /// Mutable slice view.
    pub fn as_mut_slice(&mut self) -> (r: &mut [u8])
        ensures
            r@ == old(self)@,
            final(self)@ == final(r)@,
        no_unwind
    {
        proof {
            use_type_invariant(&*self);
            assert(self.storage@.len() == self.storage.len());
        }
        let start = self.offset;
        let end = self.offset + self.len;
        vec_subslice_mut(&mut self.storage, start, end)
    }

    /// Copy contents into a newly allocated `Vec<u8>`.
    pub fn to_vec(&self) -> (r: Vec<u8>)
        ensures
            r@ == self@,
    {
        vstd::slice::slice_to_vec(self.as_slice())
    }

    /// Consume this buffer and return a `Vec<u8>` copy of the data.
    pub fn into_vec(self) -> (r: Vec<u8>)
        ensures
            r@ == self@,
    {
        self.to_vec()
    }

    /// Fill entire buffer with `val`.
    pub fn fill(&mut self, val: u8)
        ensures
            final(self)@ == Seq::new(old(self)@.len(), |i: int| val),
    {
        let s = self.as_mut_slice();
        let n = s.len();
        let mut i: usize = 0;
        while i < n
            invariant
                i <= n,
                n == s@.len(),
                forall|j: int| 0 <= j < i ==> s@[j] == val,
            decreases n - i,
        {
            s[i] = val;
            i = i + 1;
        }
        assert(s@ =~= Seq::new(old(self)@.len(), |i: int| val));
    }

    /// Zero all bytes.
    pub fn zero(&mut self)
        ensures
            final(self)@ == Seq::new(old(self)@.len(), |i: int| 0u8),
    {
        self.fill(0);
    }
}

impl core::ops::Deref for AlignedBuffer {
    type Target = [u8];

    /// The contents, as [`AlignedBuffer::as_slice`] gives them.
    fn deref(&self) -> (r: &[u8])
        ensures
            r@ == self@,
    {
        self.as_slice()
    }
}

impl Clone for AlignedBuffer {
    /// A fresh allocation, aligned on its own, holding the same bytes.
    fn clone(&self) -> (r: Self)
        ensures
            r@ == self@,
    {
        proof {
            use_type_invariant(self);
            assert(self.storage@.len() == self.storage.len());
        }
        Self::from_slice(self.as_slice())
    }
}

} // verus!
