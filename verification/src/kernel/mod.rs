//! Kernel layer: the vector operations of GF(2^8) coding.
//!
//! - [`axpy`]: `y[i] ^= c * x[i]` (equal lengths)
//! - [`scale`]: `y[i] = c * x[i]` (equal lengths)
//! - [`scale_inplace`]: `y[i] = c * y[i]`
//! - [`axpy_multi`]: cache-blocked multi-source AXPY for encoding
//! - [`dot`]: GF(2^8) dot product
//! - [`active_kernel_name`]: which kernel tier is active

pub mod scalar;

use crate::field::algebra::{gf_mul, lemma_mul_identities, lemma_xor_assoc, lemma_xor_basics};
use crate::linear::{add_spec, axpy_spec, column, combination, dot as dot_spec, scale_spec};
use crate::std_ops::subslice_mut;
use vstd::prelude::*;

verus! {

/// Destination bytes processed per block by [`axpy_multi`]: one block of
/// the destination stays hot while every source streams through it.
pub const BLOCK: usize = 4096;

/// The contents of a list of byte slices.
pub open spec fn source_rows(sources: Seq<&[u8]>) -> Seq<Seq<u8>> {
    Seq::new(sources.len(), |j: int| sources[j]@)
}

/// `y[i] ^= c * x[i]` in GF(2^8): the fundamental RLNC primitive.
///
/// The two slices must have equal lengths; they cannot overlap, since one
/// of them is borrowed mutably.
pub fn axpy(c: u8, x: &[u8], y: &mut [u8])
    requires
        x@.len() == old(y)@.len(),
    ensures
        final(y)@ == axpy_spec(c, x@, old(y)@),
{
    axpy_unchecked(c, x, y)
}

/// AXPY for callers that have already established equal lengths.
pub(crate) fn axpy_unchecked(c: u8, x: &[u8], y: &mut [u8])
    requires
        x@.len() == old(y)@.len(),
    ensures
        final(y)@ == axpy_spec(c, x@, old(y)@),
{
    scalar::axpy(c, x, y)
}

/// `y[i] = c * x[i]` in GF(2^8).
pub fn scale(c: u8, x: &[u8], y: &mut [u8])
    requires
        x@.len() == old(y)@.len(),
    ensures
        final(y)@ == scale_spec(c, x@),
{
    scalar::scale(c, x, y)
}

/// In-place scale: `y[i] = c * y[i]` in GF(2^8).
pub fn scale_inplace(c: u8, y: &mut [u8])
    ensures
        final(y)@ == scale_spec(c, old(y)@),
{
    scalar::scale_inplace(c, y)
}

/// Multi-source fused AXPY with cache blocking: for each block of the
/// destination, apply `y ^= c_i * source_i` for every `i`.
///
/// Requires `coeffs.len() == sources.len()` and every
/// `sources[i].len() == y.len()`.
pub fn axpy_multi(coeffs: &[u8], sources: &[&[u8]], y: &mut [u8])
    requires
        coeffs@.len() == sources@.len(),
        forall|i: int| 0 <= i < sources@.len() ==> (#[trigger] sources@[i])@.len() == old(y)@.len(),
    ensures
        final(y)@ == add_spec(
            old(y)@,
            combination(coeffs@, source_rows(sources@), old(y)@.len()),
        ),
{
    let n = y.len();
    let m = coeffs.len();
    let ghost rows = source_rows(sources@);
    let mut off: usize = 0;
    while off < n
        invariant
            off <= n,
            n == y@.len(),
            n == old(y)@.len(),
            m == coeffs@.len(),
            m == sources@.len(),
            rows == source_rows(sources@),
            forall|i: int| 0 <= i < sources@.len() ==> (#[trigger] sources@[i])@.len() == n,
            forall|t: int|
                0 <= t < off ==> #[trigger] y@[t] == old(y)@[t] ^ dot_spec(
                    coeffs@,
                    column(rows, t),
                    m as nat,
                ),
            forall|t: int| off <= t < n ==> #[trigger] y@[t] == old(y)@[t],
        decreases n - off,
    {
        let end = if n - off > BLOCK {
            off + BLOCK
        } else {
            n
        };
        let mut i: usize = 0;
        proof {
            assert forall|t: int| off <= t < end implies #[trigger] y@[t] == old(y)@[t] ^ dot_spec(
                coeffs@,
                column(rows, t),
                0,
            ) by {
                lemma_xor_basics(old(y)@[t], 0u8);
            }
        }
        while i < m
            invariant
                off < end <= n,
                i <= m,
                n == y@.len(),
                n == old(y)@.len(),
                m == coeffs@.len(),
                m == sources@.len(),
                rows == source_rows(sources@),
                forall|i: int| 0 <= i < sources@.len() ==> (#[trigger] sources@[i])@.len() == n,
                forall|t: int|
                    0 <= t < off ==> #[trigger] y@[t] == old(y)@[t] ^ dot_spec(
                        coeffs@,
                        column(rows, t),
                        m as nat,
                    ),
                forall|t: int|
                    off <= t < end ==> #[trigger] y@[t] == old(y)@[t] ^ dot_spec(
                        coeffs@,
                        column(rows, t),
                        i as nat,
                    ),
                forall|t: int| end <= t < n ==> #[trigger] y@[t] == old(y)@[t],
            decreases m - i,
        {
            let c = coeffs[i];
            let ghost before = y@;
            if c != 0 {
                let source = sources[i];
                let source_block = &source[off..end];
                let destination_block = subslice_mut(y, off, end);
                axpy_unchecked(c, source_block, destination_block);
            }
            proof {
                assert forall|t: int| off <= t < end implies #[trigger] y@[t] == old(y)@[t] ^ dot_spec(
                    coeffs@,
                    column(rows, t),
                    (i + 1) as nat,
                ) by {
                    let s = sources@[i as int]@[t];
                    assert(column(rows, t)[i as int] == s);
                    lemma_mul_identities(s);
                    lemma_xor_basics(before[t], 0u8);
                    lemma_xor_assoc(old(y)@[t], dot_spec(coeffs@, column(rows, t), i as nat), gf_mul(c, s));
                }
            }
            i = i + 1;
        }
        off = end;
    }
    assert(y@ =~= add_spec(old(y)@, combination(coeffs@, source_rows(sources@), old(y)@.len())));
}

/// `sum(a[i] * b[i])` in GF(2^8).
pub fn dot(a: &[u8], b: &[u8]) -> (r: u8)
    requires
        a@.len() == b@.len(),
    ensures
        r == dot_spec(a@, b@, a@.len()),
{
    scalar::dot(a, b)
}

/// Returns the name of the currently active kernel tier.
pub fn active_kernel_name() -> (r: &'static str)
    ensures
        r@ == "scalar (tier9)"@,
{
    "scalar (tier9)"
}

} // verus!
