//! Portable scalar kernel.
//!
//! Works on any target.  Uses per-coefficient nibble tables for the vector
//! loops and the log/exp tables for single products.

use crate::field::algebra::{
    lemma_mul_acc, lemma_mul_acc_step, lemma_mul_identities, lemma_mul_nibbles, lemma_xor_assoc,
    lemma_xor_basics, mul_acc, term, xtime,
};
use crate::field::tables::{exp_lookup, lemma_table_product, log_lookup};
use crate::linear::{axpy_spec, dot as dot_spec, scale_spec};
use crate::slices::copy_bytes;
use vstd::prelude::*;

verus! {

/// Shift-and-add GF(2^8) product, reducing by 0x1B whenever the top bit
/// shifts out.
fn gf_mul_polynomial(a: u8, b: u8) -> (r: u8)
    ensures
        r == crate::field::algebra::gf_mul(a, b),
{
    let ghost a0 = a;
    let ghost b0 = b;
    let mut a = a;
    let mut b = b;
    let mut product: u8 = 0;
    let mut bit: usize = 0;
    proof {
        lemma_mul_acc(a0, b0);
        lemma_xor_basics(mul_acc(a, b, 8), 0u8);
    }
    while bit < 8
        invariant
            bit <= 8,
            product ^ mul_acc(a, b, (8 - bit) as nat) == crate::field::algebra::gf_mul(a0, b0),
        decreases 8 - bit,
    {
        proof {
            lemma_mul_acc_step(a, b, (8 - bit) as nat);
            lemma_xor_assoc(
                product,
                term(a, b, 1u8),
                mul_acc(xtime(a), b >> 1u8, (8 - bit - 1) as nat),
            );
            lemma_xor_basics(product, 0u8);
        }
        if b & 1 != 0 {
            product = product ^ a;
        }
        let high = a & 0x80;
        a = a << 1u8;
        if high != 0 {
            a = a ^ 0x1b;
        }
        b = b >> 1u8;
        bit = bit + 1;
    }
    proof {
        lemma_xor_basics(product, 0u8);
    }
    product
}

/// `tables` holds `c * j` and `c * (j << 4)` for every nibble `j`.
pub open spec fn nibble_tables_of(c: u8, tables: ([u8; 16], [u8; 16])) -> bool {
    &&& forall|j: int|
        0 <= j < 16 ==> #[trigger] tables.0[j] == crate::field::algebra::gf_mul(c, j as u8)
    &&& forall|j: int|
        0 <= j < 16 ==> #[trigger] tables.1[j] == crate::field::algebra::gf_mul(c, (j as u8) << 4u8)
}

/// Precompute two 16-entry nibble tables for coefficient `c`:
/// `lo[j] = c * j` and `hi[j] = c * (j << 4)` for `j` in `0..16`.
pub fn make_nibble_tables(c: u8) -> (r: ([u8; 16], [u8; 16]))
    ensures
        nibble_tables_of(c, r),
{
    let mut lo = [0u8; 16];
    let mut hi = [0u8; 16];
    let mut nibble: usize = 0;
    while nibble < 16
        invariant
            nibble <= 16,
            forall|j: int| 0 <= j < nibble ==> #[trigger] lo[j] == crate::field::algebra::gf_mul(c, j as u8),
            forall|j: int|
                0 <= j < nibble ==> #[trigger] hi[j] == crate::field::algebra::gf_mul(c, (j as u8) << 4u8),
        decreases 16 - nibble,
    {
        let l = gf_mul_polynomial(c, nibble as u8);
        let h = gf_mul_polynomial(c, (nibble as u8) << 4u8);
        lo[nibble] = l;
        hi[nibble] = h;
        proof {
            assert(lo[nibble as int] == crate::field::algebra::gf_mul(c, nibble as u8));
            assert(hi[nibble as int] == crate::field::algebra::gf_mul(c, (nibble as u8) << 4u8));
        }
        nibble = nibble + 1;
    }
    (lo, hi)
}

/// GF(2^8) product of two bytes.
pub fn gf_mul(a: u8, b: u8) -> (r: u8)
    ensures
        r == crate::field::algebra::gf_mul(a, b),
{
    if a == 0 || b == 0 {
        proof {
            lemma_mul_identities(a);
            lemma_mul_identities(b);
        }
        return 0;
    }
    proof {
        lemma_table_product(a, b);
    }
    exp_lookup(log_lookup(a) as usize + log_lookup(b) as usize)
}

/// The product `c * x` read off the nibble tables of `c`.
fn nibble_product(tables: &([u8; 16], [u8; 16]), c: u8, x: u8) -> (r: u8)
    requires
        nibble_tables_of(c, *tables),
    ensures
        r == crate::field::algebra::gf_mul(c, x),
{
    proof {
        lemma_mul_nibbles(c, x);
        assert(((x & 0x0fu8) as usize) as u8 == x & 0x0fu8);
        assert(((x >> 4u8) as usize) as u8 == x >> 4u8);
    }
    let lo = tables.0[(x & 0x0f) as usize];
    let hi = tables.1[(x >> 4) as usize];
    proof {
        let jl = (x & 0x0fu8) as int;
        let jh = (x >> 4u8) as int;
        assert(tables.0[jl] == crate::field::algebra::gf_mul(c, jl as u8));
        assert(tables.1[jh] == crate::field::algebra::gf_mul(c, (jh as u8) << 4u8));
    }
    lo ^ hi
}

/// `y[i] ^= c * x[i]` over GF(2^8).
///
/// This is the AXPY ("a·x plus y") primitive that drives all encoding and
/// Gaussian-elimination operations.
pub fn axpy(c: u8, x: &[u8], y: &mut [u8])
    requires
        x@.len() == old(y)@.len(),
    ensures
        final(y)@ == axpy_spec(c, x@, old(y)@),
{
    let n = y.len();
    if c == 0 {
        proof {
            assert forall|i: int| 0 <= i < n implies y@[i] ^ crate::field::algebra::gf_mul(0u8, x@[i])
                == y@[i] by {
                lemma_mul_identities(x@[i]);
                lemma_xor_basics(y@[i], 0u8);
            }
        }
        assert(y@ =~= axpy_spec(c, x@, y@));
        return ;
    }
    if c == 1 {
        let mut i: usize = 0;
        while i < n
            invariant
                i <= n,
                n == y@.len(),
                n == x@.len(),
                forall|j: int| 0 <= j < i ==> y@[j] == old(y)@[j] ^ crate::field::algebra::gf_mul(1u8, x@[j]),
                forall|j: int| i <= j < n ==> y@[j] == old(y)@[j],
            decreases n - i,
        {
            proof {
                lemma_mul_identities(x@[i as int]);
            }
            y[i] = y[i] ^ x[i];
            i = i + 1;
        }
        assert(y@ =~= axpy_spec(c, x@, old(y)@));
        return ;
    }
    let tables = make_nibble_tables(c);
    let mut i: usize = 0;
    while i < n
        invariant
            i <= n,
            n == y@.len(),
            n == x@.len(),
            nibble_tables_of(c, tables),
            forall|j: int| 0 <= j < i ==> y@[j] == old(y)@[j] ^ crate::field::algebra::gf_mul(c, x@[j]),
            forall|j: int| i <= j < n ==> y@[j] == old(y)@[j],
        decreases n - i,
    {
        let p = nibble_product(&tables, c, x[i]);
        y[i] = y[i] ^ p;
        i = i + 1;
    }
    assert(y@ =~= axpy_spec(c, x@, old(y)@));
}

/// `y[i] = c * x[i]` over GF(2^8) (scale, no accumulation).
pub fn scale(c: u8, x: &[u8], y: &mut [u8])
    requires
        x@.len() == old(y)@.len(),
    ensures
        final(y)@ == scale_spec(c, x@),
{
    let n = y.len();
    if c == 1 {
        copy_bytes(y, x);
        proof {
            assert forall|i: int| 0 <= i < n implies crate::field::algebra::gf_mul(1u8, x@[i]) == x@[i] by {
                lemma_mul_identities(x@[i]);
            }
        }
        assert(y@ =~= scale_spec(c, x@));
        return ;
    }
    if c == 0 {
        let mut i: usize = 0;
        while i < n
            invariant
                i <= n,
                n == y@.len(),
                n == x@.len(),
                forall|j: int| 0 <= j < i ==> y@[j] == crate::field::algebra::gf_mul(0u8, x@[j]),
            decreases n - i,
        {
            proof {
                lemma_mul_identities(x@[i as int]);
            }
            y[i] = 0;
            i = i + 1;
        }
        assert(y@ =~= scale_spec(c, x@));
        return ;
    }
    let tables = make_nibble_tables(c);
    let mut i: usize = 0;
    while i < n
        invariant
            i <= n,
            n == y@.len(),
            n == x@.len(),
            nibble_tables_of(c, tables),
            forall|j: int| 0 <= j < i ==> y@[j] == crate::field::algebra::gf_mul(c, x@[j]),
        decreases n - i,
    {
        let p = nibble_product(&tables, c, x[i]);
        y[i] = p;
        i = i + 1;
    }
    assert(y@ =~= scale_spec(c, x@));
}

/// In-place scale: `y[i] = c * y[i]`.
pub fn scale_inplace(c: u8, y: &mut [u8])
    ensures
        final(y)@ == scale_spec(c, old(y)@),
{
    let n = y.len();
    if c == 1 {
        proof {
            assert forall|i: int| 0 <= i < n implies crate::field::algebra::gf_mul(1u8, y@[i]) == y@[i] by {
                lemma_mul_identities(y@[i]);
            }
        }
        assert(y@ =~= scale_spec(c, y@));
        return ;
    }
    if c == 0 {
        let mut i: usize = 0;
        while i < n
            invariant
                i <= n,
                n == y@.len(),
                forall|j: int| 0 <= j < i ==> y@[j] == crate::field::algebra::gf_mul(0u8, old(y)@[j]),
            decreases n - i,
        {
            proof {
                lemma_mul_identities(old(y)@[i as int]);
            }
            y[i] = 0;
            i = i + 1;
        }
        assert(y@ =~= scale_spec(c, old(y)@));
        return ;
    }
    let tables = make_nibble_tables(c);
    let mut i: usize = 0;
    while i < n
        invariant
            i <= n,
            n == y@.len(),
            nibble_tables_of(c, tables),
            forall|j: int| 0 <= j < i ==> y@[j] == crate::field::algebra::gf_mul(c, old(y)@[j]),
            forall|j: int| i <= j < n ==> y@[j] == old(y)@[j],
        decreases n - i,
    {
        let p = nibble_product(&tables, c, y[i]);
        y[i] = p;
        i = i + 1;
    }
    assert(y@ =~= scale_spec(c, old(y)@));
}

/// Pure XOR: `y[i] ^= x[i]` (AXPY with `c = 1`).
pub fn xor_assign(x: &[u8], y: &mut [u8])
    requires
        x@.len() == old(y)@.len(),
    ensures
        final(y)@.len() == old(y)@.len(),
        forall|i: int| 0 <= i < old(y)@.len() ==> final(y)@[i] == old(y)@[i] ^ x@[i],
{
    let n = y.len();
    let mut i: usize = 0;
    while i < n
        invariant
            i <= n,
            n == y@.len(),
            n == x@.len(),
            forall|j: int| 0 <= j < i ==> y@[j] == old(y)@[j] ^ x@[j],
            forall|j: int| i <= j < n ==> y@[j] == old(y)@[j],
        decreases n - i,
    {
        y[i] = y[i] ^ x[i];
        i = i + 1;
    }
}

/// `sum(a[i] * b[i])` over GF(2^8) (dot product).
pub fn dot(a: &[u8], b: &[u8]) -> (r: u8)
    requires
        a@.len() == b@.len(),
    ensures
        r == dot_spec(a@, b@, a@.len()),
{
    let n = a.len();
    let mut acc: u8 = 0;
    let mut i: usize = 0;
    while i < n
        invariant
            i <= n,
            n == a@.len(),
            n == b@.len(),
            acc == dot_spec(a@, b@, i as nat),
        decreases n - i,
    {
        let ai = a[i];
        let bi = b[i];
        if ai != 0 && bi != 0 {
            proof {
                lemma_table_product(ai, bi);
            }
            acc = acc ^ exp_lookup(log_lookup(ai) as usize + log_lookup(bi) as usize);
        } else {
            proof {
                lemma_mul_identities(ai);
                lemma_mul_identities(bi);
                lemma_xor_basics(acc, 0u8);
            }
        }
        i = i + 1;
    }
    acc
}

} // verus!
