//! The mathematical model of GF(2^8) with the AES reduction polynomial
//! x^8 + x^4 + x^3 + x + 1 (0x11B): addition is XOR, multiplication is
//! carry-less polynomial multiplication reduced modulo that polynomial.
//!
//! The laws of the field (commutativity, associativity, distributivity,
//! identities) are proved here; the bit-level facts are discharged with the
//! bit-vector solver on single bytes.

use vstd::prelude::*;

verus! {

/// Multiplication by the polynomial `x`, reduced modulo 0x11B.
pub open spec fn xtime(a: u8) -> u8 {
    if a & 0x80u8 != 0 {
        (a << 1u8) ^ 0x1bu8
    } else {
        a << 1u8
    }
}

/// `a` when bit `bit` of `b` is set, otherwise zero.
pub open spec fn term(a: u8, b: u8, bit: u8) -> u8 {
    if b & bit != 0 {
        a
    } else {
        0u8
    }
}

/// Sum over the bits of `b` of the matching `a_i`; with `a_i = x^i * a`
/// this is the product `a * b`.
pub open spec fn mul_terms(
    a0: u8,
    a1: u8,
    a2: u8,
    a3: u8,
    a4: u8,
    a5: u8,
    a6: u8,
    a7: u8,
    b: u8,
) -> u8 {
    term(a0, b, 1u8) ^ term(a1, b, 2u8) ^ term(a2, b, 4u8) ^ term(a3, b, 8u8) ^ term(a4, b, 16u8)
        ^ term(a5, b, 32u8) ^ term(a6, b, 64u8) ^ term(a7, b, 128u8)
}

/// The field product of `a` and `b`.
pub closed spec fn gf_mul(a: u8, b: u8) -> u8 {
    let a1 = xtime(a);
    let a2 = xtime(a1);
    let a3 = xtime(a2);
    let a4 = xtime(a3);
    let a5 = xtime(a4);
    let a6 = xtime(a5);
    let a7 = xtime(a6);
    mul_terms(a, a1, a2, a3, a4, a5, a6, a7, b)
}

/// The shift-and-add evaluation of a product, `n` bits of `b` at a time:
/// what remains to be added after the low bits have been consumed.
pub open spec fn mul_acc(a: u8, b: u8, n: nat) -> u8
    decreases n,
{
    if n == 0 {
        0u8
    } else {
        term(a, b, 1u8) ^ mul_acc(xtime(a), b >> 1u8, (n - 1) as nat)
    }
}

/// `x` raised to the power `e` by repeated multiplication (`x^0 = 1`).
pub open spec fn gf_pow(x: u8, e: nat) -> u8
    decreases e,
{
    if e == 0 {
        1u8
    } else {
        gf_mul(gf_pow(x, (e - 1) as nat), x)
    }
}

// ---------------------------------------------------------------------------
// Bit-level facts
// ---------------------------------------------------------------------------

/// XOR is associative.
pub proof fn lemma_xor_assoc(a: u8, b: u8, c: u8)
    ensures
        (a ^ b) ^ c == a ^ (b ^ c),
{
    assert((a ^ b) ^ c == a ^ (b ^ c)) by (bit_vector);
}

/// XOR is commutative, has zero as identity, and every byte is its own
/// additive inverse.
pub proof fn lemma_xor_basics(a: u8, b: u8)
    ensures
        a ^ b == b ^ a,
        a ^ 0u8 == a,
        0u8 ^ a == a,
        a ^ a == 0u8,
{
    assert(a ^ b == b ^ a && a ^ 0u8 == a && 0u8 ^ a == a && a ^ a == 0u8) by (bit_vector);
}

/// Regrouping of four XOR terms.
pub proof fn lemma_xor_swap4(a: u8, b: u8, c: u8, d: u8)
    ensures
        (a ^ b) ^ (c ^ d) == (a ^ c) ^ (b ^ d),
{
    assert((a ^ b) ^ (c ^ d) == (a ^ c) ^ (b ^ d)) by (bit_vector);
}

#[verifier::rlimit(100)]
proof fn bv_comm(
    a0: u8,
    a1: u8,
    a2: u8,
    a3: u8,
    a4: u8,
    a5: u8,
    a6: u8,
    a7: u8,
    b0: u8,
    b1: u8,
    b2: u8,
    b3: u8,
    b4: u8,
    b5: u8,
    b6: u8,
    b7: u8,
)
    by (bit_vector)
    requires
        a1 == xtime(a0),
        a2 == xtime(a1),
        a3 == xtime(a2),
        a4 == xtime(a3),
        a5 == xtime(a4),
        a6 == xtime(a5),
        a7 == xtime(a6),
        b1 == xtime(b0),
        b2 == xtime(b1),
        b3 == xtime(b2),
        b4 == xtime(b3),
        b5 == xtime(b4),
        b6 == xtime(b5),
        b7 == xtime(b6),
    ensures
        mul_terms(a0, a1, a2, a3, a4, a5, a6, a7, b0) == mul_terms(
            b0,
            b1,
            b2,
            b3,
            b4,
            b5,
            b6,
            b7,
            a0,
        ),
{
}

#[verifier::rlimit(100)]
proof fn bv_shift(
    a0: u8,
    a1: u8,
    a2: u8,
    a3: u8,
    a4: u8,
    a5: u8,
    a6: u8,
    a7: u8,
    x: u8,
    p: u8,
    q: u8,
)
    by (bit_vector)
    requires
        a1 == xtime(a0),
        a2 == xtime(a1),
        a3 == xtime(a2),
        a4 == xtime(a3),
        a5 == xtime(a4),
        a6 == xtime(a5),
        a7 == xtime(a6),
        p == mul_terms(a0, a1, a2, a3, a4, a5, a6, a7, x),
        q == xtime(x),
    ensures
        xtime(p) == mul_terms(a0, a1, a2, a3, a4, a5, a6, a7, q),
{
}

proof fn bv_distrib(a0: u8, a1: u8, a2: u8, a3: u8, a4: u8, a5: u8, a6: u8, a7: u8, b: u8, c: u8)
    by (bit_vector)
    ensures
        mul_terms(a0, a1, a2, a3, a4, a5, a6, a7, b ^ c) == mul_terms(a0, a1, a2, a3, a4, a5, a6, a7, b)
            ^ mul_terms(a0, a1, a2, a3, a4, a5, a6, a7, c),
{
}

proof fn bv_small_factors(a0: u8, a1: u8, a2: u8, a3: u8, a4: u8, a5: u8, a6: u8, a7: u8)
    by (bit_vector)
    ensures
        mul_terms(a0, a1, a2, a3, a4, a5, a6, a7, 0u8) == 0u8,
        mul_terms(a0, a1, a2, a3, a4, a5, a6, a7, 1u8) == a0,
        mul_terms(a0, a1, a2, a3, a4, a5, a6, a7, 3u8) == a0 ^ a1,
{
}

proof fn bv_acc_bridge(
    a0: u8,
    a1: u8,
    a2: u8,
    a3: u8,
    a4: u8,
    a5: u8,
    a6: u8,
    a7: u8,
    b0: u8,
    b1: u8,
    b2: u8,
    b3: u8,
    b4: u8,
    b5: u8,
    b6: u8,
    b7: u8,
)
    by (bit_vector)
    requires
        b1 == b0 >> 1u8,
        b2 == b1 >> 1u8,
        b3 == b2 >> 1u8,
        b4 == b3 >> 1u8,
        b5 == b4 >> 1u8,
        b6 == b5 >> 1u8,
        b7 == b6 >> 1u8,
    ensures
        mul_terms(a0, a1, a2, a3, a4, a5, a6, a7, b0) == term(a0, b0, 1u8) ^ (term(a1, b1, 1u8) ^ (
        term(a2, b2, 1u8) ^ (term(a3, b3, 1u8) ^ (term(a4, b4, 1u8) ^ (term(a5, b5, 1u8) ^ (term(
            a6,
            b6,
            1u8,
        ) ^ (term(a7, b7, 1u8) ^ 0u8))))))),
{
}

// ---------------------------------------------------------------------------
// Field laws
// ---------------------------------------------------------------------------

/// Multiplication is commutative: `a * b == b * a`.
pub proof fn lemma_mul_commutative(a: u8, b: u8)
    ensures
        gf_mul(a, b) == gf_mul(b, a),
{
    bv_comm(
        a,
        xtime(a),
        xtime(xtime(a)),
        xtime(xtime(xtime(a))),
        xtime(xtime(xtime(xtime(a)))),
        xtime(xtime(xtime(xtime(xtime(a))))),
        xtime(xtime(xtime(xtime(xtime(xtime(a)))))),
        xtime(xtime(xtime(xtime(xtime(xtime(xtime(a))))))),
        b,
        xtime(b),
        xtime(xtime(b)),
        xtime(xtime(xtime(b))),
        xtime(xtime(xtime(xtime(b)))),
        xtime(xtime(xtime(xtime(xtime(b))))),
        xtime(xtime(xtime(xtime(xtime(xtime(b)))))),
        xtime(xtime(xtime(xtime(xtime(xtime(xtime(b))))))),
    );
}

/// Multiplication distributes over addition: `a * (b + c) == a * b + a * c`.
pub proof fn lemma_mul_distributive(a: u8, b: u8, c: u8)
    ensures
        gf_mul(a, b ^ c) == gf_mul(a, b) ^ gf_mul(a, c),
        gf_mul(b ^ c, a) == gf_mul(b, a) ^ gf_mul(c, a),
{
    let a1 = xtime(a);
    let a2 = xtime(a1);
    let a3 = xtime(a2);
    let a4 = xtime(a3);
    let a5 = xtime(a4);
    let a6 = xtime(a5);
    let a7 = xtime(a6);
    bv_distrib(a, a1, a2, a3, a4, a5, a6, a7, b, c);
    lemma_mul_commutative(a, b ^ c);
    lemma_mul_commutative(a, b);
    lemma_mul_commutative(a, c);
}

/// Zero annihilates and one is the multiplicative identity.
pub proof fn lemma_mul_identities(a: u8)
    ensures
        gf_mul(a, 0u8) == 0u8,
        gf_mul(0u8, a) == 0u8,
        gf_mul(a, 1u8) == a,
        gf_mul(1u8, a) == a,
        gf_mul(a, 3u8) == a ^ xtime(a),
{
    let a1 = xtime(a);
    let a2 = xtime(a1);
    let a3 = xtime(a2);
    let a4 = xtime(a3);
    let a5 = xtime(a4);
    let a6 = xtime(a5);
    let a7 = xtime(a6);
    bv_small_factors(a, a1, a2, a3, a4, a5, a6, a7);
    lemma_mul_commutative(a, 0u8);
    lemma_mul_commutative(a, 1u8);
}

/// Multiplying the second factor by `x` multiplies the product by `x`.
pub proof fn lemma_mul_xtime(a: u8, b: u8)
    ensures
        gf_mul(a, xtime(b)) == xtime(gf_mul(a, b)),
{
    let a1 = xtime(a);
    let a2 = xtime(a1);
    let a3 = xtime(a2);
    let a4 = xtime(a3);
    let a5 = xtime(a4);
    let a6 = xtime(a5);
    let a7 = xtime(a6);
    bv_shift(a, a1, a2, a3, a4, a5, a6, a7, b, gf_mul(a, b), xtime(b));
}

proof fn lemma_mul_term(a: u8, y: u8, c: u8, bit: u8)
    ensures
        gf_mul(a, term(y, c, bit)) == term(gf_mul(a, y), c, bit),
{
    lemma_mul_identities(a);
}

/// Multiplication is associative: `(a * b) * c == a * (b * c)`.
pub proof fn lemma_mul_associative(a: u8, b: u8, c: u8)
    ensures
        gf_mul(gf_mul(a, b), c) == gf_mul(a, gf_mul(b, c)),
{
    let b1 = xtime(b);
    let b2 = xtime(b1);
    let b3 = xtime(b2);
    let b4 = xtime(b3);
    let b5 = xtime(b4);
    let b6 = xtime(b5);
    let b7 = xtime(b6);
    let p = gf_mul(a, b);
    lemma_mul_xtime(a, b);
    lemma_mul_xtime(a, b1);
    lemma_mul_xtime(a, b2);
    lemma_mul_xtime(a, b3);
    lemma_mul_xtime(a, b4);
    lemma_mul_xtime(a, b5);
    lemma_mul_xtime(a, b6);
    let p1 = gf_mul(a, b1);
    let p2 = gf_mul(a, b2);
    let p3 = gf_mul(a, b3);
    let p4 = gf_mul(a, b4);
    let p5 = gf_mul(a, b5);
    let p6 = gf_mul(a, b6);
    let p7 = gf_mul(a, b7);
    assert(p1 == xtime(p) && p2 == xtime(p1) && p3 == xtime(p2) && p4 == xtime(p3) && p5 == xtime(
        p4,
    ) && p6 == xtime(p5) && p7 == xtime(p6));
    let t0 = term(b, c, 1u8);
    let t1 = term(b1, c, 2u8);
    let t2 = term(b2, c, 4u8);
    let t3 = term(b3, c, 8u8);
    let t4 = term(b4, c, 16u8);
    let t5 = term(b5, c, 32u8);
    let t6 = term(b6, c, 64u8);
    let t7 = term(b7, c, 128u8);
    assert(gf_mul(b, c) == t0 ^ t1 ^ t2 ^ t3 ^ t4 ^ t5 ^ t6 ^ t7);
    lemma_mul_distributive(a, t0 ^ t1 ^ t2 ^ t3 ^ t4 ^ t5 ^ t6, t7);
    lemma_mul_distributive(a, t0 ^ t1 ^ t2 ^ t3 ^ t4 ^ t5, t6);
    lemma_mul_distributive(a, t0 ^ t1 ^ t2 ^ t3 ^ t4, t5);
    lemma_mul_distributive(a, t0 ^ t1 ^ t2 ^ t3, t4);
    lemma_mul_distributive(a, t0 ^ t1 ^ t2, t3);
    lemma_mul_distributive(a, t0 ^ t1, t2);
    lemma_mul_distributive(a, t0, t1);
    lemma_mul_term(a, b, c, 1u8);
    lemma_mul_term(a, b1, c, 2u8);
    lemma_mul_term(a, b2, c, 4u8);
    lemma_mul_term(a, b3, c, 8u8);
    lemma_mul_term(a, b4, c, 16u8);
    lemma_mul_term(a, b5, c, 32u8);
    lemma_mul_term(a, b6, c, 64u8);
    lemma_mul_term(a, b7, c, 128u8);
    assert(gf_mul(p, c) == mul_terms(p, p1, p2, p3, p4, p5, p6, p7, c));
}

/// The shift-and-add evaluation of eight bits computes the product.
pub proof fn lemma_mul_acc(a: u8, b: u8)
    ensures
        gf_mul(a, b) == mul_acc(a, b, 8),
{
    reveal_with_fuel(mul_acc, 9);
    let a1 = xtime(a);
    let a2 = xtime(a1);
    let a3 = xtime(a2);
    let a4 = xtime(a3);
    let a5 = xtime(a4);
    let a6 = xtime(a5);
    let a7 = xtime(a6);
    let b1 = b >> 1u8;
    let b2 = b1 >> 1u8;
    let b3 = b2 >> 1u8;
    let b4 = b3 >> 1u8;
    let b5 = b4 >> 1u8;
    let b6 = b5 >> 1u8;
    let b7 = b6 >> 1u8;
    bv_acc_bridge(a, a1, a2, a3, a4, a5, a6, a7, b, b1, b2, b3, b4, b5, b6, b7);
}

/// One step of the shift-and-add evaluation.
pub proof fn lemma_mul_acc_step(a: u8, b: u8, n: nat)
    requires
        n > 0,
    ensures
        mul_acc(a, b, n) == term(a, b, 1u8) ^ mul_acc(xtime(a), b >> 1u8, (n - 1) as nat),
{
}

/// Powers add: `x^(m+n) == x^m * x^n`.
pub proof fn lemma_pow_add(x: u8, m: nat, n: nat)
    ensures
        gf_pow(x, m + n) == gf_mul(gf_pow(x, m), gf_pow(x, n)),
    decreases n,
{
    if n == 0 {
        lemma_mul_identities(gf_pow(x, m));
    } else {
        lemma_pow_add(x, m, (n - 1) as nat);
        assert(gf_pow(x, m + n) == gf_mul(gf_pow(x, (m + n - 1) as nat), x));
        assert((m + n - 1) as nat == m + (n - 1) as nat);
        lemma_mul_associative(gf_pow(x, m), gf_pow(x, (n - 1) as nat), x);
    }
}

/// Powers multiply: `(x^m)^n == x^(m*n)`.
pub proof fn lemma_pow_mul(x: u8, m: nat, n: nat)
    ensures
        gf_pow(gf_pow(x, m), n) == gf_pow(x, m * n),
    decreases n,
{
    if n == 0 {
        assert(m * n == 0) by (nonlinear_arith)
            requires
                n == 0,
        ;
    } else {
        lemma_pow_mul(x, m, (n - 1) as nat);
        assert(m * n == m * (n - 1) as nat + m) by (nonlinear_arith)
            requires
                n > 0,
        ;
        lemma_pow_add(x, m * (n - 1) as nat, m);
    }
}

/// Every power of one is one.
pub proof fn lemma_pow_one(n: nat)
    ensures
        gf_pow(1u8, n) == 1u8,
    decreases n,
{
    if n > 0 {
        lemma_pow_one((n - 1) as nat);
        lemma_mul_identities(1u8);
    }
}

/// A product splits along the two nibbles of the second factor:
/// `c * x == c * (x & 0x0F) + c * (x & 0xF0)`.
pub proof fn lemma_mul_nibbles(c: u8, x: u8)
    ensures
        (x & 0x0fu8) < 16,
        (x >> 4u8) < 16,
        gf_mul(c, x) == gf_mul(c, x & 0x0fu8) ^ gf_mul(c, (x >> 4u8) << 4u8),
{
    assert((x & 0x0fu8) < 16 && (x >> 4u8) < 16 && x == (x & 0x0fu8) ^ ((x >> 4u8) << 4u8))
        by (bit_vector);
    lemma_mul_distributive(c, x & 0x0fu8, (x >> 4u8) << 4u8);
}

/// The product written out as the sum of the shifted copies of `a` selected
/// by the bits of `b`.
pub proof fn lemma_mul_unfold(a: u8, b: u8)
    ensures
        gf_mul(a, b) == mul_terms(
            a,
            xtime(a),
            xtime(xtime(a)),
            xtime(xtime(xtime(a))),
            xtime(xtime(xtime(xtime(a)))),
            xtime(xtime(xtime(xtime(xtime(a))))),
            xtime(xtime(xtime(xtime(xtime(xtime(a)))))),
            xtime(xtime(xtime(xtime(xtime(xtime(xtime(a))))))),
            b,
        ),
{
}

} // verus!
