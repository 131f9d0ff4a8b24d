//! GF(2^8) element newtype and arithmetic operations.
//!
//! Addition and subtraction are both XOR (characteristic two); multiplication
//! uses the logarithm/exponent tables, and every operation is proved equal to
//! the field arithmetic of [`crate::field::algebra`].

use crate::field::algebra::{gf_mul, gf_pow, lemma_mul_identities};
use crate::field::tables::{
    exp_lookup, inv_lookup, inv_value, lemma_inverse, lemma_pow_by_log, lemma_table_product, log_lookup,
};
use crate::text::{hex_byte, push_hex_byte};
use vstd::prelude::*;
use vstd::std_specs::ops::{AddSpec, SubSpec};

verus! {

/// An element of GF(2^8).
///
/// Addition and subtraction are both XOR (characteristic-2 field).
/// Multiplication uses log/exp table lookup.
#[derive(Clone, Copy, PartialEq, Eq, Structural, Hash, Debug)]
pub struct Gf8(pub u8);

/// Product of two bytes read off the logarithm/exponent tables.
pub(crate) fn table_mul(a: u8, b: u8) -> (r: u8)
    ensures
        r == gf_mul(a, b),
{
    if a == 0 || b == 0 {
        proof {
            lemma_mul_identities(a);
            lemma_mul_identities(b);
        }
        return 0;
    }
    proof {
        lemma_table_product(a, b);
    }
    exp_lookup(log_lookup(a) as usize + log_lookup(b) as usize)
}

impl Gf8 {
    /// The additive identity, zero.
    pub fn zero() -> (r: Self)
        ensures
            r.0 == 0,
    {
        Gf8(0)
    }

    /// The multiplicative identity, one.
    pub fn one() -> (r: Self)
        ensures
            r.0 == 1,
    {
        Gf8(1)
    }

    /// Construct from a raw byte.
    pub fn new(v: u8) -> (r: Self)
        ensures
            r.0 == v,
    {
        Gf8(v)
    }

    /// Raw byte value.
    pub fn value(self) -> (r: u8)
        ensures
            r == self.0,
    {
        self.0
    }

    /// Multiplicative inverse.  `inv(0) = 0` by convention.
    pub fn inv(self) -> (r: Self)
        ensures
            self.0 != 0 ==> gf_mul(self.0, r.0) == 1u8,
            self.0 != 0 ==> gf_mul(r.0, self.0) == 1u8,
            self.0 == 0 ==> r.0 == 0u8,
            r.0 == inv_value(self.0),
    {
        proof {
            lemma_inverse(self.0);
        }
        Gf8(inv_lookup(self.0))
    }

    /// Raise to a power.  `pow(0, 0) = 1`.
    pub fn pow(self, exp: u32) -> (r: Self)
        ensures
            r.0 == gf_pow(self.0, exp as nat),
    {
        if self.0 == 0 {
            if exp == 0 {
                return Gf8(1);
            }
            proof {
                lemma_mul_identities(gf_pow(0u8, (exp - 1) as nat));
            }
            return Gf8(0);
        }
        let l = log_lookup(self.0) as u32;
        proof {
            lemma_pow_by_log(self.0, exp as nat);
            assert(l * (exp % 255) <= 255 * 254) by (nonlinear_arith)
                requires
                    l < 256,
                    exp % 255 < 255,
            ;
        }
        let idx = ((l * (exp % 255)) % 255) as usize;
        Gf8(exp_lookup(idx))
    }

    /// The element as `0x` and two lowercase hex digits, its `Display`
    /// text.
    pub fn to_hex(self) -> (r: String)
        ensures
            r@ == "0x"@ + hex_byte(self.0),
    {
        let mut s = String::new();
        s.append("0x");
        push_hex_byte(&mut s, self.0);
        s
    }

    /// True if this is the zero element.
    pub fn is_zero(self) -> (r: bool)
        ensures
            r == (self.0 == 0),
    {
        self.0 == 0
    }
}

impl core::default::Default for Gf8 {
    fn default() -> (r: Self)
        ensures
            r.0 == 0,
    {
        Gf8(0)
    }
}

impl core::ops::Add for Gf8 {
    type Output = Self;

    fn add(self, rhs: Self) -> (r: Self)
        ensures
            r.0 == self.0 ^ rhs.0,
    {
        Gf8(self.0 ^ rhs.0)
    }
}

impl vstd::std_specs::ops::AddSpecImpl for Gf8 {
    open spec fn obeys_add_spec() -> bool {
        true
    }

    open spec fn add_req(self, rhs: Self) -> bool {
        true
    }

    open spec fn add_spec(self, rhs: Self) -> Self {
        Gf8(self.0 ^ rhs.0)
    }
}

// In GF(2^8), subtraction == addition == XOR
impl core::ops::Sub for Gf8 {
    type Output = Self;

    fn sub(self, rhs: Self) -> (r: Self)
        ensures
            r.0 == self.0 ^ rhs.0,
    {
        Gf8(self.0 ^ rhs.0)
    }
}

impl vstd::std_specs::ops::SubSpecImpl for Gf8 {
    open spec fn obeys_sub_spec() -> bool {
        true
    }

    open spec fn sub_req(self, rhs: Self) -> bool {
        true
    }

    open spec fn sub_spec(self, rhs: Self) -> Self {
        Gf8(self.0 ^ rhs.0)
    }
}

// Negation is the identity in characteristic 2
impl core::ops::Neg for Gf8 {
    type Output = Self;

    fn neg(self) -> (r: Self) {
        self
    }
}

impl vstd::std_specs::ops::NegSpecImpl for Gf8 {
    open spec fn obeys_neg_spec() -> bool {
        true
    }

    open spec fn neg_req(self) -> bool {
        true
    }

    open spec fn neg_spec(self) -> Self {
        self
    }
}

impl core::ops::Mul for Gf8 {
    type Output = Self;

    fn mul(self, rhs: Self) -> (r: Self) {
        Gf8(table_mul(self.0, rhs.0))
    }
}

impl vstd::std_specs::ops::MulSpecImpl for Gf8 {
    open spec fn obeys_mul_spec() -> bool {
        true
    }

    open spec fn mul_req(self, rhs: Self) -> bool {
        true
    }

    open spec fn mul_spec(self, rhs: Self) -> Self {
        Gf8(gf_mul(self.0, rhs.0))
    }
}

impl core::ops::Div for Gf8 {
    type Output = Self;

    /// Division by zero is excluded: `div_req` asks for a non-zero divisor.
    fn div(self, rhs: Self) -> (r: Self) {
        let inv = rhs.inv();
        Gf8(table_mul(self.0, inv.0))
    }
}

impl vstd::std_specs::ops::DivSpecImpl for Gf8 {
    open spec fn obeys_div_spec() -> bool {
        true
    }

    open spec fn div_req(self, rhs: Self) -> bool {
        rhs.0 != 0
    }

    open spec fn div_spec(self, rhs: Self) -> Self {
        Gf8(gf_mul(self.0, inv_value(rhs.0)))
    }
}

impl core::ops::AddAssign for Gf8 {
    fn add_assign(&mut self, rhs: Self)
        ensures
            final(self).0 == old(self).0 ^ rhs.0,
    {
        self.0 = self.0 ^ rhs.0;
    }
}

impl core::ops::SubAssign for Gf8 {
    fn sub_assign(&mut self, rhs: Self)
        ensures
            final(self).0 == old(self).0 ^ rhs.0,
    {
        self.0 = self.0 ^ rhs.0;
    }
}

impl core::ops::MulAssign for Gf8 {
    fn mul_assign(&mut self, rhs: Self)
        ensures
            final(self).0 == gf_mul(old(self).0, rhs.0),
    {
        self.0 = table_mul(self.0, rhs.0);
    }
}

impl core::convert::From<u8> for Gf8 {
    fn from(v: u8) -> (r: Self) {
        Gf8(v)
    }
}

impl vstd::std_specs::convert::FromSpecImpl<u8> for Gf8 {
    open spec fn obeys_from_spec() -> bool {
        true
    }

    open spec fn from_spec(v: u8) -> Self {
        Gf8(v)
    }
}

impl core::convert::From<Gf8> for u8 {
    fn from(g: Gf8) -> (r: u8) {
        g.0
    }
}

impl vstd::std_specs::convert::FromSpecImpl<Gf8> for u8 {
    open spec fn obeys_from_spec() -> bool {
        true
    }

    open spec fn from_spec(g: Gf8) -> u8 {
        g.0
    }
}

/// Addition and subtraction are the field's XOR: `a + b` and `a - b` are
/// both the bytewise XOR, subtraction undoes addition (`(a - b) + b == a`),
/// every element is its own negative (`a + a == 0`, `a - a == 0`) and zero
/// is neutral.
pub proof fn lemma_add_sub_xor(a: u8, b: u8)
    ensures
        Gf8(a).add_spec(Gf8(b)).0 == a ^ b,
        Gf8(a).sub_spec(Gf8(b)).0 == a ^ b,
        Gf8(a).sub_spec(Gf8(b)).add_spec(Gf8(b)) == Gf8(a),
        Gf8(a).add_spec(Gf8(b)).sub_spec(Gf8(b)) == Gf8(a),
        Gf8(a).add_spec(Gf8(a)).0 == 0,
        Gf8(a).sub_spec(Gf8(a)).0 == 0,
        Gf8(a).add_spec(Gf8(0)) == Gf8(a),
        Gf8(a).add_spec(Gf8(b)) == Gf8(b).add_spec(Gf8(a)),
{
    assert((a ^ b) ^ b == a) by (bit_vector);
    assert(a ^ a == 0) by (bit_vector);
    assert(a ^ 0 == a) by (bit_vector);
    assert(a ^ b == b ^ a) by (bit_vector);
}

/// Division undoes multiplication: `(a / b) * b == a` for `b != 0`.
pub proof fn lemma_div_mul_roundtrip(a: u8, b: u8)
    requires
        b != 0,
    ensures
        gf_mul(gf_mul(a, inv_value(b)), b) == a,
{
    lemma_inverse(b);
    crate::field::algebra::lemma_mul_associative(a, inv_value(b), b);
    lemma_mul_identities(a);
}

} // verus!
