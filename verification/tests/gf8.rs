use rlnc_simdx::field::Gf8;

#[test]
fn add_is_xor() {
    assert_eq!((Gf8(0x53) + Gf8(0xca)).0, 0x53 ^ 0xca);
}

#[test]
fn sub_equals_add() {
    let a = Gf8(0xAB);
    let b = Gf8(0xCD);
    assert_eq!(a - b, a + b);
}

#[test]
fn mul_by_zero() {
    for x in 0u8..=255 {
        assert_eq!(Gf8(x) * Gf8::zero(), Gf8::zero());
    }
}

#[test]
fn mul_by_one() {
    for x in 0u8..=255 {
        assert_eq!(Gf8(x) * Gf8::one(), Gf8(x));
    }
}

#[test]
fn gf8_mul_commutativity() {
    for a in 0u8..=15 {
        for b in 0u8..=15 {
            assert_eq!(Gf8(a) * Gf8(b), Gf8(b) * Gf8(a));
        }
    }
}

#[test]
fn mul_associativity() {
    let a = Gf8(0x53);
    let b = Gf8(0x7e);
    let c = Gf8(0x2d);
    assert_eq!((a * b) * c, a * (b * c));
}

#[test]
fn distributivity() {
    let a = Gf8(0x53);
    let b = Gf8(0x7e);
    let c = Gf8(0x2d);
    assert_eq!(a * (b + c), (a * b) + (a * c));
}

#[test]
fn inv_roundtrip() {
    for x in 1u8..=255 {
        assert_eq!(Gf8(x) * Gf8(x).inv(), Gf8::one(), "failed at x=0x{x:02x}");
    }
}

#[test]
fn div_roundtrip() {
    let a = Gf8(0xAB);
    let b = Gf8(0xCD);
    assert_eq!((a / b) * b, a);
}

#[test]
fn pow_known_values() {
    // g^1 = 0x03 (generator)
    assert_eq!(Gf8(0x03).pow(1), Gf8(0x03));
    // Any non-zero element raised to 255 == 1
    for x in 1u8..=255 {
        assert_eq!(Gf8(x).pow(255), Gf8::one(), "x^255 != 1 for x=0x{x:02x}");
    }
}

#[test]
fn pow_of_zero_and_small_exponents() {
    assert_eq!(Gf8(0).pow(0), Gf8(1));
    assert_eq!(Gf8(0).pow(3), Gf8(0));
    assert_eq!(Gf8(0x02).pow(8), Gf8(0x1B));
    assert_eq!(Gf8(0x53).pow(2), Gf8(0x53) * Gf8(0x53));
}

#[test]
fn conversions_negation_and_assign_ops() {
    let mut a = Gf8::new(0x57);
    assert_eq!(a.value(), 0x57);
    assert_eq!(u8::from(a), 0x57);
    assert_eq!(Gf8::from(0x57u8), a);
    assert_eq!(-a, a);
    assert!(Gf8::default().is_zero());
    assert!(!a.is_zero());
    a *= Gf8(0x83);
    assert_eq!(a, Gf8(0xC1));
    a += Gf8(0xC1);
    assert!(a.is_zero());
    a -= Gf8(7);
    assert_eq!(a, Gf8(7));
    assert_eq!(Gf8(0).inv(), Gf8(0));
}

#[test]
fn hex_text_of_elements() {
    assert_eq!(Gf8(0x53).to_hex(), "0x53");
    assert_eq!(Gf8(0).to_hex(), "0x00");
    assert_eq!(Gf8(0xAF).to_hex(), "0xaf");
}
