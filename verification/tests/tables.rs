use rlnc_simdx::field::tables::{exp_lookup, gen_exp, gen_inv, gen_log, gf_mul_slow, inv_lookup, log_lookup};

#[test]
fn generator_has_order_255() {
    // g^255 must equal 1
    assert_eq!(exp_lookup(255), 1, "g^255 should be 1");
}

#[test]
fn exp_log_round_trip() {
    for x in 1u8..=255 {
        let l = log_lookup(x) as usize;
        assert_eq!(exp_lookup(l), x, "EXP[LOG[{x}]] != {x}");
    }
}

#[test]
fn inv_correctness() {
    // x * inv(x) == 1 for all x != 0
    for x in 1u8..=255 {
        let inv_x = inv_lookup(x);
        let product = gf_mul_slow(x, inv_x);
        assert_eq!(product, 1, "x={x} * inv={inv_x} = {product}, expected 1");
    }
}

#[test]
fn inv_zero_is_zero() {
    assert_eq!(inv_lookup(0), 0);
}

#[test]
fn tables_mul_commutativity() {
    for a in 0u8..=255 {
        for b in 0u8..=7 {
            assert_eq!(gf_mul_slow(a, b), gf_mul_slow(b, a));
        }
    }
}

#[test]
fn computed_tables_match_lookups() {
    let exp = gen_exp();
    let log = gen_log();
    let inv = gen_inv();
    for i in 0..512usize {
        assert_eq!(exp[i], exp_lookup(i), "exp[{i}]");
    }
    for x in 0u8..=255 {
        assert_eq!(log[x as usize], log_lookup(x), "log[{x}]");
        assert_eq!(inv[x as usize], inv_lookup(x), "inv[{x}]");
    }
    assert_eq!(exp[1], 3);
    assert_eq!(exp[254], 0xF6);
}
