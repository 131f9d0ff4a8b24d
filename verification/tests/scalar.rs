use rlnc_simdx::kernel::scalar::{axpy, dot, gf_mul, make_nibble_tables, scale, scale_inplace, xor_assign};

#[test]
fn axpy_c_zero_noop() {
    let x = [0x12u8, 0x34, 0x56];
    let mut y = [0xAAu8, 0xBB, 0xCC];
    let expected = y;
    axpy(0, &x, &mut y);
    assert_eq!(y, expected);
}

#[test]
fn scalar_axpy_c_one_is_xor() {
    let x = [0x12u8, 0x34, 0x56];
    let mut y = [0xAAu8, 0xBB, 0xCC];
    axpy(1, &x, &mut y);
    assert_eq!(y, [0xAAu8 ^ 0x12, 0xBB ^ 0x34, 0xCC ^ 0x56]);
}

#[test]
fn axpy_known_vector() {
    // Simple 4-byte test: y[i] ^= 0x03 * x[i]
    let c = 0x03u8;
    let x = [0x01u8, 0x02, 0x03, 0x04];
    let mut y = [0u8; 4];
    axpy(c, &x, &mut y);
    for i in 0..4 {
        assert_eq!(y[i], gf_mul(c, x[i]));
    }
}

#[test]
fn scale_vs_axpy() {
    let c = 0x53u8;
    let x: Vec<u8> = (1u8..=64).collect();
    let mut by_scale = vec![0u8; 64];
    let mut by_axpy = vec![0u8; 64];
    scale(c, &x, &mut by_scale);
    axpy(c, &x, &mut by_axpy);
    assert_eq!(by_scale, by_axpy);
}

#[test]
fn dot_product() {
    let a = [0x01u8, 0x02, 0x03];
    let b = [0x01u8, 0x02, 0x03];
    // dot(a,b) = a[0]*b[0] ^ a[1]*b[1] ^ a[2]*b[2]
    let expected = gf_mul(1, 1) ^ gf_mul(2, 2) ^ gf_mul(3, 3);
    assert_eq!(dot(&a, &b), expected);
}

#[test]
fn nibble_tables_correctness() {
    for c in 0u8..=255 {
        let (lo, hi) = make_nibble_tables(c);
        for x in 0u8..=255 {
            let xlo = (x & 0x0F) as usize;
            let xhi = ((x >> 4) & 0x0F) as usize;
            let result = lo[xlo] ^ hi[xhi];
            assert_eq!(result, gf_mul(c, x), "c=0x{c:02x}, x=0x{x:02x}");
        }
    }
}

#[test]
fn gf_mul_known_products() {
    // 0x53 and 0xCA are inverses in GF(2^8) with the AES polynomial 0x11B.
    assert_eq!(gf_mul(0x53, 0xCA), 0x01);
    assert_eq!(gf_mul(0x02, 0x80), 0x1B);
    assert_eq!(gf_mul(0x57, 0x83), 0xC1);
    assert_eq!(gf_mul(0, 0x99), 0);
}

#[test]
fn xor_assign_adds_bytewise() {
    let x = [0x0Fu8, 0xF0, 0x55];
    let mut y = [0xFFu8, 0xFF, 0x55];
    xor_assign(&x, &mut y);
    assert_eq!(y, [0xF0, 0x0F, 0x00]);
}

#[test]
fn scale_inplace_known_vector() {
    let mut y = [0x01u8, 0x02, 0x80];
    scale_inplace(0x02, &mut y);
    assert_eq!(y, [0x02, 0x04, 0x1B]);
}
