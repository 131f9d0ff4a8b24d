use rlnc_simdx::aligned::ALIGN;
use rlnc_simdx::kernel::scalar::gf_mul;
use rlnc_simdx::GfMatrix;

#[test]
fn rows_are_aligned() {
    let m = GfMatrix::zeros(8, 100);
    for r in 0..8 {
        let ptr = m.row(r).as_ptr() as usize;
        assert_eq!(ptr % ALIGN, 0, "row {r} not {ALIGN}-byte aligned");
    }
}

#[test]
fn identity_rref_unchanged() {
    let mut m = GfMatrix::identity(4);
    let rank = m.gaussian_elimination();
    assert_eq!(rank, 4);
    let expected = GfMatrix::identity(4);
    for i in 0..4 {
        assert_eq!(m.row(i), expected.row(i));
    }
}

#[test]
fn rank_of_zero_matrix() {
    let mut m = GfMatrix::zeros(3, 3);
    let rank = m.gaussian_elimination();
    assert_eq!(rank, 0);
}

#[test]
fn rank_2x2_invertible() {
    let mut m = GfMatrix::zeros(2, 2);
    m.row_mut(0)[0] = 1;
    m.row_mut(0)[1] = 2;
    m.row_mut(1)[0] = 3;
    m.row_mut(1)[1] = 4;
    let rank = m.gaussian_elimination();
    assert_eq!(rank, 2);
    assert_eq!(m.row(0)[0], 1);
    assert_eq!(m.row(0)[1], 0);
    assert_eq!(m.row(1)[0], 0);
    assert_eq!(m.row(1)[1], 1);
}

#[test]
fn axpy_row_operation() {
    let mut m = GfMatrix::zeros(2, 4);
    // row0 = [1, 0, 0, 0], row1 = [0, 1, 0, 0]
    m.row_mut(0)[0] = 1;
    m.row_mut(1)[1] = 1;
    m.row_axpy(1, 0x03, 0);
    assert_eq!(m.row(1)[0], gf_mul(0x03, 1));
    assert_eq!(m.row(1)[1], 1);
    assert_eq!(m.row(1)[2], 0);
    assert_eq!(m.row(1)[3], 0);
}

#[test]
fn row_scale_matches_kernel() {
    let mut m = GfMatrix::zeros(1, 8);
    for i in 0..8 {
        m.row_mut(0)[i] = (i as u8).wrapping_add(1);
    }
    let before = m.row(0).to_vec();
    m.row_scale(0, 0x53);
    let mut expected = before.clone();
    rlnc_simdx::kernel::scale_inplace(0x53, &mut expected);
    assert_eq!(m.row(0), expected.as_slice());
}

#[test]
fn stride_is_padded_to_alignment() {
    assert_eq!(GfMatrix::padded_stride(0), 0);
    assert_eq!(GfMatrix::padded_stride(1), 64);
    assert_eq!(GfMatrix::padded_stride(64), 64);
    assert_eq!(GfMatrix::padded_stride(100), 128);
    let m = GfMatrix::zeros(3, 100);
    // `rows()` reports the data columns and `cols()` the data rows.
    assert_eq!((m.rows(), m.cols(), m.stride()), (100, 3, 128));
}

#[test]
fn swap_rows_and_full_rank_check() {
    let mut m = GfMatrix::zeros(3, 2);
    m.row_mut(0)[0] = 7;
    m.row_mut(2)[1] = 9;
    assert!(!m.is_full_rank());
    m.swap_rows(1, 2);
    assert_eq!(m.row(1), &[0, 9]);
    assert_eq!(m.row(2), &[0, 0]);
    m.swap_rows(0, 0);
    assert_eq!(m.row(0), &[7, 0]);
    m.row_mut(2)[0] = 1;
    assert!(m.is_full_rank());
}

#[test]
fn rank_of_dependent_rows() {
    // Row 2 = row 0 + 2 * row 1, so the rank is two.
    let mut m = GfMatrix::zeros(3, 3);
    m.row_mut(0).copy_from_slice(&[1, 2, 3]);
    m.row_mut(1).copy_from_slice(&[0, 1, 4]);
    let r2: Vec<u8> = (0..3).map(|j| [1u8, 2, 3][j] ^ gf_mul(2, [0u8, 1, 4][j])).collect();
    m.row_mut(2).copy_from_slice(&r2);
    assert_eq!(m.gaussian_elimination(), 2);
    assert_eq!(m.row(0)[0], 1);
    assert_eq!(m.row(0)[1], 0);
    assert_eq!(m.row(1)[0], 0);
    assert_eq!(m.row(1)[1], 1);
    assert_eq!(m.row(2), &[0, 0, 0]);
}

#[test]
fn zero_width_rows_are_empty_everywhere() {
    let mut m = GfMatrix::zeros(3, 0);
    assert!(m.row(1).is_empty());
    assert!(m.row(10).is_empty());
    assert!(m.row_mut(10).is_empty());
    m.row_scale(10, 7);
    m.row_axpy(10, 3, 20);
    m.swap_rows(10, 20);
    assert_eq!(m.stride(), 0);
    assert!(m.row(2).is_empty());
}

#[test]
fn swapping_a_row_with_itself_does_nothing() {
    let mut m = GfMatrix::zeros(2, 3);
    m.row_mut(0).copy_from_slice(&[1, 2, 3]);
    m.swap_rows(0, 0);
    m.swap_rows(9, 9);
    assert_eq!(m.row(0), &[1, 2, 3]);
    assert_eq!(m.row(1), &[0, 0, 0]);
}
