use rlnc_simdx::aligned::{AlignedBuffer, ALIGN};
use rlnc_simdx::kernel;

#[test]
fn alignment_guarantee() {
    for len in [1usize, 15, 16, 63, 64, 65, 1024, 65536] {
        let buf = AlignedBuffer::zeroed(len);
        assert_eq!(
            buf.as_slice().as_ptr() as usize % ALIGN,
            0,
            "len={len}: pointer not {ALIGN}-byte aligned"
        );
        assert_eq!(buf.len(), len);
    }
}

#[test]
fn zero_size() {
    let buf = AlignedBuffer::zeroed(0);
    assert!(buf.is_empty());
    assert_eq!(buf.len(), 0);
}

#[test]
fn from_slice_roundtrip() {
    let data: Vec<u8> = (0u8..128).collect();
    let buf = AlignedBuffer::from_slice(&data);
    assert_eq!(buf.as_slice().as_ptr() as usize % ALIGN, 0);
    assert_eq!(buf.as_slice(), data.as_slice());
}

#[test]
fn clone_is_independent() {
    let mut a = AlignedBuffer::from_slice(&[1u8, 2, 3, 4]);
    let b = a.clone();
    a.as_mut_slice()[0] = 0xFF;
    assert_eq!(b.as_slice()[0], 1); // clone unaffected
}

#[test]
fn deref_works_with_kernel() {
    let x = AlignedBuffer::from_slice(&[0x42u8; 64]);
    let mut y = AlignedBuffer::zeroed(64);
    kernel::axpy(0x03, &x, y.as_mut_slice());
    // Result should equal scalar reference
    let mut y_ref = vec![0u8; 64];
    kernel::scalar::axpy(0x03, &x, &mut y_ref);
    assert_eq!(y.as_slice(), y_ref.as_slice());
}

#[test]
fn fill_zero_and_copies() {
    let mut buf = AlignedBuffer::from_slice(&[9u8, 8, 7]);
    buf.fill(0xAB);
    assert_eq!(buf.to_vec(), vec![0xAB; 3]);
    buf.zero();
    assert_eq!(buf.as_slice(), &[0, 0, 0]);
    buf.as_mut_slice()[1] = 5;
    assert_eq!(buf.into_vec(), vec![0, 5, 0]);
}
