use rlnc_simdx::aligned::ALIGN;
use rlnc_simdx::encoder::{CodedPacket, Encoder, SimpleRng};
use rlnc_simdx::error::RlncError;
use rlnc_simdx::kernel::scalar::gf_mul;

#[test]
fn systematic_packet_is_copy() {
    let k = 4usize;
    let n = 8usize;
    let symbols: Vec<Vec<u8>> = (0..k as u8).map(|i| vec![i * 10; n]).collect();
    let refs: Vec<&[u8]> = symbols.iter().map(Vec::as_slice).collect();

    let enc = Encoder::new(k, n).unwrap();
    for (i, symbol) in symbols.iter().enumerate() {
        let pkt = enc.encode_systematic(&refs, i).unwrap();
        assert_eq!(pkt.payload.as_slice(), symbol.as_slice());
        assert_eq!(pkt.coefficients.as_slice()[i], 1);
        assert!(pkt
            .coefficients
            .as_slice()
            .iter()
            .enumerate()
            .all(|(j, &c)| if j == i { c == 1 } else { c == 0 }));
    }
}

#[test]
fn random_encode_non_zero_payload() {
    let k = 4usize;
    let n = 16usize;
    let symbols: Vec<Vec<u8>> = (1u8..=k as u8).map(|i| vec![i; n]).collect();
    let refs: Vec<&[u8]> = symbols.iter().map(Vec::as_slice).collect();

    let enc = Encoder::new(k, n).unwrap();
    let mut rng = SimpleRng::new(42);
    let pkt = enc.encode_random(&refs, &mut rng).unwrap();
    assert_eq!(pkt.payload.len(), n);
    assert_eq!(pkt.coefficients.len(), k);
}

#[test]
fn coded_packet_payload_is_aligned() {
    let k = 4usize;
    let n = 128usize;
    let symbols: Vec<Vec<u8>> = (0..k as u8).map(|i| vec![i; n]).collect();
    let refs: Vec<&[u8]> = symbols.iter().map(Vec::as_slice).collect();

    let enc = Encoder::new(k, n).unwrap();
    let mut rng = SimpleRng::new(0xBEEF);
    let pkt = enc.encode_random(&refs, &mut rng).unwrap();
    assert_eq!(
        pkt.payload.as_slice().as_ptr() as usize % ALIGN,
        0,
        "CodedPacket.payload must be {ALIGN}-byte aligned"
    );
    assert_eq!(
        pkt.coefficients.as_slice().as_ptr() as usize % ALIGN,
        0,
        "CodedPacket.coefficients must be {ALIGN}-byte aligned"
    );
}

#[test]
fn coded_packet_into_from_vecs_roundtrip() {
    let pkt = CodedPacket::from_slices(&[1, 2, 3, 4], &[9, 8, 7, 6]);
    let (c, p) = pkt.into_vecs();
    assert_eq!(c, vec![1, 2, 3, 4]);
    assert_eq!(p, vec![9, 8, 7, 6]);
    let pkt2 = CodedPacket::from_vecs(c, p);
    assert_eq!(pkt2.coefficients_slice(), &[1, 2, 3, 4]);
    assert_eq!(pkt2.payload_slice(), &[9, 8, 7, 6]);
}

#[test]
fn encoder_new_rejects_zero_params() {
    assert!(Encoder::new(0, 16).is_err());
    assert!(Encoder::new(4, 0).is_err());
    assert!(matches!(Encoder::new(0, 0), Err(RlncError::InvalidParameters)));
}

#[test]
fn encode_rejects_source_count_mismatch() {
    let enc = Encoder::new(2, 4).unwrap();
    let s0 = [1u8; 4];
    let mut rng = SimpleRng::new(1);
    let err = enc.encode_random(&[&s0], &mut rng).unwrap_err();
    match err {
        RlncError::SourceCountMismatch { expected: 2, got: 1 } => {}
        other => panic!("unexpected {other:?}"),
    }
}

#[test]
fn encode_rejects_source_size_mismatch() {
    let enc = Encoder::new(2, 4).unwrap();
    let s0 = [1u8; 4];
    let s1 = [2u8; 3];
    let mut rng = SimpleRng::new(1);
    let err = enc.encode_random(&[&s0, &s1], &mut rng).unwrap_err();
    match err {
        RlncError::SourceSizeMismatch { expected: 4, got: 3 } => {}
        other => panic!("unexpected {other:?}"),
    }
}

#[test]
fn systematic_index_out_of_range() {
    let enc = Encoder::new(2, 4).unwrap();
    let s0 = [1u8; 4];
    let s1 = [2u8; 4];
    let err = enc.encode_systematic(&[&s0, &s1], 2).unwrap_err();
    match err {
        RlncError::IndexOutOfRange { index: 2, max: 2 } => {}
        other => panic!("unexpected {other:?}"),
    }
}

#[test]
fn simple_rng_is_xorshift_of_seed_plus_one() {
    let mut rng = SimpleRng::new(0);
    // state 1: 1 ^ (1 << 13) = 0x2001; ^ (>> 7) = 0x2041; ^ (<< 17) = 0x4082_2041.
    assert_eq!(rng.next_u8(), 0x41);
    let mut a = SimpleRng::new(77);
    let mut b = SimpleRng::new(77);
    let mut buf = [0u8; 5];
    a.fill(&mut buf);
    let bytes: Vec<u8> = (0..5).map(|_| b.next_u8()).collect();
    assert_eq!(buf.to_vec(), bytes);
}

#[test]
fn random_packet_payload_is_the_combination() {
    let s0 = [1u8, 2, 3];
    let s1 = [4u8, 5, 6];
    let enc = Encoder::new(2, 3).unwrap();
    let mut rng = SimpleRng::new(5);
    let pkt = enc.encode_random(&[&s0, &s1], &mut rng).unwrap();
    let c = pkt.coefficients_slice().to_vec();
    assert!(c.iter().any(|&x| x != 0));
    let expected: Vec<u8> = (0..3).map(|j| gf_mul(c[0], s0[j]) ^ gf_mul(c[1], s1[j])).collect();
    assert_eq!(pkt.payload_slice(), expected.as_slice());
}

#[test]
fn max_seed_does_not_enter_the_zero_state() {
    let mut rng = SimpleRng::new(u64::MAX);
    let bytes: Vec<u8> = (0..64).map(|_| rng.next_u8()).collect();
    assert!(bytes.iter().any(|&b| b != 0));
    let mut same = SimpleRng::new(u64::MAX);
    assert_eq!(same.next_u8(), bytes[0]);
}
