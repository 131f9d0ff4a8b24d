use rlnc_simdx::decoder::Decoder;
use rlnc_simdx::encoder::{CodedPacket, Encoder, SimpleRng};
use rlnc_simdx::error::RlncError;
use rlnc_simdx::kernel::scalar::gf_mul;
use rlnc_simdx::recoder::Recoder;

#[test]
fn recode_then_decode() {
    let k = 4usize;
    let n = 32usize;
    let source: Vec<Vec<u8>> = (0..k).map(|i| vec![(i as u8).wrapping_mul(17); n]).collect();
    let refs: Vec<&[u8]> = source.iter().map(Vec::as_slice).collect();

    let enc = Encoder::new(k, n).unwrap();
    let mut rng = SimpleRng::new(0x1234_5678);

    // Full-rank source set: mix systematic + random for reliable span
    let mut coded: Vec<CodedPacket> = (0..k)
        .map(|i| enc.encode_systematic(&refs, i).unwrap())
        .collect();
    for _ in 0..k {
        coded.push(enc.encode_random(&refs, &mut rng).unwrap());
    }

    let mut dec = Decoder::new(k, n).unwrap();
    let mut recode_rng = SimpleRng::new(0xABCD_EF01);
    // Enough recodes to finish with high probability; fail hard if not
    for _ in 0..k * 4 {
        let recoded = Recoder::recode(&coded, &mut recode_rng).unwrap();
        let _ = dec.receive(recoded);
        if dec.is_complete() {
            break;
        }
    }

    assert!(
        dec.is_complete(),
        "recode stream never reached full rank (rank={})",
        dec.rank()
    );
    let decoded = dec.decode().unwrap().expect("decode after complete");
    assert_eq!(decoded.len(), k);
    for i in 0..k {
        assert_eq!(decoded[i], source[i], "symbol {i} mismatch after recode");
    }
}

#[test]
fn recode_empty_is_invalid() {
    let mut rng = SimpleRng::new(1);
    let err = Recoder::recode(&[], &mut rng).unwrap_err();
    assert_eq!(err, RlncError::InvalidParameters);
}

#[test]
fn recode_size_mismatch() {
    let mut rng = SimpleRng::new(2);
    let a = CodedPacket::from_slices(&[1, 0], &[9, 9]);
    let b = CodedPacket::from_slices(&[0, 1, 0], &[8, 8]); // wrong coeff len
    let err = Recoder::recode(&[a, b], &mut rng).unwrap_err();
    match err {
        RlncError::PacketSizeMismatch { .. } => {}
        other => panic!("expected PacketSizeMismatch, got {other:?}"),
    }
}

#[test]
fn recode_reports_the_first_mismatching_packet() {
    let mut rng = SimpleRng::new(2);
    let a = CodedPacket::from_slices(&[1, 0], &[9, 9]);
    let b = CodedPacket::from_slices(&[0, 1], &[8]);
    let err = Recoder::recode(&[a, b], &mut rng).unwrap_err();
    assert_eq!(
        err,
        RlncError::PacketSizeMismatch {
            expected_coeffs: 2,
            got_coeffs: 2,
            expected_payload: 2,
            got_payload: 1,
        }
    );
}

#[test]
fn recoded_packet_is_the_weighted_sum() {
    // A single input packet: the output is that packet times the one
    // drawn weight, which is the first byte the generator yields.
    let a = CodedPacket::from_slices(&[1, 2, 3], &[4, 5]);
    let mut rng = SimpleRng::new(9);
    let mut probe = SimpleRng::new(9);
    let w = probe.next_u8();
    assert_ne!(w, 0);
    let out = Recoder::recode(&[a], &mut rng).unwrap();
    assert_eq!(
        out.coefficients_slice(),
        &[gf_mul(w, 1), gf_mul(w, 2), gf_mul(w, 3)]
    );
    assert_eq!(out.payload_slice(), &[gf_mul(w, 4), gf_mul(w, 5)]);
}
