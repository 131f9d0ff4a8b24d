use rlnc_simdx::aligned::ALIGN;
use rlnc_simdx::encoder::{CodedPacket, Encoder, SimpleRng};
use rlnc_simdx::error::RlncError;
use rlnc_simdx::Decoder;

fn make_source(k: usize, n: usize) -> Vec<Vec<u8>> {
    (0..k)
        .map(|i| (0..n).map(|j| (i * 7 + j * 3) as u8).collect())
        .collect()
}

#[test]
fn decoder_encode_decode_round_trip() {
    let k = 4usize;
    let n = 64usize;
    let source = make_source(k, n);
    let refs: Vec<&[u8]> = source.iter().map(Vec::as_slice).collect();

    let enc = Encoder::new(k, n).unwrap();
    let mut dec = Decoder::new(k, n).unwrap();
    let mut rng = SimpleRng::new(0xDEAD_BEEF);

    let mut innovative = 0;
    for _ in 0..k + 2 {
        let pkt = enc.encode_random(&refs, &mut rng).unwrap();
        if dec.receive(pkt).unwrap() {
            innovative += 1;
        }
    }
    assert_eq!(innovative, k);
    assert!(dec.is_complete());

    let decoded = dec.decode().unwrap().unwrap();
    assert_eq!(decoded.len(), k);
    for i in 0..k {
        assert_eq!(decoded[i], source[i], "symbol {i} mismatch");
    }
}

#[test]
fn decoder_systematic_decode() {
    let k = 3usize;
    let n = 32usize;
    let source = make_source(k, n);
    let refs: Vec<&[u8]> = source.iter().map(Vec::as_slice).collect();

    let enc = Encoder::new(k, n).unwrap();
    let mut dec = Decoder::new(k, n).unwrap();
    for i in 0..k {
        let pkt = enc.encode_systematic(&refs, i).unwrap();
        assert!(dec.receive(pkt).unwrap());
    }
    assert!(dec.is_complete());
    let decoded = dec.decode().unwrap().unwrap();
    for i in 0..k {
        assert_eq!(decoded[i], source[i]);
    }
}

#[test]
fn decoder_redundant_packet_ignored() {
    let k = 2usize;
    let n = 8usize;
    let source = make_source(k, n);
    let refs: Vec<&[u8]> = source.iter().map(Vec::as_slice).collect();

    let enc = Encoder::new(k, n).unwrap();
    let mut dec = Decoder::new(k, n).unwrap();
    let pkt0 = enc.encode_systematic(&refs, 0).unwrap();
    let pkt0_dup = enc.encode_systematic(&refs, 0).unwrap();
    assert!(dec.receive(pkt0).unwrap());
    assert!(!dec.receive(pkt0_dup).unwrap());
    assert_eq!(dec.rank(), 1);
}

#[test]
fn decoder_decoder_rows_are_aligned() {
    let k = 4usize;
    let n = 128usize;
    let source = make_source(k, n);
    let refs: Vec<&[u8]> = source.iter().map(Vec::as_slice).collect();
    let encoder = Encoder::new(k, n).unwrap();
    let mut dec = Decoder::new(k, n).unwrap();
    assert!(dec
        .receive(encoder.encode_systematic(&refs, 0).unwrap())
        .unwrap());
    for (i, row) in dec.coefficient_rows().iter().enumerate() {
        assert_eq!(
            row.as_slice().as_ptr() as usize % ALIGN,
            0,
            "decoder coefficient row {i} not {ALIGN}-byte aligned"
        );
    }
    for (i, row) in dec.payload_rows().iter().enumerate() {
        assert_eq!(
            row.as_slice().as_ptr() as usize % ALIGN,
            0,
            "decoder payload row {i} not {ALIGN}-byte aligned"
        );
    }
}

#[test]
fn redundant_packet_does_not_add_storage() {
    let k = 2usize;
    let n = 16usize;
    let source = make_source(k, n);
    let refs: Vec<&[u8]> = source.iter().map(Vec::as_slice).collect();
    let enc = Encoder::new(k, n).unwrap();
    let mut dec = Decoder::new(k, n).unwrap();
    let p = enc.encode_systematic(&refs, 0).unwrap();
    assert!(dec.receive(p).unwrap());
    let rows_before = dec.payload_rows().len();
    let p2 = enc.encode_systematic(&refs, 0).unwrap();
    assert!(!dec.receive(p2).unwrap());
    assert_eq!(dec.payload_rows().len(), rows_before);
}

#[test]
fn decoder_new_rejects_zero_params() {
    assert!(Decoder::new(0, 8).is_err());
    assert!(Decoder::new(4, 0).is_err());
}

#[test]
fn decoder_receive_rejects_packet_size_mismatch() {
    let mut dec = Decoder::new(2, 4).unwrap();
    let bad = CodedPacket::from_slices(&[1], &[1, 2, 3, 4]); // wrong coeff len
    let err = dec.receive(bad).unwrap_err();
    match err {
        RlncError::PacketSizeMismatch {
            expected_coeffs: 2,
            got_coeffs: 1,
            expected_payload: 4,
            got_payload: 4,
        } => {}
        other => panic!("unexpected {other:?}"),
    }
}

#[test]
fn decoder_decode_none_when_incomplete() {
    let k = 3usize;
    let n = 8usize;
    let source = make_source(k, n);
    let refs: Vec<&[u8]> = source.iter().map(Vec::as_slice).collect();
    let enc = Encoder::new(k, n).unwrap();
    let mut dec = Decoder::new(k, n).unwrap();
    // Only one systematic packet
    let pkt = enc.encode_systematic(&refs, 0).unwrap();
    assert!(dec.receive(pkt).unwrap());
    assert!(!dec.is_complete());
    assert_eq!(dec.rank(), 1);
    let out = dec.decode().unwrap();
    assert!(out.is_none(), "decode must be None before full rank");
}

#[test]
fn decoder_receive_after_complete_returns_false() {
    let k = 2usize;
    let n = 8usize;
    let source = make_source(k, n);
    let refs: Vec<&[u8]> = source.iter().map(Vec::as_slice).collect();
    let enc = Encoder::new(k, n).unwrap();
    let mut dec = Decoder::new(k, n).unwrap();
    for i in 0..k {
        assert!(dec
            .receive(enc.encode_systematic(&refs, i).unwrap())
            .unwrap());
    }
    assert!(dec.is_complete());
    let extra = enc.encode_systematic(&refs, 0).unwrap();
    assert!(!dec.receive(extra).unwrap());
}

#[test]
fn decode_twice_returns_same_symbols() {
    let k = 3usize;
    let n = 16usize;
    let source = make_source(k, n);
    let refs: Vec<&[u8]> = source.iter().map(Vec::as_slice).collect();
    let enc = Encoder::new(k, n).unwrap();
    let mut dec = Decoder::new(k, n).unwrap();
    let mut rng = SimpleRng::new(7);
    while !dec.is_complete() {
        let _ = dec.receive(enc.encode_random(&refs, &mut rng).unwrap()).unwrap();
    }
    let first = dec.decode().unwrap().unwrap();
    let second = dec.decode().unwrap().unwrap();
    assert_eq!(first, source);
    assert_eq!(second, source);
}

#[test]
fn dependent_combination_is_not_innovative() {
    // The sum of two received packets carries nothing new.
    let mut dec = Decoder::new(3, 2).unwrap();
    assert!(dec.receive(CodedPacket::from_slices(&[1, 2, 0], &[5, 6])).unwrap());
    assert!(dec.receive(CodedPacket::from_slices(&[0, 1, 3], &[7, 8])).unwrap());
    assert!(!dec.receive(CodedPacket::from_slices(&[1, 3, 3], &[5 ^ 7, 6 ^ 8])).unwrap());
    assert_eq!(dec.rank(), 2);
    assert!(dec.receive(CodedPacket::from_slices(&[0, 0, 9], &[1, 1])).unwrap());
    assert!(dec.is_complete());
}

#[test]
fn receive_rejects_payload_size_mismatch() {
    let mut dec = Decoder::new(2, 4).unwrap();
    let bad = CodedPacket::from_slices(&[1, 0], &[1, 2, 3]);
    assert_eq!(
        dec.receive(bad).unwrap_err(),
        RlncError::PacketSizeMismatch {
            expected_coeffs: 2,
            got_coeffs: 2,
            expected_payload: 4,
            got_payload: 3,
        }
    );
    assert_eq!(dec.rank(), 0);
}

#[test]
fn pivot_rows_are_kept_in_column_order() {
    let mut dec = Decoder::new(3, 1).unwrap();
    assert!(dec.receive(CodedPacket::from_slices(&[0, 0, 2], &[6])).unwrap());
    assert!(dec.receive(CodedPacket::from_slices(&[0, 1, 1], &[5])).unwrap());
    assert!(dec.receive(CodedPacket::from_slices(&[1, 0, 0], &[7])).unwrap());
    let rows: Vec<Vec<u8>> = dec.coefficient_rows().iter().map(|r| r.to_vec()).collect();
    // Each row is normalised to a leading one and rows follow their pivots.
    assert_eq!(rows[0][0], 1);
    assert_eq!(rows[1][..2], [0, 1]);
    assert_eq!(rows[2][..2], [0, 0]);
    assert_eq!(rows[2][2], 1);
    // Source: x2 = 6 / 2 = 3, x1 = 5 ^ x2 = 6, x0 = 7.
    let decoded = dec.decode().unwrap().unwrap();
    assert_eq!(decoded, vec![vec![7], vec![6], vec![3]]);
}

#[test]
fn extra_packets_after_completion_do_not_change_the_result() {
    let mut dec = Decoder::new(2, 2).unwrap();
    assert!(dec.receive(CodedPacket::from_slices(&[1, 0], &[4, 5])).unwrap());
    assert!(dec.receive(CodedPacket::from_slices(&[0, 1], &[6, 7])).unwrap());
    let first = dec.decode().unwrap().unwrap();
    // A packet whose payload disagrees with the source is still ignored.
    assert!(!dec.receive(CodedPacket::from_slices(&[1, 1], &[0, 0])).unwrap());
    assert_eq!(dec.rank(), 2);
    assert_eq!(dec.decode().unwrap().unwrap(), first);
    assert_eq!(first, vec![vec![4, 5], vec![6, 7]]);
}
