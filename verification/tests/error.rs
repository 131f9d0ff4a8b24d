use rlnc_simdx::error::RlncError;

#[test]
fn display_variants_non_empty() {
    let samples = [
        RlncError::InvalidParameters,
        RlncError::PacketSizeMismatch {
            expected_coeffs: 4,
            got_coeffs: 2,
            expected_payload: 8,
            got_payload: 1,
        },
        RlncError::SourceCountMismatch { expected: 4, got: 3 },
        RlncError::SourceSizeMismatch { expected: 16, got: 8 },
        RlncError::IndexOutOfRange { index: 5, max: 4 },
    ];
    for e in samples {
        let s = e.message();
        assert!(!s.is_empty(), "empty message for {e:?}");
    }
}

#[test]
fn messages_match_their_display_text() {
    assert_eq!(
        RlncError::InvalidParameters.message(),
        "generation_size and symbol_size must both be > 0"
    );
    assert_eq!(
        RlncError::PacketSizeMismatch {
            expected_coeffs: 4,
            got_coeffs: 2,
            expected_payload: 8,
            got_payload: 10,
        }
        .message(),
        "packet size mismatch: expected (4 coeffs, 8 payload), got (2, 10)"
    );
    assert_eq!(
        RlncError::SourceCountMismatch { expected: 4, got: 3 }.message(),
        "expected 4 source symbols, got 3"
    );
    assert_eq!(
        RlncError::SourceSizeMismatch { expected: 16, got: 0 }.message(),
        "source symbol size mismatch: expected 16 bytes, got 0"
    );
    assert_eq!(
        RlncError::IndexOutOfRange { index: 5, max: 4 }.message(),
        "systematic index 5 out of range [0, 4)"
    );
}
