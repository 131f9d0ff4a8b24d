//! Error types for the `rlnc-simdx` crate.

use crate::text::{decimal, push_decimal};
use vstd::prelude::*;

verus! {

/// Errors returned by RLNC operations.
#[derive(Debug, Clone, PartialEq, Eq, Structural)]
pub enum RlncError {
    /// `generation_size` or `symbol_size` was zero.
    InvalidParameters,
    /// A coded packet had wrong coefficient or payload length.
    PacketSizeMismatch {
        /// Expected coefficient vector length (`generation_size`).
        expected_coeffs: usize,
        /// Actual coefficient vector length received.
        got_coeffs: usize,
        /// Expected payload length (`symbol_size`).
        expected_payload: usize,
        /// Actual payload length received.
        got_payload: usize,
    },
    /// The source slice count does not match `generation_size`.
    SourceCountMismatch {
        /// Expected number of source symbols.
        expected: usize,
        /// Actual number of slices provided.
        got: usize,
    },
    /// A source symbol had the wrong byte length.
    SourceSizeMismatch {
        /// Expected bytes per symbol.
        expected: usize,
        /// Actual slice length.
        got: usize,
    },
    /// Systematic index out of range.
    IndexOutOfRange {
        /// Requested systematic symbol index.
        index: usize,
        /// Exclusive upper bound (`generation_size`).
        max: usize,
    },
}

/// The human-readable message of an error.
pub open spec fn error_message(e: RlncError) -> Seq<char> {
    match e {
        RlncError::InvalidParameters => "generation_size and symbol_size must both be > 0"@,
        RlncError::PacketSizeMismatch {
            expected_coeffs,
            got_coeffs,
            expected_payload,
            got_payload,
        } => "packet size mismatch: expected ("@ + decimal(expected_coeffs as nat) + " coeffs, "@
            + decimal(expected_payload as nat) + " payload), got ("@ + decimal(got_coeffs as nat)
            + ", "@ + decimal(got_payload as nat) + ")"@,
        RlncError::SourceCountMismatch { expected, got } => "expected "@ + decimal(expected as nat)
            + " source symbols, got "@ + decimal(got as nat),
        RlncError::SourceSizeMismatch { expected, got } => "source symbol size mismatch: expected "@
            + decimal(expected as nat) + " bytes, got "@ + decimal(got as nat),
        RlncError::IndexOutOfRange { index, max } => "systematic index "@ + decimal(index as nat)
            + " out of range [0, "@ + decimal(max as nat) + ")"@,
    }
}

impl RlncError {
    /// The error's message, as its `Display` output.
    pub fn message(&self) -> (r: String)
        ensures
            r@ == error_message(*self),
    {
        let mut s = String::new();
        match self {
            RlncError::InvalidParameters => {
                s.append("generation_size and symbol_size must both be > 0");
            },
            RlncError::PacketSizeMismatch {
                expected_coeffs,
                got_coeffs,
                expected_payload,
                got_payload,
            } => {
                s.append("packet size mismatch: expected (");
                push_decimal(&mut s, *expected_coeffs);
                s.append(" coeffs, ");
                push_decimal(&mut s, *expected_payload);
                s.append(" payload), got (");
                push_decimal(&mut s, *got_coeffs);
                s.append(", ");
                push_decimal(&mut s, *got_payload);
                s.append(")");
            },
            RlncError::SourceCountMismatch { expected, got } => {
                s.append("expected ");
                push_decimal(&mut s, *expected);
                s.append(" source symbols, got ");
                push_decimal(&mut s, *got);
            },
            RlncError::SourceSizeMismatch { expected, got } => {
                s.append("source symbol size mismatch: expected ");
                push_decimal(&mut s, *expected);
                s.append(" bytes, got ");
                push_decimal(&mut s, *got);
            },
            RlncError::IndexOutOfRange { index, max } => {
                s.append("systematic index ");
                push_decimal(&mut s, *index);
                s.append(" out of range [0, ");
                push_decimal(&mut s, *max);
                s.append(")");
            },
        }
        s
    }
}

/// Every error has a non-empty message.
pub proof fn lemma_message_non_empty(e: RlncError)
    ensures
        error_message(e).len() > 0,
{
    reveal_strlit("generation_size and symbol_size must both be > 0");
    reveal_strlit("packet size mismatch: expected (");
    reveal_strlit("expected ");
    reveal_strlit("source symbol size mismatch: expected ");
    reveal_strlit("systematic index ");
}

} // verus!
