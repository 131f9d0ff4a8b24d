//! Random Linear Network Coding over GF(2^8).
//!
//! Source data is cut into generations of `k` symbols of `n` bytes.  The
//! [`Encoder`] emits coded packets (a coefficient vector and the matching
//! combination of the symbols), a [`Recoder`] mixes coded packets into new
//! ones without decoding, and the [`Decoder`] collects packets until it
//! holds `k` linearly independent ones and recovers the symbols by
//! Gaussian elimination.
//!
//! This is a network-coding library, not a cryptography library: the field
//! arithmetic is not constant-time and [`SimpleRng`] is not a CSPRNG.

pub mod aligned;
pub mod decoder;
pub mod encoder;
pub mod error;
pub mod field;
pub mod kernel;
pub mod linear;
pub mod matrix;
pub mod recoder;
pub mod report;
mod slices;
pub mod span;
mod std_ops;
pub mod text;
pub mod tuning;

pub use aligned::AlignedBuffer;
pub use decoder::Decoder;
pub use encoder::{CodedPacket, Encoder, SimpleRng};
pub use error::RlncError;
pub use field::Gf8;
pub use matrix::GfMatrix;
pub use recoder::Recoder;

use vstd::prelude::*;

verus! {

/// The name of the kernel tier that this build runs.
pub fn active_kernel() -> (r: &'static str)
    ensures
        r@ == "scalar (tier9)"@,
{
    kernel::active_kernel_name()
}

} // verus!
