//! GF(2^8) finite field arithmetic.
//!
//! Primitive polynomial: x^8 + x^4 + x^3 + x + 1 (0x11B, the AES polynomial);
//! generator 0x03.

pub mod algebra;
pub mod tables;
pub mod gf8;

pub use gf8::Gf8;
