//! SEC1 point encoding for short-Weierstrass elliptic curves.
//!
//! The crate converts curve points between their affine in-memory form and
//! the tagged SEC1 byte layout (identity, compressed, uncompressed), and
//! validates untrusted bytes on the way in: length, tag, field range,
//! curve membership and parity are all checked before a point is produced.
//! Field arithmetic itself is supplied by a curve plug-in through the
//! [`curve::Curve`] trait; this crate orchestrates it.

pub mod affine;
pub mod big_endian;
pub mod curve;
pub mod encoded;
pub mod laws;
pub mod public_key;
pub mod toy;
