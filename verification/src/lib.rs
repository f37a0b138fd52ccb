//! Shamir's secret sharing over GF(2^8): a byte string is split into shares
//! of which any `threshold` recover it, byte by byte, through polynomial
//! interpolation.

pub mod entropy;
pub mod error;
pub mod field;
pub mod field_laws;
pub mod interpolation;
pub mod laws;
pub mod poly;
pub mod poly_laws;
pub mod secret;
pub mod tables;

pub use error::ShamirError;
pub use secret::SecretData;
