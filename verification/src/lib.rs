//! Verified core of a mix-network node for threshold-encrypted biometric
//! comparison.
//!
//! The node accepts two equal-length sequences of ElGamal ciphertexts over the
//! Ristretto group, remixes them (pair-preserving shuffle, intra-pair swap,
//! homomorphic rerandomisation) and takes part in an n-of-t threshold
//! decryption that ends in a Hamming-distance computation between two
//! encrypted bit vectors.
//!
//! The curve arithmetic itself is performed by an outside crate behind a small
//! set of trusted wrappers; everything that decides or transforms data is
//! verified here.

pub mod auth;
pub mod bits;
pub mod cipher;
pub mod config;
pub mod coordinator;
pub mod crypto;
pub mod elgamal;
pub mod errors;
pub mod remix;
