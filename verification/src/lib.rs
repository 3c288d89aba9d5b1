//! Publicly verifiable secret sharing (PVSS).
//!
//! A dealer splits a secret into `n` shares so that any `t` of them
//! reconstruct it, and every step — share issuance, encryption, decryption —
//! carries a non-interactive zero-knowledge proof that anyone can check.
//!
//! The algebraic group (Ristretto) is consumed through the trusted layer in
//! [`crypto`]; all proof and protocol logic above it is verified against a
//! model of that group as the additive group of residues mod its prime order.

pub mod crypto;
pub mod types;
pub mod dleq;
pub mod pdleq;
pub mod math;
pub mod simple;
