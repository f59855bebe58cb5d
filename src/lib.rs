//! Zero-knowledge building blocks: a Groth16 verifier over BN254 and a
//! Merkle-membership circuit over the Pallas base field, with their
//! field, curve and constraint-system layers.

pub mod decimal;
pub mod bn254;
pub mod groth16;
pub mod pallas;
pub mod constraint;
pub mod merkle;
