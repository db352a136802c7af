//! A STARK prover: given a witness execution trace and an algebraic
//! intermediate representation (AIR) of boundary and transition constraints,
//! it produces a succinct proof consisting of Merkle commitments,
//! out-of-domain evaluations and a FRI low-degree-test transcript.
//!
//! Finite-field arithmetic, FFTs, Merkle hashing and the Fiat-Shamir hash
//! come from the `lambdaworks` crates; everything the prover decides or
//! computes on top of them is specified and verified here.

pub mod field;
pub mod poly;
pub mod transcript;
pub mod merkle;
pub mod air;
pub mod errors;
pub mod domain;
pub mod constraints;
pub mod deep;
pub mod stark_proof;
pub mod fri;
pub mod prover;
