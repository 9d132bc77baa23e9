//! Zero-knowledge identity claims: a private attested value lies in a disclosed
//! range, its commitment is a member of a Merkle-committed set, and the
//! attestation carries a valid signature.
//!
//! The crate decides what the claim circuits are, as plain data that a proving
//! backend carries out step by step. Configuration builds the shape of a
//! circuit, its columns, selectors and gates, on a [`cs::ConstraintSystem`].
//! Synthesis lays a witness out on a [`layouter::Layouter`]: each gadget adds its
//! regions, cell assignments and constraints, and the relation that a proof of
//! the circuit attests is decided by [`layouter::Layouter::is_satisfied`].
//!
//! The arithmetic of the native field and of the signature curve, and the
//! Poseidon sponge, are those of the halo2 libraries.

pub mod cs;
pub mod curve;
pub mod error;
pub mod field;
pub mod gadgets;
pub mod group_access;
pub mod identity_claim;
pub mod layouter;
pub mod post_proof;
pub mod uint;
