//! The gadgets that the claim circuits are composed of.

pub mod merkle;
pub mod poseidon;
pub mod range_check;
pub mod signature;
