//! Lazy enumeration of all permutations of a sequence.
//!
//! The crate provides [`generator::PermutationGenerator`], a stateful object
//! that produces, one at a time and with no allocation after construction,
//! every permutation of a fixed source sequence.  The mathematical model of
//! the enumeration — a mixed-radix counter in the factorial number system and
//! the chain of transpositions it denotes — lives in [`model`], together with
//! the proofs of the enumeration's laws.

pub mod generator;
pub mod model;
