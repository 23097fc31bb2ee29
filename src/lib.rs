//! Core of a PLONK-style prover over the Goldilocks field.
//!
//! - `field`, `extension`: the base field and its quadratic extension.
//! - `permutation`: the per-slot ratios of the copy constraints, their chunk
//!   products, and the grand-product polynomial `Z` with its partial products.
//! - `constraints`: the permutation-consistency constraints at one point.
//! - `quotient`, `interpolation`, `evaluator`: the quotient polynomials, from
//!   the extended domain's index arithmetic and the vanishing polynomial on the
//!   coset to the batched combination of constraint terms, interpolation back
//!   to coefficients, and the split into degree-sized chunks.
//! - `opening`: the evaluations at the opening point and its shift.
//! - `prover`: the rounds of a proving session and the checks that end a run.
//! - `arena`: a fixed layout of intermediate buffers in one shared region.
pub mod arena;
pub mod constraints;
pub mod error;
pub mod evaluator;
pub mod extension;
pub mod field;
pub mod interpolation;
pub mod opening;
pub mod permutation;
pub mod prover;
pub mod quotient;
