//! A verified core for the sumcheck interactive proof protocol and the
//! GKR-style layered arithmetic circuit machinery it depends on.
//!
//! The library provides dense multilinear extensions over the Boolean
//! hypercube, virtual polynomials combined through a first-class combining
//! expression, a sumcheck prover/verifier driven through the `Sumcheckable`
//! capability (including a padded-sumcheck adapter), a barycentric univariate
//! evaluator, a layered arithmetic circuit evaluator with selector
//! multilinear extensions, and a Fiat-Shamir transcript backed by a Keccak
//! challenger.
pub mod circuits;
pub mod field;
pub mod laws;
pub mod mle;
pub mod multilinear;
pub mod padded_poly;
pub mod padded_sumcheck;
pub mod poly_utils;
pub mod sumcheck;
pub mod sumcheckable;
pub mod transcript;
pub mod vpoly;

pub use circuits::interface::{CircuitTr, LayeredCircuitTr};
pub use circuits::layered_circuit::LayeredCircuit;
pub use circuits::primitives::{Evaluation, Gate, GateOp, Layer};
pub use circuits::utils::{compute_num_vars, get_gate_properties, mle_vec_to_poly};
pub use field::{BaseElem, ExtElem, Fields};
pub use mle::MultilinearPoly;
pub use multilinear::MultilinearExtension;
pub use padded_poly::{BasePoly, PaddedPoly};
pub use poly_utils::{barycentric_evaluation, generate_eq, product_poly};
pub use padded_sumcheck::PaddedSumcheck;
pub use sumcheck::{SumCheck, SumCheckProof};
pub use sumcheckable::Sumcheckable;
pub use transcript::Transcript;
pub use vpoly::{CombineExpr, VPoly};
