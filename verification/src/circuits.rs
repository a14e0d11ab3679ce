//! The layered arithmetic circuit: gate-level primitives, the circuit
//! evaluator, and the selector multilinear extensions used by GKR-style
//! protocols.
pub mod interface;
pub mod layered_circuit;
pub mod primitives;
pub mod utils;
