//! Interfaces for circuits and their related primitives.
use vstd::prelude::*;

verus! {

use crate::field::Fields;

/// Interface describing the circuit structure: something that can be
/// executed on a vector of field elements, producing an evaluation.
///
/// The implementation supplies, as spec functions, the precondition its
/// inputs must meet and the full characterization of the evaluation it
/// returns.
pub trait CircuitTr: Sized {
    /// The resulting evaluation of the circuit.
    type CircuitEvaluation;

    /// What the circuit requires of its input.
    spec fn exec_requires(&self, input: Seq<Fields>) -> bool;

    /// What holds of the produced evaluation.
    spec fn exec_ensures(&self, input: Seq<Fields>, out: Self::CircuitEvaluation) -> bool;

    /// Executes the circuit on the input.
    fn excecute(&self, input: &[Fields]) -> (r: Self::CircuitEvaluation)
        requires
            self.exec_requires(input@),
        ensures
            self.exec_ensures(input@, r),
    ;
}

/// An extension of the circuit with the per-layer selector data.
pub trait LayeredCircuitTr: CircuitTr {
    /// The type of the add and mul selector pair.
    type AddAndMulMLE;

    /// What the selector construction requires of the layer.
    spec fn mle_requires(&self, layer_index: int) -> bool;

    /// What holds of the produced selector pair.
    spec fn mle_ensures(&self, layer_index: int, out: Self::AddAndMulMLE) -> bool;

    /// Returns the add and mul selector data for the specified layer.
    fn add_and_mul_mle(&self, layer_index: usize) -> (r: Self::AddAndMulMLE)
        requires
            self.mle_requires(layer_index as int),
        ensures
            self.mle_ensures(layer_index as int, r),
    ;
}

} // verus!
