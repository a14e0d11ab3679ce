//! Primitives and core types used across the layered circuit.
use vstd::prelude::*;

verus! {

/// Operations a circuit's gates can carry.
#[derive(Debug, Clone, Copy)]
pub enum GateOp {
    /// The addition op.
    Add,
    /// The multiplication op.
    Mul,
}

/// The lowest unit of a layered circuit: one gate, with its operation and
/// its two input indices into the previous layer.
#[derive(Debug, Clone, Copy)]
pub struct Gate {
    /// The op on this gate.
    pub op: GateOp,
    /// Input indices into the previous layer.
    pub inputs: [usize; 2],
}

/// A layer of the layered circuit: a row of gates.
#[derive(Debug, Clone)]
pub struct Layer {
    /// The gates of the layer.
    pub gates: Vec<Gate>,
}

/// The execution trace of a circuit: the values of every layer, inputs
/// first.
#[derive(Debug, Clone)]
pub struct Evaluation<F> {
    /// The resulting evaluation for every layer.
    pub layers: Vec<Vec<F>>,
}

impl Gate {
    pub fn new(op: GateOp, inputs: [usize; 2]) -> (r: Self)
        ensures
            r.op == op,
            r.inputs == inputs,
    {
        Self { op, inputs }
    }
}

impl Layer {
    pub fn new(gates: Vec<Gate>) -> (r: Self)
        ensures
            r.gates == gates,
    {
        Self { gates }
    }
}

impl<F> Evaluation<F> {
    pub fn new(layers: Vec<Vec<F>>) -> (r: Self)
        ensures
            r.layers == layers,
    {
        Self { layers }
    }
}

} // verus!
