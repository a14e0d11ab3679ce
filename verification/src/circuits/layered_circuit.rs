//! The layered circuit: a stack of gate layers evaluated left to right
//! from the input layer, with dense and sparse selector extensions.
use vstd::prelude::*;

verus! {

use vstd::arithmetic::power2::pow2;
use crate::circuits::interface::{CircuitTr, LayeredCircuitTr};
use crate::circuits::primitives::{Evaluation, Gate, GateOp, Layer};
use crate::circuits::utils::{
    ceil_log2, clog2, compute_num_vars, get_gate_properties, lemma_clog2_covers, mle_vec_to_poly,
    spec_num_vars,
};
use crate::field::{ev_add, ev_mul, ExtVal, Fields};
use crate::mle::{all_wf, vals, MultilinearPoly};

/// A layered circuit: a stack of gate layers, evaluated from the input
/// upward; each layer reads only the previous layer's outputs.
#[derive(Debug, Clone)]
pub struct LayeredCircuit {
    /// The circuit is a stack of circuit layers.
    pub layers: Vec<Layer>,
}

/// The largest input index any of the gates reads.
pub open spec fn max_gate_input(gates: Seq<Gate>) -> nat
    decreases gates.len(),
{
    if gates.len() == 0 {
        0
    } else {
        let rest = max_gate_input(gates.drop_last());
        let a = gates.last().inputs@[0] as nat;
        let b = gates.last().inputs@[1] as nat;
        if a >= rest && a >= b {
            a
        } else if b >= rest {
            b
        } else {
            rest
        }
    }
}

/// The value a gate produces from the previous layer's values.
pub open spec fn gate_val(g: Gate, prev: Seq<ExtVal>) -> ExtVal {
    match g.op {
        GateOp::Add => ev_add(prev[g.inputs@[0] as int], prev[g.inputs@[1] as int]),
        GateOp::Mul => ev_mul(prev[g.inputs@[0] as int], prev[g.inputs@[1] as int]),
    }
}

/// A gate's two inputs both lie inside the previous layer's width.
pub open spec fn gate_in_bounds(g: Gate, width_in: nat) -> bool {
    g.inputs@[0] < width_in && g.inputs@[1] < width_in
}

impl LayeredCircuit {
    /// Util fn for creating new circuits.
    pub fn new(layers: Vec<Layer>) -> (r: Self)
        ensures
            r.layers == layers,
    {
        Self { layers }
    }

    /// Number of gates at a layer.
    pub open spec fn width_out(&self, l: int) -> nat {
        self.layers@[l].gates@.len()
    }

    /// Width of the data a layer reads: the previous layer's gate count,
    /// or, for the input layer, the span of input indices its gates read.
    pub open spec fn width_in(&self, l: int) -> nat {
        if l == 0 {
            (max_gate_input(self.layers@[0].gates@) + 1) as nat
        } else {
            self.layers@[l - 1].gates@.len()
        }
    }

    /// Every gate of every layer reads inside the previous layer's width.
    pub open spec fn wf_for(&self, input_len: nat) -> bool {
        forall|l: int, g: int|
            0 <= l < self.layers@.len() && 0 <= g < self.layers@[l].gates@.len()
                ==> gate_in_bounds(
                #[trigger] self.layers@[l].gates@[g],
                if l == 0 {
                    input_len
                } else {
                    self.layers@[l - 1].gates@.len()
                },
            )
    }

    pub fn width_out_exec(&self, l: usize) -> (r: usize)
        requires
            l < self.layers@.len(),
        ensures
            r == self.width_out(l as int),
    {
        self.layers[l].gates.len()
    }

    pub fn width_in_exec(&self, l: usize) -> (r: usize)
        requires
            l < self.layers@.len(),
            self.width_in(l as int) <= usize::MAX,
        ensures
            r == self.width_in(l as int),
    {
        if l == 0 {
            let gates = &self.layers[0].gates;
            let mut m: usize = 0;
            let mut i: usize = 0;
            while i < gates.len()
                invariant
                    0 <= i <= gates@.len(),
                    m == max_gate_input(gates@.take(i as int)),
                    max_gate_input(gates@) + 1 <= usize::MAX,
                    max_gate_input(gates@.take(i as int)) <= max_gate_input(gates@),
                decreases gates@.len() - i,
            {
                proof {
                    assert(gates@.take(i as int + 1).drop_last() =~= gates@.take(i as int));
                    lemma_max_gate_input_mono(gates@, i as int + 1);
                }
                let g = &gates[i];
                if g.inputs[0] > m {
                    m = g.inputs[0];
                }
                if g.inputs[1] > m {
                    m = g.inputs[1];
                }
                i = i + 1;
            }
            proof {
                assert(gates@.take(gates@.len() as int) == gates@);
            }
            m + 1
        } else {
            self.layers[l - 1].gates.len()
        }
    }

    /// Generates the canonical test circuit with the given number of
    /// layers: layer `j` (from the output end) has `2^(L-1-j)` gates, gate
    /// `g` reading inputs `2g` and `2g+1` modulo the layer's input width,
    /// alternating add and mul layers.
    pub fn random(num_of_layers: usize) -> (r: Self)
        requires
            num_of_layers <= 20,
        ensures
            r.layers@.len() == num_of_layers,
            forall|j: int|
                0 <= j < num_of_layers ==> {
                    let li = num_of_layers - 1 - j;
                    &&& (#[trigger] r.layers@[j]).gates@.len() == pow2(li as nat)
                    &&& forall|g: int|
                        0 <= g < pow2(li as nat) ==> {
                            let gate = #[trigger] r.layers@[j].gates@[g];
                            &&& gate.inputs@[0] == (2 * g) as int % (pow2((li + 1) as nat) as int)
                            &&& gate.inputs@[1] == (2 * g + 1) as int % (pow2(
                                (li + 1) as nat,
                            ) as int)
                            &&& gate.op == (if li % 2 == 0 {
                                GateOp::Add
                            } else {
                                GateOp::Mul
                            })
                        }
                },
    {
        let mut layers: Vec<Layer> = Vec::new();
        let mut j: usize = 0;
        while j < num_of_layers
            invariant
                0 <= j <= num_of_layers <= 20,
                layers@.len() == j,
                forall|t: int|
                    0 <= t < j ==> {
                        let li = num_of_layers - 1 - t;
                        &&& (#[trigger] layers@[t]).gates@.len() == pow2(li as nat)
                        &&& forall|g: int|
                            0 <= g < pow2(li as nat) ==> {
                                let gate = #[trigger] layers@[t].gates@[g];
                                &&& gate.inputs@[0] == (2 * g) as int % (pow2(
                                    (li + 1) as nat,
                                ) as int)
                                &&& gate.inputs@[1] == (2 * g + 1) as int % (pow2(
                                    (li + 1) as nat,
                                ) as int)
                                &&& gate.op == (if li % 2 == 0 {
                                    GateOp::Add
                                } else {
                                    GateOp::Mul
                                })
                            }
                    },
            decreases num_of_layers - j,
        {
            let layer_index = num_of_layers - 1 - j;
            proof {
                vstd::arithmetic::power2::lemma2_to64();
                vstd::arithmetic::power2::lemma_pow2_strictly_increases(
                    layer_index as nat,
                    21,
                );
                vstd::arithmetic::power2::lemma_pow2_strictly_increases(
                    (layer_index + 1) as nat,
                    22,
                );
                vstd::arithmetic::power2::lemma_pow2_pos((layer_index + 1) as nat);
            }
            let number_of_gates = crate::circuits::utils::pow2_exec(layer_index);
            let number_of_inputs = crate::circuits::utils::pow2_exec(layer_index + 1);
            let mut layer: Vec<Gate> = Vec::new();
            let mut gate_index: usize = 0;
            while gate_index < number_of_gates
                invariant
                    0 <= gate_index <= number_of_gates,
                    number_of_gates == pow2(layer_index as nat),
                    number_of_inputs == pow2((layer_index + 1) as nat),
                    number_of_gates <= 0x100000,
                    number_of_inputs >= 1,
                    layer@.len() == gate_index,
                    forall|g: int|
                        0 <= g < gate_index ==> {
                            let gate = #[trigger] layer@[g];
                            &&& gate.inputs@[0] == (2 * g) as int % (pow2(
                                (layer_index + 1) as nat,
                            ) as int)
                            &&& gate.inputs@[1] == (2 * g + 1) as int % (pow2(
                                (layer_index + 1) as nat,
                            ) as int)
                            &&& gate.op == (if layer_index % 2 == 0 {
                                GateOp::Add
                            } else {
                                GateOp::Mul
                            })
                        },
                decreases number_of_gates - gate_index,
            {
                let input_1 = (gate_index * 2) % number_of_inputs;
                let input_2 = (gate_index * 2 + 1) % number_of_inputs;
                let g_type = if layer_index % 2 == 0 {
                    GateOp::Add
                } else {
                    GateOp::Mul
                };
                layer.push(Gate::new(g_type, [input_1, input_2]));
                gate_index = gate_index + 1;
            }
            layers.push(Layer::new(layer));
            j = j + 1;
        }
        LayeredCircuit::new(layers)
    }

    /// Builds a circuit of the canonical layer sizes from sampled gate
    /// data: layer `j` (from the output end) has `2^(L-1-j)` gates, and
    /// `samples[t]` supplies `(input_1, input_2, is_add)` for the `t`-th
    /// gate drawn (gates are drawn layer by layer from the input end).
    pub fn random_from_samples(num_of_layers: usize, samples: &[(usize, usize, bool)]) -> (r:
        Self)
        requires
            num_of_layers <= 20,
            samples@.len() == pow2(num_of_layers as nat) - 1,
        ensures
            r.layers@.len() == num_of_layers,
            r.wf_for(pow2(num_of_layers as nat)),
            forall|j: int|
                0 <= j < num_of_layers ==> {
                    let li = num_of_layers - 1 - j;
                    &&& (#[trigger] r.layers@[j]).gates@.len() == pow2(li as nat)
                    &&& forall|g: int|
                        0 <= g < pow2(li as nat) ==> {
                            let s = samples@[pow2(li as nat) - 1 + g];
                            let gate = #[trigger] r.layers@[j].gates@[g];
                            &&& gate.inputs@[0] == s.0 as int % (pow2((li + 1) as nat) as int)
                            &&& gate.inputs@[1] == s.1 as int % (pow2((li + 1) as nat) as int)
                            &&& gate.op == (if s.2 {
                                GateOp::Add
                            } else {
                                GateOp::Mul
                            })
                        }
                },
    {
        proof {
            vstd::arithmetic::power2::lemma2_to64();
            vstd::arithmetic::power2::lemma2_to64_rest();
        }
        let mut layers: Vec<Layer> = Vec::new();
        let mut j: usize = 0;
        while j < num_of_layers
            invariant
                0 <= j <= num_of_layers <= 20,
                samples@.len() == pow2(num_of_layers as nat) - 1,
                layers@.len() == j,
                forall|t: int|
                    0 <= t < j ==> {
                        let li = num_of_layers - 1 - t;
                        &&& (#[trigger] layers@[t]).gates@.len() == pow2(li as nat)
                        &&& forall|g: int|
                            0 <= g < pow2(li as nat) ==> {
                                let s = samples@[pow2(li as nat) - 1 + g];
                                let gate = #[trigger] layers@[t].gates@[g];
                                &&& gate.inputs@[0] == s.0 as int % (pow2(
                                    (li + 1) as nat,
                                ) as int)
                                &&& gate.inputs@[1] == s.1 as int % (pow2(
                                    (li + 1) as nat,
                                ) as int)
                                &&& gate.op == (if s.2 {
                                    GateOp::Add
                                } else {
                                    GateOp::Mul
                                })
                            }
                    },
            decreases num_of_layers - j,
        {
            let layer_index = num_of_layers - 1 - j;
            proof {
                vstd::arithmetic::power2::lemma2_to64();
                vstd::arithmetic::power2::lemma_pow2_pos(layer_index as nat);
                vstd::arithmetic::power2::lemma_pow2_pos((layer_index + 1) as nat);
                vstd::arithmetic::power2::lemma_pow2_strictly_increases(
                    layer_index as nat,
                    num_of_layers as nat,
                );
                vstd::arithmetic::power2::lemma_pow2_strictly_increases(
                    layer_index as nat,
                    21,
                );
                vstd::arithmetic::power2::lemma_pow2_strictly_increases(
                    (layer_index + 1) as nat,
                    22,
                );
                vstd::arithmetic::power2::lemma_pow2_unfold(
                    (layer_index + 1) as nat,
                );
                if layer_index + 1 < num_of_layers {
                    vstd::arithmetic::power2::lemma_pow2_strictly_increases(
                        (layer_index + 1) as nat,
                        num_of_layers as nat,
                    );
                }
            }
            let number_of_gates = crate::circuits::utils::pow2_exec(layer_index);
            let number_of_inputs = crate::circuits::utils::pow2_exec(layer_index + 1);
            let offset = number_of_gates - 1;
            let mut layer: Vec<Gate> = Vec::new();
            let mut gate_index: usize = 0;
            while gate_index < number_of_gates
                invariant
                    0 <= gate_index <= number_of_gates,
                    number_of_gates == pow2(layer_index as nat),
                    number_of_inputs == pow2((layer_index + 1) as nat),
                    number_of_inputs >= 1,
                    offset == pow2(layer_index as nat) - 1,
                    offset + number_of_gates <= samples@.len(),
                    samples@.len() <= 0x100000,
                    layer@.len() == gate_index,
                    forall|g: int|
                        0 <= g < gate_index ==> {
                            let s = samples@[pow2(layer_index as nat) - 1 + g];
                            let gate = #[trigger] layer@[g];
                            &&& gate.inputs@[0] == s.0 as int % (pow2(
                                (layer_index + 1) as nat,
                            ) as int)
                            &&& gate.inputs@[1] == s.1 as int % (pow2(
                                (layer_index + 1) as nat,
                            ) as int)
                            &&& gate.op == (if s.2 {
                                GateOp::Add
                            } else {
                                GateOp::Mul
                            })
                        },
                decreases number_of_gates - gate_index,
            {
                let (raw_1, raw_2, is_add) = samples[offset + gate_index];
                // Keep both inputs inside the layer's input width, whatever
                // the sampled values were.
                let input_1 = raw_1 % number_of_inputs;
                let input_2 = raw_2 % number_of_inputs;
                let g_type = if is_add {
                    GateOp::Add
                } else {
                    GateOp::Mul
                };
                layer.push(Gate::new(g_type, [input_1, input_2]));
                gate_index = gate_index + 1;
            }
            layers.push(Layer::new(layer));
            j = j + 1;
        }
        let circuit = LayeredCircuit::new(layers);
        proof {
            assert forall|l: int, g: int|
                0 <= l < circuit.layers@.len() && 0 <= g < circuit.layers@[l].gates@.len()
                    implies gate_in_bounds(
                #[trigger] circuit.layers@[l].gates@[g],
                if l == 0 {
                    pow2(num_of_layers as nat)
                } else {
                    circuit.layers@[l - 1].gates@.len()
                },
            ) by {
                let li = num_of_layers - 1 - l;
                vstd::arithmetic::power2::lemma_pow2_pos((li + 1) as nat);
                vstd::arithmetic::div_mod::lemma_mod_bound(
                    samples@[pow2(li as nat) - 1 + g].0 as int,
                    pow2((li + 1) as nat) as int,
                );
                vstd::arithmetic::div_mod::lemma_mod_bound(
                    samples@[pow2(li as nat) - 1 + g].1 as int,
                    pow2((li + 1) as nat) as int,
                );
            }
        }
        circuit
    }
}

/// Prefix maxima never exceed the whole sequence's maximum.
proof fn lemma_max_gate_input_mono(gates: Seq<Gate>, i: int)
    requires
        0 <= i <= gates.len(),
    ensures
        max_gate_input(gates.take(i)) <= max_gate_input(gates),
    decreases gates.len(),
{
    if i < gates.len() {
        assert(gates.drop_last().take(i) =~= gates.take(i));
        lemma_max_gate_input_mono(gates.drop_last(), i);
    } else {
        assert(gates.take(i) =~= gates);
    }
}

/// Every gate input is at most the maximum.
proof fn lemma_max_gate_input_ge(gates: Seq<Gate>, g: int)
    requires
        0 <= g < gates.len(),
    ensures
        gates[g].inputs@[0] <= max_gate_input(gates),
        gates[g].inputs@[1] <= max_gate_input(gates),
    decreases gates.len(),
{
    if g < gates.len() - 1 {
        lemma_max_gate_input_ge(gates.drop_last(), g);
    }
}

impl CircuitTr for LayeredCircuit {
    type CircuitEvaluation = Evaluation<Fields>;

    open spec fn exec_requires(&self, input: Seq<Fields>) -> bool {
        &&& all_wf(input)
        &&& self.wf_for(input.len())
        &&& exists|k: nat| input.len() == pow2(k)
    }

    open spec fn exec_ensures(&self, input: Seq<Fields>, out: Self::CircuitEvaluation) -> bool {
        &&& out.layers@.len() == self.layers@.len() + 1
        &&& out.layers@[0]@ == input
        &&& forall|l: int|
            0 <= l < self.layers@.len() ==> (#[trigger] out.layers@[l + 1])@.len()
                == self.layers@[l].gates@.len()
        &&& forall|l: int, g: int|
            0 <= l < self.layers@.len() && 0 <= g < self.layers@[l].gates@.len() ==> {
                let e = out.layers@[l + 1]@[g];
                let gate = #[trigger] self.layers@[l].gates@[g];
                let prev = out.layers@[l]@;
                &&& e.wf()
                &&& e@ == gate_val(gate, vals(prev))
                &&& (e.is_base() <==> (prev[gate.inputs@[0] as int].is_base() && prev[gate.inputs@[1] as int].is_base()))
            }
    }

    /// Executes the circuit layer by layer; layer `l`'s gates read the
    /// previous layer's outputs.
    fn excecute(&self, input: &[Fields]) -> (r: Self::CircuitEvaluation) {
        let mut layers_out: Vec<Vec<Fields>> = Vec::new();
        let mut first: Vec<Fields> = Vec::new();
        let mut i: usize = 0;
        while i < input.len()
            invariant
                0 <= i <= input@.len(),
                first@ == input@.take(i as int),
            decreases input@.len() - i,
        {
            first.push(input[i]);
            i = i + 1;
        }
        proof {
            assert(input@.take(input@.len() as int) == input@);
        }
        layers_out.push(first);
        let mut l: usize = 0;
        while l < self.layers.len()
            invariant
                0 <= l <= self.layers@.len(),
                self.exec_requires(input@),
                layers_out@.len() == l + 1,
                layers_out@[0]@ == input@,
                forall|t: int|
                    0 <= t < l ==> (#[trigger] layers_out@[t + 1])@.len()
                        == self.layers@[t].gates@.len(),
                forall|t: int|
                    0 <= t < l + 1 ==> all_wf((#[trigger] layers_out@[t])@),
                forall|t: int, g: int|
                    0 <= t < l && 0 <= g < self.layers@[t].gates@.len() ==> {
                        let e = layers_out@[t + 1]@[g];
                        let gate = #[trigger] self.layers@[t].gates@[g];
                        let prev = layers_out@[t]@;
                        &&& e.wf()
                        &&& e@ == gate_val(gate, vals(prev))
                        &&& (e.is_base() <==> (prev[gate.inputs@[0] as int].is_base()
                            && prev[gate.inputs@[1] as int].is_base()))
                    },
            decreases self.layers@.len() - l,
        {
            proof {
                if l >= 1 {
                    assert(layers_out@[(l - 1) as int + 1]@.len() == self.layers@[(l
                        - 1) as int].gates@.len());
                }
                assert(all_wf(layers_out@[l as int]@));
            }
            let gates = &self.layers[l].gates;
            let mut temp_layer: Vec<Fields> = Vec::new();
            let mut g: usize = 0;
            while g < gates.len()
                invariant
                    0 <= g <= gates@.len(),
                    gates@ == self.layers@[l as int].gates@,
                    l < self.layers@.len(),
                    self.exec_requires(input@),
                    layers_out@.len() == l + 1,
                    all_wf(layers_out@[l as int]@),
                    (if l == 0 {
                        layers_out@[l as int]@.len() == input@.len()
                    } else {
                        layers_out@[l as int]@.len() == self.layers@[l as int - 1].gates@.len()
                    }),
                    temp_layer@.len() == g,
                    all_wf(temp_layer@),
                    forall|t: int|
                        0 <= t < g ==> {
                            let e = #[trigger] temp_layer@[t];
                            let gate = self.layers@[l as int].gates@[t];
                            let prev = layers_out@[l as int]@;
                            &&& e.wf()
                            &&& e@ == gate_val(gate, vals(prev))
                            &&& (e.is_base() <==> (prev[gate.inputs@[0] as int].is_base()
                                && prev[gate.inputs@[1] as int].is_base()))
                        },
            decreases gates@.len() - g,
            {
                let gate = &gates[g];
                proof {
                    assert(gate_in_bounds(
                        self.layers@[l as int].gates@[g as int],
                        if l == 0 {
                            input@.len()
                        } else {
                            self.layers@[l as int - 1].gates@.len()
                        },
                    ));
                }
                let current_input = &layers_out[l];
                let a = &current_input[gate.inputs[0]];
                let b = &current_input[gate.inputs[1]];
                let e = match gate.op {
                    GateOp::Add => a.add(b),
                    GateOp::Mul => a.mul(b),
                };
                temp_layer.push(e);
                g = g + 1;
            }
            layers_out.push(temp_layer);
            l = l + 1;
        }
        Evaluation::new(layers_out)
    }
}

/// The packed table index of layer `l`'s gate at position `g`.
pub open spec fn gate_enc(c: &LayeredCircuit, l: int, g: int) -> int {
    let b = clog2(c.width_in(l));
    let gate = c.layers@[l].gates@[g];
    g * pow2(2 * b) + gate.inputs@[0] * pow2(b) + gate.inputs@[1]
}

/// Whether a gate matches the wanted op.
pub open spec fn gate_matches(gate: Gate, want_add: bool) -> bool {
    match gate.op {
        GateOp::Add => want_add,
        GateOp::Mul => !want_add,
    }
}

/// There is a gate of the wanted op, among the first `upto`, whose packed
/// position is `idx`.
pub open spec fn sel_is(c: &LayeredCircuit, l: int, want_add: bool, idx: int) -> bool {
    exists|g: int|
        0 <= g < c.layers@[l].gates@.len() && gate_matches(
            #[trigger] c.layers@[l].gates@[g],
            want_add,
        ) && gate_enc(c, l, g) == idx
}

/// The packed positions of the first `upto` gates matching the wanted op.
pub open spec fn encs_of(c: &LayeredCircuit, l: int, want_add: bool, upto: int) -> Seq<usize>
    decreases upto,
{
    if upto <= 0 {
        Seq::empty()
    } else {
        let rec = encs_of(c, l, want_add, upto - 1);
        if gate_matches(c.layers@[l].gates@[upto - 1], want_add) {
            rec.push(gate_enc(c, l, upto - 1) as usize)
        } else {
            rec
        }
    }
}

impl LayeredCircuitTr for LayeredCircuit {
    type AddAndMulMLE = (MultilinearPoly, MultilinearPoly);

    open spec fn mle_requires(&self, layer_index: int) -> bool {
        &&& 0 <= layer_index < self.layers@.len()
        &&& self.layers@[layer_index].gates@.len() >= 1
        &&& self.width_in(layer_index) >= 1
        &&& forall|g: int|
            0 <= g < self.layers@[layer_index].gates@.len() ==> gate_in_bounds(
                #[trigger] self.layers@[layer_index].gates@[g],
                self.width_in(layer_index),
            )
        &&& spec_num_vars(self, layer_index) < 32
    }

    open spec fn mle_ensures(&self, layer_index: int, out: Self::AddAndMulMLE) -> bool {
        let n = spec_num_vars(self, layer_index);
        &&& out.0.wf()
        &&& out.1.wf()
        &&& out.0.n_vars == n
        &&& out.1.n_vars == n
        &&& forall|t: int|
            0 <= t < pow2(n) ==> (#[trigger] out.0.evaluations@[t]) == (
            if sel_is(self, layer_index, true, t) {
                Fields::Base(crate::field::BaseElem { val: 1 })
            } else {
                Fields::Base(crate::field::BaseElem { val: 0 })
            })
        &&& forall|t: int|
            0 <= t < pow2(n) ==> (#[trigger] out.1.evaluations@[t]) == (
            if sel_is(self, layer_index, false, t) {
                Fields::Base(crate::field::BaseElem { val: 1 })
            } else {
                Fields::Base(crate::field::BaseElem { val: 0 })
            })
    }

    /// Builds the dense add and mul selector tables of the layer: entry
    /// `1` exactly at the packed `(output, input, input)` position of each
    /// gate of the respective operation.
    fn add_and_mul_mle(&self, layer_index: usize) -> (r: Self::AddAndMulMLE) {
        let ghost li = layer_index as int;
        let gates = &self.layers[layer_index].gates;
        let a_len = ceil_log2(self.width_out_exec(layer_index));
        proof {
            crate::circuits::utils::lemma_width_in_small(self, li);
            lemma_clog2_covers(self.width_in(li));
            assert(usize::MAX >= 0xffff_ffffusize);
        }
        let b_len = ceil_log2(self.width_in_exec(layer_index));
        let num_vars = a_len + 2 * b_len;
        proof {
            lemma_clog2_covers(self.width_out(li));
            vstd::arithmetic::power2::lemma_pow2_adds((a_len) as nat, (2 * b_len) as nat);
            vstd::arithmetic::power2::lemma_pow2_adds(b_len as nat, b_len as nat);
            vstd::arithmetic::power2::lemma_pow2_strictly_increases(num_vars as nat, 32);
            vstd::arithmetic::power2::lemma2_to64();
            vstd::arithmetic::power2::lemma2_to64_rest();
        }
        let mut add_usize_vec: Vec<usize> = Vec::new();
        let mut mul_usize_vec: Vec<usize> = Vec::new();
        let mut i: usize = 0;
        while i < gates.len()
            invariant
                0 <= i <= gates@.len(),
                gates@ == self.layers@[li].gates@,
                li == layer_index as int,
                self.mle_requires(li),
                a_len == clog2(self.width_out(li)),
                b_len == clog2(self.width_in(li)),
                num_vars == a_len + 2 * b_len,
                num_vars < 32,
                gates@.len() <= pow2(a_len as nat),
                self.width_in(li) <= pow2(b_len as nat),
                pow2(num_vars as nat) < 0x100000000,
                pow2(num_vars as nat) == pow2(a_len as nat) * pow2((2 * b_len) as nat),
                pow2((2 * b_len) as nat) == pow2(b_len as nat) * pow2(b_len as nat),
                add_usize_vec@ == encs_of(self, li, true, i as int),
                mul_usize_vec@ == encs_of(self, li, false, i as int),
            decreases gates@.len() - i,
        {
            let gate = &gates[i];
            proof {
                assert(gate_in_bounds(self.layers@[li].gates@[i as int], self.width_in(li)));
                assert((i + 1) * pow2((2 * b_len) as nat) <= pow2(a_len as nat) * pow2(
                    (2 * b_len) as nat,
                )) by (nonlinear_arith)
                    requires
                        i + 1 <= pow2(a_len as nat),
                        pow2((2 * b_len) as nat) >= 0,
                ;
            }
            let gate_props = get_gate_properties(i, gate.inputs[0], gate.inputs[1], b_len);
            match gate.op {
                GateOp::Add => {
                    add_usize_vec.push(gate_props);
                },
                GateOp::Mul => {
                    mul_usize_vec.push(gate_props);
                },
            }
            i = i + 1;
        }
        proof {
            lemma_encs_of_bounds(self, li, true, gates@.len() as int);
            lemma_encs_of_bounds(self, li, false, gates@.len() as int);
        }
        let mle_num_var = compute_num_vars(self, layer_index);
        let add_mle = mle_vec_to_poly(add_usize_vec.as_slice(), mle_num_var);
        let mul_mle = mle_vec_to_poly(mul_usize_vec.as_slice(), mle_num_var);
        proof {
            lemma_encs_of_members(self, li, true, gates@.len() as int);
            lemma_encs_of_members(self, li, false, gates@.len() as int);
        }
        (add_mle, mul_mle)
    }
}

/// Every packed position of a matching gate is inside the selector table.
proof fn lemma_encs_of_bounds(c: &LayeredCircuit, l: int, want_add: bool, upto: int)
    requires
        c.mle_requires(l),
        upto <= c.layers@[l].gates@.len(),
    ensures
        forall|t: int|
            0 <= t < encs_of(c, l, want_add, upto).len() ==> (#[trigger] encs_of(
                c,
                l,
                want_add,
                upto,
            )[t]) < pow2(spec_num_vars(c, l)),
    decreases upto,
{
    if upto > 0 {
        lemma_encs_of_bounds(c, l, want_add, upto - 1);
        lemma_gate_enc_bounds(c, l, upto - 1);
        let pre = encs_of(c, l, want_add, upto - 1);
        let cur = encs_of(c, l, want_add, upto);
        assert forall|t: int| 0 <= t < cur.len() implies (#[trigger] cur[t]) < pow2(
            spec_num_vars(c, l),
        ) by {
            if t < pre.len() {
                assert(cur[t] == pre[t]);
            }
        }
    }
}

/// The packed position of a gate is nonnegative and inside the table.
proof fn lemma_gate_enc_bounds(c: &LayeredCircuit, l: int, g: int)
    requires
        c.mle_requires(l),
        0 <= g < c.layers@[l].gates@.len(),
    ensures
        0 <= gate_enc(c, l, g) < pow2(spec_num_vars(c, l)),
{
    let a = clog2(c.width_out(l));
    let b = clog2(c.width_in(l));
    let gate = c.layers@[l].gates@[g];
    lemma_clog2_covers(c.width_out(l));
    lemma_clog2_covers(c.width_in(l));
    vstd::arithmetic::power2::lemma_pow2_adds(a, 2 * b);
    vstd::arithmetic::power2::lemma_pow2_adds(b, b);
    assert(gate_in_bounds(c.layers@[l].gates@[g], c.width_in(l)));
    assert(g * pow2(2 * b) + gate.inputs@[0] * pow2(b) + gate.inputs@[1] < pow2(a) * (pow2(b)
        * pow2(b))) by (nonlinear_arith)
        requires
            0 <= g,
            g + 1 <= pow2(a),
            gate.inputs@[0] < pow2(b),
            gate.inputs@[1] < pow2(b),
            pow2(2 * b) == pow2(b) * pow2(b),
            pow2(b) >= 1,
            pow2(a) >= 1,
    ;
    assert(gate_enc(c, l, g) >= 0) by (nonlinear_arith)
        requires
            0 <= g,
            gate.inputs@[0] >= 0,
            gate.inputs@[1] >= 0,
            pow2(2 * b) >= 1,
            pow2(b) >= 1,
            gate_enc(c, l, g) == g * pow2(2 * b) + gate.inputs@[0] * pow2(b) + gate.inputs@[1],
    ;
}

/// Membership in the packed-position list is existence of a matching gate.
proof fn lemma_encs_of_members(c: &LayeredCircuit, l: int, want_add: bool, upto: int)
    requires
        c.mle_requires(l),
        upto <= c.layers@[l].gates@.len(),
    ensures
        forall|x: usize|
            #[trigger] encs_of(c, l, want_add, upto).contains(x) <==> exists|g: int|
                0 <= g < upto && gate_matches(#[trigger] c.layers@[l].gates@[g], want_add)
                    && gate_enc(c, l, g) == x,
    decreases upto,
{
    if upto > 0 {
        lemma_encs_of_members(c, l, want_add, upto - 1);
        let pre = encs_of(c, l, want_add, upto - 1);
        let cur = encs_of(c, l, want_add, upto);
        lemma_gate_enc_bounds(c, l, upto - 1);
        vstd::arithmetic::power2::lemma2_to64();
        vstd::arithmetic::power2::lemma2_to64_rest();
        vstd::arithmetic::power2::lemma_pow2_strictly_increases(spec_num_vars(c, l), 32);
        assert(usize::MAX >= 0xffff_ffffusize);
        assert((gate_enc(c, l, upto - 1) as usize) as int == gate_enc(c, l, upto - 1));
        assert forall|x: usize| #[trigger] cur.contains(x) implies exists|g: int|
            0 <= g < upto && gate_matches(#[trigger] c.layers@[l].gates@[g], want_add)
                && gate_enc(c, l, g) == x by {
            if gate_matches(c.layers@[l].gates@[upto - 1], want_add) {
                let w = choose|w: int| 0 <= w < cur.len() && cur[w] == x;
                if w < pre.len() {
                    assert(pre.contains(x));
                } else {
                    assert(gate_enc(c, l, upto - 1) == x);
                }
            }
        }
        assert forall|x: usize|
            (exists|g: int|
                0 <= g < upto && gate_matches(#[trigger] c.layers@[l].gates@[g], want_add)
                    && gate_enc(c, l, g) == x) implies #[trigger] cur.contains(x) by {
            let g = choose|g: int|
                0 <= g < upto && gate_matches(c.layers@[l].gates@[g], want_add) && gate_enc(
                    c,
                    l,
                    g,
                ) == x;
            if g < upto - 1 {
                assert(pre.contains(x));
                let w = choose|w: int| 0 <= w < pre.len() && pre[w] == x;
                if gate_matches(c.layers@[l].gates@[upto - 1], want_add) {
                    assert(cur[w] == x);
                } else {
                    assert(cur == pre);
                }
            } else {
                assert(gate_matches(c.layers@[l].gates@[upto - 1], want_add));
                assert(cur.last() == x);
            }
        }
    }
}

/// The sparse triples `(output index, input, input)` of the first `upto`
/// gates matching the wanted op.
pub open spec fn libra_triples(gates: Seq<Gate>, want_add: bool, upto: int) -> Seq<
    (usize, usize, usize),
>
    decreases upto,
{
    if upto <= 0 {
        Seq::empty()
    } else {
        let rec = libra_triples(gates, want_add, upto - 1);
        let gate = gates[upto - 1];
        if gate_matches(gate, want_add) {
            rec.push((((upto - 1) as usize), gate.inputs@[0], gate.inputs@[1]))
        } else {
            rec
        }
    }
}

impl LayeredCircuit {
    /// The sparse (Libra) form of the selector data: for a layer, the
    /// ordered `(output index, input, input)` triples of its add gates and
    /// of its mul gates.
    pub fn libra_add_and_mul_mle(&self, layer_index: usize) -> (r: (
        Vec<(usize, usize, usize)>,
        Vec<(usize, usize, usize)>,
    ))
        requires
            layer_index < self.layers@.len(),
        ensures
            r.0@ == libra_triples(
                self.layers@[layer_index as int].gates@,
                true,
                self.layers@[layer_index as int].gates@.len() as int,
            ),
            r.1@ == libra_triples(
                self.layers@[layer_index as int].gates@,
                false,
                self.layers@[layer_index as int].gates@.len() as int,
            ),
    {
        let gates = &self.layers[layer_index].gates;
        let mut add_mle: Vec<(usize, usize, usize)> = Vec::new();
        let mut mul_mle: Vec<(usize, usize, usize)> = Vec::new();
        let mut i: usize = 0;
        while i < gates.len()
            invariant
                0 <= i <= gates@.len(),
                gates@ == self.layers@[layer_index as int].gates@,
                add_mle@ == libra_triples(gates@, true, i as int),
                mul_mle@ == libra_triples(gates@, false, i as int),
            decreases gates@.len() - i,
        {
            let gate = &gates[i];
            match gate.op {
                GateOp::Add => {
                    add_mle.push((i, gate.inputs[0], gate.inputs[1]));
                },
                GateOp::Mul => {
                    mul_mle.push((i, gate.inputs[0], gate.inputs[1]));
                },
            }
            i = i + 1;
        }
        (add_mle, mul_mle)
    }
}

} // verus!
