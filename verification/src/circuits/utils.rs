//! Util functions for the layered circuits: widths of the selector
//! encoding, a gate-position encoder, and the dense selector table.
use vstd::prelude::*;

verus! {

use vstd::arithmetic::power2::pow2;
use crate::circuits::layered_circuit::LayeredCircuit;
use crate::field::{BaseElem, Fields};
use crate::mle::MultilinearPoly;

/// The number of Boolean variables needed to index `w` positions, at least
/// one: the ceiling of the base-two logarithm, with `clog2(w) == 1` for
/// `w <= 2`.
pub open spec fn clog2(w: nat) -> nat
    decreases w,
{
    if w <= 2 {
        1
    } else {
        (1 + clog2((w + 1) / 2)) as nat
    }
}

/// `2^clog2(w)` covers `w` positions.
pub proof fn lemma_clog2_covers(w: nat)
    ensures
        w <= pow2(clog2(w)),
        clog2(w) >= 1,
    decreases w,
{
    vstd::arithmetic::power2::lemma2_to64();
    if w > 2 {
        lemma_clog2_covers((w + 1) / 2);
        vstd::arithmetic::power2::lemma_pow2_unfold(clog2(w));
    }
}

/// `clog2` never exceeds the width of the covering power of two.
pub proof fn lemma_clog2_bound(w: nat, k: nat)
    requires
        k >= 1,
        w <= pow2(k),
    ensures
        clog2(w) <= k,
    decreases w,
{
    vstd::arithmetic::power2::lemma2_to64();
    if w > 2 {
        vstd::arithmetic::power2::lemma_pow2_unfold(k);
        assert((w + 1) / 2 <= pow2((k - 1) as nat));
        if k - 1 >= 1 {
            lemma_clog2_bound((w + 1) / 2, (k - 1) as nat);
        } else {
            assert(pow2(0) == 1);
        }
    }
}

/// Computes `clog2` of a width.
pub fn ceil_log2(w: usize) -> (r: usize)
    ensures
        r == clog2(w as nat),
        1 <= r <= 64,
    decreases w,
{
    proof {
        vstd::arithmetic::power2::lemma2_to64();
        vstd::arithmetic::power2::lemma2_to64_rest();
        assert(w as nat <= pow2(64)) by {
            assert(usize::MAX <= 0xffffffffffffffff);
        }
        lemma_clog2_bound(w as nat, 64);
        lemma_clog2_covers(w as nat);
    }
    if w <= 2 {
        1
    } else {
        let half = w / 2 + w % 2;
        proof {
            assert(half as nat == ((w as nat + 1) / 2));
        }
        1 + ceil_log2(half)
    }
}

/// The variable count of the selector table at a layer: one field of
/// output-index bits and two fields of input-index bits.
pub open spec fn spec_num_vars(c: &LayeredCircuit, layer_index: int) -> nat {
    (clog2(c.width_out(layer_index)) + 2 * clog2(c.width_in(layer_index))) as nat
}

/// The number of variables of the selector multilinear extension for a
/// circuit layer, computed from the layer's actual output and input
/// widths.
pub fn compute_num_vars(circuit: &LayeredCircuit, layer_index: usize) -> (r: usize)
    requires
        layer_index < circuit.layers@.len(),
        circuit.layers@[layer_index as int].gates@.len() >= 1,
        spec_num_vars(circuit, layer_index as int) < 64,
    ensures
        r == spec_num_vars(circuit, layer_index as int),
        r < 64,
    {
    proof {
        lemma_width_in_small(circuit, layer_index as int);
        assert(usize::MAX >= 0xffff_ffffusize);
    }
    let a = ceil_log2(circuit.width_out_exec(layer_index));
    let b = ceil_log2(circuit.width_in_exec(layer_index));
    a + 2 * b
}

/// A selector variable count below 64 keeps the input width well inside
/// the machine word.
pub proof fn lemma_width_in_small(c: &LayeredCircuit, l: int)
    requires
        0 <= l < c.layers@.len(),
        spec_num_vars(c, l) < 64,
    ensures
        c.width_in(l) <= 0x8000_0000,
{
    lemma_clog2_covers(c.width_in(l));
    lemma_clog2_covers(c.width_out(l));
    let b = clog2(c.width_in(l));
    vstd::arithmetic::power2::lemma2_to64();
    vstd::arithmetic::power2::lemma2_to64_rest();
    if b < 31 {
        vstd::arithmetic::power2::lemma_pow2_strictly_increases(b, 31);
    }
}

/// Packs a gate position `(a, b, c)` into a single table index: `c` in the
/// low bits, then `b`, each `b_len` bits wide, then `a`.
pub fn get_gate_properties(a: usize, b: usize, c: usize, b_len: usize) -> (r: usize)
    requires
        b < pow2(b_len as nat),
        c < pow2(b_len as nat),
        (a + 1) * pow2(2 * b_len as nat) <= usize::MAX,
    ensures
        r == a * pow2(2 * b_len as nat) + b * pow2(b_len as nat) + c,
        r < (a + 1) * pow2(2 * b_len as nat),
{
    proof {
        vstd::arithmetic::power2::lemma_pow2_adds(b_len as nat, b_len as nat);
        vstd::arithmetic::power2::lemma_pow2_pos(b_len as nat);
        vstd::arithmetic::power2::lemma_pow2_pos(2 * b_len as nat);
        assert(pow2(b_len as nat) <= (a + 1) * pow2(2 * b_len as nat)) by (nonlinear_arith)
            requires
                pow2(2 * b_len as nat) == pow2(b_len as nat) * pow2(b_len as nat),
                pow2(b_len as nat) >= 1,
        ;
    }
    let pb = pow2_exec(b_len);
    proof {
        assert((a + 1) * pow2(2 * b_len as nat) == a * pow2(2 * b_len as nat) + pow2(
            2 * b_len as nat,
        )) by (nonlinear_arith);
        assert(pb * pb == pow2(2 * b_len as nat));
        assert(b * pb + c < pb * pb) by (nonlinear_arith)
            requires
                b < pb,
                c < pb,
                pb >= 1,
        ;
        assert(a * (pb * pb) == a * pb * pb) by (nonlinear_arith);
        assert(a * pb <= a * (pb * pb)) by (nonlinear_arith)
            requires
                pb >= 1,
                a >= 0,
        ;
    }
    a * pb * pb + b * pb + c
}

/// Computes `2^e` as a machine word.
pub fn pow2_exec(e: usize) -> (r: usize)
    requires
        pow2(e as nat) <= usize::MAX,
    ensures
        r == pow2(e as nat),
{
    proof {
        vstd::arithmetic::power2::lemma2_to64();
    }
    let mut r: usize = 1;
    let mut i: usize = 0;
    while i < e
        invariant
            0 <= i <= e,
            r == pow2(i as nat),
            pow2(e as nat) <= usize::MAX,
        decreases e - i,
    {
        proof {
            vstd::arithmetic::power2::lemma_pow2_unfold((i + 1) as nat);
            if i + 1 < e {
                vstd::arithmetic::power2::lemma_pow2_strictly_increases((i + 1) as nat, e as nat);
            }
        }
        r = r * 2;
        i = i + 1;
    }
    proof {
        vstd::arithmetic::power2::lemma2_to64();
    }
    r
}

/// The dense selector table over `num_vars` variables: one at each listed
/// index, zero elsewhere.
pub fn mle_vec_to_poly(indices: &[usize], num_vars: usize) -> (r: MultilinearPoly)
    requires
        num_vars < 32,
        forall|i: int| 0 <= i < indices@.len() ==> #[trigger] indices@[i] < pow2(num_vars as nat),
    ensures
        r.wf(),
        r.n_vars == num_vars,
        r.evaluations@.len() == pow2(num_vars as nat),
        forall|t: int|
            0 <= t < r.evaluations@.len() ==> #[trigger] r.evaluations@[t] == (
            if indices@.contains(t as usize) {
                Fields::Base(BaseElem { val: 1 })
            } else {
                Fields::Base(BaseElem { val: 0 })
            }),
    {
    let mut mle_poly = MultilinearPoly::zero(num_vars);
    let mut i: usize = 0;
    while i < indices.len()
        invariant
            0 <= i <= indices@.len(),
            num_vars < 32,
            mle_poly.wf(),
            mle_poly.n_vars == num_vars,
            mle_poly.evaluations@.len() == pow2(num_vars as nat),
            forall|j: int|
                0 <= j < indices@.len() ==> #[trigger] indices@[j] < pow2(num_vars as nat),
            forall|t: int|
                0 <= t < mle_poly.evaluations@.len() ==> #[trigger] mle_poly.evaluations@[t] == (
                if indices@.take(i as int).contains(t as usize) {
                    Fields::Base(BaseElem { val: 1 })
                } else {
                    Fields::Base(BaseElem { val: 0 })
                }),
        decreases indices@.len() - i,
    {
        let idx = indices[i];
        mle_poly.evaluations.set(idx, Fields::Base(BaseElem { val: 1 }));
        proof {
            assert forall|t: int| 0 <= t < mle_poly.evaluations@.len() implies
                (#[trigger] indices@.take(i as int + 1).contains(t as usize) <==> (t == idx
                || indices@.take(i as int).contains(t as usize))) by {
                let pre = indices@.take(i as int);
                let cur = indices@.take(i as int + 1);
                assert(cur =~= pre.push(indices@[i as int]));
                vstd::arithmetic::power2::lemma2_to64();
                vstd::arithmetic::power2::lemma2_to64_rest();
                vstd::arithmetic::power2::lemma_pow2_strictly_increases(num_vars as nat, 32);
                assert(usize::MAX >= 0xffff_ffffusize);
                assert((t as usize) as int == t);
                if cur.contains(t as usize) {
                    let w = choose|w: int| 0 <= w < cur.len() && cur[w] == t as usize;
                    if w < i {
                        assert(pre[w] == t as usize);
                        assert(pre.contains(t as usize));
                    } else {
                        assert(cur[w] == indices@[i as int]);
                        assert(t == idx);
                    }
                }
                if pre.contains(t as usize) {
                    let w = choose|w: int| 0 <= w < pre.len() && pre[w] == t as usize;
                    assert(cur[w] == t as usize);
                    assert(cur.contains(t as usize));
                }
                if t == idx {
                    assert(cur[i as int] == t as usize);
                    assert(cur.contains(t as usize));
                }
            }
        }
        i = i + 1;
    }
    proof {
        assert(indices@.take(indices@.len() as int) == indices@);
    }
    mle_poly
}

} // verus!
