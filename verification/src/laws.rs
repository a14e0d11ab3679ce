//! The library's laws, stated and proved over its mathematical models.
//!
//! Each proof function here is a public statement about the library: the
//! multilinear extension agrees with the stored table on the Boolean
//! hypercube, partial evaluation composes with full evaluation, the
//! hypercube sum is the table sum, and the selector extensions are exactly
//! the indicators of the circuit's gates.
use vstd::prelude::*;

verus! {

use vstd::arithmetic::power2::pow2;
use crate::circuits::interface::LayeredCircuitTr;
use crate::circuits::layered_circuit::{gate_enc, gate_in_bounds, sel_is, LayeredCircuit};
use crate::circuits::utils::{clog2, lemma_clog2_covers, spec_num_vars};
use crate::field::{
    ev_mul, ev_neg, ev_one, ev_sub, ev_wf, ev_zero, lemma_ev_add_zero, lemma_ev_inv_unique,
    lemma_ev_mul_assoc, lemma_ev_mul_comm, lemma_ev_mul_distrib, lemma_ev_mul_distrib_sub,
    lemma_ev_mul_neg_one, lemma_ev_mul_one, lemma_ev_mul_zero, lemma_ev_neg_sub,
    lemma_ev_sub_of_sub, lemma_ev_sub_zero, ExtVal, Fields,
};
use crate::poly_utils::{
    bary_sum, bary_term, barycentric_spec, on_grid, vanishing_prefix, weight_prefix,
};
use crate::sumcheck::{expected_at, honest_trace, round_challenge, round_challenges, SumCheckProof};
use crate::sumcheckable::Sumcheckable;
use crate::mle::{
    all_bool, all_wf, bool_index, evs_wf, fold_many, fold_once, hyper_sum,
    lemma_eval_on_hypercube, lemma_fold_many_concat, lemma_fold_many_snoc,
    lemma_hyper_sum_is_seq_sum, lemma_seq_sum_wf, mle_eval, mle_round_msg, seq_sum, vals,
    MultilinearPoly,
};

/// Well-formed field elements have well-formed values.
pub proof fn lemma_vals_wf(s: Seq<crate::field::Fields>)
    requires
        all_wf(s),
    ensures
        evs_wf(vals(s)),
{
    assert forall|i: int| 0 <= i < vals(s).len() implies ev_wf(#[trigger] vals(s)[i]) by {
        assert(s[i].wf());
    }
}

/// Evaluating a multilinear polynomial at a Boolean point returns the
/// stored hypercube value at that point's index.
pub proof fn law_evaluate_on_hypercube(p: &MultilinearPoly, pts: Seq<ExtVal>)
    requires
        p.wf(),
        pts.len() == p.n_vars,
        all_bool(pts),
    ensures
        0 <= bool_index(pts) < p.evaluations@.len(),
        mle_eval(p.values(), pts) == p.values()[bool_index(pts)],
{
    lemma_vals_wf(p.evaluations@);
    lemma_eval_on_hypercube(p.values(), pts, p.n_vars as nat);
}

/// Fixing a prefix of the variables and then evaluating the rest equals
/// evaluating at the concatenated point: the law behind `partial_evaluate`
/// followed by `evaluate`.
pub proof fn law_partial_then_evaluate(
    p: &MultilinearPoly,
    folded: &MultilinearPoly,
    s: Seq<ExtVal>,
    t: Seq<ExtVal>,
)
    requires
        folded.values() == fold_many(p.values(), s),
    ensures
        mle_eval(folded.values(), t) == mle_eval(p.values(), s + t),
{
    lemma_fold_many_concat(p.values(), s, t);
}

/// The sum of the stored evaluations is the sum of the multilinear
/// extension over the whole Boolean hypercube.
pub proof fn law_sum_over_hypercube(p: &MultilinearPoly)
    requires
        p.wf(),
    ensures
        seq_sum(p.values()) == hyper_sum(p.values(), p.n_vars as nat),
{
    lemma_vals_wf(p.evaluations@);
    lemma_hyper_sum_is_seq_sum(p.values(), p.n_vars as nat);
}

/// Sumcheck round-message consistency for a multilinear polynomial: the
/// round polynomial's values at zero and one sum to the polynomial's
/// hypercube sum, which is what the verifier's per-round check demands of
/// an honest prover.
pub proof fn law_round_message_consistency(p: &MultilinearPoly)
    requires
        p.wf(),
        p.n_vars >= 1,
    ensures
        crate::field::ev_add(
            crate::mle::mle_round_msg(p.values())[0],
            crate::mle::mle_round_msg(p.values())[1],
        ) == seq_sum(p.values()),
{
    lemma_vals_wf(p.evaluations@);
    let e = p.values();
    let m = (e.len() / 2) as int;
    vstd::arithmetic::power2::lemma_pow2_unfold(p.n_vars as nat);
    crate::field::lemma_bmod_small(0);
    crate::field::lemma_bmod_small(1);
    assert(crate::field::ev_nat(0) == crate::field::ev_zero());
    assert(crate::field::ev_nat(1) == crate::field::ev_one());
    crate::mle::lemma_fold_once_zero(e);
    crate::mle::lemma_fold_once_one(e);
    crate::mle::lemma_seq_sum_concat(e.take(m), e.skip(m));
    assert(e.take(m) + e.skip(m) =~= e);
}

/// The folded prefix sums are an affine function of the challenge: over
/// the first `k` pairs, `sum(folded) == A - r * (A - B)` for the half sums
/// `A` and `B`.
proof fn lemma_fold_sum_affine_prefix(e: Seq<ExtVal>, r: ExtVal, k: int)
    requires
        e.len() % 2 == 0,
        0 <= k <= e.len() / 2,
    ensures
        ({
            let m = (e.len() / 2) as int;
            let a = seq_sum(e.take(k));
            let b = seq_sum(e.skip(m).take(k));
            seq_sum(crate::mle::fold_once(e, r).take(k)) == crate::field::ev_sub(
                a,
                crate::field::ev_mul(r, crate::field::ev_sub(a, b)),
            )
        }),
    decreases k,
{
    let m = (e.len() / 2) as int;
    let fold = crate::mle::fold_once(e, r);
    if k == 0 {
        assert(fold.take(0) =~= Seq::<ExtVal>::empty());
        assert(e.take(0) =~= Seq::<ExtVal>::empty());
        assert(e.skip(m).take(0) =~= Seq::<ExtVal>::empty());
        assert(crate::field::ev_sub(ev_zero(), ev_zero()) == ev_zero());
        crate::field::lemma_ev_mul_zero(r);
    } else {
        lemma_fold_sum_affine_prefix(e, r, k - 1);
        let a0 = seq_sum(e.take(k - 1));
        let b0 = seq_sum(e.skip(m).take(k - 1));
        let l = e[k - 1];
        let h = e[m + k - 1];
        assert(fold.take(k).drop_last() =~= fold.take(k - 1));
        assert(e.take(k).drop_last() =~= e.take(k - 1));
        assert(e.skip(m).take(k).drop_last() =~= e.skip(m).take(k - 1));
        assert(e.skip(m).take(k).last() == h);
        assert(fold.take(k).last() == crate::field::ev_sub(
            l,
            crate::field::ev_mul(r, crate::field::ev_sub(l, h)),
        ));
        crate::field::lemma_ev_add_sub_exchange(
            a0,
            crate::field::ev_mul(r, crate::field::ev_sub(a0, b0)),
            l,
            crate::field::ev_mul(r, crate::field::ev_sub(l, h)),
        );
        crate::field::lemma_ev_mul_distrib(
            r,
            crate::field::ev_sub(a0, b0),
            crate::field::ev_sub(l, h),
        );
        crate::field::lemma_ev_add_sub_exchange(a0, b0, l, h);
    }
}

/// Sumcheck round-polynomial folding for a multilinear polynomial: fixing
/// the first variable to any challenge `r` leaves a table whose sum is the
/// value at `r` of the line through the round message — the affine
/// function that is `m0` at zero and `m1` at one. This is what makes the
/// honest prover's next claimed sum match the verifier's interpolation of
/// the round polynomial.
pub proof fn law_folded_sum_is_round_polynomial(p: &MultilinearPoly, r: ExtVal)
    requires
        p.wf(),
        p.n_vars >= 1,
    ensures
        ({
            let m0 = crate::mle::mle_round_msg(p.values())[0];
            let m1 = crate::mle::mle_round_msg(p.values())[1];
            seq_sum(crate::mle::fold_once(p.values(), r)) == crate::field::ev_sub(
                m0,
                crate::field::ev_mul(r, crate::field::ev_sub(m0, m1)),
            )
        }),
{
    lemma_vals_wf(p.evaluations@);
    let e = p.values();
    let m = (e.len() / 2) as int;
    vstd::arithmetic::power2::lemma_pow2_unfold(p.n_vars as nat);
    crate::field::lemma_bmod_small(0);
    crate::field::lemma_bmod_small(1);
    assert(crate::field::ev_nat(0) == ev_zero());
    assert(crate::field::ev_nat(1) == crate::field::ev_one());
    crate::mle::lemma_fold_once_zero(e);
    crate::mle::lemma_fold_once_one(e);
    lemma_fold_sum_affine_prefix(e, r, m);
    assert(crate::mle::fold_once(e, r).take(m) =~= crate::mle::fold_once(e, r));
    assert(e.skip(m).take(m) =~= e.skip(m));
}

/// Barycentric evaluation of a two-value table is linear interpolation:
/// off the grid, the formula returns the value at `x` of the line through
/// `(0, y_0)` and `(1, y_1)` — the same affine function that
/// `law_folded_sum_is_round_polynomial` produces. The callers supply the
/// two denominators' inverses (every nonzero element of the field has one;
/// the library's inversion routine returns the witness).
pub proof fn law_barycentric_two_points(ys: Seq<ExtVal>, x: ExtVal, i0: ExtVal, i1: ExtVal)
    requires
        ys.len() == 2,
        evs_wf(ys),
        crate::field::ev_wf(x),
        !crate::poly_utils::on_grid(x, 2),
        crate::field::ev_wf(i0),
        crate::field::ev_wf(i1),
        crate::field::ev_mul(crate::field::ev_mul(crate::field::ev_neg(ev_one()), x), i0)
            == ev_one(),
        crate::field::ev_mul(crate::field::ev_sub(x, ev_one()), i1) == ev_one(),
    ensures
        crate::poly_utils::barycentric_spec(ys, x) == crate::field::ev_sub(
            ys[0],
            crate::field::ev_mul(x, crate::field::ev_sub(ys[0], ys[1])),
        ),
{
    broadcast use crate::field::group_ev_wf;

    let y0 = ys[0];
    let y1 = ys[1];
    crate::field::lemma_bmod_small(0);
    crate::field::lemma_bmod_small(1);
    assert(crate::field::ev_nat(0) == ev_zero());
    assert(crate::field::ev_nat(1) == ev_one());
    let negone = ev_neg(ev_one());
    // The vanishing polynomial is x * (x - 1).
    let xm1 = ev_sub(x, ev_one());
    assert(vanishing_prefix(x, 0) == ev_one());
    lemma_ev_mul_one(ev_sub(x, ev_zero()));
    lemma_ev_sub_zero(x);
    assert(vanishing_prefix(x, 1) == x);
    let v = ev_mul(x, xm1);
    assert(vanishing_prefix(x, 2) == v);
    // The node weights are -1 and 1; the denominators are -x and x - 1.
    assert(weight_prefix(0, 0) == ev_one());
    assert(weight_prefix(0, 1) == ev_one());
    assert(weight_prefix(0, 2) == ev_mul(ev_one(), ev_sub(ev_zero(), ev_one())));
    lemma_ev_mul_one(ev_sub(ev_zero(), ev_one()));
    assert(ev_sub(ev_zero(), ev_one()) == negone);
    assert(weight_prefix(0, 2) == negone);
    assert(weight_prefix(1, 0) == ev_one());
    assert(weight_prefix(1, 2) == weight_prefix(1, 1));
    assert(weight_prefix(1, 1) == ev_mul(ev_one(), ev_sub(ev_one(), ev_zero())));
    lemma_ev_mul_one(ev_sub(ev_one(), ev_zero()));
    lemma_ev_sub_zero(ev_one());
    assert(weight_prefix(1, 2) == ev_one());
    let den0 = ev_mul(negone, x);
    lemma_ev_sub_zero(x);
    assert(ev_mul(weight_prefix(0, 2), ev_sub(x, crate::field::ev_nat(0))) == den0);
    lemma_ev_mul_one(xm1);
    lemma_ev_mul_comm(ev_one(), xm1);
    let den1 = xm1;
    assert(ev_mul(weight_prefix(1, 2), ev_sub(x, crate::field::ev_nat(1))) == den1);
    // Neither denominator is zero, since each has an inverse.
    assert(ev_one() != ev_zero());
    if den0 == ev_zero() {
        lemma_ev_mul_zero(i0);
        assert(false);
    }
    if den1 == ev_zero() {
        lemma_ev_mul_zero(i1);
        assert(false);
    }
    // The terms are y_i times the denominators' inverses.
    lemma_ev_inv_unique(den0, i0);
    lemma_ev_inv_unique(den1, i1);
    let t0 = ev_mul(y0, i0);
    let t1 = ev_mul(y1, i1);
    assert(bary_term(ys, x, 0) == t0);
    assert(bary_term(ys, x, 1) == t1);
    assert(bary_sum(ys, x, 0) == ev_zero());
    lemma_ev_add_zero(t0);
    assert(bary_sum(ys, x, 1) == t0);
    assert(bary_sum(ys, x, 2) == crate::field::ev_add(t0, t1));
    assert(barycentric_spec(ys, x) == ev_mul(v, crate::field::ev_add(t0, t1)));
    // v * i0 == 1 - x: write v as (-1) * den0 * (x - 1) and cancel.
    lemma_ev_mul_neg_one(den0);
    lemma_ev_mul_neg_one(x);
    assert(ev_mul(negone, den0) == ev_neg(ev_neg(x)));
    assert(ev_neg(ev_neg(x)) == x) by {
        lemma_ev_sub_zero(x);
        lemma_ev_neg_sub(x, ev_zero());
        lemma_ev_neg_sub(ev_zero(), x);
    }
    let vi0 = ev_mul(v, i0);
    assert(vi0 == ev_mul(ev_mul(ev_mul(negone, den0), xm1), i0));
    lemma_ev_mul_assoc(negone, den0, xm1);
    assert(vi0 == ev_mul(ev_mul(negone, ev_mul(den0, xm1)), i0));
    lemma_ev_mul_assoc(negone, ev_mul(den0, xm1), i0);
    assert(vi0 == ev_mul(negone, ev_mul(ev_mul(den0, xm1), i0)));
    lemma_ev_mul_comm(den0, xm1);
    lemma_ev_mul_assoc(xm1, den0, i0);
    assert(ev_mul(ev_mul(den0, xm1), i0) == ev_mul(xm1, ev_mul(den0, i0)));
    lemma_ev_mul_one(xm1);
    lemma_ev_mul_comm(xm1, ev_one());
    assert(ev_mul(ev_mul(den0, xm1), i0) == xm1);
    lemma_ev_mul_neg_one(xm1);
    lemma_ev_neg_sub(x, ev_one());
    assert(vi0 == ev_sub(ev_one(), x));
    // v * i1 == x.
    let vi1 = ev_mul(v, i1);
    lemma_ev_mul_assoc(x, den1, i1);
    lemma_ev_mul_one(x);
    lemma_ev_mul_comm(x, ev_one());
    assert(vi1 == x);
    // Distribute and regroup into the line through the two values.
    lemma_ev_mul_distrib(v, t0, t1);
    assert(barycentric_spec(ys, x) == crate::field::ev_add(ev_mul(v, t0), ev_mul(v, t1)));
    lemma_ev_mul_comm(y0, i0);
    lemma_ev_mul_assoc(v, i0, y0);
    lemma_ev_mul_comm(v, t0);
    lemma_ev_mul_comm(i0, y0);
    lemma_ev_mul_comm(ev_mul(v, i0), y0);
    assert(ev_mul(v, t0) == ev_mul(y0, vi0)) by {
        lemma_ev_mul_assoc(y0, i0, v);
        lemma_ev_mul_comm(i0, v);
        lemma_ev_mul_comm(ev_mul(v, t0), ev_one());
        lemma_ev_mul_comm(t0, v);
        lemma_ev_mul_assoc(y0, v, i0);
        lemma_ev_mul_comm(y0, v);
        lemma_ev_mul_assoc(v, y0, i0);
    }
    assert(ev_mul(v, t1) == ev_mul(y1, vi1)) by {
        lemma_ev_mul_comm(t1, v);
        lemma_ev_mul_assoc(y1, i1, v);
        lemma_ev_mul_comm(i1, v);
        lemma_ev_mul_assoc(y1, v, i1);
        lemma_ev_mul_comm(y1, v);
        lemma_ev_mul_assoc(v, y1, i1);
    }
    // y0 * (1 - x) + y1 * x == y0 - x * (y0 - y1).
    lemma_ev_mul_distrib_sub(y0, ev_one(), x);
    lemma_ev_mul_one(y0);
    assert(ev_mul(y0, vi0) == ev_sub(y0, ev_mul(y0, x)));
    lemma_ev_sub_of_sub(y0, ev_mul(y0, x), ev_mul(y1, x));
    assert(crate::field::ev_add(ev_sub(y0, ev_mul(y0, x)), ev_mul(y1, x)) == ev_sub(
        y0,
        ev_sub(ev_mul(y0, x), ev_mul(y1, x)),
    )) by {
        crate::field::lemma_ev_add_sub_exchange(y0, ev_mul(y0, x), ev_mul(y1, x), ev_zero());
        lemma_ev_sub_zero(ev_mul(y1, x));
        crate::field::lemma_ev_add_zero(ev_mul(y0, x));
        lemma_ev_sub_of_sub(y0, ev_mul(y0, x), ev_mul(y1, x));
    }
    lemma_ev_mul_distrib_sub(x, y0, y1);
    lemma_ev_mul_comm(x, y0);
    lemma_ev_mul_comm(x, y1);
}

/// A packed position identifies one gate only: distinct gates of a layer
/// pack to distinct table indices.
proof fn lemma_gate_enc_injective(c: &LayeredCircuit, l: int, g1: int, g2: int)
    requires
        c.mle_requires(l),
        0 <= g1 < c.layers@[l].gates@.len(),
        0 <= g2 < c.layers@[l].gates@.len(),
        gate_enc(c, l, g1) == gate_enc(c, l, g2),
    ensures
        g1 == g2,
{
    let b = clog2(c.width_in(l));
    let d = pow2(2 * b) as int;
    lemma_clog2_covers(c.width_in(l));
    vstd::arithmetic::power2::lemma_pow2_adds(b, b);
    let gate1 = c.layers@[l].gates@[g1];
    let gate2 = c.layers@[l].gates@[g2];
    assert(gate_in_bounds(c.layers@[l].gates@[g1], c.width_in(l)));
    assert(gate_in_bounds(c.layers@[l].gates@[g2], c.width_in(l)));
    let r1 = gate1.inputs@[0] * pow2(b) + gate1.inputs@[1];
    let r2 = gate2.inputs@[0] * pow2(b) + gate2.inputs@[1];
    assert(0 <= r1 < d && 0 <= r2 < d) by (nonlinear_arith)
        requires
            r1 == gate1.inputs@[0] * pow2(b) + gate1.inputs@[1],
            r2 == gate2.inputs@[0] * pow2(b) + gate2.inputs@[1],
            gate1.inputs@[0] < pow2(b),
            gate1.inputs@[1] < pow2(b),
            gate2.inputs@[0] < pow2(b),
            gate2.inputs@[1] < pow2(b),
            d == pow2(b) * pow2(b),
            pow2(b) >= 1,
    ;
    let x = gate_enc(c, l, g1);
    vstd::arithmetic::div_mod::lemma_fundamental_div_mod_converse_div(x, d, g1, r1);
    vstd::arithmetic::div_mod::lemma_fundamental_div_mod_converse_div(x, d, g2, r2);
}

/// Circuit / selector consistency: at every Boolean point of the selector
/// tables, the add and mul extensions are each zero or one, never both
/// one, and each is one exactly when the layer has a gate of that
/// operation at the packed position the point encodes.
pub proof fn law_selector_consistency(
    c: &LayeredCircuit,
    l: int,
    add_mle: &MultilinearPoly,
    mul_mle: &MultilinearPoly,
    pts: Seq<ExtVal>,
)
    requires
        c.mle_requires(l),
        c.mle_ensures(l, (*add_mle, *mul_mle)),
        pts.len() == spec_num_vars(c, l),
        all_bool(pts),
    ensures
        ({
            let av = mle_eval(add_mle.values(), pts);
            let mv = mle_eval(mul_mle.values(), pts);
            let idx = bool_index(pts);
            &&& (av == ev_zero() || av == ev_one())
            &&& (mv == ev_zero() || mv == ev_one())
            &&& !(av == ev_one() && mv == ev_one())
            &&& (av == ev_one() <==> sel_is(c, l, true, idx))
            &&& (mv == ev_one() <==> sel_is(c, l, false, idx))
        }),
{
    let idx = bool_index(pts);
    law_evaluate_on_hypercube(add_mle, pts);
    law_evaluate_on_hypercube(mul_mle, pts);
    assert(add_mle.values()[idx] == add_mle.evaluations@[idx]@);
    assert(mul_mle.values()[idx] == mul_mle.evaluations@[idx]@);
    assert(ev_one() != ev_zero());
    if sel_is(c, l, true, idx) && sel_is(c, l, false, idx) {
        let g1 = choose|g: int|
            0 <= g < c.layers@[l].gates@.len() && crate::circuits::layered_circuit::gate_matches(
                c.layers@[l].gates@[g],
                true,
            ) && gate_enc(c, l, g) == idx;
        let g2 = choose|g: int|
            0 <= g < c.layers@[l].gates@.len() && crate::circuits::layered_circuit::gate_matches(
                c.layers@[l].gates@[g],
                false,
            ) && gate_enc(c, l, g) == idx;
        lemma_gate_enc_injective(c, l, g1, g2);
        assert(false);
    }
}


/// Every nonzero element of the field has a multiplicative inverse. This
/// is true of the field (the modulus is prime and the reducing binomial is
/// irreducible), but it is not derivable inside this development, which
/// states no primality fact; the inversion routine produces the witness
/// for any concrete element. Laws that must divide take it as a
/// hypothesis.
pub open spec fn field_has_inverses() -> bool {
    forall|v: ExtVal|
        #![trigger crate::field::ev_inv(v)]
        ev_wf(v) && v != ev_zero() ==> exists|w: ExtVal|
            ev_wf(w) && #[trigger] ev_mul(v, w) == ev_one()
}

/// Under the field hypothesis, `ev_inv` of a nonzero element is its
/// multiplicative inverse.
pub proof fn lemma_inverse_exists(v: ExtVal)
    requires
        field_has_inverses(),
        ev_wf(v),
        v != ev_zero(),
    ensures
        ev_wf(crate::field::ev_inv(v)),
        ev_mul(v, crate::field::ev_inv(v)) == ev_one(),
{
    let iv = crate::field::ev_inv(v);
    let w = choose|w: ExtVal| ev_wf(w) && ev_mul(v, w) == ev_one();
    assert(ev_wf(w) && ev_mul(v, w) == ev_one());
    lemma_ev_inv_unique(v, w);
}

/// Barycentric evaluation of a two-value table is the line through the
/// two values, at every point: on a node it returns the stored value,
/// which the line passes through; off the grid the formula reduces to the
/// line, the denominators' inverses being supplied by the field.
pub proof fn law_barycentric_is_line(ys: Seq<ExtVal>, x: ExtVal)
    requires
        field_has_inverses(),
        ys.len() == 2,
        evs_wf(ys),
        ev_wf(x),
    ensures
        barycentric_spec(ys, x) == ev_sub(ys[0], ev_mul(x, ev_sub(ys[0], ys[1]))),
{
    broadcast use crate::field::group_ev_wf;

    crate::field::lemma_bmod_small(0);
    crate::field::lemma_bmod_small(1);
    assert(crate::field::ev_nat(0) == ev_zero());
    assert(crate::field::ev_nat(1) == ev_one());
    let line = ev_sub(ys[0], ev_mul(x, ev_sub(ys[0], ys[1])));
    if on_grid(x, 2) {
        let gi = crate::poly_utils::grid_index(x, 2);
        assert(0 <= gi < 2 && x == crate::field::ev_nat(gi));
        if gi == 0 {
            crate::field::lemma_ev_mul_zero(ev_sub(ys[0], ys[1]));
            lemma_ev_sub_zero(ys[0]);
            assert(line == ys[0]);
        } else {
            lemma_ev_mul_one(ev_sub(ys[0], ys[1]));
            crate::field::lemma_ev_sub_cancel(ys[0], ys[1]);
            assert(line == ys[1]);
        }
        assert(barycentric_spec(ys, x) == ys[gi]);
    } else {
        let negone = ev_neg(ev_one());
        let den0 = ev_mul(negone, x);
        let den1 = ev_sub(x, ev_one());
        lemma_ev_mul_neg_one(x);
        assert(den0 == ev_neg(x));
        assert(ev_neg(x) == ev_sub(ev_zero(), x));
        if x == ev_zero() {
            assert(x == crate::field::ev_nat(0));
            assert(false);
        }
        if x == ev_one() {
            assert(x == crate::field::ev_nat(1));
            assert(false);
        }
        crate::field::lemma_ev_sub_zero_iff(ev_zero(), x);
        assert(den0 != ev_zero());
        crate::field::lemma_ev_sub_zero_iff(x, ev_one());
        assert(den1 != ev_zero());
        assert(ev_wf(den0));
        assert(ev_wf(den1));
        lemma_inverse_exists(den0);
        lemma_inverse_exists(den1);
        law_barycentric_two_points(ys, x, crate::field::ev_inv(den0), crate::field::ev_inv(den1));
    }
}

/// One honest round: the message's ends sum to the state's hypercube sum,
/// and the verifier's interpolation of the message at the challenge is the
/// folded state's hypercube sum.
proof fn lemma_mle_round_step(st: &MultilinearPoly, m: Seq<ExtVal>, r: ExtVal)
    requires
        field_has_inverses(),
        st.wf(),
        st.n_vars >= 1,
        m == mle_round_msg(st.values()),
        crate::field::ev_wf(r),
    ensures
        crate::field::ev_add(m[0], m[1]) == seq_sum(st.values()),
        barycentric_spec(m, r) == seq_sum(fold_once(st.values(), r)),
{
    law_round_message_consistency(st);
    lemma_seq_sum_wf(fold_once(st.values(), crate::field::ev_nat(0)));
    lemma_seq_sum_wf(fold_once(st.values(), crate::field::ev_nat(1)));
    assert(evs_wf(m)) by {
        assert(m[0] == seq_sum(fold_once(st.values(), crate::field::ev_nat(0))));
        assert(m[1] == seq_sum(fold_once(st.values(), crate::field::ev_nat(1))));
    }
    law_barycentric_is_line(m, r);
    law_folded_sum_is_round_polynomial(st, r);
}

/// The inductive invariant of an honest multilinear sumcheck run: after
/// `i` rounds the state is the original table folded at the first `i`
/// challenges, the verifier's expectation equals the state's hypercube
/// sum, and every round so far passes the verifier's check.
#[verifier::rlimit(100)]
#[verifier::spinoff_prover]
proof fn lemma_mle_trace_invariant(
    p: &MultilinearPoly,
    polys: Seq<Vec<Fields>>,
    challenges: Seq<Fields>,
    states: Seq<MultilinearPoly>,
    s0: ExtVal,
    h1: Seq<int>,
    i: int,
)
    requires
        field_has_inverses(),
        p.wf(),
        s0 == seq_sum(p.values()),
        polys.len() == p.n_vars,
        challenges.len() == p.n_vars,
        forall|j: int| 0 <= j < challenges.len() ==> (#[trigger] challenges[j]).wf(),
        forall|j: int|
            0 <= j < challenges.len() ==> (#[trigger] challenges[j])@ == round_challenge(
                h1,
                polys,
                j,
            ),
        honest_trace(*p, states, polys, challenges, states.last()),
        0 <= i <= polys.len(),
    ensures
        states[i].wf(),
        states[i].n_vars == p.n_vars - i,
        states[i].values() == fold_many(p.values(), vals(challenges).take(i)),
        expected_at(s0, h1, polys, i) == seq_sum(states[i].values()),
        forall|j: int|
            0 <= j < i ==> {
                let m = vals((#[trigger] polys[j])@);
                &&& m.len() >= 2
                &&& m.len() <= crate::field::P
                &&& crate::field::ev_add(m[0], m[1]) == expected_at(s0, h1, polys, j)
            },
    decreases i,
{
    let cv = vals(challenges);
    if i == 0 {
        assert(states[0] == *p);
        assert(cv.take(0) =~= Seq::<ExtVal>::empty());
        assert(fold_many(p.values(), Seq::<ExtVal>::empty()) == p.values());
    } else {
        lemma_mle_trace_invariant(p, polys, challenges, states, s0, h1, i - 1);
        let st = states[i - 1];
        let r = round_challenge(h1, polys, i - 1);
        assert(challenges[i - 1]@ == r);
        assert(crate::field::ev_wf(r));
        // The honest trace at round i-1.
        assert(st.sc_wf() && vals(polys[i - 1]@) == st.sc_round_msg() && polys[i - 1]@.len()
            == st.sc_msg_len() && st.sc_step_post(challenges[i - 1]@, &states[i]));
        let m = vals(polys[i - 1]@);
        assert(m == mle_round_msg(st.values()));
        assert(st.n_vars >= 1);
        lemma_mle_round_step(&st, m, r);
        // The round check passes, and the next expectation is the folded
        // state's hypercube sum.
        assert(crate::field::ev_add(m[0], m[1]) == expected_at(s0, h1, polys, i - 1));
        assert(expected_at(s0, h1, polys, i) == seq_sum(fold_once(st.values(), r)));
        assert(states[i].values() == fold_once(st.values(), r));
        // The folded state is the original folded at one more challenge.
        lemma_fold_many_snoc(p.values(), cv.take(i - 1), r);
        assert(cv.take(i) =~= cv.take(i - 1).push(cv[i - 1]));
        assert(cv[i - 1] == r);
    }
}

/// Sumcheck completeness for a multilinear polynomial: a proof produced by
/// an honest prover for the true hypercube sum is accepted by the
/// verifier, when both transcripts start from the same history `h`. The
/// hypotheses are exactly what `SumCheck::prove` ensures of its output —
/// the honest trace of round messages and foldings, and the
/// transcript-derived challenges — plus the field's inverse-existence
/// fact.
pub proof fn law_sumcheck_completeness(
    p: &MultilinearPoly,
    proof: &SumCheckProof,
    states: Seq<MultilinearPoly>,
    h: Seq<int>,
)
    requires
        field_has_inverses(),
        p.wf(),
        proof.claimed_sum@ == seq_sum(p.values()),
        proof.round_polynomials@.len() == p.n_vars,
        proof.challenges@.len() == p.n_vars,
        forall|i: int|
            0 <= i < proof.challenges@.len() ==> (#[trigger] proof.challenges@[i]).wf(),
        forall|i: int|
            0 <= i < proof.challenges@.len() ==> (#[trigger] proof.challenges@[i])@
                == round_challenge(
                h + p.sc_commit_enc() + crate::transcript::enc_ext(proof.claimed_sum@),
                proof.round_polynomials@,
                i,
            ),
        honest_trace(*p, states, proof.round_polynomials@, proof.challenges@, states.last()),
    ensures
        crate::sumcheck::sumcheck_accepts(p, proof, h),
{
    let polys = proof.round_polynomials@;
    let n = polys.len() as int;
    let s0 = proof.claimed_sum@;
    let h1 = h + p.sc_commit_enc() + crate::transcript::enc_ext(s0);
    let cv = vals(proof.challenges@);
    lemma_mle_trace_invariant(p, polys, proof.challenges@, states, s0, h1, n);
    // Every round check passes.
    assert(crate::sumcheck::rounds_ok(s0, h1, polys));
    // The final expectation is the fully folded table's single value,
    // which is the oracle evaluation at the derived challenges.
    let last = states[n];
    assert(last.n_vars == 0);
    assert(last.evaluations@.len() == vstd::arithmetic::power2::pow2(0)) by {
        assert(last.wf());
    }
    assert(vstd::arithmetic::power2::pow2(0) == 1) by {
        vstd::arithmetic::power2::lemma2_to64();
    }
    lemma_vals_wf(last.evaluations@);
    let v = last.values()[0];
    assert(last.values() =~= seq![v]);
    assert(seq![v].drop_last() =~= Seq::<ExtVal>::empty());
    assert(seq_sum(Seq::<ExtVal>::empty()) == ev_zero());
    assert(seq_sum(last.values()) == crate::field::ev_add(ev_zero(), v));
    crate::field::lemma_ev_add_zero(v);
    assert(expected_at(s0, h1, polys, n) == v);
    assert(cv.take(n) =~= cv);
    assert(round_challenges(h1, polys) =~= cv);
    assert(p.sc_eval(round_challenges(h1, polys)) == mle_eval(p.values(), cv));
    assert(mle_eval(p.values(), cv) == fold_many(p.values(), cv)[0]);
    assert(fold_many(p.values(), cv) == last.values());
}


/// Proof shape for a multilinear polynomial: every row of an honest trace
/// has exactly two entries (the round polynomials have degree one).
pub proof fn law_mle_proof_rows(
    p: &MultilinearPoly,
    states: Seq<MultilinearPoly>,
    rows: Seq<Vec<Fields>>,
    challenges: Seq<Fields>,
)
    requires
        honest_trace(*p, states, rows, challenges, states.last()),
    ensures
        forall|i: int| 0 <= i < rows.len() ==> (#[trigger] rows[i])@.len() == 2,
{
    assert forall|i: int| 0 <= i < rows.len() implies (#[trigger] rows[i])@.len() == 2 by {
        assert(rows[i]@.len() == states[i].sc_msg_len());
    }
}

/// Proof shape for a freshly padded structure: the rows of an honest trace
/// have the inner structure's message length while the inner rounds run,
/// and `max_var_degree + 2` entries during the padding rounds — for a
/// product-style constituent of degree two, lengths three and four.
pub proof fn law_padded_vpoly_proof_rows(
    p: &crate::padded_sumcheck::PaddedSumcheck<crate::vpoly::VPoly>,
    states: Seq<crate::padded_sumcheck::PaddedSumcheck<crate::vpoly::VPoly>>,
    rows: Seq<Vec<Fields>>,
    challenges: Seq<Fields>,
    i: int,
)
    requires
        p.curr_round == 1,
        honest_trace(*p, states, rows, challenges, states.last()),
        0 <= i < rows.len(),
    ensures
        states[i].curr_round == i + 1,
        states[i].n == p.n,
        states[i].inner.max_degree == p.inner.max_degree,
        rows[i]@.len() == (if i < p.n {
            (p.inner.max_degree + 1) as int
        } else {
            (p.inner.max_degree + 2) as int
        }),
    decreases i,
{
    if i == 0 {
        assert(states[0] == *p);
        assert(rows[0]@.len() == states[0].sc_msg_len());
    } else {
        law_padded_vpoly_proof_rows(p, states, rows, challenges, i - 1);
        let pre = states[i - 1];
        let post = states[i];
        assert(pre.sc_step_post(challenges[i - 1]@, &post));
        assert(post.n == pre.n && post.pad_count == pre.pad_count && post.curr_round
            == pre.curr_round + 1);
        if pre.curr_round < pre.n {
            assert(pre.inner.sc_step_post(challenges[i - 1]@, &post.inner));
            assert(post.inner.max_degree == pre.inner.max_degree);
        } else {
            assert(post.inner == pre.inner);
        }
        assert(rows[i]@.len() == post.sc_msg_len());
    }
}

} // verus!
