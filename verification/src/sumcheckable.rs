//! The `Sumcheckable` capability: the prover-side state machine that any
//! polynomial presents to the sumcheck driver.
use vstd::prelude::*;

verus! {

use vstd::arithmetic::power2::pow2;
use crate::field::{ev_nat, ExtVal, Fields};
use crate::mle::{
    all_wf, evs_wf, fold_once, lemma_fold_many_concat, lemma_fold_many_snoc, mle_eval,
    mle_round_msg, seq_sum, vals, MultilinearPoly,
};
use crate::transcript::{enc_fields_seq, Transcript};
use crate::vpoly::{CombineExpr, VPoly};

/// A structure the sumcheck protocol can be run over.
///
/// `sc_rounds` is the number of rounds left; `receive_challenge` fixes the
/// first remaining variable and decreases it. `sc_round_msg` is the current
/// round polynomial in evaluation form, and `sc_eval` the full evaluation
/// used by the verifier's oracle check.
pub trait Sumcheckable: Sized {
    /// Structural well-formedness.
    spec fn sc_wf(&self) -> bool;

    /// Rounds remaining.
    spec fn sc_rounds(&self) -> nat;

    /// Degree bound of the univariate round polynomial.
    spec fn sc_max_var_degree(&self) -> nat;

    /// Length of the current round message.
    spec fn sc_msg_len(&self) -> nat;

    /// The current round message: the round polynomial's values at
    /// `0, 1, ...`.
    spec fn sc_round_msg(&self) -> Seq<ExtVal>;

    /// Full evaluation at a point of as many coordinates as there are
    /// rounds left.
    spec fn sc_eval(&self, pts: Seq<ExtVal>) -> ExtVal;

    /// Whether a full evaluation is available in this state.
    spec fn sc_eval_ok(&self) -> bool;

    /// What committing appends to a transcript history.
    spec fn sc_commit_enc(&self) -> Seq<int>;

    /// The transition relation of `receive_challenge`: how the state after
    /// receiving `challenge` relates to the state before. Each
    /// implementation pins the next state completely, so a caller that
    /// chains these relations knows the whole folding history.
    spec fn sc_step_post(&self, challenge: ExtVal, post: &Self) -> bool;

    /// Number of sumcheck rounds left.
    fn no_of_rounds(&self) -> (r: usize)
        requires
            self.sc_wf(),
        ensures
            r == self.sc_rounds(),
    ;

    /// Max variable degree (determines the size of the round polynomial).
    fn max_var_degree(&self) -> (r: usize)
        requires
            self.sc_wf(),
        ensures
            r == self.sc_max_var_degree(),
    ;

    /// Returns the round message based on the current state.
    fn round_message(&self) -> (r: Vec<Fields>)
        requires
            self.sc_wf(),
            self.sc_rounds() > 0,
        ensures
            all_wf(r@),
            r@.len() == self.sc_msg_len(),
            2 <= r@.len() <= self.sc_max_var_degree() + 2,
            vals(r@) == self.sc_round_msg(),
    ;

    /// Receives a challenge: fixes the first remaining variable to it. The
    /// new state is the old state folded at the challenge: its transition
    /// relation holds, and evaluating the new state at any remaining point
    /// equals evaluating the old state at the challenge-prefixed point.
    fn receive_challenge(&mut self, challenge: &Fields)
        requires
            old(self).sc_wf(),
            old(self).sc_rounds() > 0,
            challenge.wf(),
        ensures
            final(self).sc_wf(),
            final(self).sc_rounds() == old(self).sc_rounds() - 1,
            final(self).sc_max_var_degree() == old(self).sc_max_var_degree(),
            final(self).sc_rounds() > 0 ==> final(self).sc_eval_ok(),
            old(self).sc_step_post(challenge@, final(self)),
            forall|q: Seq<ExtVal>|
                evs_wf(q) && q.len() == old(self).sc_rounds() - 1
                    ==> #[trigger] final(self).sc_eval(q) == old(self).sc_eval(
                    seq![challenge@] + q,
                ),
    ;

    /// Evaluates the structure at a point; needed for the oracle check.
    fn eval(&self, point: &[Fields]) -> (r: Fields)
        requires
            self.sc_wf(),
            self.sc_eval_ok(),
            point@.len() == self.sc_rounds(),
            all_wf(point@),
        ensures
            r.wf(),
            r@ == self.sc_eval(vals(point@)),
    ;

    /// Commits the state to the transcript.
    fn commit(&self, transcript: &mut Transcript)
        requires
            self.sc_wf(),
        ensures
            final(transcript).history() == old(transcript).history() + self.sc_commit_enc(),
    ;
}

impl Sumcheckable for MultilinearPoly {
    open spec fn sc_wf(&self) -> bool {
        self.wf()
    }

    open spec fn sc_rounds(&self) -> nat {
        self.n_vars as nat
    }

    open spec fn sc_max_var_degree(&self) -> nat {
        1
    }

    open spec fn sc_msg_len(&self) -> nat {
        2
    }

    open spec fn sc_round_msg(&self) -> Seq<ExtVal> {
        mle_round_msg(self.values())
    }

    open spec fn sc_eval(&self, pts: Seq<ExtVal>) -> ExtVal {
        mle_eval(self.values(), pts)
    }

    open spec fn sc_eval_ok(&self) -> bool {
        true
    }

    open spec fn sc_commit_enc(&self) -> Seq<int> {
        enc_fields_seq(self.evaluations@)
    }

    /// The new state is the table folded once at the challenge.
    open spec fn sc_step_post(&self, challenge: ExtVal, post: &Self) -> bool {
        &&& post.wf()
        &&& post.n_vars == self.n_vars - 1
        &&& post.values() == fold_once(self.values(), challenge)
    }

    fn no_of_rounds(&self) -> (r: usize) {
        self.num_vars()
    }

    fn max_var_degree(&self) -> (r: usize) {
        MultilinearPoly::max_degree(self)
    }

    fn round_message(&self) -> (r: Vec<Fields>) {
        let mut out: Vec<Fields> = Vec::new();
        let mut p: usize = 0;
        while p < 2
            invariant
                0 <= p <= 2,
                self.wf(),
                self.n_vars >= 1,
                out@.len() == p,
                all_wf(out@),
                forall|j: int|
                    0 <= j < p ==> (#[trigger] out@[j])@ == seq_sum(
                        fold_once(self.values(), ev_nat(j)),
                    ),
            decreases 2 - p,
        {
            let point = vec![Fields::base_from_u64(p as u64)];
            let folded = MultilinearPoly::partial_evaluate(self, point.as_slice());
            proof {
                assert(Seq::<ExtVal>::empty().push(point@[0]@) =~= vals(point@));
                lemma_fold_many_snoc(self.values(), Seq::empty(), point@[0]@);
            }
            let s = MultilinearPoly::sum_over_hypercube(&folded);
            out.push(s);
            p = p + 1;
        }
        proof {
            assert(vals(out@) =~= mle_round_msg(self.values()));
        }
        out
    }

    fn receive_challenge(&mut self, challenge: &Fields) {
        let point = vec![*challenge];
        let folded = MultilinearPoly::partial_evaluate(self, point.as_slice());
        proof {
            assert(Seq::<ExtVal>::empty().push(point@[0]@) =~= vals(point@));
            lemma_fold_many_snoc(self.values(), Seq::empty(), point@[0]@);
            assert(folded.values() == fold_once(self.values(), challenge@));
            assert forall|q: Seq<ExtVal>|
                evs_wf(q) && q.len() == self.sc_rounds() - 1 implies #[trigger] folded.sc_eval(q)
                == self.sc_eval(seq![challenge@] + q) by {
                lemma_fold_many_concat(self.values(), seq![challenge@], q);
                assert(Seq::<ExtVal>::empty().push(challenge@) =~= seq![challenge@]);
            }
        }
        *self = folded;
    }

    fn eval(&self, point: &[Fields]) -> (r: Fields) {
        MultilinearPoly::evaluate(self, point)
    }

    fn commit(&self, transcript: &mut Transcript) {
        MultilinearPoly::commit_to_transcript(self, transcript)
    }
}

/// The column sum over the first `n` indices of a set of evaluation
/// tables, combined by the expression.
pub open spec fn combined_col_sum(c: std::rc::Rc<CombineExpr>, tables: Seq<Seq<ExtVal>>, n: int) -> ExtVal
    decreases n,
{
    if n <= 0 {
        crate::field::ev_zero()
    } else {
        crate::field::ev_add(
            combined_col_sum(c, tables, n - 1),
            c.eval_spec(Seq::new(tables.len(), |j: int| tables[j][n - 1])),
        )
    }
}

/// The constituent tables of a virtual polynomial.
pub open spec fn vp_tables(v: &VPoly) -> Seq<Seq<ExtVal>> {
    Seq::new(v.mles@.len() as nat, |j: int| v.mles@[j].values())
}

/// The constituent tables, each folded once at `r`.
pub open spec fn vp_fold_tables(v: &VPoly, r: ExtVal) -> Seq<Seq<ExtVal>> {
    Seq::new(v.mles@.len() as nat, |j: int| fold_once(v.mles@[j].values(), r))
}

/// A virtual polynomial's column sum is the combined column sum of its
/// tables.
proof fn lemma_col_sum_tables(v: &VPoly, n: int)
    requires
        v.wf(),
        n <= crate::vpoly::pow2_len(v),
    ensures
        v.col_sum(n) == combined_col_sum(v.combine_fn, vp_tables(v), n),
    decreases n,
{
    if n > 0 {
        lemma_col_sum_tables(v, n - 1);
        assert forall|j: int| 0 <= j < v.mles@.len() implies #[trigger] v.column(n - 1)[j]
            == Seq::new(vp_tables(v).len(), |j: int| vp_tables(v)[j][n - 1])[j] by {
            assert(v.mles@[j].evaluations@.len() == crate::vpoly::pow2_len(v));
            assert(vp_tables(v)[j][n - 1] == v.mles@[j].values()[n - 1]);
        }
        assert(v.column(n - 1) =~= Seq::new(
            vp_tables(v).len(),
            |j: int| vp_tables(v)[j][n - 1],
        ));
    }
}

impl Sumcheckable for VPoly {
    open spec fn sc_wf(&self) -> bool {
        self.wf() && 1 <= self.max_degree <= usize::MAX - 2
    }

    open spec fn sc_rounds(&self) -> nat {
        self.num_vars as nat
    }

    open spec fn sc_max_var_degree(&self) -> nat {
        self.max_degree as nat
    }

    open spec fn sc_msg_len(&self) -> nat {
        (self.max_degree + 1) as nat
    }

    open spec fn sc_round_msg(&self) -> Seq<ExtVal> {
        Seq::new(
            (self.max_degree + 1) as nat,
            |p: int| combined_col_sum(
                self.combine_fn,
                vp_fold_tables(self, ev_nat(p)),
                (pow2(self.num_vars as nat) / 2) as int,
            ),
        )
    }

    open spec fn sc_eval(&self, pts: Seq<ExtVal>) -> ExtVal {
        self.vp_eval(pts)
    }

    open spec fn sc_eval_ok(&self) -> bool {
        true
    }

    open spec fn sc_commit_enc(&self) -> Seq<int> {
        self.commit_enc()
    }

    /// The new state folds every constituent table once at the challenge
    /// and keeps the combining expression and the declared degree.
    open spec fn sc_step_post(&self, challenge: ExtVal, post: &Self) -> bool {
        &&& post.wf()
        &&& post.num_vars == self.num_vars - 1
        &&& post.max_degree == self.max_degree
        &&& post.combine_fn == self.combine_fn
        &&& post.mles@.len() == self.mles@.len()
        &&& forall|i: int|
            0 <= i < self.mles@.len() ==> (#[trigger] post.mles@[i]).values() == fold_once(
                self.mles@[i].values(),
                challenge,
            )
    }

    fn no_of_rounds(&self) -> (r: usize) {
        self.num_vars()
    }

    fn max_var_degree(&self) -> (r: usize) {
        VPoly::max_degree(self)
    }

    fn round_message(&self) -> (r: Vec<Fields>) {
        let deg = VPoly::max_degree(self);
        let mut out: Vec<Fields> = Vec::new();
        let mut p: usize = 0;
        while p < deg + 1
            invariant
                0 <= p <= deg + 1,
                deg == self.max_degree,
                self.sc_wf(),
                self.num_vars >= 1,
                out@.len() == p,
                all_wf(out@),
                forall|j: int|
                    0 <= j < p ==> (#[trigger] out@[j])@ == combined_col_sum(
                        self.combine_fn,
                        vp_fold_tables(self, ev_nat(j)),
                        (pow2(self.num_vars as nat) / 2) as int,
                    ),
            decreases deg + 1 - p,
        {
            let point = vec![Fields::base_from_u64(p as u64)];
            let folded = VPoly::partial_evaluate(self, point.as_slice());
            let s = VPoly::sum_over_hypercube(&folded);
            proof {
                assert forall|j: int| 0 <= j < folded.mles@.len() implies (
                #[trigger] folded.mles@[j]).values() == fold_once(
                    self.mles@[j].values(),
                    ev_nat(p as int),
                ) by {
                    assert(Seq::<ExtVal>::empty().push(point@[0]@) =~= vals(point@));
                    lemma_fold_many_snoc(self.mles@[j].values(), Seq::empty(), point@[0]@);
                }
                lemma_col_sum_tables(&folded, crate::vpoly::pow2_len(&folded) as int);
                assert(vp_tables(&folded) =~= vp_fold_tables(self, ev_nat(p as int)));
                vstd::arithmetic::power2::lemma_pow2_unfold(self.num_vars as nat);
                assert(crate::vpoly::pow2_len(&folded) == pow2(self.num_vars as nat) / 2);
            }
            out.push(s);
            p = p + 1;
        }
        proof {
            assert(vals(out@) =~= self.sc_round_msg());
        }
        out
    }

    fn receive_challenge(&mut self, challenge: &Fields) {
        let point = vec![*challenge];
        let folded = VPoly::partial_evaluate(self, point.as_slice());
        proof {
            assert forall|i: int| 0 <= i < self.mles@.len() implies (#[trigger] folded.mles@[i])
                .values() == fold_once(self.mles@[i].values(), challenge@) by {
                assert(Seq::<ExtVal>::empty().push(point@[0]@) =~= vals(point@));
                lemma_fold_many_snoc(self.mles@[i].values(), Seq::empty(), point@[0]@);
            }
            assert forall|q: Seq<ExtVal>|
                evs_wf(q) && q.len() == self.sc_rounds() - 1 implies #[trigger] folded.sc_eval(q)
                == self.sc_eval(seq![challenge@] + q) by {
                assert forall|i: int| 0 <= i < self.mles@.len() implies folded.row_at(q)[i]
                    == self.row_at(seq![challenge@] + q)[i] by {
                    lemma_fold_many_concat(self.mles@[i].values(), seq![challenge@], q);
                    assert(Seq::<ExtVal>::empty().push(challenge@) =~= seq![challenge@]);
                    lemma_fold_many_snoc(self.mles@[i].values(), Seq::empty(), challenge@);
                }
                assert(folded.row_at(q) =~= self.row_at(seq![challenge@] + q));
            }
        }
        *self = folded;
    }

    fn eval(&self, point: &[Fields]) -> (r: Fields) {
        VPoly::evaluate(self, point)
    }

    fn commit(&self, transcript: &mut Transcript) {
        VPoly::commit_to_transcript(self, transcript)
    }
}

} // verus!
