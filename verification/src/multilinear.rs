//! The multilinear-extension capability: a uniform interface to a
//! polynomial given by its Boolean-hypercube values, with full and partial
//! evaluation, a hypercube sum, and transcript commitment.
use vstd::prelude::*;

verus! {

use crate::field::{ExtVal, Fields};
use crate::mle::{
    all_wf, lemma_fold_many_concat, mle_eval, seq_sum, vals, MultilinearPoly,
};
use crate::transcript::{enc_fields_seq, Transcript};
use crate::vpoly::VPoly;

/// A polynomial presented through its multilinear-extension interface.
///
/// The spec methods are the mathematical model: `mx_eval` is the value at a
/// full point, and `partial_evaluate` is pinned to it — fixing a prefix and
/// then evaluating the rest equals evaluating at the concatenated point.
pub trait MultilinearExtension: Sized {
    /// Structural well-formedness.
    spec fn mx_wf(&self) -> bool;

    /// Number of variables.
    spec fn mx_num_vars(&self) -> nat;

    /// Bound on the degree in each variable.
    spec fn mx_max_degree(&self) -> nat;

    /// The value at a full evaluation point.
    spec fn mx_eval(&self, pts: Seq<ExtVal>) -> ExtVal;

    /// The hypercube sum.
    spec fn mx_sum(&self) -> ExtVal;

    /// What committing appends to a transcript history.
    spec fn mx_commit_enc(&self) -> Seq<int>;

    /// Fix all variables.
    fn evaluate(&self, points: &[Fields]) -> (r: Fields)
        requires
            self.mx_wf(),
            points@.len() == self.mx_num_vars(),
            all_wf(points@),
        ensures
            r.wf(),
            r@ == self.mx_eval(vals(points@)),
    ;

    /// Partially fix variables starting from the first.
    fn partial_evaluate(&self, points: &[Fields]) -> (r: Self)
        requires
            self.mx_wf(),
            points@.len() <= self.mx_num_vars(),
            all_wf(points@),
        ensures
            r.mx_wf(),
            r.mx_num_vars() == self.mx_num_vars() - points@.len(),
            r.mx_max_degree() == self.mx_max_degree(),
            forall|q: Seq<ExtVal>| #[trigger] r.mx_eval(q) == self.mx_eval(vals(points@) + q),
    ;

    /// The max variable degree.
    fn max_degree(&self) -> (r: usize)
        requires
            self.mx_wf(),
        ensures
            r == self.mx_max_degree(),
    ;

    /// The sum of evaluations over the Boolean hypercube.
    fn sum_over_hypercube(&self) -> (r: Fields)
        requires
            self.mx_wf(),
        ensures
            r.wf(),
            !r.is_base(),
            r@ == self.mx_sum(),
    ;

    /// The number of variables of the polynomial.
    fn num_vars(&self) -> (r: usize)
        requires
            self.mx_wf(),
        ensures
            r == self.mx_num_vars(),
    ;

    /// Commit the structure to the transcript.
    fn commit_to_transcript(&self, transcript: &mut Transcript)
        requires
            self.mx_wf(),
        ensures
            final(transcript).history() == old(transcript).history() + self.mx_commit_enc(),
    ;
}

impl MultilinearExtension for MultilinearPoly {
    open spec fn mx_wf(&self) -> bool {
        self.wf()
    }

    open spec fn mx_num_vars(&self) -> nat {
        self.n_vars as nat
    }

    open spec fn mx_max_degree(&self) -> nat {
        1
    }

    open spec fn mx_eval(&self, pts: Seq<ExtVal>) -> ExtVal {
        mle_eval(self.values(), pts)
    }

    open spec fn mx_sum(&self) -> ExtVal {
        seq_sum(self.values())
    }

    open spec fn mx_commit_enc(&self) -> Seq<int> {
        enc_fields_seq(self.evaluations@)
    }

    fn evaluate(&self, points: &[Fields]) -> (r: Fields) {
        MultilinearPoly::evaluate(self, points)
    }

    fn partial_evaluate(&self, points: &[Fields]) -> (r: Self) {
        let r = MultilinearPoly::partial_evaluate(self, points);
        proof {
            assert forall|q: Seq<ExtVal>| #[trigger] r.mx_eval(q) == self.mx_eval(
                vals(points@) + q,
            ) by {
                lemma_fold_many_concat(self.values(), vals(points@), q);
            }
        }
        r
    }

    fn max_degree(&self) -> (r: usize) {
        MultilinearPoly::max_degree(self)
    }

    fn sum_over_hypercube(&self) -> (r: Fields) {
        MultilinearPoly::sum_over_hypercube(self)
    }

    fn num_vars(&self) -> (r: usize) {
        MultilinearPoly::num_vars(self)
    }

    fn commit_to_transcript(&self, transcript: &mut Transcript) {
        MultilinearPoly::commit_to_transcript(self, transcript)
    }
}

impl MultilinearExtension for VPoly {
    open spec fn mx_wf(&self) -> bool {
        self.wf()
    }

    open spec fn mx_num_vars(&self) -> nat {
        self.num_vars as nat
    }

    open spec fn mx_max_degree(&self) -> nat {
        self.max_degree as nat
    }

    open spec fn mx_eval(&self, pts: Seq<ExtVal>) -> ExtVal {
        self.vp_eval(pts)
    }

    open spec fn mx_sum(&self) -> ExtVal {
        self.col_sum(crate::vpoly::pow2_len(self) as int)
    }

    open spec fn mx_commit_enc(&self) -> Seq<int> {
        self.commit_enc()
    }

    fn evaluate(&self, points: &[Fields]) -> (r: Fields) {
        VPoly::evaluate(self, points)
    }

    fn partial_evaluate(&self, points: &[Fields]) -> (r: Self) {
        let r = VPoly::partial_evaluate(self, points);
        proof {
            assert forall|q: Seq<ExtVal>| #[trigger] r.mx_eval(q) == self.mx_eval(
                vals(points@) + q,
            ) by {
                assert forall|i: int| 0 <= i < self.mles@.len() implies r.row_at(q)[i]
                    == self.row_at(vals(points@) + q)[i] by {
                    lemma_fold_many_concat(self.mles@[i].values(), vals(points@), q);
                }
                assert(r.row_at(q) =~= self.row_at(vals(points@) + q));
            }
        }
        r
    }

    fn max_degree(&self) -> (r: usize) {
        VPoly::max_degree(self)
    }

    fn sum_over_hypercube(&self) -> (r: Fields) {
        VPoly::sum_over_hypercube(self)
    }

    fn num_vars(&self) -> (r: usize) {
        VPoly::num_vars(self)
    }

    fn commit_to_transcript(&self, transcript: &mut Transcript) {
        VPoly::commit_to_transcript(self, transcript)
    }
}

} // verus!
