//! The padded-sumcheck adapter.
//!
//! Given an inner `Sumcheckable` of `n` rounds and a pad count `p >= 1`,
//! the adapter runs `n + p` rounds for the polynomial
//! `f(x_1, ..., x_n) * x_{n+1} * ... * x_{n+p}`: the first `n` rounds are
//! forwarded to the inner structure; once the `n`-th challenge arrives the
//! inner evaluation is collapsed into one stored value, and every padding
//! round works on that value alone.
use vstd::prelude::*;

verus! {

use crate::field::{bmod, ev_mul, ev_nat, BaseElem, ExtElem, ExtVal, Fields};
use crate::mle::{all_wf, vals};
use crate::sumcheckable::Sumcheckable;
use crate::transcript::{enc_base, Transcript};
use crate::vpoly::{prefix_product_spec, product_spec};

/// A `Sumcheckable` extended by `pad_count` extra multiplied-in variables.
#[derive(Clone)]
pub struct PaddedSumcheck<S> {
    /// The wrapped structure.
    pub inner: S,
    /// The collapsed inner evaluation, present from the padding phase on.
    pub eval: Option<ExtElem>,
    /// The inner structure's round count at construction.
    pub n: usize,
    /// How many padding rounds follow the inner rounds.
    pub pad_count: usize,
    /// The round about to be played, starting from one.
    pub curr_round: usize,
}

impl<S: Sumcheckable> PaddedSumcheck<S> {
    /// The collapsed evaluation carried through the padding rounds.
    pub open spec fn stored_eval(&self) -> ExtVal {
        match self.eval {
            Some(e) => e@,
            None => crate::field::ev_zero(),
        }
    }

    /// Wraps an inner structure, extending its round count by `pad_count`.
    pub fn new(inner: S, pad_count: usize) -> (r: Self)
        requires
            inner.sc_wf(),
            inner.sc_eval_ok(),
            inner.sc_rounds() >= 1,
            pad_count >= 1,
            inner.sc_rounds() + pad_count <= usize::MAX - 1,
            inner.sc_max_var_degree() <= usize::MAX - 2,
        ensures
            r.sc_wf(),
            r.sc_eval_ok(),
            r.inner == inner,
            r.pad_count == pad_count,
            r.curr_round == 1,
            r.n == inner.sc_rounds(),
            r.sc_rounds() == inner.sc_rounds() + pad_count,
            r.sc_max_var_degree() == inner.sc_max_var_degree(),
    {
        let n = inner.no_of_rounds();
        PaddedSumcheck { n, pad_count, inner, curr_round: 1, eval: None }
    }
}

impl<S: Sumcheckable> Sumcheckable for PaddedSumcheck<S> {
    open spec fn sc_wf(&self) -> bool {
        &&& self.inner.sc_wf()
        &&& self.inner.sc_eval_ok()
        &&& self.pad_count >= 1
        &&& self.n >= 1
        &&& self.n + self.pad_count <= usize::MAX - 1
        &&& self.inner.sc_max_var_degree() <= usize::MAX - 2
        &&& 1 <= self.curr_round <= self.n + self.pad_count + 1
        &&& self.inner.sc_rounds() == if self.curr_round <= self.n {
            (self.n + 1 - self.curr_round) as nat
        } else {
            1nat
        }
        &&& (self.eval matches Some(e) ==> e.wf())
        &&& (self.curr_round > self.n <==> self.eval is Some)
    }

    open spec fn sc_rounds(&self) -> nat {
        (self.n + self.pad_count + 1 - self.curr_round) as nat
    }

    open spec fn sc_max_var_degree(&self) -> nat {
        self.inner.sc_max_var_degree()
    }

    open spec fn sc_msg_len(&self) -> nat {
        if self.curr_round <= self.n {
            self.inner.sc_msg_len()
        } else {
            (self.inner.sc_max_var_degree() + 2) as nat
        }
    }

    open spec fn sc_round_msg(&self) -> Seq<ExtVal> {
        if self.curr_round <= self.n {
            self.inner.sc_round_msg()
        } else {
            Seq::new(
                (self.inner.sc_max_var_degree() + 2) as nat,
                |i: int| ev_mul(ev_nat(i), self.stored_eval()),
            )
        }
    }

    open spec fn sc_eval(&self, pts: Seq<ExtVal>) -> ExtVal {
        if self.curr_round <= self.n {
            ev_mul(
                self.inner.sc_eval(pts.take(self.inner.sc_rounds() as int)),
                product_spec(pts.skip(self.inner.sc_rounds() as int)),
            )
        } else {
            ev_mul(self.stored_eval(), product_spec(pts))
        }
    }

    open spec fn sc_eval_ok(&self) -> bool {
        self.curr_round <= self.n ==> self.inner.sc_eval_ok()
    }

    open spec fn sc_commit_enc(&self) -> Seq<int> {
        self.inner.sc_commit_enc() + enc_base(bmod(self.pad_count as int))
    }

    /// One round is consumed. Before the inner rounds run out the challenge
    /// is forwarded to the inner structure; at the last inner round the
    /// inner evaluation at the challenge is collapsed into the stored
    /// scalar; afterwards the stored scalar is multiplied by the challenge.
    open spec fn sc_step_post(&self, challenge: ExtVal, post: &Self) -> bool {
        &&& post.n == self.n
        &&& post.pad_count == self.pad_count
        &&& post.curr_round == self.curr_round + 1
        &&& if self.curr_round < self.n {
            &&& self.inner.sc_step_post(challenge, &post.inner)
            &&& post.eval is None
        } else if self.curr_round == self.n {
            &&& post.inner == self.inner
            &&& (post.eval matches Some(e) && e.wf() && e@ == self.inner.sc_eval(seq![challenge]))
        } else {
            &&& post.inner == self.inner
            &&& (post.eval matches Some(e) && e.wf() && e@ == ev_mul(self.stored_eval(), challenge))
        }
    }

    fn no_of_rounds(&self) -> (r: usize) {
        self.n + self.pad_count + 1 - self.curr_round
    }

    fn max_var_degree(&self) -> (r: usize) {
        self.inner.max_var_degree()
    }

    fn round_message(&self) -> (r: Vec<Fields>) {
        if self.curr_round <= self.n {
            self.inner.round_message()
        } else {
            let e = match &self.eval {
                Some(x) => *x,
                None => {
                    proof {
                        assert(false);
                    }
                    unreached()
                },
            };
            let d = self.inner.max_var_degree();
            let mut out: Vec<Fields> = Vec::new();
            let mut i: usize = 0;
            while i < d + 2
                invariant
                    0 <= i <= d + 2,
                    d <= usize::MAX - 2,
                    e.wf(),
                    e@ == self.stored_eval(),
                    out@.len() == i,
                    all_wf(out@),
                    forall|j: int|
                        0 <= j < i ==> (#[trigger] out@[j])@ == ev_mul(
                            ev_nat(j),
                            self.stored_eval(),
                        ),
                decreases d + 2 - i,
            {
                let scaled = ExtElem::from_u64(i as u64).mul(e);
                out.push(Fields::Extension(scaled));
                i = i + 1;
            }
            proof {
                assert(vals(out@) =~= self.sc_round_msg());
            }
            out
        }
    }

    fn receive_challenge(&mut self, challenge: &Fields) {
        proof {
            assert(crate::field::ev_wf(challenge@));
        }
        if self.curr_round < self.n {
            self.inner.receive_challenge(challenge);
            proof {
                let c = challenge@;
                let pre = *old(self);
                let ir = pre.inner.sc_rounds() as int;
                assert forall|q: Seq<ExtVal>|
                    crate::mle::evs_wf(q) && q.len() == pre.sc_rounds() - 1 implies self.inner
                    .sc_eval(q.take(ir - 1)) == pre.inner.sc_eval((seq![c] + q).take(ir)) && (
                seq![c] + q).skip(ir) =~= q.skip(ir - 1) by {
                    let cons = seq![c] + q;
                    assert(cons.take(ir) =~= seq![c] + q.take(ir - 1));
                    assert(cons.skip(ir) =~= q.skip(ir - 1));
                    assert forall|t: int| 0 <= t < q.take(ir - 1).len() implies crate::field::ev_wf(
                        #[trigger] q.take(ir - 1)[t],
                    ) by {
                        assert(q.take(ir - 1)[t] == q[t]);
                    }
                    assert(self.inner.sc_eval(q.take(ir - 1)) == pre.inner.sc_eval(
                        seq![c] + q.take(ir - 1),
                    ));
                }
            }
        } else if self.curr_round == self.n {
            let point = vec![*challenge];
            let claimed_sum = self.inner.eval(point.as_slice());
            self.eval = Some(claimed_sum.to_extension_field());
            proof {
                assert(vals(point@) =~= seq![challenge@]);
                assert forall|q: Seq<ExtVal>|
                    crate::mle::evs_wf(q) && q.len() == old(self).sc_rounds() - 1 implies (
                seq![challenge@] + q).take(1) =~= seq![challenge@] && (seq![challenge@] + q).skip(1)
                    =~= q by {
                }
            }
        } else {
            let prev = match &self.eval {
                Some(x) => *x,
                None => {
                    proof {
                        assert(false);
                    }
                    unreached()
                },
            };
            self.eval = Some(prev.mul(challenge.to_extension_field()));
            proof {
                let c = challenge@;
                assert forall|q: Seq<ExtVal>|
                    crate::mle::evs_wf(q) && q.len() == old(self).sc_rounds() - 1 implies ev_mul(
                    old(self).stored_eval(),
                    product_spec(seq![c] + q),
                ) == ev_mul(ev_mul(old(self).stored_eval(), c), product_spec(q)) by {
                    crate::vpoly::lemma_product_cons(c, q);
                    crate::field::lemma_ev_mul_assoc(old(self).stored_eval(), c, product_spec(q));
                }
            }
        }
        self.curr_round = self.curr_round + 1;
    }

    fn eval(&self, point: &[Fields]) -> (r: Fields) {
        if self.curr_round <= self.n {
            let ir = self.inner.no_of_rounds();
            let head = vstd::slice::slice_subrange(point, 0, ir);
            let base_val = self.inner.eval(head);
            proof {
                assert(vals(head@) =~= vals(point@).take(ir as int));
            }
            let ghost rest = vals(point@).skip(ir as int);
            let mut acc = ExtElem::one();
            let mut i: usize = ir;
            while i < point.len()
                invariant
                    ir <= i <= point@.len(),
                    all_wf(point@),
                    acc.wf(),
                    rest == vals(point@).skip(ir as int),
                    acc@ == prefix_product_spec(rest, i - ir),
                decreases point@.len() - i,
            {
                proof {
                    assert(rest[i - ir] == point@[i as int]@);
                    if i == ir {
                        crate::field::lemma_ev_mul_one(rest[0]);
                    }
                }
                acc = acc.mul(point[i].to_extension_field());
                i = i + 1;
            }
            proof {
                assert(rest.len() == point@.len() - ir);
                assert(acc@ == product_spec(rest));
            }
            base_val.mul(&Fields::Extension(acc))
        } else {
            let e = match &self.eval {
                Some(x) => *x,
                None => {
                    proof {
                        assert(false);
                    }
                    unreached()
                },
            };
            let mut acc = ExtElem::one();
            let mut i: usize = 0;
            while i < point.len()
                invariant
                    0 <= i <= point@.len(),
                    all_wf(point@),
                    acc.wf(),
                    acc@ == prefix_product_spec(vals(point@), i as int),
                decreases point@.len() - i,
            {
                proof {
                    assert(vals(point@)[i as int] == point@[i as int]@);
                    if i == 0 {
                        crate::field::lemma_ev_mul_one(vals(point@)[0]);
                    }
                }
                acc = acc.mul(point[i].to_extension_field());
                i = i + 1;
            }
            Fields::Extension(e.mul(acc))
        }
    }

    fn commit(&self, transcript: &mut Transcript) {
        self.inner.commit(transcript);
        let p = vec![BaseElem::from_u64(self.pad_count as u64)];
        transcript.observe_base_element(p.as_slice());
        proof {
            assert(crate::transcript::enc_base_seq(Seq::<BaseElem>::empty())
                =~= Seq::<int>::empty());
            assert(p@.drop_last() =~= Seq::<BaseElem>::empty());
            assert(crate::transcript::enc_base_seq(p@) =~= enc_base(p@[0].val as int));
            assert(final(transcript).history() =~= old(transcript).history()
                + self.sc_commit_enc());
        }
    }
}

} // verus!
