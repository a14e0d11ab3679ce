//! Virtual polynomials: a vector of co-dimensional multilinear polynomials
//! combined through a first-class combining expression.
//!
//! The combining function is an arithmetic expression over the constituent
//! values (variables, scalars, sums and products), so callers can build an
//! arbitrary combiner as a value; a `VPoly` shares it by reference count, so
//! cloning or folding a `VPoly` does not duplicate the expression.
use std::rc::Rc;
use vstd::prelude::*;

verus! {

use crate::field::{ev_add, ev_mul, ev_one, ev_zero, ExtElem, ExtVal, Fields};
use crate::mle::{
    all_wf, fold_many, mle_eval, vals, MultilinearPoly,
};
use crate::transcript::{enc_base, enc_fields_seq, Transcript};
use crate::field::bmod;

/// A combining function: an arithmetic expression over the values of the
/// constituent polynomials (`Var(k)` is the `k`-th constituent's value).
#[derive(Debug)]
pub enum CombineExpr {
    /// The value of the `k`-th constituent polynomial.
    Var(usize),
    /// A constant field element.
    Scalar(Fields),
    /// The sum of two sub-expressions.
    Sum(Box<CombineExpr>, Box<CombineExpr>),
    /// The product of two sub-expressions.
    Product(Box<CombineExpr>, Box<CombineExpr>),
}

impl CombineExpr {
    /// Every variable refers to one of `arity` constituents, and every
    /// scalar is well-formed.
    pub open spec fn wf(self, arity: nat) -> bool
        decreases self,
    {
        match self {
            CombineExpr::Var(k) => k < arity,
            CombineExpr::Scalar(f) => f.wf(),
            CombineExpr::Sum(a, b) => a.wf(arity) && b.wf(arity),
            CombineExpr::Product(a, b) => a.wf(arity) && b.wf(arity),
        }
    }

    /// The value of the expression on a row of constituent values.
    pub open spec fn eval_spec(self, row: Seq<ExtVal>) -> ExtVal
        decreases self,
    {
        match self {
            CombineExpr::Var(k) => row[k as int],
            CombineExpr::Scalar(f) => f@,
            CombineExpr::Sum(a, b) => ev_add(a.eval_spec(row), b.eval_spec(row)),
            CombineExpr::Product(a, b) => ev_mul(a.eval_spec(row), b.eval_spec(row)),
        }
    }

    /// Evaluates the expression on a row of field elements.
    pub fn eval(&self, row: &[Fields]) -> (r: Fields)
        requires
            self.wf(row@.len() as nat),
            all_wf(row@),
        ensures
            r.wf(),
            r@ == self.eval_spec(vals(row@)),
        decreases *self,
    {
        match self {
            CombineExpr::Var(k) => row[*k],
            CombineExpr::Scalar(f) => *f,
            CombineExpr::Sum(a, b) => {
                let x = a.eval(row);
                let y = b.eval(row);
                x.add(&y)
            },
            CombineExpr::Product(a, b) => {
                let x = a.eval(row);
                let y = b.eval(row);
                x.mul(&y)
            },
        }
    }

    /// The product of the first `arity` constituents: the combining
    /// expression of a product polynomial.
    pub fn product_of(arity: usize) -> (r: CombineExpr)
        requires
            arity >= 1,
        ensures
            r.wf(arity as nat),
            forall|row: Seq<ExtVal>| row.len() == arity ==> #[trigger] r.eval_spec(row)
                == product_spec(row),
    {
        let mut expr = CombineExpr::Var(0);
        let mut i: usize = 1;
        while i < arity
            invariant
                1 <= i <= arity,
                expr.wf(i as nat),
                forall|row: Seq<ExtVal>| row.len() >= i ==> #[trigger] expr.eval_spec(row)
                    == prefix_product_spec(row, i as int),
            decreases arity - i,
        {
            let ghost prev = expr;
            let left = Box::new(expr);
            let right = Box::new(CombineExpr::Var(i));
            proof {
                assert(*left == prev);
                assert(*right == CombineExpr::Var(i));
            }
            expr = CombineExpr::Product(left, right);
            proof {
                lemma_combine_wf_mono(prev, i as nat, (i + 1) as nat);
                assert(CombineExpr::Var(i).wf((i + 1) as nat));
                assert(expr.wf((i + 1) as nat));
                assert forall|row: Seq<ExtVal>| row.len() >= i + 1 implies #[trigger] expr
                    .eval_spec(row) == prefix_product_spec(row, i as int + 1) by {
                    assert(prev.eval_spec(row) == prefix_product_spec(row, i as int));
                    assert(expr.eval_spec(row) == ev_mul(
                        prev.eval_spec(row),
                        CombineExpr::Var(i).eval_spec(row),
                    ));
                }
            }
            i = i + 1;
        }
        proof {
            assert(forall|row: Seq<ExtVal>| row.len() == arity ==> prefix_product_spec(
                row,
                arity as int,
            ) == product_spec(row));
        }
        expr
    }
}

/// A well-formed expression stays well-formed at any larger arity.
pub proof fn lemma_combine_wf_mono(e: CombineExpr, a: nat, b: nat)
    requires
        e.wf(a),
        a <= b,
    ensures
        e.wf(b),
    decreases e,
{
    match e {
        CombineExpr::Sum(x, y) => {
            lemma_combine_wf_mono(*x, a, b);
            lemma_combine_wf_mono(*y, a, b);
        },
        CombineExpr::Product(x, y) => {
            lemma_combine_wf_mono(*x, a, b);
            lemma_combine_wf_mono(*y, a, b);
        },
        _ => {},
    }
}

/// The product of the first `n` entries of the row, multiplied left to
/// right starting from the first entry.
pub open spec fn prefix_product_spec(row: Seq<ExtVal>, n: int) -> ExtVal
    decreases n,
{
    if n <= 0 {
        ev_one()
    } else if n == 1 {
        row[0]
    } else {
        ev_mul(prefix_product_spec(row, n - 1), row[n - 1])
    }
}

/// The product of all entries of the row.
pub open spec fn product_spec(row: Seq<ExtVal>) -> ExtVal {
    prefix_product_spec(row, row.len() as int)
}

/// Prepending a well-formed factor multiplies the prefix product by it.
proof fn lemma_prefix_product_cons(c: ExtVal, q: Seq<ExtVal>, k: int)
    requires
        0 <= k <= q.len(),
        crate::field::ev_wf(c),
    ensures
        prefix_product_spec(seq![c] + q, k + 1) == ev_mul(c, prefix_product_spec(q, k)),
    decreases k,
{
    let cons = seq![c] + q;
    assert(cons[0] == c);
    assert(prefix_product_spec(cons, 1) == c);
    if k == 0 {
        assert(prefix_product_spec(q, 0) == ev_one());
        crate::field::lemma_ev_mul_one(c);
    } else if k == 1 {
        assert(cons[1] == q[0]);
        assert(prefix_product_spec(cons, 2) == ev_mul(c, q[0]));
        assert(prefix_product_spec(q, 1) == q[0]);
    } else {
        lemma_prefix_product_cons(c, q, k - 1);
        assert(cons[k] == q[k - 1]);
        assert(prefix_product_spec(cons, k + 1) == ev_mul(prefix_product_spec(cons, k), cons[k]));
        assert(prefix_product_spec(q, k) == ev_mul(prefix_product_spec(q, k - 1), q[k - 1]));
        crate::field::lemma_ev_mul_assoc(c, prefix_product_spec(q, k - 1), q[k - 1]);
    }
}

/// The product of a prepended row is the new head times the old product.
pub proof fn lemma_product_cons(c: ExtVal, q: Seq<ExtVal>)
    requires
        crate::field::ev_wf(c),
    ensures
        product_spec(seq![c] + q) == ev_mul(c, product_spec(q)),
{
    lemma_prefix_product_cons(c, q, q.len() as int);
}

/// A virtual polynomial: constituent multilinear polynomials of one common
/// variable count, combined pointwise by a shared combining expression.
#[derive(Clone, Debug)]
pub struct VPoly {
    /// The constituent multilinear polynomials.
    pub mles: Vec<MultilinearPoly>,
    /// Caller-declared bound on the degree of the univariate round
    /// polynomial produced during sumcheck.
    pub max_degree: usize,
    /// Number of variables.
    pub num_vars: usize,
    /// The shared combining expression.
    pub combine_fn: Rc<CombineExpr>,
}

impl VPoly {
    /// The structural invariant: every constituent has the declared
    /// variable count, the combining expression has matching arity, and
    /// the hypercube fits the machine word (so the sum can be iterated).
    pub open spec fn wf(&self) -> bool {
        &&& forall|i: int|
            0 <= i < self.mles@.len() ==> (#[trigger] self.mles@[i]).wf()
                && self.mles@[i].n_vars == self.num_vars
        &&& self.combine_fn.wf(self.mles@.len() as nat)
        &&& vstd::arithmetic::power2::pow2(self.num_vars as nat) <= usize::MAX
    }

    /// The row of constituent values at a full evaluation point.
    pub open spec fn row_at(&self, pts: Seq<ExtVal>) -> Seq<ExtVal> {
        Seq::new(self.mles@.len() as nat, |i: int| mle_eval(self.mles@[i].values(), pts))
    }

    /// The value of the virtual polynomial at a full point: the combining
    /// expression applied to the constituents' values there.
    pub open spec fn vp_eval(&self, pts: Seq<ExtVal>) -> ExtVal {
        self.combine_fn.eval_spec(self.row_at(pts))
    }

    /// The stored column at hypercube index `i`.
    pub open spec fn column(&self, i: int) -> Seq<ExtVal> {
        Seq::new(self.mles@.len() as nat, |j: int| self.mles@[j].evaluations@[i]@)
    }

    /// The sum, over the first `n` hypercube indices, of the combining
    /// expression applied to each stored column.
    pub open spec fn col_sum(&self, n: int) -> ExtVal
        decreases n,
    {
        if n <= 0 {
            ev_zero()
        } else {
            ev_add(self.col_sum(n - 1), self.combine_fn.eval_spec(self.column(n - 1)))
        }
    }

    /// Creates a virtual polynomial from constituents and a combining
    /// expression.
    pub fn new(
        mles: Vec<MultilinearPoly>,
        max_degree: usize,
        num_vars: usize,
        combine_fn: Rc<CombineExpr>,
    ) -> (r: Self)
        requires
            forall|i: int|
                0 <= i < mles@.len() ==> (#[trigger] mles@[i]).wf() && mles@[i].n_vars == num_vars,
            combine_fn.wf(mles@.len() as nat),
            mles@.len() == 0 ==> vstd::arithmetic::power2::pow2(num_vars as nat) <= usize::MAX,
        ensures
            r.wf(),
            r.mles == mles,
            r.max_degree == max_degree,
            r.num_vars == num_vars,
            r.combine_fn == combine_fn,
    {
        if mles.len() > 0 {
            let table_len = mles[0].evaluations.len();
            proof {
                assert(table_len == vstd::arithmetic::power2::pow2(num_vars as nat));
            }
        }
        VPoly { mles, max_degree, num_vars, combine_fn }
    }

    /// Declared degree bound of the round polynomial.
    pub fn max_degree(&self) -> (r: usize)
        ensures
            r == self.max_degree,
    {
        self.max_degree
    }

    /// Number of constituent polynomials.
    pub fn num_mles(&self) -> (r: usize)
        ensures
            r == self.mles@.len(),
    {
        self.mles.len()
    }

    /// Number of variables.
    pub fn num_vars(&self) -> (r: usize)
        ensures
            r == self.num_vars,
    {
        self.num_vars
    }

    /// A copy of the constituent polynomials.
    pub fn mles(&self) -> (r: Vec<MultilinearPoly>)
        ensures
            r@.len() == self.mles@.len(),
            forall|i: int|
                0 <= i < r@.len() ==> (#[trigger] r@[i]).evaluations@ == self.mles@[i].evaluations@
                    && r@[i].n_vars == self.mles@[i].n_vars,
    {
        let mut out: Vec<MultilinearPoly> = Vec::new();
        let mut i: usize = 0;
        while i < self.mles.len()
            invariant
                0 <= i <= self.mles@.len(),
                out@.len() == i,
                forall|j: int|
                    0 <= j < i ==> (#[trigger] out@[j]).evaluations@
                        == self.mles@[j].evaluations@ && out@[j].n_vars == self.mles@[j].n_vars,
            decreases self.mles@.len() - i,
        {
            let mle = &self.mles[i];
            let mut evals: Vec<Fields> = Vec::new();
            let mut j: usize = 0;
            while j < mle.evaluations.len()
                invariant
                    0 <= j <= mle.evaluations@.len(),
                    evals@.len() == j,
                    evals@ == mle.evaluations@.take(j as int),
                decreases mle.evaluations@.len() - j,
            {
                evals.push(mle.evaluations[j]);
                j = j + 1;
            }
            proof {
                assert(mle.evaluations@.take(mle.evaluations@.len() as int) == mle.evaluations@);
            }
            out.push(MultilinearPoly { evaluations: evals, n_vars: mle.n_vars });
            i = i + 1;
        }
        out
    }

    /// Evaluates the virtual polynomial at a full point: the combining
    /// expression applied to the constituents' evaluations there.
    pub fn evaluate(&self, points: &[Fields]) -> (r: Fields)
        requires
            self.wf(),
            points@.len() == self.num_vars,
            all_wf(points@),
        ensures
            r.wf(),
            r@ == self.vp_eval(vals(points@)),
    {
        let mut row: Vec<Fields> = Vec::new();
        let mut i: usize = 0;
        while i < self.mles.len()
            invariant
                0 <= i <= self.mles@.len(),
                self.wf(),
                points@.len() == self.num_vars,
                all_wf(points@),
                row@.len() == i,
                all_wf(row@),
                forall|j: int|
                    0 <= j < i ==> (#[trigger] row@[j])@ == mle_eval(
                        self.mles@[j].values(),
                        vals(points@),
                    ),
            decreases self.mles@.len() - i,
        {
            let v = self.mles[i].evaluate(points);
            row.push(v);
            i = i + 1;
        }
        let r = self.combine_fn.eval(row.as_slice());
        proof {
            assert(vals(row@) =~= self.row_at(vals(points@)));
        }
        r
    }

    /// Folds each constituent on the given prefix of the variables; the
    /// combining expression and declared degree are kept.
    pub fn partial_evaluate(&self, points: &[Fields]) -> (r: Self)
        requires
            self.wf(),
            points@.len() <= self.num_vars,
            all_wf(points@),
        ensures
            r.wf(),
            r.num_vars == self.num_vars - points@.len(),
            r.max_degree == self.max_degree,
            r.combine_fn == self.combine_fn,
            r.mles@.len() == self.mles@.len(),
            forall|i: int|
                0 <= i < r.mles@.len() ==> (#[trigger] r.mles@[i]).values() == fold_many(
                    self.mles@[i].values(),
                    vals(points@),
                ),
    {
        let mut folded: Vec<MultilinearPoly> = Vec::new();
        let mut i: usize = 0;
        while i < self.mles.len()
            invariant
                0 <= i <= self.mles@.len(),
                self.wf(),
                points@.len() <= self.num_vars,
                all_wf(points@),
                folded@.len() == i,
                forall|j: int|
                    0 <= j < i ==> (#[trigger] folded@[j]).wf() && folded@[j].n_vars
                        == self.num_vars - points@.len() && folded@[j].values() == fold_many(
                        self.mles@[j].values(),
                        vals(points@),
                    ),
            decreases self.mles@.len() - i,
        {
            let f = self.mles[i].partial_evaluate(points);
            folded.push(f);
            i = i + 1;
        }
        proof {
            if points@.len() > 0 {
                vstd::arithmetic::power2::lemma_pow2_strictly_increases(
                    (self.num_vars - points@.len()) as nat,
                    self.num_vars as nat,
                );
            }
        }
        VPoly {
            mles: folded,
            max_degree: self.max_degree,
            num_vars: self.num_vars - points.len(),
            combine_fn: Rc::clone(&self.combine_fn),
        }
    }

    /// Sums, over the whole hypercube, the combining expression applied to
    /// the column of stored constituent values, in the extension field.
    pub fn sum_over_hypercube(&self) -> (r: Fields)
        requires
            self.wf(),
        ensures
            r.wf(),
            !r.is_base(),
            r@ == self.col_sum(pow2_len(self) as int),
    {
        let len = if self.mles.len() > 0 {
            self.mles[0].evaluations.len()
        } else {
            crate::circuits::utils::pow2_exec(self.num_vars)
        };
        let mut acc = ExtElem::zero();
        let mut i: usize = 0;
        while i < len
            invariant
                0 <= i <= len,
                self.wf(),
                len == pow2_len(self),
                acc.wf(),
                acc@ == self.col_sum(i as int),
            decreases len - i,
        {
            let mut row: Vec<Fields> = Vec::new();
            let mut j: usize = 0;
            while j < self.mles.len()
                invariant
                    0 <= j <= self.mles@.len(),
                    self.wf(),
                    len == pow2_len(self),
                    0 <= i < len,
                    row@.len() == j,
                    all_wf(row@),
                    forall|t: int|
                        0 <= t < j ==> (#[trigger] row@[t]) == self.mles@[t].evaluations@[i as int],
                decreases self.mles@.len() - j,
            {
                proof {
                    assert(self.mles@[j as int].evaluations@.len() == pow2_len(self));
                }
                let v = self.mles[j].evaluations[i];
                row.push(v);
                j = j + 1;
            }
            let combined = self.combine_fn.eval(row.as_slice());
            proof {
                assert(vals(row@) =~= self.column(i as int));
            }
            acc = acc.add(combined.to_extension_field());
            i = i + 1;
        }
        Fields::Extension(acc)
    }

    /// Absorbs each constituent polynomial in order, then the declared
    /// degree and the variable count as base-field integers.
    pub fn commit_to_transcript(&self, transcript: &mut Transcript)
        ensures
            final(transcript).history() == old(transcript).history() + self.commit_enc(),
    {
        let ghost h0 = transcript.history();
        let mut i: usize = 0;
        while i < self.mles.len()
            invariant
                0 <= i <= self.mles@.len(),
                transcript.history() == h0 + mles_enc(self.mles@.take(i as int)),
            decreases self.mles@.len() - i,
        {
            proof {
                assert(self.mles@.take(i as int + 1).drop_last() =~= self.mles@.take(i as int));
            }
            self.mles[i].commit_to_transcript(transcript);
            i = i + 1;
        }
        proof {
            assert(self.mles@.take(self.mles@.len() as int) == self.mles@);
        }
        let d: Vec<crate::field::BaseElem> = vec![
            crate::field::BaseElem::from_u64(self.max_degree as u64),
        ];
        transcript.observe_base_element(d.as_slice());
        let n: Vec<crate::field::BaseElem> = vec![
            crate::field::BaseElem::from_u64(self.num_vars as u64),
        ];
        transcript.observe_base_element(n.as_slice());
        proof {
            assert(crate::transcript::enc_base_seq(Seq::<crate::field::BaseElem>::empty())
                =~= Seq::<int>::empty());
            assert(d@.drop_last() =~= Seq::<crate::field::BaseElem>::empty());
            assert(crate::transcript::enc_base_seq(d@) =~= enc_base(d@[0].val as int));
            assert(n@.drop_last() =~= Seq::<crate::field::BaseElem>::empty());
            assert(crate::transcript::enc_base_seq(n@) =~= enc_base(n@[0].val as int));
            assert(final(transcript).history() =~= old(transcript).history() + self.commit_enc());
        }
    }

    /// What committing this polynomial appends to the transcript history.
    pub open spec fn commit_enc(&self) -> Seq<int> {
        mles_enc(self.mles@) + enc_base(bmod(self.max_degree as int)) + enc_base(
            bmod(self.num_vars as int),
        )
    }
}

/// The size of the hypercube the virtual polynomial is summed over.
pub open spec fn pow2_len(v: &VPoly) -> nat {
    vstd::arithmetic::power2::pow2(v.num_vars as nat)
}

/// Concatenated commit encodings of a sequence of polynomials.
pub open spec fn mles_enc(s: Seq<MultilinearPoly>) -> Seq<int>
    decreases s.len(),
{
    if s.len() == 0 {
        Seq::empty()
    } else {
        mles_enc(s.drop_last()) + enc_fields_seq(s.last().evaluations@)
    }
}

} // verus!
