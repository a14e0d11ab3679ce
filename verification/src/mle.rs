//! Dense multilinear polynomials in evaluation form.
//!
//! A `MultilinearPoly` over `n` variables stores its `2^n` values on the
//! Boolean hypercube; the value at `(b_0, ..., b_{n-1})` sits at index
//! `sum_k b_k * 2^(n-1-k)` (the first variable selects the half of the
//! table). Fixing the first variable to `r` folds the table in half by
//! `left - r * (left - right)`; the spec functions `fold_once`, `fold_many`
//! and `mle_eval` are the mathematical model of that folding, and the laws
//! below pin it to the table: evaluating at a Boolean point returns the
//! stored value, and the hypercube sum is the sum of the table.
use vstd::prelude::*;

verus! {

use vstd::arithmetic::power2::pow2;
use crate::field::{
    ev_add, ev_mul, ev_nat, ev_one, ev_sub, ev_wf, ev_zero, lemma_ev_mul_one, lemma_ev_mul_zero,
    lemma_ev_sub_cancel, lemma_ev_sub_zero, group_ev_wf, BaseElem, ExtElem, ExtVal, Fields,
};
use crate::transcript::{enc_fields_seq, Transcript};

broadcast use group_ev_wf;

/// The mathematical values of a sequence of field elements.
pub open spec fn vals(s: Seq<Fields>) -> Seq<ExtVal> {
    s.map_values(|f: Fields| f@)
}

/// Every element of the sequence is well-formed.
pub open spec fn all_wf(s: Seq<Fields>) -> bool {
    forall|i: int| 0 <= i < s.len() ==> (#[trigger] s[i]).wf()
}

pub open spec fn evs_wf(s: Seq<ExtVal>) -> bool {
    forall|i: int| 0 <= i < s.len() ==> ev_wf(#[trigger] s[i])
}

/// Fix the first variable of an evaluation table to `r`: entrywise
/// `left - r * (left - right)` over the two halves.
pub open spec fn fold_once(e: Seq<ExtVal>, r: ExtVal) -> Seq<ExtVal> {
    let m = e.len() / 2;
    Seq::new(m, |i: int| ev_sub(e[i], ev_mul(r, ev_sub(e[i], e[i + m]))))
}

/// Fix the first `pts.len()` variables, in order of declaration.
pub open spec fn fold_many(e: Seq<ExtVal>, pts: Seq<ExtVal>) -> Seq<ExtVal>
    decreases pts.len(),
{
    if pts.len() == 0 {
        e
    } else {
        fold_many(fold_once(e, pts[0]), pts.skip(1))
    }
}

/// Evaluation of the multilinear extension of the table `e` at a full point.
pub open spec fn mle_eval(e: Seq<ExtVal>, pts: Seq<ExtVal>) -> ExtVal {
    fold_many(e, pts)[0]
}

/// Left-to-right sum of a sequence of field values.
pub open spec fn seq_sum(s: Seq<ExtVal>) -> ExtVal
    decreases s.len(),
{
    if s.len() == 0 {
        ev_zero()
    } else {
        ev_add(seq_sum(s.drop_last()), s.last())
    }
}

/// The sum of the multilinear extension of `e` over all `2^n` Boolean
/// points, grouped by the value of the first variable: fixing it to zero or
/// one (one `fold_once` step) and summing each half of the hypercube.
pub open spec fn hyper_sum(e: Seq<ExtVal>, n: nat) -> ExtVal
    decreases n,
{
    if n == 0 {
        e[0]
    } else {
        ev_add(
            hyper_sum(fold_once(e, ev_zero()), (n - 1) as nat),
            hyper_sum(fold_once(e, ev_one()), (n - 1) as nat),
        )
    }
}

/// The round message of a multilinear polynomial: the round polynomial's
/// values at 0 and 1, each the hypercube sum of the once-folded table.
pub open spec fn mle_round_msg(e: Seq<ExtVal>) -> Seq<ExtVal> {
    Seq::new(2, |j: int| seq_sum(fold_once(e, ev_nat(j))))
}

/// The index of a Boolean point in the evaluation table: the first variable
/// is the most significant bit.
pub open spec fn bool_index(pts: Seq<ExtVal>) -> int
    decreases pts.len(),
{
    if pts.len() == 0 {
        0
    } else {
        (if pts[0] == ev_one() {
            pow2((pts.len() - 1) as nat) as int
        } else {
            0
        }) + bool_index(pts.skip(1))
    }
}

/// Every coordinate of the point is Boolean.
pub open spec fn all_bool(pts: Seq<ExtVal>) -> bool {
    forall|i: int| 0 <= i < pts.len() ==> #[trigger] pts[i] == ev_zero() || pts[i] == ev_one()
}

// ---------------------------------------------------------------------------
// Laws of the folding model
// ---------------------------------------------------------------------------

/// Fixing a variable to zero keeps the left half of the table.
pub proof fn lemma_fold_once_zero(e: Seq<ExtVal>)
    requires
        evs_wf(e),
    ensures
        fold_once(e, ev_zero()) == e.take((e.len() / 2) as int),
{
    let m = (e.len() / 2) as int;
    assert forall|i: int| 0 <= i < m implies fold_once(e, ev_zero())[i] == e[i] by {
        lemma_ev_mul_zero(ev_sub(e[i], e[i + m]));
        lemma_ev_sub_zero(e[i]);
    }
    assert(fold_once(e, ev_zero()) =~= e.take(m));
}

/// Fixing a variable to one keeps the right half of the table.
pub proof fn lemma_fold_once_one(e: Seq<ExtVal>)
    requires
        evs_wf(e),
        e.len() % 2 == 0,
    ensures
        fold_once(e, ev_one()) == e.skip((e.len() / 2) as int),
{
    let m = (e.len() / 2) as int;
    assert forall|i: int| 0 <= i < m implies fold_once(e, ev_one())[i] == e[i + m] by {
        lemma_ev_mul_one(ev_sub(e[i], e[i + m]));
        lemma_ev_sub_cancel(e[i], e[i + m]);
    }
    assert(fold_once(e, ev_one()) =~= e.skip(m));
}

/// Folding distributes over concatenation of the fixed points.
pub proof fn lemma_fold_many_concat(e: Seq<ExtVal>, s: Seq<ExtVal>, t: Seq<ExtVal>)
    ensures
        fold_many(e, s + t) == fold_many(fold_many(e, s), t),
    decreases s.len(),
{
    if s.len() == 0 {
        assert(s + t =~= t);
    } else {
        assert((s + t).skip(1) =~= s.skip(1) + t);
        lemma_fold_many_concat(fold_once(e, s[0]), s.skip(1), t);
    }
}

/// One more fixed point folds the result once more.
pub proof fn lemma_fold_many_snoc(e: Seq<ExtVal>, s: Seq<ExtVal>, x: ExtVal)
    ensures
        fold_many(e, s.push(x)) == fold_once(fold_many(e, s), x),
{
    assert(s.push(x) =~= s + seq![x]);
    lemma_fold_many_concat(e, s, seq![x]);
    let es = fold_many(e, s);
    assert(seq![x][0] == x);
    assert(seq![x].skip(1) =~= Seq::<ExtVal>::empty());
    assert(fold_many(fold_once(es, x), Seq::<ExtVal>::empty()) == fold_once(es, x));
    assert(fold_many(es, seq![x]) == fold_once(es, x));
}

/// Evaluating the multilinear extension at a Boolean point returns the
/// stored table entry at that point's index.
pub proof fn lemma_eval_on_hypercube(e: Seq<ExtVal>, pts: Seq<ExtVal>, n: nat)
    requires
        evs_wf(e),
        e.len() == pow2(n),
        pts.len() == n,
        all_bool(pts),
    ensures
        0 <= bool_index(pts) < e.len(),
        mle_eval(e, pts) == e[bool_index(pts)],
    decreases n,
{
    vstd::arithmetic::power2::lemma_pow2_pos(n);
    if n == 0 {
        assert(pts =~= Seq::<ExtVal>::empty());
    } else {
        vstd::arithmetic::power2::lemma_pow2_unfold(n);
        let m = (e.len() / 2) as int;
        let rest = pts.skip(1);
        assert(all_bool(rest));
        vstd::arithmetic::power2::lemma_pow2_pos((n - 1) as nat);
        if pts[0] == ev_one() {
            lemma_fold_once_one(e);
            lemma_eval_on_hypercube(e.skip(m), rest, (n - 1) as nat);
            assert(e.skip(m)[bool_index(rest)] == e[m + bool_index(rest)]);
        } else {
            assert(pts[0] == ev_zero());
            lemma_fold_once_zero(e);
            lemma_eval_on_hypercube(e.take(m), rest, (n - 1) as nat);
            assert(e.take(m)[bool_index(rest)] == e[bool_index(rest)]);
        }
    }
}

/// A sum of field values is well-formed.
pub proof fn lemma_seq_sum_wf(s: Seq<ExtVal>)
    ensures
        ev_wf(seq_sum(s)),
    decreases s.len(),
{
    if s.len() > 0 {
        lemma_seq_sum_wf(s.drop_last());
    }
}

/// Sums split across concatenation.
pub proof fn lemma_seq_sum_concat(a: Seq<ExtVal>, b: Seq<ExtVal>)
    ensures
        seq_sum(a + b) == ev_add(seq_sum(a), seq_sum(b)),
    decreases b.len(),
{
    if b.len() == 0 {
        assert(a + b =~= a);
        crate::field::lemma_ev_add_zero(seq_sum(a));
    } else {
        assert((a + b).drop_last() =~= a + b.drop_last());
        lemma_seq_sum_concat(a, b.drop_last());
        crate::field::lemma_ev_add_assoc(seq_sum(a), seq_sum(b.drop_last()), b.last());
        assert((a + b).last() == b.last());
    }
}

/// The hypercube sum of the multilinear extension equals the plain sum of
/// the evaluation table.
pub proof fn lemma_hyper_sum_is_seq_sum(e: Seq<ExtVal>, n: nat)
    requires
        evs_wf(e),
        e.len() == pow2(n),
    ensures
        hyper_sum(e, n) == seq_sum(e),
    decreases n,
{
    vstd::arithmetic::power2::lemma_pow2_pos(n);
    if n == 0 {
        assert(pow2(0) == 1) by {
            vstd::arithmetic::power2::lemma2_to64();
        }
        assert(e =~= seq![e[0]]);
        assert(seq![e[0]].drop_last() =~= Seq::<ExtVal>::empty());
        assert(seq_sum(Seq::<ExtVal>::empty()) == ev_zero());
        assert(seq_sum(e) == ev_add(ev_zero(), e[0]));
        crate::field::lemma_ev_add_zero(e[0]);
    } else {
        vstd::arithmetic::power2::lemma_pow2_unfold(n);
        let m = (e.len() / 2) as int;
        lemma_fold_once_zero(e);
        lemma_fold_once_one(e);
        lemma_hyper_sum_is_seq_sum(e.take(m), (n - 1) as nat);
        lemma_hyper_sum_is_seq_sum(e.skip(m), (n - 1) as nat);
        lemma_seq_sum_concat(e.take(m), e.skip(m));
        assert(e.take(m) + e.skip(m) =~= e);
    }
}

// ---------------------------------------------------------------------------
// The executable polynomial
// ---------------------------------------------------------------------------

/// A dense multilinear polynomial: the evaluations over the Boolean
/// hypercube of its `n_vars` variables.
#[derive(Clone, Debug, PartialEq)]
pub struct MultilinearPoly {
    /// The evaluations on the Boolean hypercube.
    pub evaluations: Vec<Fields>,
    /// Number of variables.
    pub n_vars: usize,
}

impl MultilinearPoly {
    /// The structural invariant: a full table of well-formed entries.
    pub open spec fn wf(&self) -> bool {
        self.evaluations@.len() == pow2(self.n_vars as nat) && all_wf(self.evaluations@)
    }

    /// The mathematical values of the table.
    pub open spec fn values(&self) -> Seq<ExtVal> {
        vals(self.evaluations@)
    }

    /// Builds a polynomial from the vector of its hypercube evaluations.
    pub fn new_from_vec(n_vars: usize, evaluations: Vec<Fields>) -> (r: Self)
        requires
            evaluations@.len() == pow2(n_vars as nat),
            all_wf(evaluations@),
        ensures
            r.wf(),
            r.n_vars == n_vars,
            r.evaluations == evaluations,
    {
        MultilinearPoly { evaluations, n_vars }
    }

    /// The zero polynomial on `num_vars` variables.
    pub fn zero(num_vars: usize) -> (r: Self)
        requires
            num_vars < 32,
        ensures
            r.wf(),
            r.n_vars == num_vars,
            r.evaluations@.len() == pow2(num_vars as nat),
            forall|i: int|
                0 <= i < r.evaluations@.len() ==> #[trigger] r.evaluations@[i] == Fields::Base(
                    BaseElem { val: 0 },
                ),
    {
        proof {
            vstd::arithmetic::power2::lemma2_to64();
            vstd::arithmetic::power2::lemma_pow2_strictly_increases(num_vars as nat, 32);
            vstd::bits::lemma_usize_shl_is_mul(1usize, num_vars);
        }
        let len = 1usize << num_vars;
        let mut evaluations: Vec<Fields> = Vec::new();
        let mut i: usize = 0;
        while i < len
            invariant
                0 <= i <= len,
                evaluations@.len() == i,
                forall|j: int|
                    0 <= j < i ==> #[trigger] evaluations@[j] == Fields::Base(BaseElem { val: 0 }),
            decreases len - i,
        {
            evaluations.push(Fields::Base(BaseElem { val: 0 }));
            i = i + 1;
        }
        MultilinearPoly { evaluations, n_vars: num_vars }
    }

    /// Number of variables.
    pub fn num_vars(&self) -> (r: usize)
        ensures
            r == self.n_vars,
    {
        self.n_vars
    }

    /// The degree of the polynomial in each variable.
    pub fn max_degree(&self) -> (r: usize)
        ensures
            r == 1,
    {
        1
    }

    /// Fixes the first `points.len()` variables, in order of declaration,
    /// returning the folded polynomial on the remaining variables.
    pub fn partial_evaluate(&self, points: &[Fields]) -> (r: Self)
        requires
            self.wf(),
            points@.len() <= self.n_vars,
            all_wf(points@),
        ensures
            r.wf(),
            r.n_vars == self.n_vars - points@.len(),
            r.values() == fold_many(self.values(), vals(points@)),
            points@.len() == 0 ==> r.evaluations@ == self.evaluations@,
            points@.len() > 0 ==> forall|i: int|
                0 <= i < r.evaluations@.len() ==> !(#[trigger] r.evaluations@[i]).is_base(),
    {
        let ghost n = self.n_vars as nat;
        let mut new_evals: Vec<Fields> = Vec::new();
        let mut i: usize = 0;
        while i < self.evaluations.len()
            invariant
                0 <= i <= self.evaluations@.len(),
                new_evals@.len() == i,
                new_evals@ == self.evaluations@.take(i as int),
            decreases self.evaluations@.len() - i,
        {
            new_evals.push(self.evaluations[i]);
            i = i + 1;
        }
        proof {
            assert(self.evaluations@.take(self.evaluations@.len() as int) == self.evaluations@);
        }
        // cur_len == pow2(n_vars - k): the part of the buffer still in play.
        let mut cur_len: usize = new_evals.len();
        let mut k: usize = 0;
        while k < points.len()
            invariant
                0 <= k <= points@.len() <= self.n_vars,
                self.wf(),
                all_wf(points@),
                cur_len == pow2((self.n_vars - k) as nat),
                cur_len <= new_evals@.len(),
                new_evals@.len() == pow2(self.n_vars as nat),
                all_wf(new_evals@),
                vals(new_evals@.take(cur_len as int)) == fold_many(
                    self.values(),
                    vals(points@.take(k as int)),
                ),
                k == 0 ==> new_evals@ == self.evaluations@,
                k > 0 ==> forall|i: int|
                    0 <= i < cur_len ==> !(#[trigger] new_evals@[i]).is_base(),
            decreases points@.len() - k,
        {
            proof {
                vstd::arithmetic::power2::lemma_pow2_unfold((self.n_vars - k) as nat);
                vstd::arithmetic::power2::lemma_pow2_pos((self.n_vars - k - 1) as nat);
            }
            let mid = cur_len / 2;
            let point = points[k];
            let ghost snap = new_evals@;
            let mut i: usize = 0;
            while i < mid
                invariant
                    0 <= i <= mid,
                    mid <= usize::MAX / 2,
                    2 * mid == pow2((self.n_vars - k) as nat),
                    2 * mid <= snap.len(),
                    new_evals@.len() == snap.len(),
                    point.wf(),
                    all_wf(snap),
                    all_wf(new_evals@),
                    forall|j: int| i <= j < snap.len() ==> new_evals@[j] == snap[j],
                    forall|j: int|
                        0 <= j < i ==> !(#[trigger] new_evals@[j]).is_base()
                            && new_evals@[j]@ == ev_sub(
                            snap[j]@,
                            ev_mul(point@, ev_sub(snap[j]@, snap[j + mid as int]@)),
                        ),
                decreases mid - i,
            {
                let left = new_evals[i].to_extension_field();
                let right = new_evals[i + mid].to_extension_field();
                let folded: ExtElem = if point.value_is_zero() {
                    proof {
                        lemma_ev_mul_zero(ev_sub(left@, right@));
                        lemma_ev_sub_zero(left@);
                    }
                    left
                } else if point.value_is_one() {
                    proof {
                        lemma_ev_mul_one(ev_sub(left@, right@));
                        lemma_ev_sub_cancel(left@, right@);
                    }
                    right
                } else {
                    left.sub(point.to_extension_field().mul(left.sub(right)))
                };
                new_evals.set(i, Fields::Extension(folded));
                i = i + 1;
            }
            proof {
                let m = mid as int;
                let e = vals(snap.take(2 * m));
                assert(e.len() == 2 * m);
                assert forall|j: int| 0 <= j < m implies vals(new_evals@.take(m))[j] == fold_once(
                    e,
                    point@,
                )[j] by {
                    assert(e[j] == snap[j]@);
                    assert(e[j + m] == snap[j + m]@);
                }
                assert(vals(new_evals@.take(m)) =~= fold_once(e, point@));
                assert(points@.take(k as int + 1) =~= points@.take(k as int).push(points@[k as int]));
                assert(vals(points@.take(k as int)).push(points@[k as int]@) =~= vals(
                    points@.take(k as int + 1),
                ));
                lemma_fold_many_snoc(
                    self.values(),
                    vals(points@.take(k as int)),
                    points@[k as int]@,
                );
                assert(vals(snap.take(2 * m)) == fold_many(
                    self.values(),
                    vals(points@.take(k as int)),
                ));
            }
            cur_len = mid;
            k = k + 1;
        }
        proof {
            assert(points@.take(points@.len() as int) == points@);
        }
        let ghost buf = new_evals@;
        let mut result = new_evals;
        result.truncate(cur_len);
        proof {
            assert(result@ == buf.take(cur_len as int));
        }
        MultilinearPoly { evaluations: result, n_vars: self.n_vars - points.len() }
    }

    /// Fixes all variables, returning the value of the multilinear extension
    /// at the point.
    pub fn evaluate(&self, points: &[Fields]) -> (r: Fields)
        requires
            self.wf(),
            points@.len() == self.n_vars,
            all_wf(points@),
        ensures
            r.wf(),
            r@ == mle_eval(self.values(), vals(points@)),
    {
        let folded = self.partial_evaluate(points);
        proof {
            vstd::arithmetic::power2::lemma2_to64();
            assert(folded.evaluations@.len() == 1);
            assert(folded.values()[0] == folded.evaluations@[0]@);
        }
        folded.evaluations[0]
    }

    /// The sum of the stored evaluations, in the extension field.
    pub fn sum_over_hypercube(&self) -> (r: Fields)
        requires
            self.wf(),
        ensures
            r.wf(),
            !r.is_base(),
            r@ == seq_sum(self.values()),
    {
        let mut acc = ExtElem::zero();
        let mut i: usize = 0;
        while i < self.evaluations.len()
            invariant
                0 <= i <= self.evaluations@.len(),
                self.wf(),
                acc.wf(),
                acc@ == seq_sum(self.values().take(i as int)),
            decreases self.evaluations@.len() - i,
        {
            proof {
                assert(self.values().take(i as int + 1).drop_last() =~= self.values().take(
                    i as int,
                ));
                assert(self.values().take(i as int + 1).last() == self.evaluations@[i as int]@);
            }
            acc = acc.add(self.evaluations[i].to_extension_field());
            i = i + 1;
        }
        proof {
            assert(self.values().take(self.values().len() as int) == self.values());
        }
        Fields::Extension(acc)
    }

    /// Entrywise sum of two polynomials of one variable count.
    pub fn add(&self, other: &Self) -> (r: Self)
        requires
            self.wf(),
            other.wf(),
            self.n_vars == other.n_vars,
        ensures
            r.wf(),
            r.n_vars == self.n_vars,
            r.values().len() == self.values().len(),
            forall|i: int|
                0 <= i < r.values().len() ==> #[trigger] r.values()[i] == ev_add(
                    self.values()[i],
                    other.values()[i],
                ),
    {
        let mut new_evaluations: Vec<Fields> = Vec::new();
        let mut i: usize = 0;
        while i < self.evaluations.len()
            invariant
                0 <= i <= self.evaluations@.len(),
                self.wf(),
                other.wf(),
                self.n_vars == other.n_vars,
                new_evaluations@.len() == i,
                all_wf(new_evaluations@),
                forall|j: int|
                    0 <= j < i ==> (#[trigger] new_evaluations@[j])@ == ev_add(
                        self.evaluations@[j]@,
                        other.evaluations@[j]@,
                    ),
            decreases self.evaluations@.len() - i,
        {
            new_evaluations.push(self.evaluations[i].add(&other.evaluations[i]));
            i = i + 1;
        }
        MultilinearPoly { evaluations: new_evaluations, n_vars: self.n_vars }
    }

    /// Entrywise difference of two polynomials of one variable count.
    pub fn sub(&self, other: &Self) -> (r: Self)
        requires
            self.wf(),
            other.wf(),
            self.n_vars == other.n_vars,
        ensures
            r.wf(),
            r.n_vars == self.n_vars,
            r.values().len() == self.values().len(),
            forall|i: int|
                0 <= i < r.values().len() ==> #[trigger] r.values()[i] == ev_sub(
                    self.values()[i],
                    other.values()[i],
                ),
    {
        let mut new_evaluations: Vec<Fields> = Vec::new();
        let mut i: usize = 0;
        while i < self.evaluations.len()
            invariant
                0 <= i <= self.evaluations@.len(),
                self.wf(),
                other.wf(),
                self.n_vars == other.n_vars,
                new_evaluations@.len() == i,
                all_wf(new_evaluations@),
                forall|j: int|
                    0 <= j < i ==> (#[trigger] new_evaluations@[j])@ == ev_sub(
                        self.evaluations@[j]@,
                        other.evaluations@[j]@,
                    ),
            decreases self.evaluations@.len() - i,
        {
            new_evaluations.push(self.evaluations[i].sub(&other.evaluations[i]));
            i = i + 1;
        }
        MultilinearPoly { evaluations: new_evaluations, n_vars: self.n_vars }
    }

    /// Entrywise product with one field element.
    pub fn scale(&self, other: &Fields) -> (r: Self)
        requires
            self.wf(),
            other.wf(),
        ensures
            r.wf(),
            r.n_vars == self.n_vars,
            r.values().len() == self.values().len(),
            forall|i: int|
                0 <= i < r.values().len() ==> #[trigger] r.values()[i] == ev_mul(
                    self.values()[i],
                    other@,
                ),
    {
        let mut new_evaluations: Vec<Fields> = Vec::new();
        let mut i: usize = 0;
        while i < self.evaluations.len()
            invariant
                0 <= i <= self.evaluations@.len(),
                self.wf(),
                other.wf(),
                new_evaluations@.len() == i,
                all_wf(new_evaluations@),
                forall|j: int|
                    0 <= j < i ==> (#[trigger] new_evaluations@[j])@ == ev_mul(
                        self.evaluations@[j]@,
                        other@,
                    ),
            decreases self.evaluations@.len() - i,
        {
            new_evaluations.push(self.evaluations[i].mul(other));
            i = i + 1;
        }
        MultilinearPoly { evaluations: new_evaluations, n_vars: self.n_vars }
    }

    /// Absorbs every stored evaluation into the transcript, in storage
    /// order: base entries as base elements, extension entries as extension
    /// elements.
    pub fn commit_to_transcript(&self, transcript: &mut Transcript)
        ensures
            final(transcript).history() == old(transcript).history() + enc_fields_seq(
                self.evaluations@,
            ),
    {
        transcript.observe(self.evaluations.as_slice());
    }
}

} // verus!
