//! A multilinear polynomial padded with extra front-loaded variables: the
//! padded polynomial on `n + p` variables is the base polynomial on the
//! first `n` variables multiplied by each of the `p` extra variables.
use vstd::prelude::*;

verus! {

use crate::field::{ev_mul, ExtElem, ExtVal, Fields};
use crate::mle::{all_wf, vals};
use crate::multilinear::MultilinearExtension;
use crate::vpoly::{prefix_product_spec, product_spec};

/// The polynomial being padded: either an already-collapsed evaluation or a
/// multilinear extension.
pub enum BasePoly<T> {
    /// A fully-evaluated constant.
    Eval(Fields),
    /// A multilinear extension.
    MLE(T),
}

impl<T: MultilinearExtension> BasePoly<T> {
    pub open spec fn bp_wf(&self) -> bool {
        match self {
            BasePoly::Eval(f) => f.wf(),
            BasePoly::MLE(p) => p.mx_wf(),
        }
    }

    /// The variable count of the underlying polynomial; a collapsed
    /// evaluation has none left.
    pub open spec fn bp_num_vars(&self) -> nat {
        match self {
            BasePoly::Eval(_) => 0,
            BasePoly::MLE(p) => p.mx_num_vars(),
        }
    }

    /// The underlying multilinear extension, where there is one.
    pub fn as_mle(&self) -> (r: Option<&T>)
        ensures
            match r {
                Some(p) => *self matches BasePoly::MLE(q) && *p == q,
                None => *self matches BasePoly::Eval(_),
            },
    {
        match self {
            BasePoly::Eval(_) => None,
            BasePoly::MLE(p) => Some(p),
        }
    }

    /// The variable count of the underlying polynomial.
    pub fn num_vars(&self) -> (r: usize)
        requires
            self.bp_wf(),
        ensures
            r == self.bp_num_vars(),
    {
        match self {
            BasePoly::Eval(_) => 0,
            BasePoly::MLE(p) => p.num_vars(),
        }
    }
}

/// A base polynomial extended by `pad_count` extra variables; the padded
/// polynomial is the base polynomial times the product of the extras.
pub struct PaddedPoly<T> {
    /// The polynomial being padded.
    pub base_poly: BasePoly<T>,
    /// How many extra variables are appended.
    pub pad_count: usize,
}

impl<T: MultilinearExtension> PaddedPoly<T> {
    pub open spec fn wf(&self) -> bool {
        &&& self.base_poly.bp_wf()
        &&& self.pad_count >= 1
        &&& self.base_poly.bp_num_vars() >= 1
        &&& self.base_poly.bp_num_vars() + self.pad_count <= usize::MAX
    }

    pub open spec fn spec_num_vars(&self) -> nat {
        (self.base_poly.bp_num_vars() + self.pad_count) as nat
    }

    /// The value at a full point: the base polynomial at the first
    /// variables, times each padding variable.
    pub open spec fn spec_eval(&self, pts: Seq<ExtVal>) -> ExtVal {
        match self.base_poly {
            BasePoly::Eval(f) => f@,
            BasePoly::MLE(p) => ev_mul(
                p.mx_eval(pts.take(p.mx_num_vars() as int)),
                product_spec(pts.skip(p.mx_num_vars() as int)),
            ),
        }
    }

    /// Pads a polynomial of at least one variable with at least one extra
    /// variable.
    pub fn new(base_poly: T, pad_count: usize) -> (r: Self)
        requires
            base_poly.mx_wf(),
            base_poly.mx_num_vars() >= 1,
            pad_count >= 1,
            base_poly.mx_num_vars() + pad_count <= usize::MAX,
        ensures
            r.wf(),
            r.base_poly matches BasePoly::MLE(p) && p == base_poly,
            r.spec_num_vars() == base_poly.mx_num_vars() + pad_count,
    {
        PaddedPoly { base_poly: BasePoly::MLE(base_poly), pad_count }
    }

    /// The padded variable count.
    pub fn num_vars(&self) -> (r: usize)
        requires
            self.wf(),
        ensures
            r == self.spec_num_vars(),
    {
        self.base_poly.num_vars() + self.pad_count
    }

    /// Evaluates the padded polynomial: the base polynomial at the leading
    /// coordinates, times the product of the trailing ones.
    pub fn eval(&self, points: &[Fields]) -> (r: Fields)
        requires
            self.wf(),
            points@.len() == self.spec_num_vars(),
            all_wf(points@),
        ensures
            r.wf(),
            r@ == self.spec_eval(vals(points@)),
    {
        let inner = match self.base_poly.as_mle() {
            Some(p) => p,
            None => {
                proof {
                    assert(false);
                }
                unreached()
            },
        };
        let nv = inner.num_vars();
        let head = vstd::slice::slice_subrange(points, 0, nv);
        let base_val = inner.evaluate(head);
        proof {
            assert(vals(head@) =~= vals(points@).take(nv as int));
        }
        let ghost rest = vals(points@).skip(nv as int);
        let mut acc = ExtElem::one();
        let mut i: usize = nv;
        while i < points.len()
            invariant
                nv <= i <= points@.len(),
                all_wf(points@),
                acc.wf(),
                rest == vals(points@).skip(nv as int),
                acc@ == prefix_product_spec(rest, i - nv),
            decreases points@.len() - i,
        {
            proof {
                assert(rest[i - nv] == points@[i as int]@);
                if i == nv {
                    crate::field::lemma_ev_mul_one(rest[0]);
                }
            }
            acc = acc.mul(points[i].to_extension_field());
            i = i + 1;
        }
        proof {
            assert(rest.len() == points@.len() - nv);
            assert(acc@ == product_spec(rest));
        }
        let r = base_val.mul(&Fields::Extension(acc));
        r
    }
}

} // verus!
