//! Polynomial helpers: barycentric evaluation of univariate polynomials
//! given in evaluation form, a product-combined virtual polynomial, and the
//! equality-indicator table.
use std::rc::Rc;
use vstd::prelude::*;

verus! {

use crate::field::{
    ev_add, ev_inv, ev_mul, ev_nat, ev_one, ev_sub, ev_zero, lemma_bmod_small, lemma_ev_inv_unique,
    ExtElem, ExtVal, Fields, P,
};
use crate::mle::{all_wf, vals, MultilinearPoly};
use crate::vpoly::{product_spec, CombineExpr, VPoly};

/// The vanishing product `(x - 0) * (x - 1) * ... * (x - (n-1))`.
pub open spec fn vanishing_prefix(x: ExtVal, n: int) -> ExtVal
    decreases n,
{
    if n <= 0 {
        ev_one()
    } else {
        ev_mul(vanishing_prefix(x, n - 1), ev_sub(x, ev_nat(n - 1)))
    }
}

/// The weight `prod_{j < n, j != i} (i - j)` of the `i`-th node.
pub open spec fn weight_prefix(i: int, n: int) -> ExtVal
    decreases n,
{
    if n <= 0 {
        ev_one()
    } else if n - 1 == i {
        weight_prefix(i, n - 1)
    } else {
        ev_mul(weight_prefix(i, n - 1), ev_sub(ev_nat(i), ev_nat(n - 1)))
    }
}

/// The `i`-th barycentric term `y_i / (d_i * (x - i))`; zero if the
/// denominator vanishes (which cannot happen for an off-grid point when the
/// node count is below the field characteristic).
pub open spec fn bary_term(ys: Seq<ExtVal>, x: ExtVal, i: int) -> ExtVal {
    let den = ev_mul(weight_prefix(i, ys.len() as int), ev_sub(x, ev_nat(i)));
    if den == ev_zero() {
        ev_zero()
    } else {
        ev_mul(ys[i], ev_inv(den))
    }
}

/// The sum of the first `n` barycentric terms.
pub open spec fn bary_sum(ys: Seq<ExtVal>, x: ExtVal, n: int) -> ExtVal
    decreases n,
{
    if n <= 0 {
        ev_zero()
    } else {
        ev_add(bary_sum(ys, x, n - 1), bary_term(ys, x, n - 1))
    }
}

/// Whether `x` is one of the interpolation nodes `0, ..., n-1`.
pub open spec fn on_grid(x: ExtVal, n: int) -> bool {
    exists|i: int| 0 <= i < n && x == ev_nat(i)
}

/// The node that `x` equals, when it is on the grid.
pub open spec fn grid_index(x: ExtVal, n: int) -> int {
    choose|i: int| 0 <= i < n && x == ev_nat(i)
}

/// The value at `x` of the degree `< n` polynomial with values `ys` at the
/// nodes `0, ..., n-1`: the stored value on a node, and the barycentric
/// formula `m(x) * sum_i y_i / (d_i * (x - i))` off the grid.
pub open spec fn barycentric_spec(ys: Seq<ExtVal>, x: ExtVal) -> ExtVal {
    if on_grid(x, ys.len() as int) {
        ys[grid_index(x, ys.len() as int)]
    } else {
        ev_mul(vanishing_prefix(x, ys.len() as int), bary_sum(ys, x, ys.len() as int))
    }
}

/// Evaluates a univariate polynomial given in evaluation form at the nodes
/// `0, ..., len-1` at an arbitrary point, in the extension field.
#[verifier::rlimit(50)]
pub fn barycentric_evaluation(evaluations: &[Fields], evaluation_point: &Fields) -> (r: Fields)
    requires
        all_wf(evaluations@),
        evaluation_point.wf(),
        evaluations@.len() <= P,
    ensures
        r.wf(),
        !r.is_base(),
        r@ == barycentric_spec(vals(evaluations@), evaluation_point@),
{
    let len = evaluations.len();
    let x = evaluation_point.to_extension_field();
    let ghost ys = vals(evaluations@);
    let ghost xv = evaluation_point@;
    // On a node, return the stored value.
    let mut i: usize = 0;
    while i < len
        invariant
            0 <= i <= len,
            len == evaluations@.len() <= P,
            all_wf(evaluations@),
            evaluation_point.wf(),
            x.wf(),
            x@ == xv,
            xv == evaluation_point@,
            ys == vals(evaluations@),
            forall|j: int| 0 <= j < i ==> xv != ev_nat(j),
        decreases len - i,
    {
        let node = ExtElem::from_u64(i as u64);
        if x == node {
            let out = Fields::Extension(evaluations[i].to_extension_field());
            proof {
                assert(xv == ev_nat(i as int));
                assert(on_grid(xv, ys.len() as int));
                let gi = grid_index(xv, ys.len() as int);
                lemma_bmod_small(gi);
                lemma_bmod_small(i as int);
                assert(gi == i as int);
                assert(ys[i as int] == evaluations@[i as int]@);
            }
            return out;
        }
        i = i + 1;
    }
    proof {
        assert(!on_grid(xv, len as int));
    }
    // Off the grid: the barycentric formula.
    let mut m_x = ExtElem::one();
    let mut j: usize = 0;
    while j < len
        invariant
            0 <= j <= len,
            len == evaluations@.len() <= P,
            x.wf(),
            x@ == xv,
            m_x.wf(),
            m_x@ == vanishing_prefix(xv, j as int),
        decreases len - j,
    {
        m_x = m_x.mul(x.sub(ExtElem::from_u64(j as u64)));
        j = j + 1;
    }
    let mut res = ExtElem::zero();
    let mut i: usize = 0;
    while i < len
        invariant
            0 <= i <= len,
            len == evaluations@.len() <= P,
            all_wf(evaluations@),
            x.wf(),
            x@ == xv,
            ys == vals(evaluations@),
            res.wf(),
            res@ == bary_sum(ys, xv, i as int),
        decreases len - i,
    {
        let mut di = ExtElem::one();
        let mut j: usize = 0;
        while j < len
            invariant
                0 <= j <= len,
                len <= P,
                0 <= i < len,
                di.wf(),
                di@ == weight_prefix(i as int, j as int),
            decreases len - j,
        {
            if j != i {
                let ni = ExtElem::from_u64(i as u64);
                let nj = ExtElem::from_u64(j as u64);
                di = di.mul(ni.sub(nj));
            }
            j = j + 1;
        }
        let denominator = di.mul(x.sub(ExtElem::from_u64(i as u64)));
        if !denominator.is_zero() {
            let inv = denominator.inverse();
            proof {
                lemma_ev_inv_unique(denominator@, inv@);
            }
            let numerator = evaluations[i].to_extension_field();
            res = res.add(numerator.mul(inv));
        }
        i = i + 1;
    }
    Fields::Extension(m_x.mul(res))
}

/// Builds a virtual polynomial that combines its constituents by product.
pub fn product_poly(mles: Vec<MultilinearPoly>) -> (r: VPoly)
    requires
        mles@.len() >= 1,
        forall|i: int|
            0 <= i < mles@.len() ==> (#[trigger] mles@[i]).wf() && mles@[i].n_vars
                == mles@[0].n_vars,
    ensures
        r.wf(),
        r.mles == mles,
        r.max_degree == mles@.len(),
        r.num_vars == mles@[0].n_vars,
        forall|row: Seq<ExtVal>| row.len() == mles@.len() ==> #[trigger] r.combine_fn.eval_spec(
            row,
        ) == product_spec(row),
{
    let max_degree = mles.len();
    let num_vars = mles[0].num_vars();
    let combine = CombineExpr::product_of(mles.len());
    VPoly::new(mles, max_degree, num_vars, Rc::new(combine))
}

/// The equality-indicator table over `pts`: the `2^n` hypercube values of
/// `eq(pts, x)`, grown point by point; each point splits every entry into
/// a `(1 - r)` half and an `r` half.
pub open spec fn eq_table(pts: Seq<ExtVal>) -> Seq<ExtVal>
    decreases pts.len(),
{
    if pts.len() == 0 {
        seq![ev_one()]
    } else {
        eq_expand(eq_table(pts.drop_last()), pts.last())
    }
}

/// One expansion step: each entry `v` becomes the pair `v*(1-r), v*r`.
pub open spec fn eq_expand(t: Seq<ExtVal>, r: ExtVal) -> Seq<ExtVal> {
    Seq::new(2 * t.len(), |i: int|
        if i % 2 == 0 {
            ev_mul(t[i / 2], ev_sub(ev_one(), r))
        } else {
            ev_mul(t[i / 2], r)
        },
    )
}

/// Generates the evaluation table of `eq(r, x)`, the multilinear extension
/// of the equality indicator at the point `r`.
pub fn generate_eq(points: &[Fields]) -> (r: Vec<Fields>)
    requires
        all_wf(points@),
        points@.len() < 32,
    ensures
        all_wf(r@),
        vals(r@) == eq_table(vals(points@)),
    {
    let mut res: Vec<Fields> = Vec::new();
    res.push(Fields::Extension(ExtElem::one()));
    proof {
        assert(vals(res@) =~= eq_table(vals(points@).take(0)));
    }
    let mut k: usize = 0;
    while k < points.len()
        invariant
            0 <= k <= points@.len() < 32,
            all_wf(points@),
            all_wf(res@),
            vals(res@) == eq_table(vals(points@).take(k as int)),
        decreases points@.len() - k,
    {
        let point = points[k].to_extension_field();
        let one_minus = ExtElem::one().sub(point);
        let mut v: Vec<Fields> = Vec::new();
        let mut i: usize = 0;
        while i < res.len()
            invariant
                0 <= i <= res@.len(),
                all_wf(res@),
                point.wf(),
                point@ == points@[k as int]@,
                one_minus.wf(),
                one_minus@ == ev_sub(ev_one(), point@),
                v@.len() == 2 * i,
                all_wf(v@),
                forall|j: int|
                    0 <= j < 2 * i ==> (#[trigger] v@[j])@ == (if j % 2 == 0 {
                        ev_mul(res@[j / 2]@, ev_sub(ev_one(), point@))
                    } else {
                        ev_mul(res@[j / 2]@, point@)
                    }),
            decreases res@.len() - i,
        {
            let val = res[i].to_extension_field();
            v.push(Fields::Extension(val.mul(one_minus)));
            v.push(Fields::Extension(val.mul(point)));
            i = i + 1;
        }
        proof {
            assert(vals(v@) =~= eq_expand(vals(res@), points@[k as int]@));
            assert(vals(points@).take(k as int + 1).drop_last() =~= vals(points@).take(k as int));
            assert(eq_table(vals(points@).take(k as int + 1)) == eq_expand(
                eq_table(vals(points@).take(k as int)),
                points@[k as int]@,
            ));
        }
        res = v;
        k = k + 1;
    }
    proof {
        assert(vals(points@).take(points@.len() as int) == vals(points@));
    }
    res
}

/// The table over `n` points has `2^n` entries.
pub proof fn lemma_eq_table_len(pts: Seq<ExtVal>)
    ensures
        eq_table(pts).len() == vstd::arithmetic::power2::pow2(pts.len()),
    decreases pts.len(),
{
    if pts.len() == 0 {
        vstd::arithmetic::power2::lemma2_to64();
    } else {
        lemma_eq_table_len(pts.drop_last());
        vstd::arithmetic::power2::lemma_pow2_unfold(pts.len());
    }
}

} // verus!
