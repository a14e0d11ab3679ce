//! Field elements for the sumcheck library.
//!
//! The base field is the Mersenne prime field `F_P` with `P = 2^31 - 1`; the
//! extension field is its cubic binomial extension `F_P[X] / (X^3 - W)` with
//! `W = 5`. A `Fields` value carries either a base element or an extension
//! element; mixed arithmetic promotes to the extension field.
//!
//! The mathematical model of an element is an `ExtVal`: the three coefficients
//! of the extension element (a base element embeds as its low coefficient),
//! each reduced into `[0, P)`.
use vstd::prelude::*;

verus! {

use vstd::arithmetic::div_mod::{
    lemma_add_mod_noop,
    lemma_mod_twice,
    lemma_mul_mod_noop_left,
    lemma_mul_mod_noop_right,
    lemma_small_mod,
};
use vstd::arithmetic::mul::{
    lemma_mul_is_associative,
    lemma_mul_is_distributive_add,
    lemma_mul_is_distributive_add_other_way,
    lemma_mul_is_distributive_sub,
};

/// Modulus of the base prime field: the Mersenne prime 2^31 - 1.
pub const P: u32 = 0x7fff_ffff;

/// Binomial-extension constant: the cubic extension is F_P[X]/(X^3 - W).
pub const W: u32 = 5;

/// Mathematical value of an extension-field element: the coefficients of
/// c0 + c1*X + c2*X^2, each an integer (reduced into [0, P) when well-formed).
pub ghost struct ExtVal {
    pub c0: int,
    pub c1: int,
    pub c2: int,
}

/// Reduction of an integer into the base field.
pub open spec fn bmod(a: int) -> int {
    a % (P as int)
}

/// A value is well-formed when each coefficient is reduced.
pub open spec fn ev_wf(v: ExtVal) -> bool {
    0 <= v.c0 < P && 0 <= v.c1 < P && 0 <= v.c2 < P
}

pub open spec fn ev_zero() -> ExtVal {
    ExtVal { c0: 0, c1: 0, c2: 0 }
}

pub open spec fn ev_one() -> ExtVal {
    ExtVal { c0: 1, c1: 0, c2: 0 }
}

/// Canonical embedding of a machine integer into the field.
pub open spec fn ev_nat(n: int) -> ExtVal {
    ExtVal { c0: bmod(n), c1: 0, c2: 0 }
}

/// Componentwise reduction.
pub open spec fn ev_mod(v: ExtVal) -> ExtVal {
    ExtVal { c0: bmod(v.c0), c1: bmod(v.c1), c2: bmod(v.c2) }
}

pub open spec fn ev_add(x: ExtVal, y: ExtVal) -> ExtVal {
    ExtVal { c0: bmod(x.c0 + y.c0), c1: bmod(x.c1 + y.c1), c2: bmod(x.c2 + y.c2) }
}

pub open spec fn ev_neg(x: ExtVal) -> ExtVal {
    ExtVal { c0: bmod(-x.c0), c1: bmod(-x.c1), c2: bmod(-x.c2) }
}

pub open spec fn ev_sub(x: ExtVal, y: ExtVal) -> ExtVal {
    ExtVal { c0: bmod(x.c0 - y.c0), c1: bmod(x.c1 - y.c1), c2: bmod(x.c2 - y.c2) }
}

/// Product in the polynomial ring Z[X]/(X^3 - W), before reduction mod P.
pub open spec fn ev_mul_raw(x: ExtVal, y: ExtVal) -> ExtVal {
    ExtVal {
        c0: x.c0 * y.c0 + (W as int) * (x.c1 * y.c2 + x.c2 * y.c1),
        c1: x.c0 * y.c1 + x.c1 * y.c0 + (W as int) * (x.c2 * y.c2),
        c2: x.c0 * y.c2 + x.c1 * y.c1 + x.c2 * y.c0,
    }
}

/// Field multiplication: the ring product, reduced.
pub open spec fn ev_mul(x: ExtVal, y: ExtVal) -> ExtVal {
    ev_mod(ev_mul_raw(x, y))
}

/// The multiplicative inverse, where one exists.
pub open spec fn ev_inv(x: ExtVal) -> ExtVal {
    choose|y: ExtVal| ev_wf(y) && ev_mul(x, y) == ev_one()
}

// ---------------------------------------------------------------------------
// Congruence lemmas for the reduction
// ---------------------------------------------------------------------------

pub proof fn lemma_bmod_add(a: int, b: int, a2: int, b2: int)
    requires
        bmod(a) == bmod(a2),
        bmod(b) == bmod(b2),
    ensures
        bmod(a + b) == bmod(a2 + b2),
{
    lemma_add_mod_noop(a, b, P as int);
    lemma_add_mod_noop(a2, b2, P as int);
}

pub proof fn lemma_bmod_mul_right(k: int, a: int, a2: int)
    requires
        bmod(a) == bmod(a2),
    ensures
        bmod(k * a) == bmod(k * a2),
{
    lemma_mul_mod_noop_right(k, a, P as int);
    lemma_mul_mod_noop_right(k, a2, P as int);
}

pub proof fn lemma_bmod_small(a: int)
    requires
        0 <= a < P,
    ensures
        bmod(a) == a,
{
    lemma_small_mod(a as nat, P as nat);
}

pub proof fn lemma_bmod_twice(a: int)
    ensures
        bmod(bmod(a)) == bmod(a),
{
    lemma_mod_twice(a, P as int);
}

/// The raw product of one reduced operand is congruent to the raw product of
/// the unreduced operand, componentwise.
proof fn lemma_mul_raw_mod_left(x: ExtVal, y: ExtVal)
    ensures
        ev_mod(ev_mul_raw(ev_mod(x), y)) == ev_mod(ev_mul_raw(x, y)),
{
    let p = P as int;
    let w = W as int;
    lemma_mul_mod_noop_left(x.c0, y.c0, p);
    lemma_mul_mod_noop_left(x.c1, y.c2, p);
    lemma_mul_mod_noop_left(x.c2, y.c1, p);
    lemma_mul_mod_noop_left(x.c0, y.c1, p);
    lemma_mul_mod_noop_left(x.c1, y.c0, p);
    lemma_mul_mod_noop_left(x.c2, y.c2, p);
    lemma_mul_mod_noop_left(x.c0, y.c2, p);
    lemma_mul_mod_noop_left(x.c1, y.c1, p);
    lemma_mul_mod_noop_left(x.c2, y.c0, p);
    lemma_bmod_twice(x.c0 * y.c0);
    lemma_bmod_twice(x.c0 * y.c1);
    lemma_bmod_twice(x.c0 * y.c2);
    // c0 component
    lemma_bmod_add(bmod(x.c1) * y.c2, bmod(x.c2) * y.c1, x.c1 * y.c2, x.c2 * y.c1);
    lemma_bmod_mul_right(w, bmod(x.c1) * y.c2 + bmod(x.c2) * y.c1, x.c1 * y.c2 + x.c2 * y.c1);
    lemma_bmod_add(
        bmod(x.c0) * y.c0,
        w * (bmod(x.c1) * y.c2 + bmod(x.c2) * y.c1),
        x.c0 * y.c0,
        w * (x.c1 * y.c2 + x.c2 * y.c1),
    );
    // c1 component
    lemma_bmod_add(bmod(x.c0) * y.c1, bmod(x.c1) * y.c0, x.c0 * y.c1, x.c1 * y.c0);
    lemma_bmod_mul_right(w, bmod(x.c2) * y.c2, x.c2 * y.c2);
    lemma_bmod_add(
        bmod(x.c0) * y.c1 + bmod(x.c1) * y.c0,
        w * (bmod(x.c2) * y.c2),
        x.c0 * y.c1 + x.c1 * y.c0,
        w * (x.c2 * y.c2),
    );
    // c2 component
    lemma_bmod_add(bmod(x.c0) * y.c2, bmod(x.c1) * y.c1, x.c0 * y.c2, x.c1 * y.c1);
    lemma_bmod_add(
        bmod(x.c0) * y.c2 + bmod(x.c1) * y.c1,
        bmod(x.c2) * y.c0,
        x.c0 * y.c2 + x.c1 * y.c1,
        x.c2 * y.c0,
    );
}

proof fn lemma_mul_raw_comm(x: ExtVal, y: ExtVal)
    ensures
        ev_mul_raw(x, y) == ev_mul_raw(y, x),
{
}

proof fn lemma_mul_raw_mod_right(x: ExtVal, y: ExtVal)
    ensures
        ev_mod(ev_mul_raw(x, ev_mod(y))) == ev_mod(ev_mul_raw(x, y)),
{
    lemma_mul_raw_comm(x, ev_mod(y));
    lemma_mul_raw_comm(x, y);
    lemma_mul_raw_mod_left(y, x);
}

/// `(s + 5*(t + u)) * c` expanded; `s`, `t`, `u` stand for products.
proof fn lemma_expand_head(s: int, t: int, u: int, c: int)
    ensures
        (s + 5 * (t + u)) * c == s * c + 5 * (t * c) + 5 * (u * c),
{
    lemma_mul_is_distributive_add_other_way(c, s, 5 * (t + u));
    lemma_mul_is_associative(5, t + u, c);
    lemma_mul_is_distributive_add_other_way(c, t, u);
}

/// `(s + t + 5*u) * c` expanded.
proof fn lemma_expand_mid(s: int, t: int, u: int, c: int)
    ensures
        (s + t + 5 * u) * c == s * c + t * c + 5 * (u * c),
{
    lemma_mul_is_distributive_add_other_way(c, s + t, 5 * u);
    lemma_mul_is_distributive_add_other_way(c, s, t);
    lemma_mul_is_associative(5, u, c);
}

/// `(s + t + u) * c` expanded.
proof fn lemma_expand_tail(s: int, t: int, u: int, c: int)
    ensures
        (s + t + u) * c == s * c + t * c + u * c,
{
    lemma_mul_is_distributive_add_other_way(c, s + t, u);
    lemma_mul_is_distributive_add_other_way(c, s, t);
}

/// `a * (s + 5*(t + u))` expanded.
proof fn lemma_expand_head_l(a: int, s: int, t: int, u: int)
    ensures
        a * (s + 5 * (t + u)) == a * s + 5 * (a * t) + 5 * (a * u),
{
    lemma_mul_is_distributive_add(a, s, 5 * (t + u));
    lemma_mul_is_associative(a, 5, t + u);
    lemma_mul_is_associative(5, a, t + u);
    lemma_mul_is_distributive_add(a, t, u);
}

/// `a * (s + t + 5*u)` expanded.
proof fn lemma_expand_mid_l(a: int, s: int, t: int, u: int)
    ensures
        a * (s + t + 5 * u) == a * s + a * t + 5 * (a * u),
{
    lemma_mul_is_distributive_add(a, s + t, 5 * u);
    lemma_mul_is_distributive_add(a, s, t);
    lemma_mul_is_associative(a, 5, u);
    lemma_mul_is_associative(5, a, u);
}

/// `a * (s + t + u)` expanded.
proof fn lemma_expand_tail_l(a: int, s: int, t: int, u: int)
    ensures
        a * (s + t + u) == a * s + a * t + a * u,
{
    lemma_mul_is_distributive_add(a, s + t, u);
    lemma_mul_is_distributive_add(a, s, t);
}

/// Associativity of the unreduced ring product: each component of either
/// side expands to the same sum of degree-three monomials.
proof fn lemma_mul_raw_assoc(x: ExtVal, y: ExtVal, z: ExtVal)
    ensures
        ev_mul_raw(ev_mul_raw(x, y), z) == ev_mul_raw(x, ev_mul_raw(y, z)),
{
    assert(W as int == 5);
    let a0 = x.c0;
    let a1 = x.c1;
    let a2 = x.c2;
    let b0 = y.c0;
    let b1 = y.c1;
    let b2 = y.c2;
    let c0 = z.c0;
    let c1 = z.c1;
    let c2 = z.c2;
    // Expand each coefficient of x*y against each coefficient of z.
    lemma_expand_head(a0 * b0, a1 * b2, a2 * b1, c0);
    lemma_expand_head(a0 * b0, a1 * b2, a2 * b1, c1);
    lemma_expand_head(a0 * b0, a1 * b2, a2 * b1, c2);
    lemma_expand_mid(a0 * b1, a1 * b0, a2 * b2, c0);
    lemma_expand_mid(a0 * b1, a1 * b0, a2 * b2, c1);
    lemma_expand_mid(a0 * b1, a1 * b0, a2 * b2, c2);
    lemma_expand_tail(a0 * b2, a1 * b1, a2 * b0, c0);
    lemma_expand_tail(a0 * b2, a1 * b1, a2 * b0, c1);
    lemma_expand_tail(a0 * b2, a1 * b1, a2 * b0, c2);
    // Expand each coefficient of x against each coefficient of y*z.
    lemma_expand_head_l(a0, b0 * c0, b1 * c2, b2 * c1);
    lemma_expand_head_l(a1, b0 * c0, b1 * c2, b2 * c1);
    lemma_expand_head_l(a2, b0 * c0, b1 * c2, b2 * c1);
    lemma_expand_mid_l(a0, b0 * c1, b1 * c0, b2 * c2);
    lemma_expand_mid_l(a1, b0 * c1, b1 * c0, b2 * c2);
    lemma_expand_mid_l(a2, b0 * c1, b1 * c0, b2 * c2);
    lemma_expand_tail_l(a0, b0 * c2, b1 * c1, b2 * c0);
    lemma_expand_tail_l(a1, b0 * c2, b1 * c1, b2 * c0);
    lemma_expand_tail_l(a2, b0 * c2, b1 * c1, b2 * c0);
    // Normalize every right-hand monomial a*(b*c) to (a*b)*c.
    lemma_mul_is_associative(a0, b0, c0);
    lemma_mul_is_associative(a0, b0, c1);
    lemma_mul_is_associative(a0, b0, c2);
    lemma_mul_is_associative(a0, b1, c0);
    lemma_mul_is_associative(a0, b1, c1);
    lemma_mul_is_associative(a0, b1, c2);
    lemma_mul_is_associative(a0, b2, c0);
    lemma_mul_is_associative(a0, b2, c1);
    lemma_mul_is_associative(a0, b2, c2);
    lemma_mul_is_associative(a1, b0, c0);
    lemma_mul_is_associative(a1, b0, c1);
    lemma_mul_is_associative(a1, b0, c2);
    lemma_mul_is_associative(a1, b1, c0);
    lemma_mul_is_associative(a1, b1, c1);
    lemma_mul_is_associative(a1, b1, c2);
    lemma_mul_is_associative(a1, b2, c0);
    lemma_mul_is_associative(a1, b2, c1);
    lemma_mul_is_associative(a1, b2, c2);
    lemma_mul_is_associative(a2, b0, c0);
    lemma_mul_is_associative(a2, b0, c1);
    lemma_mul_is_associative(a2, b0, c2);
    lemma_mul_is_associative(a2, b1, c0);
    lemma_mul_is_associative(a2, b1, c1);
    lemma_mul_is_associative(a2, b1, c2);
    lemma_mul_is_associative(a2, b2, c0);
    lemma_mul_is_associative(a2, b2, c1);
    lemma_mul_is_associative(a2, b2, c2);
}

pub proof fn lemma_ev_mul_comm(x: ExtVal, y: ExtVal)
    ensures
        ev_mul(x, y) == ev_mul(y, x),
{
    lemma_mul_raw_comm(x, y);
}

pub proof fn lemma_ev_mul_assoc(x: ExtVal, y: ExtVal, z: ExtVal)
    ensures
        ev_mul(ev_mul(x, y), z) == ev_mul(x, ev_mul(y, z)),
{
    lemma_mul_raw_mod_left(ev_mul_raw(x, y), z);
    lemma_mul_raw_assoc(x, y, z);
    lemma_mul_raw_mod_right(x, ev_mul_raw(y, z));
}

pub proof fn lemma_ev_mul_one(x: ExtVal)
    requires
        ev_wf(x),
    ensures
        ev_mul(ev_one(), x) == x,
        ev_mul(x, ev_one()) == x,
{
    lemma_bmod_small(x.c0);
    lemma_bmod_small(x.c1);
    lemma_bmod_small(x.c2);
    lemma_mul_raw_comm(x, ev_one());
}

pub proof fn lemma_ev_mul_zero(x: ExtVal)
    ensures
        ev_mul(ev_zero(), x) == ev_zero(),
        ev_mul(x, ev_zero()) == ev_zero(),
{
    lemma_mul_raw_comm(x, ev_zero());
}

pub proof fn lemma_bmod_sub(a: int, b: int, a2: int, b2: int)
    requires
        bmod(a) == bmod(a2),
        bmod(b) == bmod(b2),
    ensures
        bmod(a - b) == bmod(a2 - b2),
{
    vstd::arithmetic::div_mod::lemma_sub_mod_noop(a, b, P as int);
    vstd::arithmetic::div_mod::lemma_sub_mod_noop(a2, b2, P as int);
}

/// Multiplication distributes over addition.
pub proof fn lemma_ev_mul_distrib(a: ExtVal, b: ExtVal, c: ExtVal)
    ensures
        ev_mul(a, ev_add(b, c)) == ev_add(ev_mul(a, b), ev_mul(a, c)),
{
    let y = ExtVal { c0: b.c0 + c.c0, c1: b.c1 + c.c1, c2: b.c2 + c.c2 };
    // The reduced sum is congruent to the unreduced one.
    lemma_mul_raw_mod_right(a, y);
    assert(ev_add(b, c) == ev_mod(y));
    // The raw product is additive in its second operand.
    lemma_mul_is_distributive_add(a.c0, b.c0, c.c0);
    lemma_mul_is_distributive_add(a.c0, b.c1, c.c1);
    lemma_mul_is_distributive_add(a.c0, b.c2, c.c2);
    lemma_mul_is_distributive_add(a.c1, b.c0, c.c0);
    lemma_mul_is_distributive_add(a.c1, b.c1, c.c1);
    lemma_mul_is_distributive_add(a.c1, b.c2, c.c2);
    lemma_mul_is_distributive_add(a.c2, b.c0, c.c0);
    lemma_mul_is_distributive_add(a.c2, b.c1, c.c1);
    lemma_mul_is_distributive_add(a.c2, b.c2, c.c2);
    let u = ev_mul_raw(a, b);
    let v = ev_mul_raw(a, c);
    assert(ev_mul_raw(a, y) == ExtVal { c0: u.c0 + v.c0, c1: u.c1 + v.c1, c2: u.c2 + v.c2 });
    // Componentwise reduction turns the unreduced sum into the field sum.
    lemma_bmod_twice(u.c0);
    lemma_bmod_twice(u.c1);
    lemma_bmod_twice(u.c2);
    lemma_bmod_twice(v.c0);
    lemma_bmod_twice(v.c1);
    lemma_bmod_twice(v.c2);
    lemma_bmod_add(bmod(u.c0), bmod(v.c0), u.c0, v.c0);
    lemma_bmod_add(bmod(u.c1), bmod(v.c1), u.c1, v.c1);
    lemma_bmod_add(bmod(u.c2), bmod(v.c2), u.c2, v.c2);
}

/// Addition of differences is the difference of the sums.
pub proof fn lemma_ev_add_sub_exchange(a: ExtVal, b: ExtVal, c: ExtVal, d: ExtVal)
    ensures
        ev_add(ev_sub(a, b), ev_sub(c, d)) == ev_sub(ev_add(a, c), ev_add(b, d)),
{
    lemma_bmod_twice(a.c0 - b.c0);
    lemma_bmod_twice(a.c1 - b.c1);
    lemma_bmod_twice(a.c2 - b.c2);
    lemma_bmod_twice(c.c0 - d.c0);
    lemma_bmod_twice(c.c1 - d.c1);
    lemma_bmod_twice(c.c2 - d.c2);
    lemma_bmod_add(bmod(a.c0 - b.c0), bmod(c.c0 - d.c0), a.c0 - b.c0, c.c0 - d.c0);
    lemma_bmod_add(bmod(a.c1 - b.c1), bmod(c.c1 - d.c1), a.c1 - b.c1, c.c1 - d.c1);
    lemma_bmod_add(bmod(a.c2 - b.c2), bmod(c.c2 - d.c2), a.c2 - b.c2, c.c2 - d.c2);
    lemma_bmod_twice(a.c0 + c.c0);
    lemma_bmod_twice(a.c1 + c.c1);
    lemma_bmod_twice(a.c2 + c.c2);
    lemma_bmod_twice(b.c0 + d.c0);
    lemma_bmod_twice(b.c1 + d.c1);
    lemma_bmod_twice(b.c2 + d.c2);
    lemma_bmod_sub(bmod(a.c0 + c.c0), bmod(b.c0 + d.c0), a.c0 + c.c0, b.c0 + d.c0);
    lemma_bmod_sub(bmod(a.c1 + c.c1), bmod(b.c1 + d.c1), a.c1 + c.c1, b.c1 + d.c1);
    lemma_bmod_sub(bmod(a.c2 + c.c2), bmod(b.c2 + d.c2), a.c2 + c.c2, b.c2 + d.c2);
}

/// Multiplication distributes over subtraction.
pub proof fn lemma_ev_mul_distrib_sub(a: ExtVal, b: ExtVal, c: ExtVal)
    ensures
        ev_mul(a, ev_sub(b, c)) == ev_sub(ev_mul(a, b), ev_mul(a, c)),
{
    let y = ExtVal { c0: b.c0 - c.c0, c1: b.c1 - c.c1, c2: b.c2 - c.c2 };
    lemma_mul_raw_mod_right(a, y);
    assert(ev_sub(b, c) == ev_mod(y));
    lemma_mul_is_distributive_sub(a.c0, b.c0, c.c0);
    lemma_mul_is_distributive_sub(a.c0, b.c1, c.c1);
    lemma_mul_is_distributive_sub(a.c0, b.c2, c.c2);
    lemma_mul_is_distributive_sub(a.c1, b.c0, c.c0);
    lemma_mul_is_distributive_sub(a.c1, b.c1, c.c1);
    lemma_mul_is_distributive_sub(a.c1, b.c2, c.c2);
    lemma_mul_is_distributive_sub(a.c2, b.c0, c.c0);
    lemma_mul_is_distributive_sub(a.c2, b.c1, c.c1);
    lemma_mul_is_distributive_sub(a.c2, b.c2, c.c2);
    let u = ev_mul_raw(a, b);
    let v = ev_mul_raw(a, c);
    assert(ev_mul_raw(a, y) == ExtVal { c0: u.c0 - v.c0, c1: u.c1 - v.c1, c2: u.c2 - v.c2 });
    lemma_bmod_twice(u.c0);
    lemma_bmod_twice(u.c1);
    lemma_bmod_twice(u.c2);
    lemma_bmod_twice(v.c0);
    lemma_bmod_twice(v.c1);
    lemma_bmod_twice(v.c2);
    lemma_bmod_sub(bmod(u.c0), bmod(v.c0), u.c0, v.c0);
    lemma_bmod_sub(bmod(u.c1), bmod(v.c1), u.c1, v.c1);
    lemma_bmod_sub(bmod(u.c2), bmod(v.c2), u.c2, v.c2);
}

/// Multiplying by minus one negates.
pub proof fn lemma_ev_mul_neg_one(t: ExtVal)
    ensures
        ev_mul(ev_neg(ev_one()), t) == ev_neg(t),
{
    let n = ev_neg(ev_one());
    assert(n.c0 == bmod(-1) && n.c1 == 0 && n.c2 == 0);
    assert(bmod(-1) == P - 1);
    let p = P as int;
    assert((p - 1) * t.c0 == p * t.c0 - t.c0) by (nonlinear_arith);
    assert((p - 1) * t.c1 == p * t.c1 - t.c1) by (nonlinear_arith);
    assert((p - 1) * t.c2 == p * t.c2 - t.c2) by (nonlinear_arith);
    vstd::arithmetic::div_mod::lemma_mod_multiples_vanish(t.c0, -t.c0, p);
    vstd::arithmetic::div_mod::lemma_mod_multiples_vanish(t.c1, -t.c1, p);
    vstd::arithmetic::div_mod::lemma_mod_multiples_vanish(t.c2, -t.c2, p);
}

/// Negating a difference swaps its sides.
pub proof fn lemma_ev_neg_sub(a: ExtVal, b: ExtVal)
    ensures
        ev_neg(ev_sub(a, b)) == ev_sub(b, a),
{
    lemma_bmod_twice(a.c0 - b.c0);
    lemma_bmod_twice(a.c1 - b.c1);
    lemma_bmod_twice(a.c2 - b.c2);
    lemma_bmod_sub(0, bmod(a.c0 - b.c0), 0, a.c0 - b.c0);
    lemma_bmod_sub(0, bmod(a.c1 - b.c1), 0, a.c1 - b.c1);
    lemma_bmod_sub(0, bmod(a.c2 - b.c2), 0, a.c2 - b.c2);
}

/// `(a + c) - b == a - (b - c)`.
pub proof fn lemma_ev_sub_of_sub(a: ExtVal, b: ExtVal, c: ExtVal)
    ensures
        ev_sub(ev_add(a, c), b) == ev_sub(a, ev_sub(b, c)),
{
    lemma_bmod_twice(a.c0 + c.c0);
    lemma_bmod_twice(a.c1 + c.c1);
    lemma_bmod_twice(a.c2 + c.c2);
    lemma_bmod_sub(bmod(a.c0 + c.c0), b.c0, a.c0 + c.c0, b.c0);
    lemma_bmod_sub(bmod(a.c1 + c.c1), b.c1, a.c1 + c.c1, b.c1);
    lemma_bmod_sub(bmod(a.c2 + c.c2), b.c2, a.c2 + c.c2, b.c2);
    lemma_bmod_twice(b.c0 - c.c0);
    lemma_bmod_twice(b.c1 - c.c1);
    lemma_bmod_twice(b.c2 - c.c2);
    lemma_bmod_sub(a.c0, bmod(b.c0 - c.c0), a.c0, b.c0 - c.c0);
    lemma_bmod_sub(a.c1, bmod(b.c1 - c.c1), a.c1, b.c1 - c.c1);
    lemma_bmod_sub(a.c2, bmod(b.c2 - c.c2), a.c2, b.c2 - c.c2);
}

/// A difference of well-formed values vanishes exactly on equal values.
pub proof fn lemma_ev_sub_zero_iff(a: ExtVal, b: ExtVal)
    requires
        ev_wf(a),
        ev_wf(b),
    ensures
        ev_sub(a, b) == ev_zero() <==> a == b,
{
    lemma_bmod_diff_zero(a.c0, b.c0);
    lemma_bmod_diff_zero(a.c1, b.c1);
    lemma_bmod_diff_zero(a.c2, b.c2);
}

proof fn lemma_bmod_diff_zero(a: int, b: int)
    requires
        0 <= a < P,
        0 <= b < P,
    ensures
        bmod(a - b) == 0 <==> a == b,
{
    if a >= b {
        lemma_bmod_small(a - b);
    } else {
        vstd::arithmetic::div_mod::lemma_mod_add_multiples_vanish(a - b, P as int);
        lemma_bmod_small(a - b + P);
    }
}

/// Inverses are unique, so a witness to `x * y == 1` pins `ev_inv(x)` down.
pub proof fn lemma_ev_inv_unique(x: ExtVal, y: ExtVal)
    requires
        ev_wf(y),
        ev_mul(x, y) == ev_one(),
    ensures
        ev_inv(x) == y,
        ev_wf(ev_inv(x)),
        ev_mul(x, ev_inv(x)) == ev_one(),
{
    assert(ev_wf(y) && ev_mul(x, y) == ev_one());
    let z = choose|z: ExtVal| ev_wf(z) && ev_mul(x, z) == ev_one();
    lemma_ev_mul_assoc(y, x, z);
    lemma_ev_mul_comm(y, x);
    lemma_ev_mul_comm(y, ev_one());
    lemma_ev_mul_one(y);
    lemma_ev_mul_one(z);
}

pub proof fn lemma_ev_add_assoc(x: ExtVal, y: ExtVal, z: ExtVal)
    ensures
        ev_add(ev_add(x, y), z) == ev_add(x, ev_add(y, z)),
{
    lemma_bmod_twice(x.c0 + y.c0);
    lemma_bmod_twice(x.c1 + y.c1);
    lemma_bmod_twice(x.c2 + y.c2);
    lemma_bmod_twice(y.c0 + z.c0);
    lemma_bmod_twice(y.c1 + z.c1);
    lemma_bmod_twice(y.c2 + z.c2);
    lemma_bmod_add(bmod(x.c0 + y.c0), z.c0, x.c0 + y.c0, z.c0);
    lemma_bmod_add(bmod(x.c1 + y.c1), z.c1, x.c1 + y.c1, z.c1);
    lemma_bmod_add(bmod(x.c2 + y.c2), z.c2, x.c2 + y.c2, z.c2);
    lemma_bmod_add(x.c0, bmod(y.c0 + z.c0), x.c0, y.c0 + z.c0);
    lemma_bmod_add(x.c1, bmod(y.c1 + z.c1), x.c1, y.c1 + z.c1);
    lemma_bmod_add(x.c2, bmod(y.c2 + z.c2), x.c2, y.c2 + z.c2);
}

pub proof fn lemma_ev_add_zero(x: ExtVal)
    requires
        ev_wf(x),
    ensures
        ev_add(ev_zero(), x) == x,
        ev_add(x, ev_zero()) == x,
{
    lemma_bmod_small(x.c0);
    lemma_bmod_small(x.c1);
    lemma_bmod_small(x.c2);
}

pub broadcast proof fn lemma_ev_add_wf(x: ExtVal, y: ExtVal)
    ensures
        ev_wf(#[trigger] ev_add(x, y)),
{
    vstd::arithmetic::div_mod::lemma_mod_bound(x.c0 + y.c0, P as int);
    vstd::arithmetic::div_mod::lemma_mod_bound(x.c1 + y.c1, P as int);
    vstd::arithmetic::div_mod::lemma_mod_bound(x.c2 + y.c2, P as int);
}

pub broadcast proof fn lemma_ev_sub_wf(x: ExtVal, y: ExtVal)
    ensures
        ev_wf(#[trigger] ev_sub(x, y)),
{
    vstd::arithmetic::div_mod::lemma_mod_bound(x.c0 - y.c0, P as int);
    vstd::arithmetic::div_mod::lemma_mod_bound(x.c1 - y.c1, P as int);
    vstd::arithmetic::div_mod::lemma_mod_bound(x.c2 - y.c2, P as int);
}

pub broadcast proof fn lemma_ev_mul_wf(x: ExtVal, y: ExtVal)
    ensures
        ev_wf(#[trigger] ev_mul(x, y)),
{
    let r = ev_mul_raw(x, y);
    vstd::arithmetic::div_mod::lemma_mod_bound(r.c0, P as int);
    vstd::arithmetic::div_mod::lemma_mod_bound(r.c1, P as int);
    vstd::arithmetic::div_mod::lemma_mod_bound(r.c2, P as int);
}

pub broadcast proof fn lemma_ev_neg_wf(x: ExtVal)
    ensures
        ev_wf(#[trigger] ev_neg(x)),
{
    vstd::arithmetic::div_mod::lemma_mod_bound(-x.c0, P as int);
    vstd::arithmetic::div_mod::lemma_mod_bound(-x.c1, P as int);
    vstd::arithmetic::div_mod::lemma_mod_bound(-x.c2, P as int);
}

pub broadcast proof fn lemma_ev_nat_wf(n: int)
    ensures
        ev_wf(#[trigger] ev_nat(n)),
{
    vstd::arithmetic::div_mod::lemma_mod_bound(n, P as int);
}

pub broadcast group group_ev_wf {
    lemma_ev_add_wf,
    lemma_ev_sub_wf,
    lemma_ev_mul_wf,
    lemma_ev_neg_wf,
    lemma_ev_nat_wf,
}

proof fn lemma_bmod_sub_cancel(a: int, b: int)
    requires
        0 <= a < P,
        0 <= b < P,
    ensures
        bmod(a - bmod(a - b)) == b,
{
    if a >= b {
        lemma_bmod_small(a - b);
        lemma_bmod_small(b);
    } else {
        vstd::arithmetic::div_mod::lemma_mod_add_multiples_vanish(a - b, P as int);
        lemma_bmod_small(a - b + P);
        vstd::arithmetic::div_mod::lemma_mod_add_multiples_vanish(b - P, P as int);
        lemma_bmod_small(b);
    }
}

/// Subtracting zero is the identity on well-formed values.
pub proof fn lemma_ev_sub_zero(x: ExtVal)
    requires
        ev_wf(x),
    ensures
        ev_sub(x, ev_zero()) == x,
{
    lemma_bmod_small(x.c0);
    lemma_bmod_small(x.c1);
    lemma_bmod_small(x.c2);
}

/// `l - (l - r) == r` on well-formed values.
pub proof fn lemma_ev_sub_cancel(l: ExtVal, r: ExtVal)
    requires
        ev_wf(l),
        ev_wf(r),
    ensures
        ev_sub(l, ev_sub(l, r)) == r,
{
    lemma_bmod_sub_cancel(l.c0, r.c0);
    lemma_bmod_sub_cancel(l.c1, r.c1);
    lemma_bmod_sub_cancel(l.c2, r.c2);
}

// ---------------------------------------------------------------------------
// Executable field elements
// ---------------------------------------------------------------------------

/// An element of the base field, canonically reduced.
#[derive(Clone, Copy, Debug, PartialEq, Eq, Structural)]
pub struct BaseElem {
    pub val: u32,
}

/// An element of the cubic extension field, coefficients in ascending powers.
#[derive(Clone, Copy, Debug, PartialEq, Eq, Structural)]
pub struct ExtElem {
    pub c0: u32,
    pub c1: u32,
    pub c2: u32,
}

/// A field element: either a base element or an extension element.
#[derive(Clone, Copy, Debug, PartialEq, Eq, Structural)]
pub enum Fields {
    Base(BaseElem),
    Extension(ExtElem),
}

impl View for BaseElem {
    type V = ExtVal;

    open spec fn view(&self) -> ExtVal {
        ExtVal { c0: self.val as int, c1: 0, c2: 0 }
    }
}

impl BaseElem {
    pub open spec fn wf(self) -> bool {
        self.val < P
    }

    /// Canonical embedding of a `u32`.
    pub fn new(v: u32) -> (r: Self)
        ensures
            r.wf(),
            r@ == ev_nat(v as int),
    {
        BaseElem { val: v % P }
    }

    /// Canonical embedding of a `u64`.
    pub fn from_u64(v: u64) -> (r: Self)
        ensures
            r.wf(),
            r@ == ev_nat(v as int),
    {
        let r = BaseElem { val: (v % (P as u64)) as u32 };
        proof {
            vstd::arithmetic::div_mod::lemma_mod_bound(v as int, P as int);
        }
        r
    }

    pub fn zero() -> (r: Self)
        ensures
            r.wf(),
            r@ == ev_zero(),
    {
        BaseElem { val: 0 }
    }

    pub fn one() -> (r: Self)
        ensures
            r.wf(),
            r@ == ev_one(),
    {
        BaseElem { val: 1 }
    }

    pub fn add(self, o: Self) -> (r: Self)
        requires
            self.wf(),
            o.wf(),
        ensures
            r.wf(),
            r@ == ev_add(self@, o@),
    {
        BaseElem { val: ((self.val as u64 + o.val as u64) % (P as u64)) as u32 }
    }

    pub fn sub(self, o: Self) -> (r: Self)
        requires
            self.wf(),
            o.wf(),
        ensures
            r.wf(),
            r@ == ev_sub(self@, o@),
    {
        let r = BaseElem { val: ((self.val as u64 + (P - o.val) as u64) % (P as u64)) as u32 };
        proof {
            vstd::arithmetic::div_mod::lemma_mod_add_multiples_vanish(
                self.val as int - o.val as int,
                P as int,
            );
        }
        r
    }

    pub fn mul(self, o: Self) -> (r: Self)
        requires
            self.wf(),
            o.wf(),
        ensures
            r.wf(),
            r@ == ev_mod(ev_mul_raw(self@, o@)),
            r@ == ev_mul(self@, o@),
    {
        proof {
            assert((self.val as u64) * (o.val as u64) < 0x4000_0000_0000_0000u64)
                by (nonlinear_arith)
                requires
                    self.val < 0x8000_0000u64,
                    o.val < 0x8000_0000u64,
            ;
        }
        BaseElem { val: ((self.val as u64 * o.val as u64) % (P as u64)) as u32 }
    }

    pub fn neg(self) -> (r: Self)
        requires
            self.wf(),
        ensures
            r.wf(),
            r@ == ev_neg(self@),
    {
        let r = BaseElem { val: (P - self.val) % P };
        proof {
            vstd::arithmetic::div_mod::lemma_mod_add_multiples_vanish(
                -(self.val as int),
                P as int,
            );
        }
        r
    }

    /// Lift into the extension field.
    pub fn to_ext(self) -> (r: ExtElem)
        ensures
            r@ == self@,
            r.wf() <==> self.wf(),
    {
        ExtElem { c0: self.val, c1: 0, c2: 0 }
    }
}

/// Reduced addition on machine words.
fn add_mod_u(a: u64, b: u64) -> (r: u64)
    requires
        a < P,
        b < P,
    ensures
        r < P,
        r as int == bmod(a as int + b as int),
{
    (a + b) % (P as u64)
}

/// Reduced multiplication on machine words.
fn mul_mod_u(a: u64, b: u64) -> (r: u64)
    requires
        a < P,
        b < P,
    ensures
        r < P,
        r as int == bmod(a as int * b as int),
{
    proof {
        assert(a * b < 0x4000_0000_0000_0000u64) by (nonlinear_arith)
            requires
                a < 0x8000_0000u64,
                b < 0x8000_0000u64,
        ;
    }
    (a * b) % (P as u64)
}

impl View for ExtElem {
    type V = ExtVal;

    open spec fn view(&self) -> ExtVal {
        ExtVal { c0: self.c0 as int, c1: self.c1 as int, c2: self.c2 as int }
    }
}

impl ExtElem {
    pub open spec fn wf(self) -> bool {
        self.c0 < P && self.c1 < P && self.c2 < P
    }

    /// Canonical embedding of a `u64` (an extension element with zero
    /// higher coefficients).
    pub fn from_u64(v: u64) -> (r: Self)
        ensures
            r.wf(),
            r@ == ev_nat(v as int),
    {
        let r = ExtElem { c0: (v % (P as u64)) as u32, c1: 0, c2: 0 };
        proof {
            vstd::arithmetic::div_mod::lemma_mod_bound(v as int, P as int);
        }
        r
    }

    pub fn zero() -> (r: Self)
        ensures
            r.wf(),
            r@ == ev_zero(),
    {
        ExtElem { c0: 0, c1: 0, c2: 0 }
    }

    pub fn one() -> (r: Self)
        ensures
            r.wf(),
            r@ == ev_one(),
    {
        ExtElem { c0: 1, c1: 0, c2: 0 }
    }

    pub fn add(self, o: Self) -> (r: Self)
        requires
            self.wf(),
            o.wf(),
        ensures
            r.wf(),
            r@ == ev_add(self@, o@),
    {
        ExtElem {
            c0: ((self.c0 as u64 + o.c0 as u64) % (P as u64)) as u32,
            c1: ((self.c1 as u64 + o.c1 as u64) % (P as u64)) as u32,
            c2: ((self.c2 as u64 + o.c2 as u64) % (P as u64)) as u32,
        }
    }

    pub fn sub(self, o: Self) -> (r: Self)
        requires
            self.wf(),
            o.wf(),
        ensures
            r.wf(),
            r@ == ev_sub(self@, o@),
    {
        let r = ExtElem {
            c0: ((self.c0 as u64 + (P - o.c0) as u64) % (P as u64)) as u32,
            c1: ((self.c1 as u64 + (P - o.c1) as u64) % (P as u64)) as u32,
            c2: ((self.c2 as u64 + (P - o.c2) as u64) % (P as u64)) as u32,
        };
        proof {
            vstd::arithmetic::div_mod::lemma_mod_add_multiples_vanish(
                self.c0 as int - o.c0 as int,
                P as int,
            );
            vstd::arithmetic::div_mod::lemma_mod_add_multiples_vanish(
                self.c1 as int - o.c1 as int,
                P as int,
            );
            vstd::arithmetic::div_mod::lemma_mod_add_multiples_vanish(
                self.c2 as int - o.c2 as int,
                P as int,
            );
        }
        r
    }

    pub fn neg(self) -> (r: Self)
        requires
            self.wf(),
        ensures
            r.wf(),
            r@ == ev_neg(self@),
    {
        let r = ExtElem {
            c0: (P - self.c0) % P,
            c1: (P - self.c1) % P,
            c2: (P - self.c2) % P,
        };
        proof {
            vstd::arithmetic::div_mod::lemma_mod_add_multiples_vanish(-(self.c0 as int), P as int);
            vstd::arithmetic::div_mod::lemma_mod_add_multiples_vanish(-(self.c1 as int), P as int);
            vstd::arithmetic::div_mod::lemma_mod_add_multiples_vanish(-(self.c2 as int), P as int);
        }
        r
    }

    pub fn mul(self, o: Self) -> (r: Self)
        requires
            self.wf(),
            o.wf(),
        ensures
            r.wf(),
            r@ == ev_mul(self@, o@),
    {
        let x0 = self.c0 as u64;
        let x1 = self.c1 as u64;
        let x2 = self.c2 as u64;
        let y0 = o.c0 as u64;
        let y1 = o.c1 as u64;
        let y2 = o.c2 as u64;
        // c0 = x0*y0 + W*(x1*y2 + x2*y1)
        let s0 = add_mod_u(mul_mod_u(x1, y2), mul_mod_u(x2, y1));
        proof {
            lemma_bmod_twice(x1 as int * y2 as int);
            lemma_bmod_twice(x2 as int * y1 as int);
            lemma_bmod_add(
                bmod(x1 as int * y2 as int),
                bmod(x2 as int * y1 as int),
                x1 as int * y2 as int,
                x2 as int * y1 as int,
            );
        }
        let w0 = mul_mod_u(W as u64, s0);
        proof {
            let su = x1 as int * y2 as int + x2 as int * y1 as int;
            lemma_bmod_twice(su);
            lemma_bmod_mul_right(W as int, s0 as int, su);
        }
        let t0 = add_mod_u(mul_mod_u(x0, y0), w0);
        proof {
            let su = x1 as int * y2 as int + x2 as int * y1 as int;
            lemma_bmod_twice(x0 as int * y0 as int);
            lemma_bmod_twice(W as int * su);
            lemma_bmod_add(
                bmod(x0 as int * y0 as int),
                bmod(W as int * su),
                x0 as int * y0 as int,
                W as int * su,
            );
        }
        // c1 = x0*y1 + x1*y0 + W*(x2*y2)
        let s1 = add_mod_u(mul_mod_u(x0, y1), mul_mod_u(x1, y0));
        proof {
            lemma_bmod_twice(x0 as int * y1 as int);
            lemma_bmod_twice(x1 as int * y0 as int);
            lemma_bmod_add(
                bmod(x0 as int * y1 as int),
                bmod(x1 as int * y0 as int),
                x0 as int * y1 as int,
                x1 as int * y0 as int,
            );
        }
        let w1 = mul_mod_u(W as u64, mul_mod_u(x2, y2));
        proof {
            lemma_bmod_twice(x2 as int * y2 as int);
            lemma_bmod_mul_right(W as int, bmod(x2 as int * y2 as int), x2 as int * y2 as int);
        }
        let t1 = add_mod_u(s1, w1);
        proof {
            let su = x0 as int * y1 as int + x1 as int * y0 as int;
            lemma_bmod_twice(su);
            lemma_bmod_twice(W as int * (x2 as int * y2 as int));
            lemma_bmod_add(
                bmod(su),
                bmod(W as int * (x2 as int * y2 as int)),
                su,
                W as int * (x2 as int * y2 as int),
            );
        }
        // c2 = x0*y2 + x1*y1 + x2*y0
        let s2 = add_mod_u(mul_mod_u(x0, y2), mul_mod_u(x1, y1));
        proof {
            lemma_bmod_twice(x0 as int * y2 as int);
            lemma_bmod_twice(x1 as int * y1 as int);
            lemma_bmod_add(
                bmod(x0 as int * y2 as int),
                bmod(x1 as int * y1 as int),
                x0 as int * y2 as int,
                x1 as int * y1 as int,
            );
        }
        let t2 = add_mod_u(s2, mul_mod_u(x2, y0));
        proof {
            let su = x0 as int * y2 as int + x1 as int * y1 as int;
            lemma_bmod_twice(su);
            lemma_bmod_twice(x2 as int * y0 as int);
            lemma_bmod_add(bmod(su), bmod(x2 as int * y0 as int), su, x2 as int * y0 as int);
        }
        ExtElem { c0: t0 as u32, c1: t1 as u32, c2: t2 as u32 }
    }

    /// Whether this is the canonical zero element.
    pub fn is_zero(&self) -> (b: bool)
        requires
            self.wf(),
        ensures
            b == (self@ == ev_zero()),
    {
        self.c0 == 0 && self.c1 == 0 && self.c2 == 0
    }

    /// Multiplicative inverse of a nonzero element.
    ///
    /// Relies on `p3_field`'s `Field::inverse` on
    /// `BinomialExtensionField<Mersenne31, 3>`: the returned element is the
    /// multiplicative inverse in the same field F_P[X]/(X^3 - 5), with
    /// canonically reduced coefficients.
    #[verifier::external_body]
    pub(crate) fn inverse(&self) -> (r: ExtElem)
        requires
            self.wf(),
            self@ != ev_zero(),
        ensures
            r.wf(),
            ev_mul(self@, r@) == ev_one(),
    {
        let v = p3_field::extension::BinomialExtensionField::<p3_mersenne_31::Mersenne31, 3>::new([
            p3_mersenne_31::Mersenne31::new(self.c0),
            p3_mersenne_31::Mersenne31::new(self.c1),
            p3_mersenne_31::Mersenne31::new(self.c2),
        ]);
        let inv = p3_field::Field::inverse(&v);
        let c = p3_field::BasedVectorSpace::<p3_mersenne_31::Mersenne31>::as_basis_coefficients_slice(&inv);
        ExtElem {
            c0: p3_field::PrimeField32::as_canonical_u32(&c[0]),
            c1: p3_field::PrimeField32::as_canonical_u32(&c[1]),
            c2: p3_field::PrimeField32::as_canonical_u32(&c[2]),
        }
    }
}

impl View for Fields {
    type V = ExtVal;

    open spec fn view(&self) -> ExtVal {
        match *self {
            Fields::Base(b) => b@,
            Fields::Extension(e) => e@,
        }
    }
}

impl Fields {
    pub open spec fn wf(self) -> bool {
        match self {
            Fields::Base(b) => b.wf(),
            Fields::Extension(e) => e.wf(),
        }
    }

    pub open spec fn is_base(self) -> bool {
        self matches Fields::Base(_)
    }

    /// Canonical embedding of a `u64` as a base element.
    pub fn base_from_u64(v: u64) -> (r: Self)
        ensures
            r.wf(),
            r@ == ev_nat(v as int),
            r.is_base(),
    {
        Fields::Base(BaseElem::from_u64(v))
    }

    /// Canonical embedding of a `u64` as an extension element.
    pub fn ext_from_u64(v: u64) -> (r: Self)
        ensures
            r.wf(),
            r@ == ev_nat(v as int),
            !r.is_base(),
    {
        Fields::Extension(ExtElem::from_u64(v))
    }

    pub fn base_zero() -> (r: Self)
        ensures
            r.wf(),
            r@ == ev_zero(),
            r.is_base(),
    {
        Fields::Base(BaseElem::zero())
    }

    pub fn base_one() -> (r: Self)
        ensures
            r.wf(),
            r@ == ev_one(),
            r.is_base(),
    {
        Fields::Base(BaseElem::one())
    }

    /// Lift to the extension field; the identity on extension elements.
    pub fn to_extension_field(&self) -> (r: ExtElem)
        ensures
            r@ == self@,
            r.wf() <==> self.wf(),
    {
        match *self {
            Fields::Base(b) => b.to_ext(),
            Fields::Extension(e) => e,
        }
    }

    /// The base element, where this is one.
    pub fn to_base_field(&self) -> (r: Option<BaseElem>)
        ensures
            match r {
                Some(b) => self.is_base() && *self == Fields::Base(b),
                None => !self.is_base(),
            },
    {
        match *self {
            Fields::Base(b) => Some(b),
            Fields::Extension(_) => None,
        }
    }

    /// Addition; stays in the base field only when both operands are base.
    pub fn add(&self, o: &Fields) -> (r: Fields)
        requires
            self.wf(),
            o.wf(),
        ensures
            r.wf(),
            r@ == ev_add(self@, o@),
            r.is_base() <==> (self.is_base() && o.is_base()),
    {
        match (*self, *o) {
            (Fields::Base(a), Fields::Base(b)) => Fields::Base(a.add(b)),
            _ => Fields::Extension(self.to_extension_field().add(o.to_extension_field())),
        }
    }

    /// Subtraction; stays in the base field only when both operands are base.
    pub fn sub(&self, o: &Fields) -> (r: Fields)
        requires
            self.wf(),
            o.wf(),
        ensures
            r.wf(),
            r@ == ev_sub(self@, o@),
            r.is_base() <==> (self.is_base() && o.is_base()),
    {
        match (*self, *o) {
            (Fields::Base(a), Fields::Base(b)) => Fields::Base(a.sub(b)),
            _ => Fields::Extension(self.to_extension_field().sub(o.to_extension_field())),
        }
    }

    /// Multiplication; stays in the base field only when both operands are base.
    pub fn mul(&self, o: &Fields) -> (r: Fields)
        requires
            self.wf(),
            o.wf(),
        ensures
            r.wf(),
            r@ == ev_mul(self@, o@),
            r.is_base() <==> (self.is_base() && o.is_base()),
    {
        match (*self, *o) {
            (Fields::Base(a), Fields::Base(b)) => Fields::Base(a.mul(b)),
            _ => Fields::Extension(self.to_extension_field().mul(o.to_extension_field())),
        }
    }

    pub fn neg(&self) -> (r: Fields)
        requires
            self.wf(),
        ensures
            r.wf(),
            r@ == ev_neg(self@),
            r.is_base() <==> self.is_base(),
    {
        match *self {
            Fields::Base(a) => Fields::Base(a.neg()),
            Fields::Extension(e) => Fields::Extension(e.neg()),
        }
    }

    /// Whether the value (regardless of tag) is zero.
    pub fn value_is_zero(&self) -> (b: bool)
        requires
            self.wf(),
        ensures
            b == (self@ == ev_zero()),
    {
        self.to_extension_field().is_zero()
    }

    /// Whether the value (regardless of tag) is one.
    pub fn value_is_one(&self) -> (b: bool)
        requires
            self.wf(),
        ensures
            b == (self@ == ev_one()),
    {
        let e = self.to_extension_field();
        e.c0 == 1 && e.c1 == 0 && e.c2 == 0
    }
}

} // verus!
