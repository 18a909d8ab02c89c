//! Degree elevation of a quadratic curve to a cubic one.  Elevation is exact:
//! the elevated curve traces the same points, which is proved here as the
//! reconstruction identity.

use vstd::prelude::*;

use crate::bezier::cub_feq;
use crate::bezier::evaluate::cub_at;
use crate::bezier::evaluate::quad_at;
use crate::bezier::quad_wf;
use crate::bezier::CubF;
use crate::bezier::Cubic;
use crate::bezier::QuadF;
use crate::bezier::Quadratic;
use crate::expand::Expand;
use crate::frac::fadd;
use crate::frac::feq;
use crate::frac::fint;
use crate::frac::fone;
use crate::frac::fsub;
use crate::frac::lemma_fadd_common;
use crate::frac::fmul;
use crate::frac::frac_wf;
use crate::frac::Frac;
use crate::rat::ex_of;
use crate::rat::ex_plus;
use crate::rat::ex_times;
use crate::rat::lemma_ex_plus;
use crate::rat::lemma_ex_times;
use crate::rat::lemma_rat_new_spec;
use crate::rat::rat_new_spec;
use crate::rat::Ex;
use crate::rat::Rat;

verus! {

/// The ideal elevation of a quadratic curve: the inner control points are
/// weighted averages, the endpoints are kept.
pub open spec fn expand_f(x: QuadF) -> CubF {
    CubF {
        a: x.a,
        b: fmul(fadd(fmul(fint(2), x.b), x.a), Frac { n: 1, d: 3 }),
        c: fmul(fadd(x.c, fmul(fint(2), x.b)), Frac { n: 1, d: 3 }),
        d: x.c,
    }
}

/// The chain the executable elevation performs for the second control point.
pub open spec fn expand_run_b(x: QuadF) -> Ex {
    ex_times(
        ex_plus(ex_times(ex_of(fint(2)), ex_of(x.b)), ex_of(x.a)),
        ex_of(rat_new_spec(1, 3)),
    )
}

/// The chain the executable elevation performs for the third control point.
pub open spec fn expand_run_c(x: QuadF) -> Ex {
    ex_times(
        ex_plus(ex_of(x.c), ex_times(ex_of(fint(2)), ex_of(x.b))),
        ex_of(rat_new_spec(1, 3)),
    )
}

/// Both inner chains of the executable elevation stayed exact.
pub open spec fn expand_ok(x: QuadF) -> bool {
    expand_run_b(x).ok && expand_run_c(x).ok
}

/// The elevation chains stay within the representation and, when exact,
/// denote the ideal elevation.
pub proof fn lemma_expand_run(x: QuadF)
    requires
        quad_wf(x),
    ensures
        crate::rat::rat_inv(expand_run_b(x).v),
        crate::rat::rat_inv(expand_run_c(x).v),
        expand_run_b(x).ok ==> feq(expand_run_b(x).v, expand_f(x).b),
        expand_run_c(x).ok ==> feq(expand_run_c(x).v, expand_f(x).c),
{
    let two = fint(2);
    let third = Frac { n: 1, d: 3 };
    lemma_rat_new_spec(1, 3);
    let tb = ex_times(ex_of(two), ex_of(x.b));
    let tbi = fmul(two, x.b);
    lemma_ex_times(ex_of(two), ex_of(x.b), two, x.b);
    let sb = ex_plus(tb, ex_of(x.a));
    let sbi = fadd(tbi, x.a);
    lemma_ex_plus(tb, ex_of(x.a), tbi, x.a);
    lemma_ex_times(sb, ex_of(rat_new_spec(1, 3)), sbi, third);
    let sc = ex_plus(ex_of(x.c), tb);
    let sci = fadd(x.c, tbi);
    lemma_ex_plus(ex_of(x.c), tb, x.c, tbi);
    lemma_ex_times(sc, ex_of(rat_new_spec(1, 3)), sci, third);
}

/// One elevated Bernstein term over the common denominator: the second term,
/// without the shared inner-control-point factor.
proof fn lemma_elev_piece2(w: int, tn: int, td: int, ad: int, bd: int, cd: int)
    by (nonlinear_arith)
    ensures
        ((3 * (w * w)) * tn) * (3 * (td * (td * td)) * (ad * (bd * cd))) == (3 * ((cd * tn) * (w
            * w))) * (((td * td) * td) * ((bd * ad) * 3)),
{
}

/// One elevated Bernstein term over the common denominator: the third term,
/// without the shared inner-control-point factor.
proof fn lemma_elev_piece3(w: int, tn: int, td: int, ad: int, bd: int, cd: int)
    by (nonlinear_arith)
    ensures
        ((3 * w) * (tn * tn)) * (3 * (td * (td * td)) * (ad * (bd * cd))) == (3 * ((ad * (tn * tn))
            * w)) * ((td * (td * td)) * ((cd * bd) * 3)),
{
}

/// First numerator piece of the essential identity.
proof fn lemma_elev_core_a(an: int, bd: int, cd: int, w: int)
    by (nonlinear_arith)
    ensures
        (an * (bd * cd)) * (w * (w * w)) == ((an * (bd * cd)) * (w * w)) * w,
{
}

/// Second numerator piece of the essential identity.
proof fn lemma_elev_core_b(an: int, ad: int, bn: int, bd: int, cd: int, tn: int, w: int)
    ensures
        ((cd * tn) * (w * w)) * ((2 * bn) * ad + an * bd) == (2 * (bn * (ad * cd)) * (tn * w)) * w
            + ((an * (bd * cd)) * (w * w)) * tn,
{
    vstd::arithmetic::mul::lemma_mul_is_distributive_add(
        (cd * tn) * (w * w),
        (2 * bn) * ad,
        an * bd,
    );
    assert(((cd * tn) * (w * w)) * ((2 * bn) * ad) == (2 * (bn * (ad * cd)) * (tn * w)) * w)
        by (nonlinear_arith);
    assert(((cd * tn) * (w * w)) * (an * bd) == ((an * (bd * cd)) * (w * w)) * tn)
        by (nonlinear_arith);
}

/// Third numerator piece of the essential identity.
proof fn lemma_elev_core_c(ad: int, bn: int, bd: int, cn: int, cd: int, tn: int, w: int)
    ensures
        ((ad * (tn * tn)) * w) * (cn * bd + (2 * bn) * cd) == (2 * (bn * (ad * cd)) * (tn * w))
            * tn + ((cn * (ad * bd)) * (tn * tn)) * w,
{
    vstd::arithmetic::mul::lemma_mul_is_distributive_add(
        (ad * (tn * tn)) * w,
        cn * bd,
        (2 * bn) * cd,
    );
    assert(((ad * (tn * tn)) * w) * (cn * bd) == ((cn * (ad * bd)) * (tn * tn)) * w)
        by (nonlinear_arith);
    assert(((ad * (tn * tn)) * w) * ((2 * bn) * cd) == (2 * (bn * (ad * cd)) * (tn * w)) * tn)
        by (nonlinear_arith);
}

/// Fourth numerator piece of the essential identity.
proof fn lemma_elev_core_d(ad: int, bd: int, cn: int, tn: int)
    by (nonlinear_arith)
    ensures
        (ad * bd) * (cn * ((tn * tn) * tn)) == ((cn * (ad * bd)) * (tn * tn)) * tn,
{
}

/// Distributing the original numerator over a split parameter denominator.
proof fn lemma_elev_dist(m1: int, m2: int, m3: int, w: int, tn: int)
    by (nonlinear_arith)
    ensures
        m1 * w + (m2 * w + m1 * tn) + (m2 * tn + m3 * w) + m3 * tn == (m1 + m2 + m3) * (w + tn),
{
}

/// Scaling the essential identity up to the two common denominators.
proof fn lemma_elev_glue(s: int, m: int, td: int, p: int)
    by (nonlinear_arith)
    requires
        s == m * td,
    ensures
        (3 * s) * ((td * td) * p) == m * (3 * (td * (td * td)) * p),
{
}

/// Reconstruction identity: an elevated quadratic traces the same points as
/// the quadratic it came from, at every parameter.
pub proof fn lemma_expand_reconstruction(x: QuadF, t: Frac)
    requires
        quad_wf(x),
        frac_wf(t),
    ensures
        feq(cub_at(expand_f(x), t), quad_at(x, t)),
{
    let an = x.a.n;
    let ad = x.a.d;
    let bn = x.b.n;
    let bd = x.b.d;
    let cn = x.c.n;
    let cd = x.c.d;
    let tn = t.n;
    let td = t.d;
    let w = td - tn;
    let e = expand_f(x);
    let u = fsub(fone(), t);
    let u2 = fmul(u, u);
    let t2 = fmul(t, t);
    // The four cubic Bernstein terms of the elevated curve and the three
    // quadratic Bernstein terms of the original, with their parts written
    // out as integer polynomials.
    let p1 = fmul(fmul(u2, u), e.a);
    let p2 = fmul(fmul(fmul(fint(3), u2), t), e.b);
    let p3 = fmul(fmul(fmul(fint(3), u), t2), e.c);
    let p4 = fmul(fmul(t2, t), e.d);
    let q1 = fmul(fmul(u, u), x.a);
    let q2 = fmul(fmul(fmul(fint(2), u), t), x.b);
    let q3 = fmul(fmul(t, t), x.c);
    assert(u.n == w && u.d == td);
    assert(e.b.n == (2 * bn) * ad + an * bd && e.b.d == (bd * ad) * 3);
    assert(e.c.n == cn * bd + (2 * bn) * cd && e.c.d == (cd * bd) * 3);
    assert(p1.n == ((w * w) * w) * an && p1.d == ((td * td) * td) * ad);
    assert(p2.n == ((3 * (w * w)) * tn) * ((2 * bn) * ad + an * bd) && p2.d == ((td * td) * td) * (
    (bd * ad) * 3));
    assert(p3.n == ((3 * w) * (tn * tn)) * (cn * bd + (2 * bn) * cd) && p3.d == (td * (td * td)) * (
    (cd * bd) * 3));
    assert(p4.n == ((tn * tn) * tn) * cn && p4.d == ((td * td) * td) * cd);
    assert(q1.n == (w * w) * an && q1.d == (td * td) * ad);
    assert(q2.n == ((2 * w) * tn) * bn && q2.d == (td * td) * bd);
    assert(q3.n == (tn * tn) * cn && q3.d == (td * td) * cd);
    // The common denominators of the two sides and the numerators brought
    // over them.
    let dl = 3 * (td * (td * td)) * (ad * (bd * cd));
    let dr = (td * td) * (ad * (bd * cd));
    let kb1 = (an * (bd * cd)) * (w * (w * w));
    let kb2 = ((cd * tn) * (w * w)) * ((2 * bn) * ad + an * bd);
    let kb3 = ((ad * (tn * tn)) * w) * (cn * bd + (2 * bn) * cd);
    let kb4 = (ad * bd) * (cn * ((tn * tn) * tn));
    let k1 = 3 * kb1;
    let k2 = 3 * kb2;
    let k3 = 3 * kb3;
    let k4 = 3 * kb4;
    let m1 = (an * (bd * cd)) * (w * w);
    let m2 = 2 * (bn * (ad * cd)) * (tn * w);
    let m3 = (cn * (ad * bd)) * (tn * tn);
    assert(3 * (td * (td * td)) * (ad * (bd * cd)) > 0 && (td * td) * (ad * (bd * cd)) > 0 && ((td
        * td) * td) * ad > 0 && ((td * td) * td) * ((bd * ad) * 3) > 0 && (td * (td * td)) * ((cd
        * bd) * 3) > 0 && ((td * td) * td) * cd > 0 && (td * td) * ad > 0 && (td * td) * bd > 0 && (
    td * td) * cd > 0) by (nonlinear_arith)
        requires
            td > 0,
            ad > 0,
            bd > 0,
            cd > 0,
    ;
    // Each term over the common denominator.
    assert((((w * w) * w) * an) * (3 * (td * (td * td)) * (ad * (bd * cd))) == (3 * ((an * (bd * cd))
        * (w * (w * w)))) * (((td * td) * td) * ad)) by (nonlinear_arith);
    lemma_elev_piece2(w, tn, td, ad, bd, cd);
    crate::frac::lemma_mul_with_factor(
        (3 * (w * w)) * tn,
        3 * ((cd * tn) * (w * w)),
        3 * (td * (td * td)) * (ad * (bd * cd)),
        ((td * td) * td) * ((bd * ad) * 3),
        (2 * bn) * ad + an * bd,
    );
    lemma_elev_piece3(w, tn, td, ad, bd, cd);
    crate::frac::lemma_mul_with_factor(
        (3 * w) * (tn * tn),
        3 * ((ad * (tn * tn)) * w),
        3 * (td * (td * td)) * (ad * (bd * cd)),
        (td * (td * td)) * ((cd * bd) * 3),
        cn * bd + (2 * bn) * cd,
    );
    vstd::arithmetic::mul::lemma_mul_is_associative(3, (cd * tn) * (w * w), (2 * bn) * ad + an * bd);
    vstd::arithmetic::mul::lemma_mul_is_associative(3, (ad * (tn * tn)) * w, cn * bd + (2 * bn) * cd);
    assert((((tn * tn) * tn) * cn) * (3 * (td * (td * td)) * (ad * (bd * cd))) == (3 * ((ad * bd) * (
    cn * ((tn * tn) * tn)))) * (((td * td) * td) * cd)) by (nonlinear_arith);
    assert(((w * w) * an) * ((td * td) * (ad * (bd * cd))) == ((an * (bd * cd)) * (w * w)) * ((td
        * td) * ad)) by (nonlinear_arith);
    assert((((2 * w) * tn) * bn) * ((td * td) * (ad * (bd * cd))) == (2 * (bn * (ad * cd)) * (tn
        * w)) * ((td * td) * bd)) by (nonlinear_arith);
    assert(((tn * tn) * cn) * ((td * td) * (ad * (bd * cd))) == ((cn * (ad * bd)) * (tn * tn)) * ((
    td * td) * cd)) by (nonlinear_arith);
    // Fold the sums on each side.
    lemma_fadd_common(p1, p2, k1, k2, dl);
    lemma_fadd_common(fadd(p1, p2), p3, k1 + k2, k3, dl);
    lemma_fadd_common(fadd(fadd(p1, p2), p3), p4, k1 + k2 + k3, k4, dl);
    lemma_fadd_common(q1, q2, m1, m2, dr);
    lemma_fadd_common(fadd(q1, q2), q3, m1 + m2, m3, dr);
    let lhs = cub_at(e, t);
    let rhs = quad_at(x, t);
    assert(lhs == fadd(fadd(fadd(p1, p2), p3), p4));
    assert(rhs == fadd(fadd(q1, q2), q3));
    // The two folded fractions denote the same value.
    lemma_elev_core_a(an, bd, cd, w);
    lemma_elev_core_b(an, ad, bn, bd, cd, tn, w);
    lemma_elev_core_c(ad, bn, bd, cn, cd, tn, w);
    lemma_elev_core_d(ad, bd, cn, tn);
    lemma_elev_dist(m1, m2, m3, w, tn);
    assert(kb1 + kb2 + kb3 + kb4 == (m1 + m2 + m3) * td);
    lemma_elev_glue(kb1 + kb2 + kb3 + kb4, m1 + m2 + m3, td, ad * (bd * cd));
    assert((k1 + k2 + k3 + k4) * dr == (3 * (kb1 + kb2 + kb3 + kb4)) * ((td * td) * (ad * (bd
        * cd))));
    assert((k1 + k2 + k3 + k4) * dr == (m1 + m2 + m3) * dl);
    crate::frac::lemma_feq_trans(
        lhs,
        Frac { n: k1 + k2 + k3 + k4, d: dl },
        Frac { n: m1 + m2 + m3, d: dr },
    );
    crate::frac::lemma_feq_trans(lhs, Frac { n: m1 + m2 + m3, d: dr }, rhs);
}

impl Expand for Quadratic {
    type Target = Cubic;

    open spec fn wf(&self) -> bool {
        quad_wf(self@)
    }

    open spec fn expand_post(&self, r: Cubic) -> bool {
        &&& crate::bezier::cub_wf(r@)
        &&& r@.a == self@.a
        &&& r@.d == self@.c
        &&& r@.b == expand_run_b(self@).v
        &&& r@.c == expand_run_c(self@).v
        &&& expand_ok(self@) ==> cub_feq(r@, expand_f(self@))
    }

    fn expand(&self) -> (r: Cubic) {
        proof {
            lemma_expand_run(self@);
        }
        let two = Rat::whole(2);
        let third = Rat::new(1, 3);
        let b = two.times(self.b).plus(self.a).times(third);
        let c = self.c.plus(two.times(self.b)).times(third);
        Cubic::new(self.a, b, c, self.c)
    }
}

} // verus!
