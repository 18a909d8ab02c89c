//! De Casteljau subdivision of a cubic curve: an exact split at a parameter
//! into a head covering the left side and a tail covering the right side,
//! each reparametrized onto the unit interval.

use vstd::prelude::*;

use crate::bezier::cub_feq;
use crate::bezier::cub_wf;
use crate::bezier::evaluate::cub_at;
use crate::bezier::CubF;
use crate::bezier::Cubic;
use crate::frac::fadd;
use crate::frac::feq;
use crate::frac::fint;
use crate::frac::fmul;
use crate::frac::fone;
use crate::frac::frac_wf;
use crate::frac::fsub;
use crate::frac::Frac;
use crate::rat::ex_minus;
use crate::rat::ex_of;
use crate::rat::ex_plus;
use crate::rat::ex_times;
use crate::rat::lemma_ex_minus;
use crate::rat::lemma_ex_plus;
use crate::rat::lemma_ex_times;
use crate::rat::rat_inv;
use crate::rat::Ex;
use crate::rat::Rat;
use crate::subdivide::Subdivide;

verus! {

/// Linear interpolation between two points at parameter `t`.
pub open spec fn lerp_f(p: Frac, q: Frac, t: Frac) -> Frac {
    fadd(fmul(p, fsub(fone(), t)), fmul(q, t))
}

/// One executable interpolation step: `p * u + q * t`.
pub open spec fn ex_lerp(p: Ex, q: Ex, u: Ex, t: Ex) -> Ex {
    ex_plus(ex_times(p, u), ex_times(q, t))
}

/// The executable complement `1 - t`.
pub open spec fn sd_u(t: Frac) -> Ex {
    ex_minus(ex_of(fint(1)), ex_of(t))
}

/// First-stage interpolants of de Casteljau's scheme.
pub open spec fn sd_l1(x: CubF, t: Frac) -> Ex {
    ex_lerp(ex_of(x.a), ex_of(x.b), sd_u(t), ex_of(t))
}

/// First-stage interpolants of de Casteljau's scheme.
pub open spec fn sd_l2(x: CubF, t: Frac) -> Ex {
    ex_lerp(ex_of(x.b), ex_of(x.c), sd_u(t), ex_of(t))
}

/// First-stage interpolants of de Casteljau's scheme.
pub open spec fn sd_l3(x: CubF, t: Frac) -> Ex {
    ex_lerp(ex_of(x.c), ex_of(x.d), sd_u(t), ex_of(t))
}

/// Second-stage interpolants of de Casteljau's scheme.
pub open spec fn sd_m1(x: CubF, t: Frac) -> Ex {
    ex_lerp(sd_l1(x, t), sd_l2(x, t), sd_u(t), ex_of(t))
}

/// Second-stage interpolants of de Casteljau's scheme.
pub open spec fn sd_m2(x: CubF, t: Frac) -> Ex {
    ex_lerp(sd_l2(x, t), sd_l3(x, t), sd_u(t), ex_of(t))
}

/// The third stage of de Casteljau's scheme: the point of the curve at `t`.
pub open spec fn sd_z(x: CubF, t: Frac) -> Ex {
    ex_lerp(sd_m1(x, t), sd_m2(x, t), sd_u(t), ex_of(t))
}

/// Every interpolation of the subdivision stayed exact.
pub open spec fn subdivide_ok(x: CubF, t: Frac) -> bool {
    sd_z(x, t).ok
}

/// The ideal first-stage interpolants.
pub open spec fn dc1(x: CubF, t: Frac) -> Frac {
    lerp_f(x.a, x.b, t)
}

/// The ideal first-stage interpolants.
pub open spec fn dc2(x: CubF, t: Frac) -> Frac {
    lerp_f(x.b, x.c, t)
}

/// The ideal first-stage interpolants.
pub open spec fn dc3(x: CubF, t: Frac) -> Frac {
    lerp_f(x.c, x.d, t)
}

/// The ideal second-stage interpolants.
pub open spec fn dm1(x: CubF, t: Frac) -> Frac {
    lerp_f(dc1(x, t), dc2(x, t), t)
}

/// The ideal second-stage interpolants.
pub open spec fn dm2(x: CubF, t: Frac) -> Frac {
    lerp_f(dc2(x, t), dc3(x, t), t)
}

/// The ideal point of the curve at the split parameter.
pub open spec fn dz(x: CubF, t: Frac) -> Frac {
    lerp_f(dm1(x, t), dm2(x, t), t)
}

/// The ideal head of the subdivision: the left diagonal of de Casteljau's
/// triangle.
pub open spec fn head_f(x: CubF, t: Frac) -> CubF {
    CubF { a: x.a, b: dc1(x, t), c: dm1(x, t), d: dz(x, t) }
}

/// The ideal tail of the subdivision: the right anti-diagonal of de
/// Casteljau's triangle.
pub open spec fn tail_f(x: CubF, t: Frac) -> CubF {
    CubF { a: dz(x, t), b: dm2(x, t), c: dc3(x, t), d: x.d }
}

/// One interpolation step stays within the representation and, when exact,
/// denotes the ideal interpolation.
proof fn lemma_ex_lerp(p: Ex, q: Ex, u: Ex, t: Ex, pi: Frac, qi: Frac, ui: Frac, ti: Frac)
    requires
        rat_inv(p.v),
        rat_inv(q.v),
        rat_inv(u.v),
        rat_inv(t.v),
        frac_wf(pi),
        frac_wf(qi),
        frac_wf(ui),
        frac_wf(ti),
        p.ok ==> feq(p.v, pi),
        q.ok ==> feq(q.v, qi),
        u.ok ==> feq(u.v, ui),
        t.ok ==> feq(t.v, ti),
    ensures
        rat_inv(ex_lerp(p, q, u, t).v),
        frac_wf(fadd(fmul(pi, ui), fmul(qi, ti))),
        ex_lerp(p, q, u, t).ok ==> feq(ex_lerp(p, q, u, t).v, fadd(fmul(pi, ui), fmul(qi, ti))),
{
    lemma_ex_times(p, u, pi, ui);
    lemma_ex_times(q, t, qi, ti);
    lemma_ex_plus(ex_times(p, u), ex_times(q, t), fmul(pi, ui), fmul(qi, ti));
}

/// The subdivision chains stay within the representation and, when exact,
/// denote the ideal de Casteljau interpolants.
pub proof fn lemma_subdivide_run(x: CubF, t: Frac)
    requires
        cub_wf(x),
        rat_inv(t),
    ensures
        rat_inv(sd_l1(x, t).v),
        rat_inv(sd_l2(x, t).v),
        rat_inv(sd_l3(x, t).v),
        rat_inv(sd_m1(x, t).v),
        rat_inv(sd_m2(x, t).v),
        rat_inv(sd_z(x, t).v),
        sd_l1(x, t).ok ==> feq(sd_l1(x, t).v, dc1(x, t)),
        sd_l2(x, t).ok ==> feq(sd_l2(x, t).v, dc2(x, t)),
        sd_l3(x, t).ok ==> feq(sd_l3(x, t).v, dc3(x, t)),
        sd_m1(x, t).ok ==> feq(sd_m1(x, t).v, dm1(x, t)),
        sd_m2(x, t).ok ==> feq(sd_m2(x, t).v, dm2(x, t)),
        sd_z(x, t).ok ==> feq(sd_z(x, t).v, dz(x, t)),
{
    let one = fint(1);
    let ui = fsub(fone(), t);
    lemma_ex_minus(ex_of(one), ex_of(t), one, t);
    lemma_ex_lerp(ex_of(x.a), ex_of(x.b), sd_u(t), ex_of(t), x.a, x.b, ui, t);
    lemma_ex_lerp(ex_of(x.b), ex_of(x.c), sd_u(t), ex_of(t), x.b, x.c, ui, t);
    lemma_ex_lerp(ex_of(x.c), ex_of(x.d), sd_u(t), ex_of(t), x.c, x.d, ui, t);
    lemma_ex_lerp(sd_l1(x, t), sd_l2(x, t), sd_u(t), ex_of(t), dc1(x, t), dc2(x, t), ui, t);
    lemma_ex_lerp(sd_l2(x, t), sd_l3(x, t), sd_u(t), ex_of(t), dc2(x, t), dc3(x, t), ui, t);
    lemma_ex_lerp(sd_m1(x, t), sd_m2(x, t), sd_u(t), ex_of(t), dm1(x, t), dm2(x, t), ui, t);
}

/// The canonical fraction of a linear interpolation between two fractions.
spec fn bern1(p: Frac, q: Frac, t: Frac) -> Frac {
    Frac { n: (p.n * q.d) * (t.d - t.n) + (q.n * p.d) * t.n, d: (p.d * q.d) * t.d }
}

/// Interpolating two values equal to given fractions gives the canonical
/// interpolated fraction.
proof fn lemma_lerp_canon(a: Frac, b: Frac, fa: Frac, fb: Frac, t: Frac)
    requires
        frac_wf(a),
        frac_wf(b),
        frac_wf(fa),
        frac_wf(fb),
        frac_wf(t),
        feq(a, fa),
        feq(b, fb),
    ensures
        frac_wf(bern1(fa, fb, t)),
        frac_wf(lerp_f(a, b, t)),
        feq(lerp_f(a, b, t), bern1(fa, fb, t)),
{
    let u = fsub(fone(), t);
    let wt = t.d - t.n;
    assert(u.n == wt && u.d == t.d);
    let dd = (fa.d * fb.d) * t.d;
    let na = (fa.n * fb.d) * wt;
    let nb = (fb.n * fa.d) * t.n;
    assert(dd > 0 && fa.d * t.d > 0 && fb.d * t.d > 0) by (nonlinear_arith)
        requires
            dd == (fa.d * fb.d) * t.d,
            fa.d > 0,
            fb.d > 0,
            t.d > 0,
    ;
    crate::frac::lemma_fmul_congr(a, u, fa, u);
    assert(fmul(fa, u).n == fa.n * wt && fmul(fa, u).d == fa.d * t.d);
    assert((fa.n * wt) * dd == na * (fa.d * t.d)) by (nonlinear_arith)
        requires
            dd == (fa.d * fb.d) * t.d,
            na == (fa.n * fb.d) * wt,
    ;
    assert(feq(fmul(fa, u), Frac { n: na, d: dd }));
    crate::frac::lemma_feq_trans(fmul(a, u), fmul(fa, u), Frac { n: na, d: dd });
    crate::frac::lemma_fmul_congr(b, t, fb, t);
    assert(fmul(fb, t).n == fb.n * t.n && fmul(fb, t).d == fb.d * t.d);
    assert((fb.n * t.n) * dd == nb * (fb.d * t.d)) by (nonlinear_arith)
        requires
            dd == (fa.d * fb.d) * t.d,
            nb == (fb.n * fa.d) * t.n,
    ;
    assert(feq(fmul(fb, t), Frac { n: nb, d: dd }));
    crate::frac::lemma_feq_trans(fmul(b, t), fmul(fb, t), Frac { n: nb, d: dd });
    crate::frac::lemma_fadd_common(fmul(a, u), fmul(b, t), na, nb, dd);
    assert(bern1(fa, fb, t) == Frac { n: na + nb, d: dd });
}

/// The canonical nested fraction of the second de Casteljau stage over the
/// first three control points.
spec fn bern2a(x: CubF, t: Frac) -> Frac {
    bern1(bern1(x.a, x.b, t), bern1(x.b, x.c, t), t)
}

/// The canonical nested fraction of the second de Casteljau stage over the
/// last three control points.
spec fn bern2b(x: CubF, t: Frac) -> Frac {
    bern1(bern1(x.b, x.c, t), bern1(x.c, x.d, t), t)
}

/// The canonical nested fraction of the full de Casteljau evaluation.
spec fn bern3(x: CubF, t: Frac) -> Frac {
    bern1(bern2a(x, t), bern2b(x, t), t)
}

/// Every de Casteljau interpolant denotes its canonical nested fraction.
proof fn lemma_casteljau_canon(x: CubF, t: Frac)
    requires
        cub_wf(x),
        frac_wf(t),
    ensures
        frac_wf(bern3(x, t)),
        frac_wf(dz(x, t)),
        feq(dz(x, t), bern3(x, t)),
{
    lemma_lerp_canon(x.a, x.b, x.a, x.b, t);
    lemma_lerp_canon(x.b, x.c, x.b, x.c, t);
    lemma_lerp_canon(x.c, x.d, x.c, x.d, t);
    lemma_lerp_canon(dc1(x, t), dc2(x, t), bern1(x.a, x.b, t), bern1(x.b, x.c, t), t);
    lemma_lerp_canon(dc2(x, t), dc3(x, t), bern1(x.b, x.c, t), bern1(x.c, x.d, t), t);
    lemma_lerp_canon(dm1(x, t), dm2(x, t), bern2a(x, t), bern2b(x, t), t);
}

/// Wide products rearranged one monomial at a time.
proof fn lemma_seam_mono_na(n1: int, d1: int, d2: int, d3: int, wt: int, tn: int, td: int)
    ensures
        (((n1 * d2) * wt) * ((d2 * d3) * td)) * wt == (d2 * td) * ((n1 * (d2 * d3)) * (wt * wt)),
        (((n1 * d1) * tn) * ((d2 * d3) * td)) * wt == (d2 * td) * ((n1 * (d1 * d3)) * (wt * tn)),
        (((n1 * d3) * wt) * ((d1 * d2) * td)) * tn == (d2 * td) * ((n1 * (d1 * d3)) * (wt * tn)),
        (((n1 * d2) * tn) * ((d1 * d2) * td)) * tn == (d2 * td) * ((n1 * (d1 * d2)) * (tn * tn)),
{
    broadcast use vstd::arithmetic::mul::group_mul_properties;

}

/// A first-stage numerator times the complementary denominators, first term.
proof fn lemma_seam_mono_t1(an: int, ad: int, bd: int, cd: int, ed: int, wt: int, tn: int, td: int)
    ensures
        (((an * bd) * wt) * (((bd * cd) * td) * ((cd * ed) * td))) * (wt * wt) == ((bd * cd) * (td
            * td)) * ((an * (bd * (cd * ed))) * ((wt * wt) * wt)),
{
    broadcast use vstd::arithmetic::mul::group_mul_properties;

}

/// A first-stage numerator times the complementary denominators, second term.
proof fn lemma_seam_mono_t2(ad: int, bn: int, bd: int, cd: int, ed: int, wt: int, tn: int, td: int)
    ensures
        (((bn * ad) * tn) * (((bd * cd) * td) * ((cd * ed) * td))) * (wt * wt) == ((bd * cd) * (td
            * td)) * ((bn * (ad * (cd * ed))) * ((wt * wt) * tn)),
        (((bn * cd) * wt) * (((ad * bd) * td) * ((cd * ed) * td))) * (wt * tn) == ((bd * cd) * (td
            * td)) * ((bn * (ad * (cd * ed))) * ((wt * wt) * tn)),
{
    broadcast use vstd::arithmetic::mul::group_mul_properties;

}

/// A first-stage numerator times the complementary denominators, third term.
proof fn lemma_seam_mono_t3(ad: int, bd: int, cn: int, cd: int, ed: int, wt: int, tn: int, td: int)
    ensures
        (((cn * bd) * tn) * (((ad * bd) * td) * ((cd * ed) * td))) * (wt * tn) == ((bd * cd) * (td
            * td)) * ((cn * (ad * (bd * ed))) * (wt * (tn * tn))),
        (((cn * ed) * wt) * (((ad * bd) * td) * ((bd * cd) * td))) * (tn * tn) == ((bd * cd) * (td
            * td)) * ((cn * (ad * (bd * ed))) * (wt * (tn * tn))),
{
    broadcast use vstd::arithmetic::mul::group_mul_properties;

}

/// A first-stage numerator times the complementary denominators, last term.
proof fn lemma_seam_mono_t4(ad: int, bd: int, dn: int, cd: int, wt: int, tn: int, td: int)
    ensures
        (((dn * cd) * tn) * (((ad * bd) * td) * ((bd * cd) * td))) * (tn * tn) == ((bd * cd) * (td
            * td)) * ((dn * (ad * (bd * cd))) * ((tn * tn) * tn)),
{
    broadcast use vstd::arithmetic::mul::group_mul_properties;

}


/// The four Bernstein terms of the curve over the common denominator.
proof fn lemma_seam_piece1(an: int, ad: int, bd: int, cd: int, ed: int, wt: int, td: int)
    ensures
        (((wt * wt) * wt) * an) * ((ad * (bd * (cd * ed))) * (td * (td * td))) == ((an * (bd * (cd
            * ed))) * ((wt * wt) * wt)) * (((td * td) * td) * ad),
{
    broadcast use vstd::arithmetic::mul::group_mul_properties;

}

/// The four Bernstein terms of the curve over the common denominator.
proof fn lemma_seam_piece2(ad: int, bn: int, bd: int, cd: int, ed: int, wt: int, tn: int, td: int)
    ensures
        (((3 * (wt * wt)) * tn) * bn) * ((ad * (bd * (cd * ed))) * (td * (td * td))) == (3 * ((bn
            * (ad * (cd * ed))) * ((wt * wt) * tn))) * (((td * td) * td) * bd),
{
    broadcast use vstd::arithmetic::mul::group_mul_properties;

}

/// The four Bernstein terms of the curve over the common denominator.
proof fn lemma_seam_piece3(ad: int, bd: int, cn: int, cd: int, ed: int, wt: int, tn: int, td: int)
    ensures
        (((3 * wt) * (tn * tn)) * cn) * ((ad * (bd * (cd * ed))) * (td * (td * td))) == (3 * ((cn
            * (ad * (bd * ed))) * (wt * (tn * tn)))) * ((td * (td * td)) * cd),
{
    broadcast use vstd::arithmetic::mul::group_mul_properties;

}

/// The four Bernstein terms of the curve over the common denominator.
proof fn lemma_seam_piece4(ad: int, bd: int, cd: int, dn: int, ed: int, tn: int, td: int)
    ensures
        (((tn * tn) * tn) * dn) * ((ad * (bd * (cd * ed))) * (td * (td * td))) == ((dn * (ad * (bd
            * cd))) * ((tn * tn) * tn)) * (((td * td) * td) * ed),
{
    broadcast use vstd::arithmetic::mul::group_mul_properties;

}

/// Collecting the six scaled terms into the Bernstein numerator.
proof fn lemma_seam_collect(p: int, q: int, e1: int, e2: int, e3: int, e4: int)
    by (nonlinear_arith)
    ensures
        (p * (q * e1 + q * e2) + p * (q * e2 + q * e3)) + (p * (q * e2 + q * e3) + p * (q * e3 + q
            * e4)) == p * (q * (((e1 + 3 * e2) + 3 * e3) + e4)),
{
}

/// Pulling the shared numerator atom out of a product.
proof fn lemma_seam_shuffle(a: int, p: int, k: int, c: int)
    by (nonlinear_arith)
    ensures
        (a * (p * k)) * c == k * ((a * p) * c),
{
}

/// The common denominator of the folded curve as a product of the nested
/// first-stage denominators.
proof fn lemma_seam_dc(ad: int, bd: int, cd: int, ed: int, td: int)
    ensures
        (ad * (bd * (cd * ed))) * (td * (td * td)) == ((((ad * bd) * td) * ((cd * ed) * td)) * td),
{
    broadcast use vstd::arithmetic::mul::group_mul_properties;

}

/// The nested denominator as a product of the first-stage denominators.
proof fn lemma_seam_cross_core(d1: int, d2: int, d3: int, td: int)
    ensures
        ((d2 * td) * (d2 * td)) * ((d1 * d3) * td) == (((d1 * d2) * td) * ((d2 * d3) * td)) * td,
{
    broadcast use vstd::arithmetic::mul::group_mul_properties;

}


/// The seam of a subdivision lies on the curve: the point de Casteljau's
/// scheme converges to at the split parameter is the curve's Bernstein
/// value there, so the head's last and the tail's first control point trace
/// the curve at `t`.
pub proof fn lemma_seam_on_curve(x: CubF, t: Frac)
    requires
        cub_wf(x),
        frac_wf(t),
    ensures
        feq(dz(x, t), cub_at(x, t)),
{
    let an = x.a.n;
    let ad = x.a.d;
    let bn = x.b.n;
    let bd = x.b.d;
    let cn = x.c.n;
    let cd = x.c.d;
    let dn = x.d.n;
    let ed = x.d.d;
    let tn = t.n;
    let td = t.d;
    let wt = td - tn;
    lemma_casteljau_canon(x, t);
    // The nested canonical fraction of the de Casteljau point, with its
    // parts named.
    let n1 = (an * bd) * wt + (bn * ad) * tn;
    let d1 = (ad * bd) * td;
    let n2 = (bn * cd) * wt + (cn * bd) * tn;
    let d2 = (bd * cd) * td;
    let n3 = (cn * ed) * wt + (dn * cd) * tn;
    let d3 = (cd * ed) * td;
    let m1n = (n1 * d2) * wt + (n2 * d1) * tn;
    let m1d = (d1 * d2) * td;
    let m2n = (n2 * d3) * wt + (n3 * d2) * tn;
    let m2d = (d2 * d3) * td;
    let zn = (m1n * m2d) * wt + (m2n * m1d) * tn;
    let zd = (m1d * m2d) * td;
    assert(bern3(x, t) == Frac { n: zn, d: zd });
    // The Bernstein form of the curve over its common denominator.
    let u = fsub(fone(), t);
    let u2 = fmul(u, u);
    let t2 = fmul(t, t);
    let p1 = fmul(fmul(u2, u), x.a);
    let p2 = fmul(fmul(fmul(fint(3), u2), t), x.b);
    let p3 = fmul(fmul(fmul(fint(3), u), t2), x.c);
    let p4 = fmul(fmul(t2, t), x.d);
    assert(u.n == wt && u.d == td);
    assert(p1.n == ((wt * wt) * wt) * an && p1.d == ((td * td) * td) * ad);
    assert(p2.n == ((3 * (wt * wt)) * tn) * bn && p2.d == ((td * td) * td) * bd);
    assert(p3.n == ((3 * wt) * (tn * tn)) * cn && p3.d == (td * (td * td)) * cd);
    assert(p4.n == ((tn * tn) * tn) * dn && p4.d == ((td * td) * td) * ed);
    let dc = (ad * (bd * (cd * ed))) * (td * (td * td));
    let e1 = (an * (bd * (cd * ed))) * ((wt * wt) * wt);
    let e2 = (bn * (ad * (cd * ed))) * ((wt * wt) * tn);
    let e3 = (cn * (ad * (bd * ed))) * (wt * (tn * tn));
    let e4 = (dn * (ad * (bd * cd))) * ((tn * tn) * tn);
    let k1 = e1;
    let k2 = 3 * e2;
    let k3 = 3 * e3;
    let k4 = e4;
    assert(dc > 0 && ((td * td) * td) * ad > 0 && ((td * td) * td) * bd > 0 && (td * (td * td))
        * cd > 0 && ((td * td) * td) * ed > 0) by (nonlinear_arith)
        requires
            dc == (ad * (bd * (cd * ed))) * (td * (td * td)),
            ad > 0,
            bd > 0,
            cd > 0,
            ed > 0,
            td > 0,
    ;
    lemma_seam_piece1(an, ad, bd, cd, ed, wt, td);
    lemma_seam_piece2(ad, bn, bd, cd, ed, wt, tn, td);
    lemma_seam_piece3(ad, bd, cn, cd, ed, wt, tn, td);
    lemma_seam_piece4(ad, bd, cd, dn, ed, tn, td);
    crate::frac::lemma_fadd_common(p1, p2, k1, k2, dc);
    crate::frac::lemma_fadd_common(fadd(p1, p2), p3, k1 + k2, k3, dc);
    crate::frac::lemma_fadd_common(fadd(fadd(p1, p2), p3), p4, (k1 + k2) + k3, k4, dc);
    assert(cub_at(x, t) == fadd(fadd(fadd(p1, p2), p3), p4));
    let kb = ((k1 + k2) + k3) + k4;
    // Distribute the two nested summands into the three middle terms, each
    // carrying the redundant factor of the middle denominator.
    let x1v = (n1 * (d2 * d3)) * (wt * wt);
    let x2v = (n2 * (d1 * d3)) * (wt * tn);
    let x3v = (n3 * (d1 * d2)) * (tn * tn);
    lemma_seam_mono_na(n1, d1, d2, d3, wt, tn, td);
    lemma_seam_mono_na(n2, d1, d2, d3, wt, tn, td);
    lemma_seam_mono_na(n3, d1, d2, d3, wt, tn, td);
    assert((m1n * m2d) * wt == (d2 * td) * x1v + (d2 * td) * x2v) by {
        vstd::arithmetic::mul::lemma_mul_is_distributive_add_other_way(
            m2d,
            (n1 * d2) * wt,
            (n2 * d1) * tn,
        );
        vstd::arithmetic::mul::lemma_mul_is_distributive_add_other_way(
            wt,
            ((n1 * d2) * wt) * m2d,
            ((n2 * d1) * tn) * m2d,
        );
    }
    assert((m2n * m1d) * tn == (d2 * td) * x2v + (d2 * td) * x3v) by {
        vstd::arithmetic::mul::lemma_mul_is_distributive_add_other_way(
            m1d,
            (n2 * d3) * wt,
            (n3 * d2) * tn,
        );
        vstd::arithmetic::mul::lemma_mul_is_distributive_add_other_way(
            tn,
            ((n2 * d3) * wt) * m1d,
            ((n3 * d2) * tn) * m1d,
        );
    }
    // Expand the middle terms over the base variables.
    let pp = (bd * cd) * (td * td);
    lemma_seam_mono_t1(an, ad, bd, cd, ed, wt, tn, td);
    lemma_seam_mono_t2(ad, bn, bd, cd, ed, wt, tn, td);
    lemma_seam_mono_t3(ad, bd, cn, cd, ed, wt, tn, td);
    lemma_seam_mono_t4(ad, bd, dn, cd, wt, tn, td);
    assert(x1v == pp * e1 + pp * e2) by {
        vstd::arithmetic::mul::lemma_mul_is_distributive_add_other_way(
            d2 * d3,
            (an * bd) * wt,
            (bn * ad) * tn,
        );
        vstd::arithmetic::mul::lemma_mul_is_distributive_add_other_way(
            wt * wt,
            ((an * bd) * wt) * (d2 * d3),
            ((bn * ad) * tn) * (d2 * d3),
        );
    }
    assert(x2v == pp * e2 + pp * e3) by {
        vstd::arithmetic::mul::lemma_mul_is_distributive_add_other_way(
            d1 * d3,
            (bn * cd) * wt,
            (cn * bd) * tn,
        );
        vstd::arithmetic::mul::lemma_mul_is_distributive_add_other_way(
            wt * tn,
            ((bn * cd) * wt) * (d1 * d3),
            ((cn * bd) * tn) * (d1 * d3),
        );
    }
    assert(x3v == pp * e3 + pp * e4) by {
        vstd::arithmetic::mul::lemma_mul_is_distributive_add_other_way(
            d1 * d2,
            (cn * ed) * wt,
            (dn * cd) * tn,
        );
        vstd::arithmetic::mul::lemma_mul_is_distributive_add_other_way(
            tn * tn,
            ((cn * ed) * wt) * (d1 * d2),
            ((dn * cd) * tn) * (d1 * d2),
        );
    }
    // Collect the six scaled terms into the Bernstein numerator.
    lemma_seam_collect(d2 * td, pp, e1, e2, e3, e4);
    assert(zn == (d2 * td) * (pp * kb));
    // Cross-multiplied equality of the two fractions.
    lemma_seam_shuffle(d2 * td, pp, kb, dc);
    vstd::arithmetic::mul::lemma_mul_is_associative(bd * cd, td, td);
    assert(pp == d2 * td);
    lemma_seam_dc(ad, bd, cd, ed, td);
    assert(dc == (d1 * d3) * td);
    lemma_seam_cross_core(d1, d2, d3, td);
    assert(((d2 * td) * pp) * dc == zd);
    assert(zn * dc == kb * zd);
    assert(feq(bern3(x, t), Frac { n: kb, d: dc }));
    crate::frac::lemma_feq_trans(dz(x, t), bern3(x, t), Frac { n: kb, d: dc });
    crate::frac::lemma_feq_trans(dz(x, t), Frac { n: kb, d: dc }, cub_at(x, t));
}


/// The subdivision halves agree with the curve at their anchor parameters:
/// the head starts where the curve starts, the tail ends where it ends, and
/// the control point the two halves share is the curve's value at `t`.
pub proof fn lemma_subdivision_anchors(x: CubF, t: Frac)
    requires
        cub_wf(x),
        frac_wf(t),
    ensures
        head_f(x, t).a == x.a,
        tail_f(x, t).d == x.d,
        head_f(x, t).d == tail_f(x, t).a,
        feq(head_f(x, t).d, cub_at(x, t)),
{
    lemma_seam_on_curve(x, t);
}

impl Subdivide for Cubic {
    open spec fn wf(&self) -> bool {
        cub_wf(self@)
    }

    open spec fn subdivide_post(&self, t: Frac, r: (Cubic, Cubic)) -> bool {
        &&& cub_wf(r.0@)
        &&& cub_wf(r.1@)
        &&& r.0@.a == self@.a
        &&& r.1@.d == self@.d
        &&& r.0@.b == sd_l1(self@, t).v
        &&& r.0@.c == sd_m1(self@, t).v
        &&& r.0@.d == sd_z(self@, t).v
        &&& r.1@.a == sd_z(self@, t).v
        &&& r.1@.b == sd_m2(self@, t).v
        &&& r.1@.c == sd_l3(self@, t).v
        &&& subdivide_ok(self@, t) ==> cub_feq(r.0@, head_f(self@, t)) && cub_feq(
            r.1@,
            tail_f(self@, t),
        )
    }

    fn subdivide(&self, t: Rat) -> (r: (Cubic, Cubic)) {
        proof {
            lemma_subdivide_run(self@, t@);
        }
        let u = Rat::whole(1).minus(t);
        let l1 = self.a.times(u).plus(self.b.times(t));
        let l2 = self.b.times(u).plus(self.c.times(t));
        let l3 = self.c.times(u).plus(self.d.times(t));
        let m1 = l1.times(u).plus(l2.times(t));
        let m2 = l2.times(u).plus(l3.times(t));
        let z = m1.times(u).plus(m2.times(t));
        (Cubic::new(self.a, l1, m1, z), Cubic::new(z, m2, l3, self.d))
    }
}

} // verus!
