//! Least-squares degree reduction of a cubic curve to a quadratic one, by a
//! fixed linear transform of the control points, together with the proof that
//! reduction is a left inverse of degree elevation.

use vstd::prelude::*;

use crate::bezier::cub_wf;
use crate::bezier::expand::expand_f;
use crate::bezier::quad_feq;
use crate::bezier::quad_wf;
use crate::bezier::CubF;
use crate::bezier::Cubic;
use crate::bezier::QuadF;
use crate::bezier::Quadratic;
use crate::frac::fadd;
use crate::frac::feq;
use crate::frac::fmul;
use crate::frac::frac_wf;
use crate::frac::fsub;
use crate::frac::lemma_fadd_common;
use crate::frac::lemma_fsub_common;
use crate::frac::Frac;
use crate::rat::ex_minus;
use crate::rat::ex_of;
use crate::rat::ex_plus;
use crate::rat::ex_times;
use crate::rat::lemma_ex_minus;
use crate::rat::lemma_ex_plus;
use crate::rat::lemma_ex_times;
use crate::rat::lemma_rat_new_spec;
use crate::rat::rat_new_spec;
use crate::reduce::Reduce;
use crate::rat::Ex;
use crate::rat::Rat;

verus! {

/// The ideal least-squares reduction of a cubic curve: a fixed linear
/// transform of the control points with constant coefficients.
pub open spec fn reduce_f(x: CubF) -> QuadF {
    QuadF {
        a: fadd(
            fsub(
                fadd(fmul(Frac { n: 19, d: 20 }, x.a), fmul(Frac { n: 3, d: 20 }, x.b)),
                fmul(Frac { n: 3, d: 20 }, x.c),
            ),
            fmul(Frac { n: 1, d: 20 }, x.d),
        ),
        b: fsub(
            fadd(
                fadd(fmul(Frac { n: -1, d: 4 }, x.a), fmul(Frac { n: 3, d: 4 }, x.b)),
                fmul(Frac { n: 3, d: 4 }, x.c),
            ),
            fmul(Frac { n: 1, d: 4 }, x.d),
        ),
        c: fadd(
            fadd(
                fsub(fmul(Frac { n: 1, d: 20 }, x.a), fmul(Frac { n: 3, d: 20 }, x.b)),
                fmul(Frac { n: 3, d: 20 }, x.c),
            ),
            fmul(Frac { n: 19, d: 20 }, x.d),
        ),
    }
}

/// The chain the executable reduction performs for the first control point.
pub open spec fn reduce_run_a(x: CubF) -> Ex {
    ex_plus(
        ex_minus(
            ex_plus(
                ex_times(ex_of(rat_new_spec(19, 20)), ex_of(x.a)),
                ex_times(ex_of(rat_new_spec(3, 20)), ex_of(x.b)),
            ),
            ex_times(ex_of(rat_new_spec(3, 20)), ex_of(x.c)),
        ),
        ex_times(ex_of(rat_new_spec(1, 20)), ex_of(x.d)),
    )
}

/// The chain the executable reduction performs for the second control point.
pub open spec fn reduce_run_b(x: CubF) -> Ex {
    ex_minus(
        ex_plus(
            ex_plus(
                ex_times(ex_of(rat_new_spec(-1, 4)), ex_of(x.a)),
                ex_times(ex_of(rat_new_spec(3, 4)), ex_of(x.b)),
            ),
            ex_times(ex_of(rat_new_spec(3, 4)), ex_of(x.c)),
        ),
        ex_times(ex_of(rat_new_spec(1, 4)), ex_of(x.d)),
    )
}

/// The chain the executable reduction performs for the third control point.
pub open spec fn reduce_run_c(x: CubF) -> Ex {
    ex_plus(
        ex_plus(
            ex_minus(
                ex_times(ex_of(rat_new_spec(1, 20)), ex_of(x.a)),
                ex_times(ex_of(rat_new_spec(3, 20)), ex_of(x.b)),
            ),
            ex_times(ex_of(rat_new_spec(3, 20)), ex_of(x.c)),
        ),
        ex_times(ex_of(rat_new_spec(19, 20)), ex_of(x.d)),
    )
}

/// All three chains of the executable reduction stayed exact.
pub open spec fn reduce_ok(x: CubF) -> bool {
    reduce_run_a(x).ok && reduce_run_b(x).ok && reduce_run_c(x).ok
}

/// The reduction chains stay within the representation and, when exact,
/// denote the ideal reduction.
pub proof fn lemma_reduce_run(x: CubF)
    requires
        cub_wf(x),
    ensures
        crate::rat::rat_inv(reduce_run_a(x).v),
        crate::rat::rat_inv(reduce_run_b(x).v),
        crate::rat::rat_inv(reduce_run_c(x).v),
        reduce_run_a(x).ok ==> feq(reduce_run_a(x).v, reduce_f(x).a),
        reduce_run_b(x).ok ==> feq(reduce_run_b(x).v, reduce_f(x).b),
        reduce_run_c(x).ok ==> feq(reduce_run_c(x).v, reduce_f(x).c),
{
    lemma_rat_new_spec(19, 20);
    lemma_rat_new_spec(3, 20);
    lemma_rat_new_spec(1, 20);
    lemma_rat_new_spec(-1, 4);
    lemma_rat_new_spec(3, 4);
    lemma_rat_new_spec(1, 4);
    let c95 = Frac { n: 19, d: 20 };
    let c15 = Frac { n: 3, d: 20 };
    let c05 = Frac { n: 1, d: 20 };
    let m14 = Frac { n: -1, d: 4 };
    let c34 = Frac { n: 3, d: 4 };
    let c14 = Frac { n: 1, d: 4 };
    // First control point.
    let a1 = ex_times(ex_of(rat_new_spec(19, 20)), ex_of(x.a));
    let a2 = ex_times(ex_of(rat_new_spec(3, 20)), ex_of(x.b));
    let a3 = ex_times(ex_of(rat_new_spec(3, 20)), ex_of(x.c));
    let a4 = ex_times(ex_of(rat_new_spec(1, 20)), ex_of(x.d));
    lemma_ex_times(ex_of(rat_new_spec(19, 20)), ex_of(x.a), c95, x.a);
    lemma_ex_times(ex_of(rat_new_spec(3, 20)), ex_of(x.b), c15, x.b);
    lemma_ex_times(ex_of(rat_new_spec(3, 20)), ex_of(x.c), c15, x.c);
    lemma_ex_times(ex_of(rat_new_spec(1, 20)), ex_of(x.d), c05, x.d);
    lemma_ex_plus(a1, a2, fmul(c95, x.a), fmul(c15, x.b));
    lemma_ex_minus(
        ex_plus(a1, a2),
        a3,
        fadd(fmul(c95, x.a), fmul(c15, x.b)),
        fmul(c15, x.c),
    );
    lemma_ex_plus(
        ex_minus(ex_plus(a1, a2), a3),
        a4,
        fsub(fadd(fmul(c95, x.a), fmul(c15, x.b)), fmul(c15, x.c)),
        fmul(c05, x.d),
    );
    // Second control point.
    let b1 = ex_times(ex_of(rat_new_spec(-1, 4)), ex_of(x.a));
    let b2 = ex_times(ex_of(rat_new_spec(3, 4)), ex_of(x.b));
    let b3 = ex_times(ex_of(rat_new_spec(3, 4)), ex_of(x.c));
    let b4 = ex_times(ex_of(rat_new_spec(1, 4)), ex_of(x.d));
    lemma_ex_times(ex_of(rat_new_spec(-1, 4)), ex_of(x.a), m14, x.a);
    lemma_ex_times(ex_of(rat_new_spec(3, 4)), ex_of(x.b), c34, x.b);
    lemma_ex_times(ex_of(rat_new_spec(3, 4)), ex_of(x.c), c34, x.c);
    lemma_ex_times(ex_of(rat_new_spec(1, 4)), ex_of(x.d), c14, x.d);
    lemma_ex_plus(b1, b2, fmul(m14, x.a), fmul(c34, x.b));
    lemma_ex_plus(
        ex_plus(b1, b2),
        b3,
        fadd(fmul(m14, x.a), fmul(c34, x.b)),
        fmul(c34, x.c),
    );
    lemma_ex_minus(
        ex_plus(ex_plus(b1, b2), b3),
        b4,
        fadd(fadd(fmul(m14, x.a), fmul(c34, x.b)), fmul(c34, x.c)),
        fmul(c14, x.d),
    );
    // Third control point.
    let d1 = ex_times(ex_of(rat_new_spec(1, 20)), ex_of(x.a));
    let d2 = ex_times(ex_of(rat_new_spec(3, 20)), ex_of(x.b));
    let d3 = ex_times(ex_of(rat_new_spec(3, 20)), ex_of(x.c));
    let d4 = ex_times(ex_of(rat_new_spec(19, 20)), ex_of(x.d));
    lemma_ex_times(ex_of(rat_new_spec(1, 20)), ex_of(x.a), c05, x.a);
    lemma_ex_minus(d1, d2, fmul(c05, x.a), fmul(c15, x.b));
    lemma_ex_plus(
        ex_minus(d1, d2),
        d3,
        fsub(fmul(c05, x.a), fmul(c15, x.b)),
        fmul(c15, x.c),
    );
    lemma_ex_times(ex_of(rat_new_spec(19, 20)), ex_of(x.d), c95, x.d);
    lemma_ex_plus(
        ex_plus(ex_minus(d1, d2), d3),
        d4,
        fadd(fsub(fmul(c05, x.a), fmul(c15, x.b)), fmul(c15, x.c)),
        fmul(c95, x.d),
    );
}

impl Reduce for Cubic {
    type Target = Quadratic;

    open spec fn wf(&self) -> bool {
        cub_wf(self@)
    }

    open spec fn reduce_post(&self, r: Quadratic) -> bool {
        &&& quad_wf(r@)
        &&& r@.a == reduce_run_a(self@).v
        &&& r@.b == reduce_run_b(self@).v
        &&& r@.c == reduce_run_c(self@).v
        &&& reduce_ok(self@) ==> quad_feq(r@, reduce_f(self@))
    }

    fn reduce(&self) -> (r: Quadratic) {
        proof {
            lemma_reduce_run(self@);
        }
        let c95 = Rat::new(19, 20);
        let c15 = Rat::new(3, 20);
        let c05 = Rat::new(1, 20);
        let m14 = Rat::new(-1, 4);
        let c34 = Rat::new(3, 4);
        let c14 = Rat::new(1, 4);
        let a = c95.times(self.a).plus(c15.times(self.b)).minus(c15.times(self.c)).plus(
            c05.times(self.d),
        );
        let b = m14.times(self.a).plus(c34.times(self.b)).plus(c34.times(self.c)).minus(
            c14.times(self.d),
        );
        let c = c05.times(self.a).minus(c15.times(self.b)).plus(c15.times(self.c)).plus(
            c95.times(self.d),
        );
        Quadratic::new(a, b, c)
    }
}

/// A middle elevation term over the round-trip common denominator, for the
/// coefficients with denominator twenty.
proof fn lemma_round_mid20_b(e: int, ad: int, bd: int, cd: int)
    by (nonlinear_arith)
    ensures
        (3 * e) * (60 * (ad * (bd * cd))) == ((3 * e) * cd) * (20 * ((bd * ad) * 3)),
{
}

/// The symmetric middle term, for the third elevated control point.
proof fn lemma_round_mid20_c(e: int, ad: int, bd: int, cd: int)
    by (nonlinear_arith)
    ensures
        (3 * e) * (60 * (ad * (bd * cd))) == ((3 * e) * ad) * (20 * ((cd * bd) * 3)),
{
}

/// A middle elevation term over the round-trip common denominator, for the
/// coefficients with denominator four.
proof fn lemma_round_mid4_b(e: int, ad: int, bd: int, cd: int)
    by (nonlinear_arith)
    ensures
        (3 * e) * (12 * (ad * (bd * cd))) == ((3 * e) * cd) * (4 * ((bd * ad) * 3)),
{
}

/// The symmetric middle term with denominator four.
proof fn lemma_round_mid4_c(e: int, ad: int, bd: int, cd: int)
    by (nonlinear_arith)
    ensures
        (3 * e) * (12 * (ad * (bd * cd))) == ((3 * e) * ad) * (4 * ((cd * bd) * 3)),
{
}

/// The middle elevated term times the third denominator, as monomials.
proof fn lemma_round_eb_cd(an: int, ad: int, bn: int, bd: int, cd: int)
    ensures
        (3 * ((2 * bn) * ad + an * bd)) * cd == 6 * (bn * (ad * cd)) + 3 * (an * (bd * cd)),
{
    assert(3 * ((2 * bn) * ad + an * bd) == 3 * ((2 * bn) * ad) + 3 * (an * bd));
    vstd::arithmetic::mul::lemma_mul_is_distributive_add_other_way(
        cd,
        3 * ((2 * bn) * ad),
        3 * (an * bd),
    );
    assert((3 * ((2 * bn) * ad)) * cd == 6 * (bn * (ad * cd))) by (nonlinear_arith);
    assert((3 * (an * bd)) * cd == 3 * (an * (bd * cd))) by (nonlinear_arith);
}

/// The other middle elevated term times the first denominator, as monomials.
proof fn lemma_round_ec_ad(ad: int, bn: int, bd: int, cn: int, cd: int)
    ensures
        (3 * (cn * bd + (2 * bn) * cd)) * ad == 3 * (cn * (ad * bd)) + 6 * (bn * (ad * cd)),
{
    assert(3 * (cn * bd + (2 * bn) * cd) == 3 * (cn * bd) + 3 * ((2 * bn) * cd));
    vstd::arithmetic::mul::lemma_mul_is_distributive_add_other_way(
        ad,
        3 * (cn * bd),
        3 * ((2 * bn) * cd),
    );
    assert((3 * (cn * bd)) * ad == 3 * (cn * (ad * bd))) by (nonlinear_arith);
    assert((3 * ((2 * bn) * cd)) * ad == 6 * (bn * (ad * cd))) by (nonlinear_arith);
}

/// Round trip: reducing an elevated quadratic gives back exactly the
/// quadratic it came from, for every curve.
pub proof fn lemma_reduce_expand_round_trip(x: QuadF)
    requires
        quad_wf(x),
    ensures
        quad_feq(reduce_f(expand_f(x)), x),
{
    let an = x.a.n;
    let ad = x.a.d;
    let bn = x.b.n;
    let bd = x.b.d;
    let cn = x.c.n;
    let cd = x.c.d;
    let e = expand_f(x);
    let eb = (2 * bn) * ad + an * bd;
    let ec = cn * bd + (2 * bn) * cd;
    assert(e.a == x.a && e.d == x.c);
    assert(e.b.n == eb && e.b.d == (bd * ad) * 3);
    assert(e.c.n == ec && e.c.d == (cd * bd) * 3);
    let c95 = Frac { n: 19, d: 20 };
    let c15 = Frac { n: 3, d: 20 };
    let c05 = Frac { n: 1, d: 20 };
    let m14 = Frac { n: -1, d: 4 };
    let c34 = Frac { n: 3, d: 4 };
    let c14 = Frac { n: 1, d: 4 };
    let dd = 60 * (ad * (bd * cd));
    let d4 = 12 * (ad * (bd * cd));
    assert(60 * (ad * (bd * cd)) > 0 && 12 * (ad * (bd * cd)) > 0 && 20 * ad > 0 && 20 * ((bd * ad)
        * 3) > 0 && 20 * ((cd * bd) * 3) > 0 && 20 * cd > 0 && 4 * ad > 0 && 4 * ((bd * ad) * 3) > 0
        && 4 * ((cd * bd) * 3) > 0 && 4 * cd > 0) by (nonlinear_arith)
        requires
            ad > 0,
            bd > 0,
            cd > 0,
    ;
    // First coordinate.
    let g1 = fmul(c95, e.a);
    let g2 = fmul(c15, e.b);
    let g3 = fmul(c15, e.c);
    let g4 = fmul(c05, e.d);
    let n1 = (19 * an) * (3 * (bd * cd));
    let n2 = (3 * eb) * cd;
    let n3 = (3 * ec) * ad;
    let n4 = cn * (3 * (ad * bd));
    assert((19 * an) * (60 * (ad * (bd * cd))) == ((19 * an) * (3 * (bd * cd))) * (20 * ad))
        by (nonlinear_arith);
    lemma_round_mid20_b(eb, ad, bd, cd);
    lemma_round_mid20_c(ec, ad, bd, cd);
    assert(cn * (60 * (ad * (bd * cd))) == (cn * (3 * (ad * bd))) * (20 * cd)) by (nonlinear_arith);
    lemma_fadd_common(g1, g2, n1, n2, dd);
    lemma_fsub_common(fadd(g1, g2), g3, n1 + n2, n3, dd);
    lemma_fadd_common(fsub(fadd(g1, g2), g3), g4, (n1 + n2) - n3, n4, dd);
    assert(reduce_f(e).a == fadd(fsub(fadd(g1, g2), g3), g4));
    lemma_round_eb_cd(an, ad, bn, bd, cd);
    lemma_round_ec_ad(ad, bn, bd, cn, cd);
    assert((19 * an) * (3 * (bd * cd)) == 57 * (an * (bd * cd))) by (nonlinear_arith);
    assert(cn * (3 * (ad * bd)) == 3 * (cn * (ad * bd))) by (nonlinear_arith);
    assert(((n1 + n2) - n3) + n4 == 60 * (an * (bd * cd)));
    assert((60 * (an * (bd * cd))) * ad == an * (60 * (ad * (bd * cd)))) by (nonlinear_arith);
    crate::frac::lemma_feq_trans(
        fadd(fsub(fadd(g1, g2), g3), g4),
        Frac { n: ((n1 + n2) - n3) + n4, d: dd },
        x.a,
    );
    assert(feq(reduce_f(e).a, x.a));
    // Second coordinate.
    let h1 = fmul(m14, e.a);
    let h2 = fmul(c34, e.b);
    let h3 = fmul(c34, e.c);
    let h4 = fmul(c14, e.d);
    let p1 = ((-1) * an) * (3 * (bd * cd));
    let p2 = (3 * eb) * cd;
    let p3 = (3 * ec) * ad;
    let p4 = cn * (3 * (ad * bd));
    assert(((-1) * an) * (12 * (ad * (bd * cd))) == (((-1) * an) * (3 * (bd * cd))) * (4 * ad))
        by (nonlinear_arith);
    lemma_round_mid4_b(eb, ad, bd, cd);
    lemma_round_mid4_c(ec, ad, bd, cd);
    assert(cn * (12 * (ad * (bd * cd))) == (cn * (3 * (ad * bd))) * (4 * cd)) by (nonlinear_arith);
    lemma_fadd_common(h1, h2, p1, p2, d4);
    lemma_fadd_common(fadd(h1, h2), h3, p1 + p2, p3, d4);
    lemma_fsub_common(fadd(fadd(h1, h2), h3), h4, (p1 + p2) + p3, p4, d4);
    assert(reduce_f(e).b == fsub(fadd(fadd(h1, h2), h3), h4));
    assert(((-1) * an) * (3 * (bd * cd)) == (-3) * (an * (bd * cd))) by (nonlinear_arith);
    assert(((p1 + p2) + p3) - p4 == 12 * (bn * (ad * cd)));
    assert((12 * (bn * (ad * cd))) * bd == bn * (12 * (ad * (bd * cd)))) by (nonlinear_arith);
    crate::frac::lemma_feq_trans(
        fsub(fadd(fadd(h1, h2), h3), h4),
        Frac { n: ((p1 + p2) + p3) - p4, d: d4 },
        x.b,
    );
    assert(feq(reduce_f(e).b, x.b));
    // Third coordinate.
    let j1 = fmul(c05, e.a);
    let j2 = fmul(c15, e.b);
    let j3 = fmul(c15, e.c);
    let j4 = fmul(c95, e.d);
    let q1 = an * (3 * (bd * cd));
    let q2 = (3 * eb) * cd;
    let q3 = (3 * ec) * ad;
    let q4 = (19 * cn) * (3 * (ad * bd));
    assert((1 * an) * (60 * (ad * (bd * cd))) == (an * (3 * (bd * cd))) * (20 * ad))
        by (nonlinear_arith);
    assert((19 * cn) * (60 * (ad * (bd * cd))) == ((19 * cn) * (3 * (ad * bd))) * (20 * cd))
        by (nonlinear_arith);
    lemma_fsub_common(j1, j2, q1, q2, dd);
    lemma_fadd_common(fsub(j1, j2), j3, q1 - q2, q3, dd);
    lemma_fadd_common(fadd(fsub(j1, j2), j3), j4, (q1 - q2) + q3, q4, dd);
    assert(reduce_f(e).c == fadd(fadd(fsub(j1, j2), j3), j4));
    assert(an * (3 * (bd * cd)) == 3 * (an * (bd * cd))) by (nonlinear_arith);
    assert((19 * cn) * (3 * (ad * bd)) == 57 * (cn * (ad * bd))) by (nonlinear_arith);
    assert(((q1 - q2) + q3) + q4 == 60 * (cn * (ad * bd)));
    assert((60 * (cn * (ad * bd))) * cd == cn * (60 * (ad * (bd * cd)))) by (nonlinear_arith);
    crate::frac::lemma_feq_trans(
        fadd(fadd(fsub(j1, j2), j3), j4),
        Frac { n: ((q1 - q2) + q3) + q4, d: dd },
        x.c,
    );
    assert(feq(reduce_f(e).c, x.c));
}


} // verus!
