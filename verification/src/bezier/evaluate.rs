//! Closed-form Bernstein evaluation of the three curve degrees, with the
//! proof that the executable arithmetic chain denotes the Bernstein value
//! whenever no intermediate result overflows the scalar representation.

use vstd::prelude::*;

use crate::bezier::lin_wf;
use crate::bezier::quad_wf;
use crate::bezier::cub_wf;
use crate::bezier::CubF;
use crate::bezier::Cubic;
use crate::bezier::LinF;
use crate::bezier::Linear;
use crate::bezier::QuadF;
use crate::bezier::Quadratic;
use crate::evaluate::Evaluate;
use crate::frac::fadd;
use crate::frac::feq;
use crate::frac::fint;
use crate::frac::fmul;
use crate::frac::fone;
use crate::frac::frac_wf;
use crate::frac::fsub;
use crate::frac::Frac;
use crate::rat::ex_minus;
use crate::rat::ex_of;
use crate::rat::ex_plus;
use crate::rat::ex_times;
use crate::rat::lemma_ex_minus;
use crate::rat::lemma_ex_plus;
use crate::rat::lemma_ex_times;
use crate::rat::rat_inv;
use crate::rat::Ex;
use crate::rat::Rat;

verus! {

/// The Bernstein value of a linear curve at `t`:
/// `a * (1 - t) + b * t`.
pub open spec fn lin_at(x: LinF, t: Frac) -> Frac {
    let u = fsub(fone(), t);
    fadd(fmul(u, x.a), fmul(t, x.b))
}

/// The Bernstein value of a quadratic curve at `t`:
/// `a * (1 - t)^2 + b * 2 * (1 - t) * t + c * t^2`.
pub open spec fn quad_at(x: QuadF, t: Frac) -> Frac {
    let u = fsub(fone(), t);
    fadd(
        fadd(fmul(fmul(u, u), x.a), fmul(fmul(fmul(fint(2), u), t), x.b)),
        fmul(fmul(t, t), x.c),
    )
}

/// The Bernstein value of a cubic curve at `t`:
/// `a * (1 - t)^3 + b * 3 * (1 - t)^2 * t + c * 3 * (1 - t) * t^2 + d * t^3`.
pub open spec fn cub_at(x: CubF, t: Frac) -> Frac {
    let u = fsub(fone(), t);
    let u2 = fmul(u, u);
    let t2 = fmul(t, t);
    fadd(
        fadd(
            fadd(fmul(fmul(u2, u), x.a), fmul(fmul(fmul(fint(3), u2), t), x.b)),
            fmul(fmul(fmul(fint(3), u), t2), x.c),
        ),
        fmul(fmul(t2, t), x.d),
    )
}

/// The chain the executable linear evaluation performs.
pub open spec fn lin_run(x: LinF, t: Frac) -> Ex {
    let u = ex_minus(ex_of(fint(1)), ex_of(t));
    ex_plus(ex_times(u, ex_of(x.a)), ex_times(ex_of(t), ex_of(x.b)))
}

/// The chain the executable quadratic evaluation performs.
pub open spec fn quad_run(x: QuadF, t: Frac) -> Ex {
    let u = ex_minus(ex_of(fint(1)), ex_of(t));
    let p1 = ex_times(ex_times(u, u), ex_of(x.a));
    let p2 = ex_times(ex_times(ex_times(ex_of(fint(2)), u), ex_of(t)), ex_of(x.b));
    let p3 = ex_times(ex_times(ex_of(t), ex_of(t)), ex_of(x.c));
    ex_plus(ex_plus(p1, p2), p3)
}

/// The chain the executable cubic evaluation performs.
pub open spec fn cub_run(x: CubF, t: Frac) -> Ex {
    let u = ex_minus(ex_of(fint(1)), ex_of(t));
    let u2 = ex_times(u, u);
    let t2 = ex_times(ex_of(t), ex_of(t));
    let p1 = ex_times(ex_times(u2, u), ex_of(x.a));
    let p2 = ex_times(ex_times(ex_times(ex_of(fint(3)), u2), ex_of(t)), ex_of(x.b));
    let p3 = ex_times(ex_times(ex_times(ex_of(fint(3)), u), t2), ex_of(x.c));
    let p4 = ex_times(ex_times(t2, ex_of(t)), ex_of(x.d));
    ex_plus(ex_plus(ex_plus(p1, p2), p3), p4)
}

/// The linear chain stays within the representation and, when exact, denotes
/// the Bernstein value.
pub proof fn lemma_lin_run(x: LinF, t: Frac)
    requires
        lin_wf(x),
        rat_inv(t),
    ensures
        rat_inv(lin_run(x, t).v),
        lin_run(x, t).ok ==> feq(lin_run(x, t).v, lin_at(x, t)),
{
    let one = fint(1);
    let u = ex_minus(ex_of(one), ex_of(t));
    let ui = fsub(fone(), t);
    lemma_ex_minus(ex_of(one), ex_of(t), one, t);
    lemma_ex_times(u, ex_of(x.a), ui, x.a);
    lemma_ex_times(ex_of(t), ex_of(x.b), t, x.b);
    lemma_ex_plus(
        ex_times(u, ex_of(x.a)),
        ex_times(ex_of(t), ex_of(x.b)),
        fmul(ui, x.a),
        fmul(t, x.b),
    );
}

/// The quadratic chain stays within the representation and, when exact,
/// denotes the Bernstein value.
pub proof fn lemma_quad_run(x: QuadF, t: Frac)
    requires
        quad_wf(x),
        rat_inv(t),
    ensures
        rat_inv(quad_run(x, t).v),
        quad_run(x, t).ok ==> feq(quad_run(x, t).v, quad_at(x, t)),
{
    let one = fint(1);
    let two = fint(2);
    let u = ex_minus(ex_of(one), ex_of(t));
    let ui = fsub(fone(), t);
    lemma_ex_minus(ex_of(one), ex_of(t), one, t);
    let uu = ex_times(u, u);
    let uui = fmul(ui, ui);
    lemma_ex_times(u, u, ui, ui);
    let p1 = ex_times(uu, ex_of(x.a));
    let p1i = fmul(uui, x.a);
    lemma_ex_times(uu, ex_of(x.a), uui, x.a);
    let tu = ex_times(ex_of(two), u);
    let tui = fmul(fint(2), ui);
    lemma_ex_times(ex_of(two), u, two, ui);
    let tut = ex_times(tu, ex_of(t));
    let tuti = fmul(tui, t);
    lemma_ex_times(tu, ex_of(t), tui, t);
    let p2 = ex_times(tut, ex_of(x.b));
    let p2i = fmul(tuti, x.b);
    lemma_ex_times(tut, ex_of(x.b), tuti, x.b);
    let tt = ex_times(ex_of(t), ex_of(t));
    let tti = fmul(t, t);
    lemma_ex_times(ex_of(t), ex_of(t), t, t);
    let p3 = ex_times(tt, ex_of(x.c));
    let p3i = fmul(tti, x.c);
    lemma_ex_times(tt, ex_of(x.c), tti, x.c);
    let s1 = ex_plus(p1, p2);
    let s1i = fadd(p1i, p2i);
    lemma_ex_plus(p1, p2, p1i, p2i);
    lemma_ex_plus(s1, p3, s1i, p3i);
}

/// The cubic chain stays within the representation and, when exact, denotes
/// the Bernstein value.
pub proof fn lemma_cub_run(x: CubF, t: Frac)
    requires
        cub_wf(x),
        rat_inv(t),
    ensures
        rat_inv(cub_run(x, t).v),
        cub_run(x, t).ok ==> feq(cub_run(x, t).v, cub_at(x, t)),
{
    let one = fint(1);
    let three = fint(3);
    let u = ex_minus(ex_of(one), ex_of(t));
    let ui = fsub(fone(), t);
    lemma_ex_minus(ex_of(one), ex_of(t), one, t);
    let u2 = ex_times(u, u);
    let u2i = fmul(ui, ui);
    lemma_ex_times(u, u, ui, ui);
    let t2 = ex_times(ex_of(t), ex_of(t));
    let t2i = fmul(t, t);
    lemma_ex_times(ex_of(t), ex_of(t), t, t);
    let u3 = ex_times(u2, u);
    let u3i = fmul(u2i, ui);
    lemma_ex_times(u2, u, u2i, ui);
    let p1 = ex_times(u3, ex_of(x.a));
    let p1i = fmul(u3i, x.a);
    lemma_ex_times(u3, ex_of(x.a), u3i, x.a);
    let c2 = ex_times(ex_of(three), u2);
    let c2i = fmul(fint(3), u2i);
    lemma_ex_times(ex_of(three), u2, three, u2i);
    let c2t = ex_times(c2, ex_of(t));
    let c2ti = fmul(c2i, t);
    lemma_ex_times(c2, ex_of(t), c2i, t);
    let p2 = ex_times(c2t, ex_of(x.b));
    let p2i = fmul(c2ti, x.b);
    lemma_ex_times(c2t, ex_of(x.b), c2ti, x.b);
    let c3 = ex_times(ex_of(three), u);
    let c3i = fmul(fint(3), ui);
    lemma_ex_times(ex_of(three), u, three, ui);
    let c3t = ex_times(c3, t2);
    let c3ti = fmul(c3i, t2i);
    lemma_ex_times(c3, t2, c3i, t2i);
    let p3 = ex_times(c3t, ex_of(x.c));
    let p3i = fmul(c3ti, x.c);
    lemma_ex_times(c3t, ex_of(x.c), c3ti, x.c);
    let t3 = ex_times(t2, ex_of(t));
    let t3i = fmul(t2i, t);
    lemma_ex_times(t2, ex_of(t), t2i, t);
    let p4 = ex_times(t3, ex_of(x.d));
    let p4i = fmul(t3i, x.d);
    lemma_ex_times(t3, ex_of(x.d), t3i, x.d);
    let s1 = ex_plus(p1, p2);
    let s1i = fadd(p1i, p2i);
    lemma_ex_plus(p1, p2, p1i, p2i);
    let s2 = ex_plus(s1, p3);
    let s2i = fadd(s1i, p3i);
    lemma_ex_plus(s1, p3, s1i, p3i);
    lemma_ex_plus(s2, p4, s2i, p4i);
}

impl Evaluate for Linear {
    type Target = Rat;

    open spec fn wf(&self) -> bool {
        lin_wf(self@)
    }

    open spec fn eval_post(&self, t: Frac, r: Rat) -> bool {
        &&& r.inv()
        &&& r@ == lin_run(self@, t).v
        &&& lin_run(self@, t).ok ==> feq(r@, lin_at(self@, t))
    }

    fn evaluate(&self, t: Rat) -> (r: Rat) {
        proof {
            lemma_lin_run(self@, t@);
        }
        let u = Rat::whole(1).minus(t);
        u.times(self.a).plus(t.times(self.b))
    }
}

impl Evaluate for Quadratic {
    type Target = Rat;

    open spec fn wf(&self) -> bool {
        quad_wf(self@)
    }

    open spec fn eval_post(&self, t: Frac, r: Rat) -> bool {
        &&& r.inv()
        &&& r@ == quad_run(self@, t).v
        &&& quad_run(self@, t).ok ==> feq(r@, quad_at(self@, t))
    }

    fn evaluate(&self, t: Rat) -> (r: Rat) {
        proof {
            lemma_quad_run(self@, t@);
        }
        let u = Rat::whole(1).minus(t);
        let p1 = u.times(u).times(self.a);
        let p2 = Rat::whole(2).times(u).times(t).times(self.b);
        let p3 = t.times(t).times(self.c);
        p1.plus(p2).plus(p3)
    }
}

impl Evaluate for Cubic {
    type Target = Rat;

    open spec fn wf(&self) -> bool {
        cub_wf(self@)
    }

    open spec fn eval_post(&self, t: Frac, r: Rat) -> bool {
        &&& r.inv()
        &&& r@ == cub_run(self@, t).v
        &&& cub_run(self@, t).ok ==> feq(r@, cub_at(self@, t))
    }

    fn evaluate(&self, t: Rat) -> (r: Rat) {
        proof {
            lemma_cub_run(self@, t@);
        }
        let u = Rat::whole(1).minus(t);
        let u2 = u.times(u);
        let t2 = t.times(t);
        let p1 = u2.times(u).times(self.a);
        let p2 = Rat::whole(3).times(u2).times(t).times(self.b);
        let p3 = Rat::whole(3).times(u).times(t2).times(self.c);
        let p4 = t2.times(t).times(self.d);
        p1.plus(p2).plus(p3).plus(p4)
    }
}

} // verus!
