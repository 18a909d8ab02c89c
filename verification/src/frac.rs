//! The mathematical model of the scalar type: rational numbers represented in
//! specifications as a numerator and a positive denominator, with no bound on
//! their size.  Executable arithmetic on [`crate::rat::Rat`] is specified
//! against the operations defined here.

use vstd::prelude::*;

verus! {

/// A rational number in the specification world.
pub ghost struct Frac {
    /// Numerator.
    pub n: int,
    /// Denominator; well-formed values keep it positive.
    pub d: int,
}

/// A well-formed rational has a positive denominator.
pub open spec fn frac_wf(x: Frac) -> bool {
    x.d > 0
}

/// The rational with integer value `n`.
pub open spec fn fint(n: int) -> Frac {
    Frac { n: n, d: 1 }
}

/// Zero.
pub open spec fn fzero() -> Frac {
    fint(0)
}

/// One.
pub open spec fn fone() -> Frac {
    fint(1)
}

/// One half, the conventional subdivision parameter.
pub open spec fn fhalf() -> Frac {
    Frac { n: 1, d: 2 }
}

/// Sum of two rationals.
pub open spec fn fadd(x: Frac, y: Frac) -> Frac {
    Frac { n: x.n * y.d + y.n * x.d, d: x.d * y.d }
}

/// Difference of two rationals.
pub open spec fn fsub(x: Frac, y: Frac) -> Frac {
    Frac { n: x.n * y.d - y.n * x.d, d: x.d * y.d }
}

/// Product of two rationals.
pub open spec fn fmul(x: Frac, y: Frac) -> Frac {
    Frac { n: x.n * y.n, d: x.d * y.d }
}

/// Negation.
pub open spec fn fneg(x: Frac) -> Frac {
    Frac { n: -x.n, d: x.d }
}

/// Absolute value.
pub open spec fn fabs(x: Frac) -> Frac {
    Frac { n: if x.n < 0 { -x.n } else { x.n }, d: x.d }
}

/// Value equality: two representations denote the same rational.
pub open spec fn feq(x: Frac, y: Frac) -> bool {
    x.n * y.d == y.n * x.d
}

/// Value order (both sides well-formed): `x` is at most `y`.
pub open spec fn fle(x: Frac, y: Frac) -> bool {
    x.n * y.d <= y.n * x.d
}

/// Strict value order.
pub open spec fn flt(x: Frac, y: Frac) -> bool {
    x.n * y.d < y.n * x.d
}

/// The smaller of two rationals, keeping the representation of the one chosen.
pub open spec fn fmin(x: Frac, y: Frac) -> Frac {
    if fle(x, y) {
        x
    } else {
        y
    }
}

/// The larger of two rationals, keeping the representation of the one chosen.
pub open spec fn fmax(x: Frac, y: Frac) -> Frac {
    if fle(x, y) {
        y
    } else {
        x
    }
}

/// Membership in the unit interval.
pub open spec fn in_unit(t: Frac) -> bool {
    fle(fzero(), t) && fle(t, fone())
}

/// Value equality is transitive on well-formed rationals.
pub proof fn lemma_feq_trans(x: Frac, y: Frac, z: Frac)
    requires
        frac_wf(x),
        frac_wf(y),
        frac_wf(z),
        feq(x, y),
        feq(y, z),
    ensures
        feq(x, z),
{
    assert(feq(x, z)) by (nonlinear_arith)
        requires
            x.d > 0,
            y.d > 0,
            z.d > 0,
            x.n * y.d == y.n * x.d,
            y.n * z.d == z.n * y.d,
    ;
}

/// A factor common to two equal products can be slipped inside either side.
pub proof fn lemma_mul_with_factor(a: int, b: int, x: int, y: int, e: int)
    by (nonlinear_arith)
    requires
        a * x == b * y,
    ensures
        (a * e) * x == (b * e) * y,
{
}

/// Adding two rationals that are each equal in value to a fraction over a
/// common denominator gives the sum of those fractions.
pub proof fn lemma_fadd_common(a: Frac, b: Frac, na: int, nb: int, dd: int)
    requires
        frac_wf(a),
        frac_wf(b),
        dd > 0,
        feq(a, Frac { n: na, d: dd }),
        feq(b, Frac { n: nb, d: dd }),
    ensures
        frac_wf(fadd(a, b)),
        feq(fadd(a, b), Frac { n: na + nb, d: dd }),
{
    assert((a.n * b.d) * dd == (na * a.d) * b.d) by (nonlinear_arith)
        requires
            a.n * dd == na * a.d,
    ;
    assert((b.n * a.d) * dd == (nb * b.d) * a.d) by (nonlinear_arith)
        requires
            b.n * dd == nb * b.d,
    ;
    assert((a.n * b.d + b.n * a.d) * dd == (a.n * b.d) * dd + (b.n * a.d) * dd)
        by (nonlinear_arith);
    assert((na + nb) * (a.d * b.d) == (na * a.d) * b.d + (nb * b.d) * a.d) by (nonlinear_arith);
    assert(a.d * b.d > 0) by (nonlinear_arith)
        requires
            a.d > 0,
            b.d > 0,
    ;
}

/// Subtracting two rationals that are each equal in value to a fraction over
/// a common denominator gives the difference of those fractions.
pub proof fn lemma_fsub_common(a: Frac, b: Frac, na: int, nb: int, dd: int)
    requires
        frac_wf(a),
        frac_wf(b),
        dd > 0,
        feq(a, Frac { n: na, d: dd }),
        feq(b, Frac { n: nb, d: dd }),
    ensures
        frac_wf(fsub(a, b)),
        feq(fsub(a, b), Frac { n: na - nb, d: dd }),
{
    assert((a.n * b.d) * dd == (na * a.d) * b.d) by (nonlinear_arith)
        requires
            a.n * dd == na * a.d,
    ;
    assert((b.n * a.d) * dd == (nb * b.d) * a.d) by (nonlinear_arith)
        requires
            b.n * dd == nb * b.d,
    ;
    assert((a.n * b.d - b.n * a.d) * dd == (a.n * b.d) * dd - (b.n * a.d) * dd)
        by (nonlinear_arith);
    assert((na - nb) * (a.d * b.d) == (na * a.d) * b.d - (nb * b.d) * a.d) by (nonlinear_arith);
    assert(a.d * b.d > 0) by (nonlinear_arith)
        requires
            a.d > 0,
            b.d > 0,
    ;
}

/// Addition respects value equality.
pub proof fn lemma_fadd_congr(x: Frac, y: Frac, x2: Frac, y2: Frac)
    requires
        frac_wf(x),
        frac_wf(y),
        frac_wf(x2),
        frac_wf(y2),
        feq(x, x2),
        feq(y, y2),
    ensures
        feq(fadd(x, y), fadd(x2, y2)),
        frac_wf(fadd(x, y)),
{
    assert((x.n * y.d) * (x2.d * y2.d) == (x2.n * y2.d) * (x.d * y.d)) by (nonlinear_arith)
        requires
            x.n * x2.d == x2.n * x.d,
    ;
    assert((y.n * x.d) * (x2.d * y2.d) == (y2.n * x2.d) * (x.d * y.d)) by (nonlinear_arith)
        requires
            y.n * y2.d == y2.n * y.d,
    ;
    assert((x.n * y.d + y.n * x.d) * (x2.d * y2.d) == (x.n * y.d) * (x2.d * y2.d) + (y.n * x.d)
        * (x2.d * y2.d)) by (nonlinear_arith);
    assert((x2.n * y2.d + y2.n * x2.d) * (x.d * y.d) == (x2.n * y2.d) * (x.d * y.d) + (y2.n * x2.d)
        * (x.d * y.d)) by (nonlinear_arith);
    assert(x.d * y.d > 0) by (nonlinear_arith)
        requires
            x.d > 0,
            y.d > 0,
    ;
}

/// Subtraction respects value equality.
pub proof fn lemma_fsub_congr(x: Frac, y: Frac, x2: Frac, y2: Frac)
    requires
        frac_wf(x),
        frac_wf(y),
        frac_wf(x2),
        frac_wf(y2),
        feq(x, x2),
        feq(y, y2),
    ensures
        feq(fsub(x, y), fsub(x2, y2)),
        frac_wf(fsub(x, y)),
{
    assert((x.n * y.d) * (x2.d * y2.d) == (x2.n * y2.d) * (x.d * y.d)) by (nonlinear_arith)
        requires
            x.n * x2.d == x2.n * x.d,
    ;
    assert((y.n * x.d) * (x2.d * y2.d) == (y2.n * x2.d) * (x.d * y.d)) by (nonlinear_arith)
        requires
            y.n * y2.d == y2.n * y.d,
    ;
    assert((x.n * y.d - y.n * x.d) * (x2.d * y2.d) == (x.n * y.d) * (x2.d * y2.d) - (y.n * x.d)
        * (x2.d * y2.d)) by (nonlinear_arith);
    assert((x2.n * y2.d - y2.n * x2.d) * (x.d * y.d) == (x2.n * y2.d) * (x.d * y.d) - (y2.n * x2.d)
        * (x.d * y.d)) by (nonlinear_arith);
    assert(x.d * y.d > 0) by (nonlinear_arith)
        requires
            x.d > 0,
            y.d > 0,
    ;
}

/// Multiplication respects value equality.
pub proof fn lemma_fmul_congr(x: Frac, y: Frac, x2: Frac, y2: Frac)
    requires
        frac_wf(x),
        frac_wf(y),
        frac_wf(x2),
        frac_wf(y2),
        feq(x, x2),
        feq(y, y2),
    ensures
        feq(fmul(x, y), fmul(x2, y2)),
        frac_wf(fmul(x, y)),
{
    assert((x.n * y.n) * (x2.d * y2.d) == (x2.n * y2.n) * (x.d * y.d)) by (nonlinear_arith)
        requires
            x.n * x2.d == x2.n * x.d,
            y.n * y2.d == y2.n * y.d,
    ;
    assert(x.d * y.d > 0) by (nonlinear_arith)
        requires
            x.d > 0,
            y.d > 0,
    ;
}

} // verus!
