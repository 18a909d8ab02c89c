//! Bézier curves of degree one to three over the exact rational scalar, one
//! coordinate axis per curve value; a planar curve is a pair of them.

use vstd::prelude::*;

use crate::frac::feq;
use crate::frac::Frac;
use crate::rat::rat_inv;
use crate::rat::Rat;

pub mod align;
pub mod comparison;
pub mod evaluate;
pub mod goodness;
pub mod expand;
pub mod reduce;
pub mod subdivide;
pub mod trace;

verus! {

/// A linear Bézier curve: two control-point coordinates.
#[derive(Clone, Copy, Debug)]
pub struct Linear {
    /// The first control point.
    pub a: Rat,
    /// The second control point.
    pub b: Rat,
}

/// A quadratic Bézier curve: three control-point coordinates.
#[derive(Clone, Copy, Debug)]
pub struct Quadratic {
    /// The first control point.
    pub a: Rat,
    /// The second control point.
    pub b: Rat,
    /// The third control point.
    pub c: Rat,
}

/// A cubic Bézier curve: four control-point coordinates.
#[derive(Clone, Copy, Debug)]
pub struct Cubic {
    /// The first control point.
    pub a: Rat,
    /// The second control point.
    pub b: Rat,
    /// The third control point.
    pub c: Rat,
    /// The fourth control point.
    pub d: Rat,
}

/// The mathematical content of a linear curve.
pub ghost struct LinF {
    /// The first control point.
    pub a: Frac,
    /// The second control point.
    pub b: Frac,
}

/// The mathematical content of a quadratic curve.
pub ghost struct QuadF {
    /// The first control point.
    pub a: Frac,
    /// The second control point.
    pub b: Frac,
    /// The third control point.
    pub c: Frac,
}

/// The mathematical content of a cubic curve.
pub ghost struct CubF {
    /// The first control point.
    pub a: Frac,
    /// The second control point.
    pub b: Frac,
    /// The third control point.
    pub c: Frac,
    /// The fourth control point.
    pub d: Frac,
}

impl View for Linear {
    type V = LinF;

    open spec fn view(&self) -> LinF {
        LinF { a: self.a@, b: self.b@ }
    }
}

impl View for Quadratic {
    type V = QuadF;

    open spec fn view(&self) -> QuadF {
        QuadF { a: self.a@, b: self.b@, c: self.c@ }
    }
}

impl View for Cubic {
    type V = CubF;

    open spec fn view(&self) -> CubF {
        CubF { a: self.a@, b: self.b@, c: self.c@, d: self.d@ }
    }
}

/// Every coordinate of a linear curve is a well-formed scalar.
pub open spec fn lin_wf(x: LinF) -> bool {
    rat_inv(x.a) && rat_inv(x.b)
}

/// Every coordinate of a quadratic curve is a well-formed scalar.
pub open spec fn quad_wf(x: QuadF) -> bool {
    rat_inv(x.a) && rat_inv(x.b) && rat_inv(x.c)
}

/// Every coordinate of a cubic curve is a well-formed scalar.
pub open spec fn cub_wf(x: CubF) -> bool {
    rat_inv(x.a) && rat_inv(x.b) && rat_inv(x.c) && rat_inv(x.d)
}

/// Componentwise value equality of two linear curves.
pub open spec fn lin_feq(x: LinF, y: LinF) -> bool {
    feq(x.a, y.a) && feq(x.b, y.b)
}

/// Componentwise value equality of two quadratic curves.
pub open spec fn quad_feq(x: QuadF, y: QuadF) -> bool {
    feq(x.a, y.a) && feq(x.b, y.b) && feq(x.c, y.c)
}

/// Componentwise value equality of two cubic curves.
pub open spec fn cub_feq(x: CubF, y: CubF) -> bool {
    feq(x.a, y.a) && feq(x.b, y.b) && feq(x.c, y.c) && feq(x.d, y.d)
}

impl Linear {
    /// Create a curve.
    pub fn new(a: Rat, b: Rat) -> (r: Linear)
        requires
            a.inv(),
            b.inv(),
        ensures
            r@ == (LinF { a: a@, b: b@ }),
            lin_wf(r@),
    {
        Linear { a: a, b: b }
    }
}

impl Quadratic {
    /// Create a curve.
    pub fn new(a: Rat, b: Rat, c: Rat) -> (r: Quadratic)
        requires
            a.inv(),
            b.inv(),
            c.inv(),
        ensures
            r@ == (QuadF { a: a@, b: b@, c: c@ }),
            quad_wf(r@),
    {
        Quadratic { a: a, b: b, c: c }
    }
}

impl Cubic {
    /// Create a curve.
    pub fn new(a: Rat, b: Rat, c: Rat, d: Rat) -> (r: Cubic)
        requires
            a.inv(),
            b.inv(),
            c.inv(),
            d.inv(),
        ensures
            r@ == (CubF { a: a@, b: b@, c: c@, d: d@ }),
            cub_wf(r@),
    {
        Cubic { a: a, b: b, c: c, d: d }
    }
}

impl PartialEq for Linear {
    /// Coordinate-wise exact comparison of values.
    fn eq(&self, o: &Linear) -> (r: bool) {
        self.a == o.a && self.b == o.b
    }
}

impl vstd::std_specs::cmp::PartialEqSpecImpl for Linear {
    open spec fn obeys_eq_spec() -> bool {
        true
    }

    open spec fn eq_spec(&self, o: &Linear) -> bool {
        lin_feq(self@, o@)
    }
}

impl PartialEq for Quadratic {
    /// Coordinate-wise exact comparison of values.
    fn eq(&self, o: &Quadratic) -> (r: bool) {
        self.a == o.a && self.b == o.b && self.c == o.c
    }
}

impl vstd::std_specs::cmp::PartialEqSpecImpl for Quadratic {
    open spec fn obeys_eq_spec() -> bool {
        true
    }

    open spec fn eq_spec(&self, o: &Quadratic) -> bool {
        quad_feq(self@, o@)
    }
}

impl PartialEq for Cubic {
    /// Coordinate-wise exact comparison of values.
    fn eq(&self, o: &Cubic) -> (r: bool) {
        self.a == o.a && self.b == o.b && self.c == o.c && self.d == o.d
    }
}

impl vstd::std_specs::cmp::PartialEqSpecImpl for Cubic {
    open spec fn obeys_eq_spec() -> bool {
        true
    }

    open spec fn eq_spec(&self, o: &Cubic) -> bool {
        cub_feq(self@, o@)
    }
}

} // verus!
