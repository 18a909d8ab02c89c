//! Comparison of curves: the coordinate-wise absolute distance between
//! control points against a strict tolerance.

use vstd::prelude::*;

use crate::bezier::cub_wf;
use crate::bezier::CubF;
use crate::bezier::Cubic;
use crate::compare::Compare;
use crate::frac::fabs;
use crate::frac::flt;
use crate::frac::Frac;
use crate::rat::rat_inv;
use crate::rat::rat_minus;
use crate::rat::Rat;

verus! {

/// Every control point of `one` lies strictly within `tol` of the matching
/// control point of `other`, as the executable arithmetic measures it.
pub open spec fn strictly_within4(one: CubF, other: CubF, tol: Frac) -> bool {
    &&& flt(fabs(rat_minus(one.a, other.a)), tol)
    &&& flt(fabs(rat_minus(one.b, other.b)), tol)
    &&& flt(fabs(rat_minus(one.c, other.c)), tol)
    &&& flt(fabs(rat_minus(one.d, other.d)), tol)
}

/// A comparison based on the coordinate-wise absolute distance between
/// control points.
pub struct IndependentCrudeAbsolute {
    /// The strict bound on each coordinate-wise distance.
    pub tolerance: Rat,
}

impl IndependentCrudeAbsolute {
    /// Create an instance.
    pub fn new(tolerance: Rat) -> (r: IndependentCrudeAbsolute)
        requires
            tolerance.inv(),
        ensures
            r.tolerance == tolerance,
    {
        IndependentCrudeAbsolute { tolerance: tolerance }
    }
}

impl Compare<Cubic> for IndependentCrudeAbsolute {
    open spec fn compare_req(&self, one: &Cubic, other: &Cubic) -> bool {
        rat_inv(self.tolerance@) && cub_wf(one@) && cub_wf(other@)
    }

    open spec fn compare_post(&self, one: &Cubic, other: &Cubic, r: bool) -> bool {
        r == strictly_within4(one@, other@, self.tolerance@)
    }

    fn compare(&self, one: &Cubic, other: &Cubic) -> (r: bool) {
        one.a.minus(other.a).abs().lt(self.tolerance) && one.b.minus(other.b).abs().lt(
            self.tolerance,
        ) && one.c.minus(other.c).abs().lt(self.tolerance) && one.d.minus(other.d).abs().lt(
            self.tolerance,
        )
    }
}

impl Compare<(Cubic, Cubic)> for IndependentCrudeAbsolute {
    open spec fn compare_req(&self, one: &(Cubic, Cubic), other: &(Cubic, Cubic)) -> bool {
        rat_inv(self.tolerance@) && cub_wf(one.0@) && cub_wf(one.1@) && cub_wf(other.0@) && cub_wf(
            other.1@,
        )
    }

    open spec fn compare_post(&self, one: &(Cubic, Cubic), other: &(Cubic, Cubic), r: bool) -> bool {
        r == (strictly_within4(one.0@, other.0@, self.tolerance@) && strictly_within4(
            one.1@,
            other.1@,
            self.tolerance@,
        ))
    }

    fn compare(&self, one: &(Cubic, Cubic), other: &(Cubic, Cubic)) -> (r: bool) {
        one.0.a.minus(other.0.a).abs().lt(self.tolerance) && one.0.b.minus(other.0.b).abs().lt(
            self.tolerance,
        ) && one.0.c.minus(other.0.c).abs().lt(self.tolerance) && one.0.d.minus(
            other.0.d,
        ).abs().lt(self.tolerance) && one.1.a.minus(other.1.a).abs().lt(self.tolerance)
            && one.1.b.minus(other.1.b).abs().lt(self.tolerance) && one.1.c.minus(
            other.1.c,
        ).abs().lt(self.tolerance) && one.1.d.minus(other.1.d).abs().lt(self.tolerance)
    }
}

} // verus!
