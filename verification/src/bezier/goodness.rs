//! Goodness of fit for cubic curves, based on the coordinate-wise absolute
//! distance between control points, optionally tightened by a distance
//! relative to the curve's size, and carrying the shared subdivision budget.

use vstd::prelude::*;

use crate::bezier::CubF;
use crate::bezier::Cubic;
use crate::frac::fabs;
use crate::frac::fle;
use crate::frac::fmax;
use crate::frac::fmin;
use crate::frac::Frac;
use crate::goodness::Goodness;
use crate::goodness::WellFormed;
use crate::rat::rat_inv;
use crate::rat::rat_minus;
use crate::rat::rat_times;
use crate::rat::Rat;

verus! {

impl WellFormed for Cubic {
    open spec fn well_formed(&self) -> bool {
        crate::bezier::cub_wf(self@)
    }
}

/// Every control point of the candidate lies within `dist` of the matching
/// control point of the original, as the executable arithmetic measures it.
pub open spec fn within4(c: CubF, o: CubF, dist: Frac) -> bool {
    &&& fle(fabs(rat_minus(c.a, o.a)), dist)
    &&& fle(fabs(rat_minus(c.b, o.b)), dist)
    &&& fle(fabs(rat_minus(c.c, o.c)), dist)
    &&& fle(fabs(rat_minus(c.d, o.d)), dist)
}

/// The distance bound in force: the absolute tolerance, tightened by the
/// size-relative tolerance when one is configured.
pub open spec fn dist_bound(absolute: Frac, relative: Option<Rat>, size: Frac) -> Frac {
    match relative {
        Some(r) => fmin(absolute, rat_times(r@, size)),
        None => absolute,
    }
}

/// The size of a single-axis cubic: the distance between its endpoints, as
/// the executable arithmetic measures it.
pub open spec fn size_of(o: CubF) -> Frac {
    fabs(rat_minus(o.a, o.d))
}

/// A goodness of fit based on the coordinate-wise absolute distance between
/// control points.
pub struct CrudeIndependentAbsolute {
    /// The maximum coordinate-wise distance between control points.
    pub absolute_distance: Rat,
    /// The maximum such distance relative to the size of the original curve,
    /// or `None` for no size-relative bound.
    pub relative_distance: Option<Rat>,
    /// The maximum number of subdivisions of one approximation run.
    pub subdivision: usize,
    /// How many subdivisions have been granted so far.
    pub index: usize,
}

impl CrudeIndependentAbsolute {
    /// The absolute tolerance.
    pub open spec fn absolute(&self) -> Frac {
        self.absolute_distance@
    }

    /// The relative tolerance, if one is configured.
    pub open spec fn relative(&self) -> Option<Rat> {
        self.relative_distance
    }

    /// Create an instance.
    ///
    /// * `absolute_distance` dictates the maximum coordinate-wise distance
    ///   between the control points of a candidate curve and an original one.
    ///
    /// * `relative_distance` optionally dictates the same bound relative to
    ///   the largest coordinate-wise distance between the endpoints.
    ///
    /// * `subdivision` dictates the maximum number of subdivisions that can
    ///   be made during an approximation process.
    pub fn new(absolute_distance: Rat, relative_distance: Option<Rat>, subdivision: usize) -> (r:
        CrudeIndependentAbsolute)
        requires
            absolute_distance.inv(),
            relative_distance matches Some(rel) ==> rel.inv(),
        ensures
            <CrudeIndependentAbsolute as Goodness<Cubic>>::inv(&r),
            <CrudeIndependentAbsolute as Goodness<(Cubic, Cubic)>>::inv(&r),
            r.absolute() == absolute_distance@,
            r.relative() == relative_distance,
            <CrudeIndependentAbsolute as Goodness<Cubic>>::budget(&r) == subdivision as nat,
            <CrudeIndependentAbsolute as Goodness<(Cubic, Cubic)>>::budget(&r) == subdivision
                as nat,
            r.subdivision == subdivision,
            r.index == 0,
    {
        CrudeIndependentAbsolute {
            absolute_distance: absolute_distance,
            relative_distance: relative_distance,
            subdivision: subdivision,
            index: 0,
        }
    }
}

impl Goodness<Cubic> for CrudeIndependentAbsolute {
    open spec fn inv(&self) -> bool {
        &&& rat_inv(self.absolute_distance@)
        &&& (self.relative_distance matches Some(r) ==> rat_inv(r@))
        &&& self.index <= self.subdivision
    }

    open spec fn budget(&self) -> nat {
        (self.subdivision - self.index) as nat
    }

    open spec fn admits(&self, candidate: Cubic, original: Cubic) -> bool {
        within4(
            candidate@,
            original@,
            dist_bound(self.absolute_distance@, self.relative_distance, size_of(original@)),
        )
    }

    fn accept(&mut self, candidate: &Cubic, original: &Cubic) -> (r: Option<bool>) {
        let size = original.a.minus(original.d).abs();
        let distance = match self.relative_distance {
            Some(rel) => self.absolute_distance.min(rel.times(size)),
            None => self.absolute_distance,
        };
        let close = candidate.a.minus(original.a).abs().le(distance) && candidate.b.minus(
            original.b,
        ).abs().le(distance) && candidate.c.minus(original.c).abs().le(distance)
            && candidate.d.minus(original.d).abs().le(distance);
        if close {
            Some(true)
        } else if self.index < self.subdivision {
            self.index = self.index + 1;
            Some(false)
        } else {
            None
        }
    }
}

/// The size of a planar cubic: the larger of the two axes' endpoint
/// distances.
pub open spec fn size_of_pair(o: (Cubic, Cubic)) -> Frac {
    fmax(size_of(o.0@), size_of(o.1@))
}

impl Goodness<(Cubic, Cubic)> for CrudeIndependentAbsolute {
    open spec fn inv(&self) -> bool {
        &&& rat_inv(self.absolute_distance@)
        &&& (self.relative_distance matches Some(r) ==> rat_inv(r@))
        &&& self.index <= self.subdivision
    }

    open spec fn budget(&self) -> nat {
        (self.subdivision - self.index) as nat
    }

    open spec fn admits(&self, candidate: (Cubic, Cubic), original: (Cubic, Cubic)) -> bool {
        let dist = dist_bound(
            self.absolute_distance@,
            self.relative_distance,
            size_of_pair(original),
        );
        within4(candidate.0@, original.0@, dist) && within4(candidate.1@, original.1@, dist)
    }

    fn accept(&mut self, candidate: &(Cubic, Cubic), original: &(Cubic, Cubic)) -> (r: Option<
        bool,
    >) {
        let width = original.0.a.minus(original.0.d).abs();
        let height = original.1.a.minus(original.1.d).abs();
        let size = width.max(height);
        let distance = match self.relative_distance {
            Some(rel) => self.absolute_distance.min(rel.times(size)),
            None => self.absolute_distance,
        };
        let close = candidate.0.a.minus(original.0.a).abs().le(distance) && candidate.0.b.minus(
            original.0.b,
        ).abs().le(distance) && candidate.0.c.minus(original.0.c).abs().le(distance)
            && candidate.0.d.minus(original.0.d).abs().le(distance) && candidate.1.a.minus(
            original.1.a,
        ).abs().le(distance) && candidate.1.b.minus(original.1.b).abs().le(distance)
            && candidate.1.c.minus(original.1.c).abs().le(distance) && candidate.1.d.minus(
            original.1.d,
        ).abs().le(distance);
        if close {
            Some(true)
        } else if self.index < self.subdivision {
            self.index = self.index + 1;
            Some(false)
        } else {
            None
        }
    }
}

} // verus!
