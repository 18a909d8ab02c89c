//! The subdivide capability: exact splitting of a curve at a parameter into
//! two same-degree curves covering the two sides of the split.

use vstd::prelude::*;

use crate::frac::flt;
use crate::frac::fone;
use crate::frac::fzero;
use crate::frac::Frac;
use crate::rat::Rat;

verus! {

/// A curve that can be subdivided into two.
pub trait Subdivide: Sized {
    /// Well-formedness of the curve's coordinates.
    spec fn wf(&self) -> bool;

    /// What the pair returned by [`Self::subdivide`] satisfies.
    spec fn subdivide_post(&self, t: Frac, r: (Self, Self)) -> bool;

    /// Perform the calculation, for a split parameter strictly inside the
    /// unit interval.
    fn subdivide(&self, t: Rat) -> (r: (Self, Self))
        requires
            self.wf(),
            t.inv(),
            flt(fzero(), t@),
            flt(t@, fone()),
        ensures
            self.subdivide_post(t@, r),
    ;
}

impl<U: Subdivide> Subdivide for (U, U) {
    open spec fn wf(&self) -> bool {
        self.0.wf() && self.1.wf()
    }

    open spec fn subdivide_post(&self, t: Frac, r: (Self, Self)) -> bool {
        self.0.subdivide_post(t, ((r.0).0, (r.1).0)) && self.1.subdivide_post(
            t,
            ((r.0).1, (r.1).1),
        )
    }

    fn subdivide(&self, t: Rat) -> (r: (Self, Self)) {
        let one = self.0.subdivide(t);
        let other = self.1.subdivide(t);
        ((one.0, other.0), (one.1, other.1))
    }
}

} // verus!
