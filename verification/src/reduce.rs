//! The reduce capability: least-squares degree reduction of a curve into the
//! next lower degree.

use vstd::prelude::*;

verus! {

/// A curve that can be reduced into a lower-level one.
pub trait Reduce {
    /// The resulting curve.
    type Target;

    /// Well-formedness of the curve's coordinates.
    spec fn wf(&self) -> bool;

    /// What the curve returned by [`Self::reduce`] satisfies.
    spec fn reduce_post(&self, r: Self::Target) -> bool;

    /// Perform the calculation.
    fn reduce(&self) -> (r: Self::Target)
        requires
            self.wf(),
        ensures
            self.reduce_post(r),
    ;
}

impl<U: Reduce> Reduce for (U, U) {
    type Target = (<U as Reduce>::Target, <U as Reduce>::Target);

    open spec fn wf(&self) -> bool {
        self.0.wf() && self.1.wf()
    }

    open spec fn reduce_post(&self, r: Self::Target) -> bool {
        self.0.reduce_post(r.0) && self.1.reduce_post(r.1)
    }

    fn reduce(&self) -> (r: Self::Target) {
        (self.0.reduce(), self.1.reduce())
    }
}

} // verus!
