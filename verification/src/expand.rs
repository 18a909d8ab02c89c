//! The expand capability: exact degree elevation of a curve into the next
//! higher degree.

use vstd::prelude::*;

verus! {

/// A curve that can be expanded into a higher-order one.
pub trait Expand {
    /// The resulting curve.
    type Target;

    /// Well-formedness of the curve's coordinates.
    spec fn wf(&self) -> bool;

    /// What the curve returned by [`Self::expand`] satisfies.
    spec fn expand_post(&self, r: Self::Target) -> bool;

    /// Perform the calculation.
    fn expand(&self) -> (r: Self::Target)
        requires
            self.wf(),
        ensures
            self.expand_post(r),
    ;
}

impl<U: Expand> Expand for (U, U) {
    type Target = (<U as Expand>::Target, <U as Expand>::Target);

    open spec fn wf(&self) -> bool {
        self.0.wf() && self.1.wf()
    }

    open spec fn expand_post(&self, r: Self::Target) -> bool {
        self.0.expand_post(r.0) && self.1.expand_post(r.1)
    }

    fn expand(&self) -> (r: Self::Target) {
        (self.0.expand(), self.1.expand())
    }
}

} // verus!
