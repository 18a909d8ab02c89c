//! The align capability: pinning a curve's endpoints to the endpoints of the
//! curve it approximates.

use vstd::prelude::*;

verus! {

/// A curve whose endpoints can be aligned with the ones of another curve.
pub trait Align<U>: Sized {
    /// Well-formedness of the two curves' coordinates.
    spec fn align_wf(&self, other: &U) -> bool;

    /// What the curve returned by [`Self::align`] satisfies.
    spec fn align_post(&self, other: &U, r: Self) -> bool;

    /// Perform the calculation.
    fn align(self, other: &U) -> (r: Self)
        requires
            self.align_wf(other),
        ensures
            self.align_post(other, r),
    ;
}

impl<V, U: Align<V>> Align<(V, V)> for (U, U) {
    open spec fn align_wf(&self, other: &(V, V)) -> bool {
        self.0.align_wf(&other.0) && self.1.align_wf(&other.1)
    }

    open spec fn align_post(&self, other: &(V, V), r: Self) -> bool {
        self.0.align_post(&other.0, r.0) && self.1.align_post(&other.1, r.1)
    }

    fn align(self, other: &(V, V)) -> (r: Self) {
        (self.0.align(&other.0), self.1.align(&other.1))
    }
}

} // verus!
