//! The compare capability: a stateless comparison of two curves.

use vstd::prelude::*;

verus! {

/// A type that can compare curves.
pub trait Compare<T> {
    /// Well-formedness required of the comparer and the curves.
    spec fn compare_req(&self, one: &T, other: &T) -> bool;

    /// What the answer returned by [`Self::compare`] means.
    spec fn compare_post(&self, one: &T, other: &T, r: bool) -> bool;

    /// Perform the calculation.
    fn compare(&self, one: &T, other: &T) -> (r: bool)
        requires
            self.compare_req(one, other),
        ensures
            self.compare_post(one, other, r),
    ;
}

} // verus!
