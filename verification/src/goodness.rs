//! The goodness-of-fit capability: a stateful admission policy deciding
//! whether a candidate reconstruction is close enough to the original curve,
//! with an internal subdivision budget that guarantees termination.

use vstd::prelude::*;

verus! {

/// A curve value whose coordinates can be checked for well-formedness, so
/// that an admission policy may rely on them.
pub trait WellFormed {
    /// Well-formedness of the value's coordinates.
    spec fn well_formed(&self) -> bool;
}

impl<U: WellFormed> WellFormed for (U, U) {
    open spec fn well_formed(&self) -> bool {
        self.0.well_formed() && self.1.well_formed()
    }
}

/// A goodness of fit.
///
/// [`Self::accept`] is a tri-state decision: `Some(true)` admits the
/// candidate, `Some(false)` rejects it and consumes one unit of the
/// subdivision budget, and `None` reports that the budget is exhausted, upon
/// which a caller must accept the candidate as it stands.
pub trait Goodness<T: WellFormed>: Sized {
    /// Well-formedness of the policy state.
    spec fn inv(&self) -> bool;

    /// How many rejections the policy may still hand out.
    spec fn budget(&self) -> nat;

    /// Whether the policy finds the candidate close enough to the original.
    /// This depends only on the policy's configuration, never on its mutable
    /// state.
    spec fn admits(&self, candidate: T, original: T) -> bool;

    /// Check if the candidate is admissible.
    fn accept(&mut self, candidate: &T, original: &T) -> (r: Option<bool>)
        requires
            old(self).inv(),
            candidate.well_formed(),
            original.well_formed(),
        ensures
            final(self).inv(),
            forall|c: T, o: T| #[trigger] final(self).admits(c, o) == old(self).admits(c, o),
            r == Some(true) <==> old(self).admits(*candidate, *original),
            r == Some(true) ==> *final(self) == *old(self),
            r == Some(false) <==> !old(self).admits(*candidate, *original) && old(self).budget()
                > 0,
            r == Some(false) ==> final(self).budget() + 1 == old(self).budget(),
            r != Some(false) ==> final(self).budget() == old(self).budget(),
            r is None <==> !old(self).admits(*candidate, *original) && old(self).budget() == 0,
            r is None ==> *final(self) == *old(self),
    ;
}

} // verus!
