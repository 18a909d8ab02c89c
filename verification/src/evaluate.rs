//! The evaluate capability: a curve that can be sampled at a parameter of the
//! unit interval.

use vstd::prelude::*;

use crate::frac::in_unit;
use crate::frac::Frac;
use crate::rat::Rat;

verus! {

/// A curve that can be evaluated.
pub trait Evaluate {
    /// The resulting type.
    type Target;

    /// Well-formedness of the curve's coordinates.
    spec fn wf(&self) -> bool;

    /// What the value returned by [`Self::evaluate`] satisfies.
    spec fn eval_post(&self, t: Frac, r: Self::Target) -> bool;

    /// Perform the calculation.
    fn evaluate(&self, t: Rat) -> (r: Self::Target)
        requires
            self.wf(),
            t.inv(),
            in_unit(t@),
        ensures
            self.eval_post(t@, r),
    ;
}

impl<U: Evaluate> Evaluate for (U, U) {
    type Target = (<U as Evaluate>::Target, <U as Evaluate>::Target);

    open spec fn wf(&self) -> bool {
        self.0.wf() && self.1.wf()
    }

    open spec fn eval_post(&self, t: Frac, r: Self::Target) -> bool {
        self.0.eval_post(t, r.0) && self.1.eval_post(t, r.1)
    }

    fn evaluate(&self, t: Rat) -> (r: Self::Target) {
        (self.0.evaluate(t), self.1.evaluate(t))
    }
}

} // verus!
