//! Convenience constructors that start tracing a curve.

use vstd::prelude::*;

use crate::bezier::cub_wf;
use crate::bezier::lin_wf;
use crate::bezier::quad_wf;
use crate::bezier::Cubic;
use crate::bezier::Linear;
use crate::bezier::Quadratic;
use crate::evaluate::Evaluate;
use crate::trace::Trace;

verus! {

impl Linear {
    /// Start tracing the curve with `steps` evenly spaced samples.
    pub fn trace(self, steps: usize) -> (r: Trace<Linear>)
        requires
            lin_wf(self@),
            2 <= steps <= 0x7fff_ffff_ffff_ffff,
        ensures
            r.inv(),
            r.curve_of() == self,
            r.points_of() == steps as nat,
            r.index_of() == 0,
    {
        Trace::new(self, steps)
    }
}

impl Quadratic {
    /// Start tracing the curve with `steps` evenly spaced samples.
    pub fn trace(self, steps: usize) -> (r: Trace<Quadratic>)
        requires
            quad_wf(self@),
            2 <= steps <= 0x7fff_ffff_ffff_ffff,
        ensures
            r.inv(),
            r.curve_of() == self,
            r.points_of() == steps as nat,
            r.index_of() == 0,
    {
        Trace::new(self, steps)
    }
}

impl Cubic {
    /// Start tracing the curve with `steps` evenly spaced samples.
    pub fn trace(self, steps: usize) -> (r: Trace<Cubic>)
        requires
            cub_wf(self@),
            2 <= steps <= 0x7fff_ffff_ffff_ffff,
        ensures
            r.inv(),
            r.curve_of() == self,
            r.points_of() == steps as nat,
            r.index_of() == 0,
    {
        Trace::new(self, steps)
    }
}

} // verus!
