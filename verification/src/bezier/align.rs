//! Aligning a reduced quadratic curve with the cubic it was reduced from:
//! the first and last control points are replaced by the cubic's, correcting
//! the endpoint drift of the least-squares reduction.

use vstd::prelude::*;

use crate::align::Align;
use crate::bezier::cub_wf;
use crate::bezier::quad_wf;
use crate::bezier::CubF;
use crate::bezier::Cubic;
use crate::bezier::QuadF;
use crate::bezier::Quadratic;

verus! {

/// The ideal alignment: endpoints from the cubic, the middle kept.
pub open spec fn align_f(x: QuadF, o: CubF) -> QuadF {
    QuadF { a: o.a, b: x.b, c: o.d }
}

impl Align<Cubic> for Quadratic {
    open spec fn align_wf(&self, other: &Cubic) -> bool {
        quad_wf(self@) && cub_wf(other@)
    }

    open spec fn align_post(&self, other: &Cubic, r: Quadratic) -> bool {
        r@ == align_f(self@, other@) && quad_wf(r@)
    }

    fn align(self, other: &Cubic) -> (r: Quadratic) {
        Quadratic { a: other.a, b: self.b, c: other.d }
    }
}

/// Endpoint preservation: aligning any quadratic to a cubic gives back the
/// cubic's first and last control points exactly, whatever the quadratic was.
pub proof fn lemma_align_endpoints(x: QuadF, o: CubF)
    ensures
        align_f(x, o).a == o.a,
        align_f(x, o).c == o.d,
        align_f(x, o).b == x.b,
{
}

} // verus!
