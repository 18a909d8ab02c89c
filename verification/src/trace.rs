//! A trace of a curve: evenly spaced sample points from any curve that can
//! be evaluated.

use vstd::prelude::*;

use crate::evaluate::Evaluate;
use crate::frac::feq;
use crate::frac::fle;
use crate::frac::frac_wf;
use crate::frac::fzero;
use crate::frac::in_unit;
use crate::frac::Frac;
use crate::rat::rat_new_spec;
use crate::rat::Rat;

verus! {

/// The parameter of the sample with the given index: `index / (points - 1)`,
/// as the executable arithmetic represents it.
pub open spec fn trace_t(index: int, points: int) -> Frac {
    rat_new_spec(index, points - 1)
}

/// A value equal to a ratio of a numerator between zero and a positive
/// denominator lies in the unit interval.
proof fn lemma_ratio_in_unit(x: Frac, a: int, b: int)
    requires
        frac_wf(x),
        feq(x, Frac { n: a, d: b }),
        0 <= a <= b,
        0 < b,
    ensures
        in_unit(x),
{
    assert(0 * x.d <= x.n * 1 && x.n * 1 <= 1 * x.d) by (nonlinear_arith)
        requires
            x.d > 0,
            b > 0,
            0 <= a <= b,
            x.n * b == a * x.d,
    ;
}

/// A trace of a curve.
pub struct Trace<U> {
    /// The curve being sampled.
    curve: U,
    /// How many evenly spaced samples the trace hands out.
    points: usize,
    /// The index of the next sample.
    index: usize,
}

impl<U: Evaluate> Trace<U> {
    /// The curve being sampled.
    pub closed spec fn curve_of(&self) -> U {
        self.curve
    }

    /// How many samples the trace hands out in total.
    pub closed spec fn points_of(&self) -> nat {
        self.points as nat
    }

    /// The index of the next sample.
    pub closed spec fn index_of(&self) -> nat {
        self.index as nat
    }

    /// The trace's invariant.
    pub closed spec fn inv(&self) -> bool {
        &&& self.curve.wf()
        &&& 2 <= self.points <= 0x7fff_ffff_ffff_ffff
        &&& self.index <= self.points
    }

    /// Create an instance sampling `points` evenly spaced parameters; at
    /// least the two endpoints are sampled.
    pub fn new(curve: U, points: usize) -> (r: Trace<U>)
        requires
            curve.wf(),
            2 <= points <= 0x7fff_ffff_ffff_ffff,
        ensures
            r.inv(),
            r.curve_of() == curve,
            r.points_of() == points as nat,
            r.index_of() == 0,
    {
        Trace { curve: curve, points: points, index: 0 }
    }

    /// The next sample point, or `None` once all samples were handed out.
    pub fn next(&mut self) -> (r: Option<<U as Evaluate>::Target>)
        requires
            old(self).inv(),
        ensures
            final(self).inv(),
            final(self).curve_of() == old(self).curve_of(),
            final(self).points_of() == old(self).points_of(),
            old(self).index_of() >= old(self).points_of() ==> r is None && *final(self) == *old(
                self,
            ),
            old(self).index_of() < old(self).points_of() ==> final(self).index_of() == old(
                self,
            ).index_of() + 1 && r is Some,
            r matches Some(v) ==> old(self).curve_of().eval_post(
                trace_t(old(self).index_of() as int, old(self).points_of() as int),
                v,
            ),
    {
        if self.index >= self.points {
            return None;
        }
        let t = Rat::new(self.index as i64, (self.points - 1) as i64);
        proof {
            lemma_ratio_in_unit(
                t@,
                self.index as int,
                (self.points - 1) as int,
            );
        }
        let value = self.curve.evaluate(t);
        self.index = self.index + 1;
        Some(value)
    }
}

} // verus!
