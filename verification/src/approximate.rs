//! The approximate capability: a curve that can be approximated with a
//! sequence of lower-degree curves within a tolerance.

use vstd::prelude::*;

use crate::approximation::covers_unit;
use crate::approximation::doms_of;
use crate::approximation::emission_records_ok;
use crate::approximation::linked;
use crate::approximation::origs_chained;
use crate::approximation::pair_wf;
use crate::approximation::Approximation;
use crate::approximation::Emission;
use crate::bezier::goodness::within4;
use crate::bezier::goodness::CrudeIndependentAbsolute;
use crate::bezier::Cubic;
use crate::bezier::Quadratic;
use crate::frac::Frac;
use crate::goodness::Goodness;
use crate::rat::Rat;

verus! {

/// A curve that can be approximated with a sequence of lower ones.
pub trait Approximate: Sized {
    /// The resulting curve.
    type Target;

    /// Well-formedness of the curve's coordinates.
    spec fn wf(&self) -> bool;

    /// What the sequence returned by [`Self::approximate`] satisfies, for
    /// the given absolute tolerance.
    spec fn approximate_post(&self, tolerance: Frac, r: Vec<Self::Target>) -> bool;

    /// Perform the calculation, with the given absolute tolerance.
    fn approximate(&self, tolerance: Rat) -> (r: Vec<Self::Target>)
        requires
            self.wf(),
            tolerance.inv(),
        ensures
            self.approximate_post(tolerance@, r),
    ;
}

impl Approximate for (Cubic, Cubic) {
    type Target = (Quadratic, Quadratic);

    open spec fn wf(&self) -> bool {
        pair_wf(*self)
    }

    /// The segments are exactly the emissions of one full approximation run
    /// over this curve: each one is the aligned reduction of a
    /// midpoint-subdivision piece of this curve, each reconstruction lies
    /// within the tolerance of its piece unless the (unbounded) budget ran
    /// out, the pieces' domains tile the unit interval, and their endpoints
    /// chain from this curve's start to its end.
    open spec fn approximate_post(&self, tolerance: Frac, r: Vec<(Quadratic, Quadratic)>) -> bool {
        exists|es: Seq<Emission>|
            #![auto]
            {
                &&& es.len() == r@.len()
                &&& r@.len() > 0
                &&& forall|i: int| 0 <= i < es.len() ==> r@[i] == (#[trigger] es[i]).segment
                &&& forall|i: int| 0 <= i < es.len() ==> emission_records_ok(#[trigger] es[i])
                &&& forall|i: int|
                    0 <= i < es.len() ==> linked(*self, (#[trigger] es[i]).orig, es[i].dom)
                &&& forall|i: int|
                    0 <= i < es.len() && !(#[trigger] es[i]).forced ==> within4(
                        es[i].recon.0@,
                        es[i].orig.0@,
                        tolerance,
                    ) && within4(es[i].recon.1@, es[i].orig.1@, tolerance)
                &&& covers_unit(doms_of(es))
                &&& origs_chained(es, *self)
            }
    }

    fn approximate(&self, tolerance: Rat) -> (r: Vec<(Quadratic, Quadratic)>) {
        let goodness = CrudeIndependentAbsolute::new(tolerance, None, usize::MAX);
        let mut engine = Approximation::new(*self, goodness);
        let mut out: Vec<(Quadratic, Quadratic)> = Vec::new();
        loop
            invariant_except_break
                engine.inv(),
                engine.source() == *self,
                goodness.absolute() == tolerance@,
                goodness.relative() is None,
                forall|c: (Cubic, Cubic), o: (Cubic, Cubic)| #[trigger] engine.policy().admits(
                    c,
                    o,
                ) == goodness.admits(c, o),
                out@.len() == engine.emissions().len(),
                forall|i: int|
                    0 <= i < out@.len() ==> out@[i] == #[trigger] engine.emissions()[i].segment,
                out@.len() > 0 || engine.pending() > 0,
            ensures
                self.approximate_post(tolerance@, out),
            decreases engine.measure(),
        {
            match engine.next() {
                Some(segment) => {
                    out.push(segment);
                }
                None => {
                    proof {
                        let es = engine.emissions();
                        assert forall|i: int|
                            0 <= i < es.len() && !(#[trigger] es[i]).forced implies within4(
                            es[i].recon.0@,
                            es[i].orig.0@,
                            tolerance@,
                        ) && within4(es[i].recon.1@, es[i].orig.1@, tolerance@) by {
                            assert(engine.policy().admits(es[i].recon, es[i].orig));
                            assert(goodness.admits(es[i].recon, es[i].orig));
                        }
                        assert({
                            &&& es.len() == out@.len()
                            &&& out@.len() > 0
                            &&& forall|i: int|
                                0 <= i < es.len() ==> out@[i] == (#[trigger] es[i]).segment
                            &&& forall|i: int|
                                0 <= i < es.len() ==> emission_records_ok(#[trigger] es[i])
                            &&& forall|i: int|
                                0 <= i < es.len() ==> linked(*self, (#[trigger] es[i]).orig, es[i].dom)
                            &&& forall|i: int|
                                0 <= i < es.len() && !(#[trigger] es[i]).forced ==> within4(
                                    es[i].recon.0@,
                                    es[i].orig.0@,
                                    tolerance@,
                                ) && within4(es[i].recon.1@, es[i].orig.1@, tolerance@)
                            &&& covers_unit(doms_of(es))
                            &&& origs_chained(es, *self)
                        });
                    }
                    break ;
                }
            }
        }
        out
    }
}

} // verus!
