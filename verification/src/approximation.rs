//! The approximation engine: a pull-driven producer that approximates a
//! planar cubic curve by a left-to-right sequence of planar quadratic
//! curves.  Each step pops the leftmost pending segment off a work list,
//! reduces and aligns it, elevates the candidate back for comparison, and
//! either emits it or splits the segment at the midpoint and pushes the two
//! halves, so that the domains of the emitted segments tile the unit
//! interval exactly and the shared subdivision budget bounds the total work.

use vstd::prelude::*;

use crate::align::Align;
use crate::bezier::cub_wf;
use crate::bezier::Cubic;
use crate::bezier::Quadratic;
use crate::expand::Expand;
use crate::frac::fadd;
use crate::frac::feq;
use crate::frac::fhalf;
use crate::frac::flt;
use crate::frac::fmul;
use crate::frac::fone;
use crate::frac::frac_wf;
use crate::frac::fzero;
use crate::frac::Frac;
use crate::goodness::Goodness;
use crate::rat::Rat;
use crate::reduce::Reduce;
use crate::subdivide::Subdivide;

verus! {

/// Well-formedness of a planar cubic curve.
pub open spec fn pair_wf(c: (Cubic, Cubic)) -> bool {
    cub_wf(c.0@) && cub_wf(c.1@)
}

/// A domain: a non-empty part of the input curve's unit interval.
pub open spec fn dom_wf(d: (Frac, Frac)) -> bool {
    frac_wf(d.0) && frac_wf(d.1) && flt(d.0, d.1)
}

/// One emitted approximation segment, with the records that justify it.
pub ghost struct Emission {
    /// The cubic segment that was approximated.
    pub orig: (Cubic, Cubic),
    /// The raw least-squares reduction of `orig`.
    pub raw: (Quadratic, Quadratic),
    /// The emitted curve: `raw` with its endpoints pinned to the ones of
    /// `orig`.
    pub segment: (Quadratic, Quadratic),
    /// The reconstruction: `segment` elevated back to a cubic for the
    /// admission check.
    pub recon: (Cubic, Cubic),
    /// The part of the input curve's unit interval that `orig` covers.
    pub dom: (Frac, Frac),
    /// Whether the segment was emitted because the subdivision budget ran
    /// out rather than because the policy admitted the reconstruction.
    pub forced: bool,
}

/// The records of one emission, independent of the policy: the segment is
/// the aligned reduction of its original, and the reconstruction is the
/// segment's elevation.
#[verifier::opaque]
pub open spec fn emission_records_ok(e: Emission) -> bool {
    &&& pair_wf(e.orig)
    &&& e.orig.reduce_post(e.raw)
    &&& e.raw.align_post(&e.orig, e.segment)
    &&& e.segment.expand_post(e.recon)
    &&& dom_wf(e.dom)
}

/// What justifies an emitted segment: its records hold together, and either
/// the policy admitted the reconstruction or the budget was exhausted.
pub open spec fn emission_sound<V: Goodness<(Cubic, Cubic)>>(e: Emission, g: V) -> bool {
    &&& emission_records_ok(e)
    &&& !e.forced ==> g.admits(e.recon, e.orig)
    &&& e.forced ==> g.budget() == 0
}

/// The records of a justified emission pin the segment's endpoints to its
/// original's, so a chain of originals carries a chain of segments.
pub proof fn lemma_emission_endpoints(e: Emission)
    requires
        emission_records_ok(e),
    ensures
        e.segment.0@.a == e.orig.0@.a,
        e.segment.1@.a == e.orig.1@.a,
        e.segment.0@.c == e.orig.0@.d,
        e.segment.1@.c == e.orig.1@.d,
{
    reveal(emission_records_ok);
}

/// The domains of a sequence of emissions, in emission order.
pub open spec fn doms_of(es: Seq<Emission>) -> Seq<(Frac, Frac)> {
    es.map_values(|e: Emission| e.dom)
}

/// Consecutive domains are non-empty and contiguous: each one starts where
/// the previous one ended.
pub open spec fn chained(ds: Seq<(Frac, Frac)>) -> bool {
    &&& forall|i: int| 0 <= i < ds.len() ==> dom_wf(#[trigger] ds[i])
    &&& forall|i: int| 0 < i < ds.len() ==> feq(ds[i - 1].1, #[trigger] ds[i].0)
}

/// The domains tile the unit interval exactly: contiguous, non-overlapping,
/// starting at zero and ending at one.
pub open spec fn covers_unit(ds: Seq<(Frac, Frac)>) -> bool {
    &&& chained(ds)
    &&& ds.len() > 0
    &&& feq(ds[0].0, fzero())
    &&& feq(ds[ds.len() - 1].1, fone())
}

/// The two axes of `b` take over exactly where the two axes of `a` end.
pub open spec fn seam(a: (Cubic, Cubic), b: (Cubic, Cubic)) -> bool {
    a.0@.d == b.0@.a && a.1@.d == b.1@.a
}

/// The midpoint of a domain.
pub open spec fn dom_mid(d: (Frac, Frac)) -> Frac {
    fmul(fadd(d.0, d.1), fhalf())
}

/// `child` covering `cd` is one of the two halves of `parent` covering
/// `pd`, split by de Casteljau's scheme at (a representation of) one half.
#[verifier::opaque]
pub open spec fn half_split_of(
    parent: (Cubic, Cubic),
    pd: (Frac, Frac),
    child: (Cubic, Cubic),
    cd: (Frac, Frac),
) -> bool {
    exists|t: Frac, other: (Cubic, Cubic)|
        #![auto]
        frac_wf(t) && feq(t, fhalf()) && ((parent.subdivide_post(t, (child, other)) && cd == (
        pd.0,
        dom_mid(pd),
        )) || (parent.subdivide_post(t, (other, child)) && cd == (dom_mid(pd), pd.1)))
}

/// `c` covering `cd` arises from `root`, which covers the whole unit
/// interval, by `n` midpoint subdivisions.
pub open spec fn descends(
    root: (Cubic, Cubic),
    c: (Cubic, Cubic),
    cd: (Frac, Frac),
    n: nat,
) -> bool
    decreases n,
{
    if n == 0 {
        c == root && cd == (fzero(), fone())
    } else {
        exists|p: (Cubic, Cubic), pd: (Frac, Frac)|
            #![auto]
            descends(root, p, pd, (n - 1) as nat) && half_split_of(p, pd, c, cd)
    }
}

/// `c` covering `cd` is the input curve itself or a piece of it obtained by
/// repeated midpoint subdivision.
pub open spec fn linked(root: (Cubic, Cubic), c: (Cubic, Cubic), cd: (Frac, Frac)) -> bool {
    exists|n: nat| descends(root, c, cd, n)
}

/// The originals of the emitted segments, in order: the first starts where
/// the input curve starts, and each next one starts exactly where the
/// previous one ended.
pub open spec fn origs_chain(es: Seq<Emission>, root: (Cubic, Cubic)) -> bool {
    &&& es.len() > 0 ==> es[0].orig.0@.a == root.0@.a && es[0].orig.1@.a == root.1@.a
    &&& forall|i: int| 0 < i < es.len() ==> seam(es[i - 1].orig, #[trigger] es[i].orig)
}

/// The full chain at exhaustion: additionally the last original ends where
/// the input curve ends.
pub open spec fn origs_chained(es: Seq<Emission>, root: (Cubic, Cubic)) -> bool {
    &&& origs_chain(es, root)
    &&& es.len() > 0 ==> es[es.len() - 1].orig.0@.d == root.0@.d && es[es.len() - 1].orig.1@.d
        == root.1@.d
}

/// A split at (a representation of) one half links each half to the parent.
proof fn lemma_half_split(
    parent: (Cubic, Cubic),
    pd: (Frac, Frac),
    head: (Cubic, Cubic),
    tail: (Cubic, Cubic),
    t: Frac,
)
    requires
        frac_wf(t),
        feq(t, fhalf()),
        parent.subdivide_post(t, (head, tail)),
    ensures
        half_split_of(parent, pd, head, (pd.0, dom_mid(pd))),
        half_split_of(parent, pd, tail, (dom_mid(pd), pd.1)),
{
    reveal(half_split_of);
    assert(frac_wf(t) && feq(t, fhalf()) && parent.subdivide_post(t, (head, tail)) && (pd.0, dom_mid(
    pd)) == (pd.0, dom_mid(pd)));
}

/// The input curve is linked to itself over the whole unit interval.
proof fn lemma_linked_root(root: (Cubic, Cubic))
    ensures
        linked(root, root, (fzero(), fone())),
{
    assert(descends(root, root, (fzero(), fone()), 0));
}

/// A half of a linked curve is linked.
proof fn lemma_linked_step(
    root: (Cubic, Cubic),
    p: (Cubic, Cubic),
    pd: (Frac, Frac),
    c: (Cubic, Cubic),
    cd: (Frac, Frac),
)
    requires
        linked(root, p, pd),
        half_split_of(p, pd, c, cd),
    ensures
        linked(root, c, cd),
{
    let n = choose|n: nat| descends(root, p, pd, n);
    assert(descends(root, p, pd, ((n + 1) - 1) as nat));
    assert(descends(root, c, cd, n + 1));
}

/// An approximation of a curve.
pub struct Approximation<V> {
    /// Pending same-degree segments; the last element is popped first and is
    /// always the leftmost remaining one.
    curves: Vec<(Cubic, Cubic)>,
    /// The admission policy, carrying the shared subdivision budget.
    goodness: V,
    /// The subdivision parameter: one half.
    time: Rat,
    /// The domains of the pending segments, parallel to `curves`.
    domains: Ghost<Seq<(Frac, Frac)>>,
    /// The segments already handed out, leftmost first.
    emitted: Ghost<Seq<Emission>>,
    /// The input curve the engine was built over.
    source: Ghost<(Cubic, Cubic)>,
}

/// A justified emission stays justified when the policy keeps its
/// configuration and does not gain budget.
proof fn lemma_sound_stable<V: Goodness<(Cubic, Cubic)>>(e: Emission, g1: V, g2: V)
    requires
        emission_sound(e, g1),
        forall|c: (Cubic, Cubic), o: (Cubic, Cubic)| #[trigger] g2.admits(c, o) == g1.admits(c, o),
        g2.budget() <= g1.budget(),
    ensures
        emission_sound(e, g2),
{
    reveal(emission_sound);
}

/// A value equal to one half lies strictly between zero and one.
proof fn lemma_half_between(x: Frac)
    requires
        frac_wf(x),
        feq(x, fhalf()),
    ensures
        flt(fzero(), x),
        flt(x, fone()),
{
    assert(0 * x.d < x.n * 1 && x.n * 1 < 1 * x.d) by (nonlinear_arith)
        requires
            x.d > 0,
            x.n * 2 == 1 * x.d,
    ;
}

/// The midpoint of a non-empty domain lies strictly inside it.
proof fn lemma_midpoint(lo: Frac, hi: Frac)
    requires
        frac_wf(lo),
        frac_wf(hi),
        flt(lo, hi),
    ensures
        frac_wf(fmul(fadd(lo, hi), fhalf())),
        flt(lo, fmul(fadd(lo, hi), fhalf())),
        flt(fmul(fadd(lo, hi), fhalf()), hi),
{
    let m = fmul(fadd(lo, hi), fhalf());
    assert(m.n == (lo.n * hi.d + hi.n * lo.d) * 1 && m.d == (lo.d * hi.d) * 2);
    assert((lo.d * hi.d) * 2 > 0 && lo.n * ((lo.d * hi.d) * 2) < ((lo.n * hi.d + hi.n * lo.d) * 1)
        * lo.d && ((lo.n * hi.d + hi.n * lo.d) * 1) * hi.d < hi.n * ((lo.d * hi.d) * 2))
        by (nonlinear_arith)
        requires
            lo.d > 0,
            hi.d > 0,
            lo.n * hi.d < hi.n * lo.d,
    ;
}

impl<V: Goodness<(Cubic, Cubic)>> Approximation<V> {
    /// The segments handed out so far, with the records that justify them.
    pub closed spec fn emissions(&self) -> Seq<Emission> {
        self.emitted@
    }

    /// How many segments are still pending.
    pub closed spec fn pending(&self) -> nat {
        self.curves@.len()
    }

    /// The admission policy as it stands.
    pub closed spec fn policy(&self) -> V {
        self.goodness
    }

    /// The input curve the engine was built over.
    pub closed spec fn source(&self) -> (Cubic, Cubic) {
        self.source@
    }

    /// The pending segments, from the rightmost at the bottom to the
    /// leftmost on top.
    pub closed spec fn pending_curves(&self) -> Seq<(Cubic, Cubic)> {
        self.curves@
    }

    /// The split parameter.
    pub closed spec fn split_at(&self) -> Frac {
        self.time@
    }

    /// A bound on the remaining work: twice the remaining subdivision budget
    /// plus the pending segments.  Every emitted segment strictly decreases
    /// it, which is what makes the engine terminate.
    pub closed spec fn measure(&self) -> nat {
        self.goodness.budget() * 2 + self.curves@.len()
    }

    /// The engine's invariant: the policy is well formed, every pending
    /// curve and domain is well formed, every emission is justified, and the
    /// emitted domains followed by the pending domains (from the top of the
    /// stack down) form one contiguous chain from zero to one.
    pub closed spec fn inv(&self) -> bool {
        let es = self.emitted@;
        let ds = self.domains@;
        let m = es.len() as int;
        let k = ds.len() as int;
        &&& self.goodness.inv()
        &&& self.time.inv()
        &&& feq(self.time@, fhalf())
        &&& self.curves@.len() == ds.len()
        &&& forall|i: int| 0 <= i < k ==> pair_wf(#[trigger] self.curves@[i])
        &&& forall|i: int| 0 <= i < k ==> dom_wf(#[trigger] ds[i])
        &&& forall|i: int| 0 <= i < m ==> emission_sound(#[trigger] es[i], self.goodness)
        &&& chained(doms_of(es))
        &&& forall|i: int| 1 <= i < k ==> feq(#[trigger] ds[i].1, ds[i - 1].0)
        &&& m > 0 && k > 0 ==> feq(es[m - 1].dom.1, ds[k - 1].0)
        &&& m > 0 ==> feq(es[0].dom.0, fzero())
        &&& m == 0 && k > 0 ==> feq(ds[k - 1].0, fzero())
        &&& k > 0 ==> feq(ds[0].1, fone())
        &&& k == 0 && m > 0 ==> feq(es[m - 1].dom.1, fone())
        &&& pair_wf(self.source@)
        &&& forall|i: int| 0 <= i < k ==> linked(self.source@, #[trigger] self.curves@[i], ds[i])
        &&& forall|i: int| 0 <= i < m ==> linked(self.source@, (#[trigger] es[i]).orig, es[i].dom)
        &&& forall|i: int| 1 <= i < k ==> seam(#[trigger] self.curves@[i], self.curves@[i - 1])
        &&& origs_chain(es, self.source@)
        &&& m > 0 && k > 0 ==> seam(es[m - 1].orig, self.curves@[k - 1])
        &&& m == 0 && k > 0 ==> self.curves@[k - 1].0@.a == self.source@.0@.a && self.curves@[k
            - 1].1@.a == self.source@.1@.a
        &&& k > 0 ==> self.curves@[0].0@.d == self.source@.0@.d && self.curves@[0].1@.d
            == self.source@.1@.d
        &&& k == 0 && m > 0 ==> es[m - 1].orig.0@.d == self.source@.0@.d && es[m - 1].orig.1@.d
            == self.source@.1@.d
    }

    /// Create an instance.
    pub fn new(curve: (Cubic, Cubic), goodness: V) -> (r: Approximation<V>)
        requires
            pair_wf(curve),
            goodness.inv(),
        ensures
            r.inv(),
            r.emissions() == Seq::<Emission>::empty(),
            r.pending_curves() == seq![curve],
            r.pending() == 1,
            r.source() == curve,
            r.policy() == goodness,
            feq(r.split_at(), fhalf()),
            r.measure() == goodness.budget() * 2 + 1,
    {
        let ghost ds: Seq<(Frac, Frac)> = seq![(fzero(), fone())];
        let ghost es: Seq<Emission> = Seq::empty();
        let r = Approximation {
            curves: vec![curve],
            goodness,
            time: Rat::new(1, 2),
            domains: Ghost(ds),
            emitted: Ghost(es),
            source: Ghost(curve),
        };
        proof {
            assert(r.curves@ == seq![curve]);
            assert(r.curves@[0] == curve);
            assert(r.domains@[0] == (fzero(), fone()));
            assert(dom_wf((fzero(), fone())));
            lemma_linked_root(curve);
        }
        r
    }

    /// Pull the next approximating segment, or report that the curve is
    /// exhausted.
    ///
    /// On `Some`, exactly one justified emission is appended: its original
    /// is a midpoint-subdivision piece of the input curve, the work measure
    /// strictly decreases, and pending work plus remaining budget drops by
    /// exactly one.  `None` comes exactly when nothing was pending; then
    /// nothing changes, the domains of all emitted segments tile the unit
    /// interval, and their originals chain from the input curve's start to
    /// its end.  The split parameter, the input curve and the policy's
    /// admission behaviour never change.
    #[verifier::rlimit(40)]
    pub fn next(&mut self) -> (r: Option<(Quadratic, Quadratic)>)
        requires
            old(self).inv(),
        ensures
            final(self).inv(),
            final(self).source() == old(self).source(),
            final(self).split_at() == old(self).split_at(),
            r is None <==> old(self).pending() == 0,
            r is None ==> *final(self) == *old(self),
            r is None && final(self).emissions().len() > 0 ==> covers_unit(
                doms_of(final(self).emissions()),
            ) && origs_chained(final(self).emissions(), final(self).source()),
            r matches Some(q) ==> exists|e: Emission|
                #![auto]
                final(self).emissions() == old(self).emissions().push(e) && e.segment == q
                    && linked(final(self).source(), e.orig, e.dom),
            r is Some ==> final(self).measure() < old(self).measure(),
            r is Some ==> final(self).pending() + final(self).policy().budget() + 1 == old(
                self,
            ).pending() + old(self).policy().budget(),
            origs_chain(final(self).emissions(), final(self).source()),
            chained(doms_of(final(self).emissions())),
            final(self).emissions().len() > 0 ==> feq(
                doms_of(final(self).emissions())[0].0,
                fzero(),
            ),
            forall|c: (Cubic, Cubic), o: (Cubic, Cubic)| #[trigger] final(self).policy().admits(
                c,
                o,
            ) == old(self).policy().admits(c, o),
            forall|i: int|
                0 <= i < final(self).emissions().len() ==> emission_sound(
                    #[trigger] final(self).emissions()[i],
                    final(self).policy(),
                ) && linked(
                    final(self).source(),
                    final(self).emissions()[i].orig,
                    final(self).emissions()[i].dom,
                ),
    {
        if self.curves.len() == 0 {
            proof {
                let es = self.emitted@;
                if es.len() > 0 {
                    assert(forall|i: int|
                        0 <= i < es.len() ==> doms_of(es)[i] == #[trigger] es[i].dom);
                    assert(covers_unit(doms_of(es)));
                }
            }
            return None;
        }
        #[verifier::loop_isolation(false)]
        loop
            invariant
                self.inv(),
                self.emitted@ == old(self).emitted@,
                self.source@ == old(self).source@,
                self.time == old(self).time,
                forall|c: (Cubic, Cubic), o: (Cubic, Cubic)| #[trigger] self.goodness.admits(c, o)
                    == old(self).goodness.admits(c, o),
                self.measure() <= old(self).measure(),
                self.curves@.len() + self.goodness.budget() == old(self).curves@.len() + old(
                    self,
                ).goodness.budget(),
                self.curves@.len() > 0,
            decreases self.measure(),
        {
            let ghost pre = *self;
            let original = self.curves.pop().unwrap();
            let ghost dom = pre.domains@.last();
            proof {
                assert(pre.curves@[pre.curves@.len() - 1] == original);
                assert(pair_wf(original));
                assert(dom_wf(dom));
            }
            self.domains = Ghost(self.domains@.drop_last());
            let raw = original.reduce();
            let reduced = raw.align(&original);
            let expanded = reduced.expand();
            let verdict = self.goodness.accept(&expanded, &original);
            match verdict {
                Some(false) => {
                    proof {
                        lemma_half_between(self.time@);
                        lemma_midpoint(dom.0, dom.1);
                    }
                    let (head, tail) = original.subdivide(self.time);
                    self.curves.push(tail);
                    self.curves.push(head);
                    let ghost mid = fmul(fadd(dom.0, dom.1), fhalf());
                    self.domains = Ghost(self.domains@.push((mid, dom.1)).push((dom.0, mid)));
                    proof {
                        let src = self.source@;
                        let es = self.emitted@;
                        let ds = self.domains@;
                        let k = ds.len() as int;
                        assert forall|i: int| 0 <= i < es.len() implies emission_sound(
                            #[trigger] es[i],
                            self.goodness,
                        ) by {
                            lemma_sound_stable(es[i], pre.goodness, self.goodness);
                        }
                        assert(ds[k - 1] == (dom.0, mid));
                        assert(ds[k - 2] == (mid, dom.1));
                        assert(forall|i: int| 0 <= i < k - 2 ==> ds[i] == #[trigger] pre.domains@[i]);
                        assert(forall|i: int|
                            0 <= i < k ==> pair_wf(#[trigger] self.curves@[i]));
                        assert(forall|i: int| 0 <= i < k ==> dom_wf(#[trigger] ds[i]));
                        assert(forall|i: int| 1 <= i < k ==> feq(#[trigger] ds[i].1, ds[i - 1].0));
                        // The two halves are linked to the input curve and
                        // keep the endpoint chain intact.
                        assert(linked(src, original, dom));
                        assert(mid == dom_mid(dom));
                        lemma_half_split(original, dom, head, tail, self.time@);
                        lemma_linked_step(src, original, dom, head, (dom.0, mid));
                        lemma_linked_step(src, original, dom, tail, (mid, dom.1));
                        assert forall|i: int| 0 <= i < k implies linked(
                            src,
                            #[trigger] self.curves@[i],
                            ds[i],
                        ) by {
                            if i < k - 2 {
                                assert(linked(src, pre.curves@[i], pre.domains@[i]));
                            }
                        }
                        assert(head.0@.a == original.0@.a && head.1@.a == original.1@.a);
                        assert(tail.0@.d == original.0@.d && tail.1@.d == original.1@.d);
                        assert(seam(head, tail));
                        assert(forall|i: int|
                            1 <= i < k ==> seam(#[trigger] self.curves@[i], self.curves@[i - 1]));
                        assert(self.inv());
                    }
                }
                _ => {
                    let ghost e = Emission {
                        orig: original,
                        raw: raw,
                        segment: reduced,
                        recon: expanded,
                        dom: dom,
                        forced: verdict is None,
                    };
                    self.emitted = Ghost(self.emitted@.push(e));
                    proof {
                        let src = self.source@;
                        let es = self.emitted@;
                        let m = es.len() as int;
                        let ds = self.domains@;
                        let k = ds.len() as int;
                        assert(es[m - 1] == e);
                        assert(forall|i: int| 0 <= i < m - 1 ==> es[i] == #[trigger] pre.emitted@[i]);
                        assert(emission_records_ok(e)) by {
                            reveal(emission_records_ok);
                        }
                        assert(emission_sound(e, self.goodness));
                        assert forall|i: int| 0 <= i < m implies emission_sound(
                            #[trigger] es[i],
                            self.goodness,
                        ) by {
                            if i < m - 1 {
                                lemma_sound_stable(pre.emitted@[i], pre.goodness, self.goodness);
                            }
                        }
                        assert(forall|i: int|
                            0 <= i < m ==> doms_of(es)[i] == #[trigger] es[i].dom);
                        assert(forall|i: int|
                            0 <= i < m - 1 ==> doms_of(pre.emitted@)[i] == #[trigger] pre.emitted@[i].dom);
                        assert(chained(doms_of(es)));
                        // The emitted original is linked to the input curve
                        // and keeps the endpoint chain intact.
                        assert(linked(src, e.orig, e.dom));
                        assert(origs_chain(es, src)) by {
                            if m > 1 {
                                assert(seam(pre.emitted@[m - 2].orig, pre.curves@[k]));
                            }
                            if m == 1 && k > 0 {
                                assert(pre.curves@[k].0@.a == src.0@.a);
                            }
                        }
                        if k > 0 {
                            assert(seam(pre.curves@[k], pre.curves@[k - 1]));
                            assert(seam(e.orig, self.curves@[k - 1]));
                        }
                        if k == 0 {
                            assert(pre.curves@[0] == original);
                            assert(e.orig.0@.d == src.0@.d && e.orig.1@.d == src.1@.d);
                        }
                        assert(self.inv());
                        assert(self.emitted@ == old(self).emitted@.push(e));
                        assert(e.segment == reduced);
                        assert(self.emissions() == old(self).emissions().push(e));
                        assert(exists|x: Emission|
                            #![auto]
                            self.emissions() == old(self).emissions().push(x) && x.segment
                                == reduced && linked(self.source(), x.orig, x.dom));
                    }
                    return Some(reduced);
                }
            }
        }
    }
}

} // verus!
