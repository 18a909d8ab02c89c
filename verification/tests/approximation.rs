//! The approximation engine and the policies around it.

use curve::bezier::comparison::IndependentCrudeAbsolute;
use curve::bezier::goodness::CrudeIndependentAbsolute;
use curve::bezier::Cubic;
use curve::bezier::Linear;
use curve::bezier::Quadratic;
use curve::Approximate;
use curve::Approximation;
use curve::Compare;
use curve::Expand;
use curve::Goodness;
use curve::Rat;
use curve::Trace;

fn w(n: i64) -> Rat {
    Rat::new(n, 1)
}

fn f(r: Rat) -> f64 {
    r.num() as f64 / r.den() as f64
}

fn close(a: f64, b: f64, tolerance: f64) {
    assert!((a - b).abs() < tolerance, "{a} is not within {tolerance} of {b}");
}

fn collect(mut engine: Approximation<CrudeIndependentAbsolute>) -> Vec<(Quadratic, Quadratic)> {
    let mut segments = Vec::new();
    while let Some(segment) = engine.next() {
        segments.push(segment);
    }
    segments
}

fn render(engine: Approximation<CrudeIndependentAbsolute>) -> String {
    let segments = collect(engine)
        .into_iter()
        .map(|(x, y)| format!("Q{:.0},{:.0},{:.0},{:.0}", f(x.b), f(y.b), f(x.c), f(y.c)))
        .collect::<Vec<_>>()
        .join(" ");
    format!("M0,0 {segments}")
}

#[test]
fn approximate() {
    let goodness = CrudeIndependentAbsolute::new(Rat::new(1, 1), None, usize::MAX);
    let x = Cubic::new(w(0), w(0), w(90), w(100));
    let y = Cubic::new(w(0), w(50), w(0), w(0));
    assert_eq!(
        render(Approximation::new((x, y), goodness)),
        "M0,0 Q1,18,14,21 Q28,24,46,19 Q65,13,80,7 Q96,1,100,0",
    );
}

#[test]
fn exact() {
    let goodness = CrudeIndependentAbsolute::new(Rat::new(1, 1000000), None, usize::MAX);
    let x: Cubic = Quadratic::new(w(0), w(50), w(100)).expand();
    let y: Cubic = Quadratic::new(w(0), w(100), w(0)).expand();
    assert_eq!(render(Approximation::new((x, y), goodness)), "M0,0 Q50,100,100,0");
}

#[test]
fn trace_linear() {
    let x = Linear::new(w(1), w(5));
    let y = Linear::new(w(2), w(3));
    let trace = vec![(1.0, 2.0), (3.0, 2.5), (5.0, 3.0)];
    let mut t = Trace::new((x, y), 3);
    let mut got = Vec::new();
    while let Some((a, b)) = t.next() {
        got.push((f(a), f(b)));
    }
    assert_eq!(trace, got);
}

#[test]
fn trace_quadratic() {
    let x = Quadratic::new(w(1), w(3), w(5));
    let y = Quadratic::new(w(2), w(1), w(3));
    let trace = vec![
        (1.0000000000000000e+00, 2.0000000000000000e+00),
        (1.4444444444444444e+00, 1.8148148148148147e+00),
        (1.8888888888888888e+00, 1.7037037037037037e+00),
        (2.3333333333333339e+00, 1.6666666666666667e+00),
        (2.7777777777777777e+00, 1.7037037037037037e+00),
        (3.2222222222222223e+00, 1.8148148148148149e+00),
        (3.6666666666666670e+00, 2.0000000000000000e+00),
        (4.1111111111111107e+00, 2.2592592592592595e+00),
        (4.5555555555555554e+00, 2.5925925925925926e+00),
        (5.0000000000000000e+00, 3.0000000000000000e+00),
    ];
    let mut t = Trace::new((x, y), 10);
    let mut i = 0;
    while let Some((a, b)) = t.next() {
        close(trace[i].0, f(a), 1e-15);
        close(trace[i].1, f(b), 1e-15);
        i += 1;
    }
    assert_eq!(i, 10);
}

#[test]
fn trace_cubic() {
    let x = Cubic::new(w(1), w(3), w(5), w(6));
    let y = Cubic::new(w(2), w(1), w(3), w(2));
    let trace = vec![
        (1.0000000000000000e+00, 2.0000000000000000e+00),
        (1.6652949245541835e+00, 1.7695473251028802e+00),
        (2.3223593964334710e+00, 1.7119341563786008e+00),
        (2.9629629629629632e+00, 1.7777777777777777e+00),
        (3.5788751714677640e+00, 1.9176954732510290e+00),
        (4.1618655692729769e+00, 2.0823045267489713e+00),
        (4.7037037037037033e+00, 2.2222222222222219e+00),
        (5.1961591220850476e+00, 2.2880658436213990e+00),
        (5.6310013717421121e+00, 2.2304526748971192e+00),
        (6.0000000000000000e+00, 2.0000000000000000e+00),
    ];
    let mut t = Trace::new((x, y), 10);
    let mut i = 0;
    while let Some((a, b)) = t.next() {
        close(trace[i].0, f(a), 1e-15);
        close(trace[i].1, f(b), 1e-15);
        i += 1;
    }
    assert_eq!(i, 10);
}

#[test]
fn degenerate_curve_needs_one_segment() {
    let x = Cubic::new(w(4), w(4), w(4), w(4));
    let y = Cubic::new(w(-1), w(-1), w(-1), w(-1));
    let goodness = CrudeIndependentAbsolute::new(Rat::new(0, 1), None, usize::MAX);
    let segments = collect(Approximation::new((x, y), goodness));
    assert_eq!(segments.len(), 1);
    assert_eq!(segments[0].0, Quadratic::new(w(4), w(4), w(4)));
    assert_eq!(segments[0].1, Quadratic::new(w(-1), w(-1), w(-1)));
}

#[test]
fn exhausted_budget_still_terminates() {
    // A tolerance of zero can never be met by this curve, so every grant of
    // the budget is spent and the engine still halts: two subdivisions turn
    // one segment into three.
    let x = Cubic::new(w(0), w(0), w(90), w(100));
    let y = Cubic::new(w(0), w(50), w(0), w(0));
    let goodness = CrudeIndependentAbsolute::new(Rat::new(0, 1), None, 2);
    let segments = collect(Approximation::new((x, y), goodness));
    assert_eq!(segments.len(), 3);
}

#[test]
fn emitted_segments_are_contiguous() {
    let x = Cubic::new(w(0), w(0), w(90), w(100));
    let y = Cubic::new(w(0), w(50), w(0), w(0));
    let goodness = CrudeIndependentAbsolute::new(Rat::new(1, 1), None, usize::MAX);
    let segments = collect(Approximation::new((x, y), goodness));
    assert!(segments.len() > 1);
    // The first segment starts at the curve's start, consecutive segments
    // share endpoints, and the last one ends at the curve's end.
    assert_eq!(segments[0].0.a, w(0));
    assert_eq!(segments[0].1.a, w(0));
    for i in 1..segments.len() {
        assert_eq!(segments[i - 1].0.c, segments[i].0.a);
        assert_eq!(segments[i - 1].1.c, segments[i].1.a);
    }
    assert_eq!(segments[segments.len() - 1].0.c, w(100));
    assert_eq!(segments[segments.len() - 1].1.c, w(0));
}

#[test]
fn relative_tolerance_tightens_admission() {
    let x = Cubic::new(w(0), w(0), w(90), w(100));
    let y = Cubic::new(w(0), w(50), w(0), w(0));
    // With a permissive absolute tolerance every candidate is admitted.
    let loose = CrudeIndependentAbsolute::new(w(1000), None, usize::MAX);
    assert_eq!(collect(Approximation::new((x, y), loose)).len(), 1);
    // A size-relative tolerance of one part in a thousand forces splitting.
    let tight = CrudeIndependentAbsolute::new(w(1000), Some(Rat::new(1, 1000)), usize::MAX);
    assert!(collect(Approximation::new((x, y), tight)).len() > 1);
}

#[test]
fn goodness_is_tri_state() {
    let near = Cubic::new(w(0), w(1), w(2), w(3));
    let far = Cubic::new(w(50), w(50), w(50), w(50));
    let base = Cubic::new(w(0), w(0), w(0), w(0));
    let mut policy = CrudeIndependentAbsolute::new(w(5), None, 1);
    assert_eq!(policy.accept(&near, &base), Some(true));
    assert_eq!(policy.accept(&far, &base), Some(false));
    // The single budget grant is spent: rejection escalates to acceptance.
    assert_eq!(policy.accept(&far, &base), None);
}

#[test]
fn comparison_is_strict() {
    let one = Cubic::new(w(0), w(1), w(2), w(3));
    let other = Cubic::new(w(1), w(1), w(2), w(3));
    assert!(IndependentCrudeAbsolute::new(w(2)).compare(&one, &other));
    assert!(!IndependentCrudeAbsolute::new(w(1)).compare(&one, &other));
    let pair_near = (one, other);
    let pair_far = (one, Cubic::new(w(9), w(1), w(2), w(3)));
    assert!(IndependentCrudeAbsolute::new(w(2)).compare(&pair_near, &pair_near));
    assert!(!IndependentCrudeAbsolute::new(w(2)).compare(&pair_near, &pair_far));
}

#[test]
fn approximate_capability_matches_engine() {
    let x = Cubic::new(w(0), w(0), w(90), w(100));
    let y = Cubic::new(w(0), w(50), w(0), w(0));
    let segments = (x, y).approximate(Rat::new(1, 1));
    assert_eq!(segments.len(), 4);
}
