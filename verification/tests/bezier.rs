//! Curve primitives: evaluation, elevation, reduction, alignment and
//! subdivision.

use curve::bezier::Cubic;
use curve::bezier::Linear;
use curve::bezier::Quadratic;
use curve::Align;
use curve::Evaluate;
use curve::Expand;
use curve::Rat;
use curve::Reduce;
use curve::Subdivide;

fn w(n: i64) -> Rat {
    Rat::new(n, 1)
}

fn f(r: Rat) -> f64 {
    r.num() as f64 / r.den() as f64
}

fn close(a: f64, b: f64, tolerance: f64) {
    assert!((a - b).abs() < tolerance, "{a} is not within {tolerance} of {b}");
}

#[test]
fn bezier_linear() {
    let curve1 = Linear::new(w(1), w(5));
    let curve2 = Linear::new(w(2), w(3));
    let trace = vec![(1.0, 2.0), (3.0, 2.5), (5.0, 3.0)];
    let mut t1 = curve1.trace(3);
    let mut t2 = curve2.trace(3);
    let mut got = Vec::new();
    while let (Some(x), Some(y)) = (t1.next(), t2.next()) {
        got.push((f(x), f(y)));
    }
    assert_eq!(trace, got);
}

#[test]
fn bezier_quadratic() {
    let curve1 = Quadratic::new(w(1), w(3), w(5));
    let curve2 = Quadratic::new(w(2), w(1), w(3));
    let trace = vec![
        (1.0000000000000000e+00, 2.0000000000000000e+00),
        (1.4444444444444444e+00, 1.8148148148148147e+00),
        (1.8888888888888888e+00, 1.7037037037037037e+00),
        (2.3333333333333339e+00, 1.6666666666666667e+00),
        (2.7777777777777777e+00, 1.7037037037037037e+00),
        (3.2222222222222223e+00, 1.8148148148148149e+00),
        (3.6666666666666670e+00, 2.0000000000000000e+00),
        (4.1111111111111107e+00, 2.2592592592592595e+00),
        (4.5555555555555554e+00, 2.5925925925925926e+00),
        (5.0000000000000000e+00, 3.0000000000000000e+00),
    ];
    let mut t1 = curve1.trace(10);
    let mut t2 = curve2.trace(10);
    let mut i = 0;
    while let (Some(x), Some(y)) = (t1.next(), t2.next()) {
        close(trace[i].0, f(x), 1e-15);
        close(trace[i].1, f(y), 1e-15);
        i += 1;
    }
    assert_eq!(i, 10);
}

#[test]
fn bezier_cubic() {
    let curve1 = Cubic::new(w(1), w(3), w(5), w(6));
    let curve2 = Cubic::new(w(2), w(1), w(3), w(2));
    let trace = vec![
        (1.0000000000000000e+00, 2.0000000000000000e+00),
        (1.6652949245541835e+00, 1.7695473251028802e+00),
        (2.3223593964334710e+00, 1.7119341563786008e+00),
        (2.9629629629629632e+00, 1.7777777777777777e+00),
        (3.5788751714677640e+00, 1.9176954732510290e+00),
        (4.1618655692729769e+00, 2.0823045267489713e+00),
        (4.7037037037037033e+00, 2.2222222222222219e+00),
        (5.1961591220850476e+00, 2.2880658436213990e+00),
        (5.6310013717421121e+00, 2.2304526748971192e+00),
        (6.0000000000000000e+00, 2.0000000000000000e+00),
    ];
    let mut t1 = curve1.trace(10);
    let mut t2 = curve2.trace(10);
    let mut i = 0;
    while let (Some(x), Some(y)) = (t1.next(), t2.next()) {
        close(trace[i].0, f(x), 1e-15);
        close(trace[i].1, f(y), 1e-15);
        i += 1;
    }
    assert_eq!(i, 10);
}

#[test]
fn expand() {
    let x: Cubic = Quadratic::new(w(-10), w(50), w(110)).expand();
    let y: Cubic = Quadratic::new(w(0), w(150), w(0)).expand();
    assert_eq!(x, Cubic::new(w(-10), w(30), w(70), w(110)));
    assert_eq!(y, Cubic::new(w(0), w(100), w(100), w(0)));
    assert_eq!(x.reduce(), Quadratic::new(w(-10), w(50), w(110)));
    assert_eq!(y.reduce(), Quadratic::new(w(0), w(150), w(0)));
}

#[test]
fn reduce() {
    let x = Cubic::new(w(0), w(0), w(100), w(100)).reduce();
    let y = Cubic::new(w(0), w(100), w(100), w(0)).reduce();
    assert_eq!(x, Quadratic::new(w(-10), w(50), w(110)));
    assert_eq!(y, Quadratic::new(w(0), w(150), w(0)));
}

#[test]
fn subdivide() {
    let x = Cubic::new(w(2), w(4), w(6), w(8));
    let y = Cubic::new(w(1), w(2), w(3), w(4));
    assert_eq!(
        x.subdivide(Rat::new(1, 2)),
        (
            Cubic::new(w(2), w(3), w(4), w(5)),
            Cubic::new(w(5), w(6), w(7), w(8)),
        ),
    );
    assert_eq!(
        y.subdivide(Rat::new(1, 2)),
        (
            Cubic::new(w(1), Rat::new(3, 2), w(2), Rat::new(5, 2)),
            Cubic::new(Rat::new(5, 2), w(3), Rat::new(7, 2), w(4)),
        ),
    );
}

#[test]
fn round_trip_is_exact_on_fractions() {
    let q = Quadratic::new(Rat::new(1, 3), Rat::new(-7, 5), Rat::new(22, 7));
    assert_eq!(q.expand().reduce(), q);
}

#[test]
fn expansion_preserves_evaluation() {
    let q = Quadratic::new(Rat::new(1, 3), Rat::new(-7, 5), Rat::new(22, 7));
    let c: Cubic = q.expand();
    for (n, d) in [(0, 1), (1, 3), (1, 2), (2, 3), (1, 1)] {
        let t = Rat::new(n, d);
        assert_eq!(c.evaluate(t), q.evaluate(t));
    }
}

#[test]
fn subdivision_is_exact() {
    let c = Cubic::new(w(1), w(-2), w(5), w(3));
    let t = Rat::new(1, 2);
    let (head, tail) = c.subdivide(t);
    // The halves share their seam control point, which lies on the curve.
    assert_eq!(head.d, tail.a);
    assert_eq!(head.d, c.evaluate(t));
    for (n, d) in [(0, 1), (1, 3), (1, 2), (3, 4), (1, 1)] {
        let s = Rat::new(n, d);
        // head covers [0, t] reparametrized: head(s) == c(s * t).
        assert_eq!(head.evaluate(s), c.evaluate(s.times(t)));
        // tail covers [t, 1] reparametrized: tail(s) == c(t + s * (1 - t)).
        let back = t.plus(s.times(Rat::new(1, 1).minus(t)));
        assert_eq!(tail.evaluate(s), c.evaluate(back));
    }
}

#[test]
fn alignment_pins_endpoints() {
    let c = Cubic::new(w(7), w(1), w(-4), w(9));
    let aligned = c.reduce().align(&c);
    assert_eq!(aligned.a, c.a);
    assert_eq!(aligned.c, c.d);
}

#[test]
fn evaluation_has_exact_values() {
    let l = Linear::new(w(2), w(6));
    assert_eq!(l.evaluate(Rat::new(1, 4)), w(3));
    let q = Quadratic::new(w(0), w(2), w(8));
    assert_eq!(q.evaluate(Rat::new(1, 2)), w(3));
    let c = Cubic::new(w(0), w(0), w(0), w(8));
    assert_eq!(c.evaluate(Rat::new(1, 2)), w(1));
}
