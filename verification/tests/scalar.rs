//! The exact rational scalar.

use curve::Rat;

fn f(r: Rat) -> f64 {
    r.num() as f64 / r.den() as f64
}

#[test]
fn rat_normalizes() {
    let half = Rat::new(2, 4);
    assert_eq!(half.num(), 1);
    assert_eq!(half.den(), 2);
    assert_eq!(half, Rat::new(1, 2));
    let third = Rat::new(-5, -15);
    assert_eq!(third.num(), 1);
    assert_eq!(third.den(), 3);
    let neg = Rat::new(3, -6);
    assert_eq!(neg.num(), -1);
    assert_eq!(neg.den(), 2);
}

#[test]
fn rat_arithmetic_is_exact() {
    let a = Rat::new(1, 3);
    let b = Rat::new(1, 6);
    assert_eq!(a.plus(b), Rat::new(1, 2));
    assert_eq!(a.minus(b), Rat::new(1, 6));
    assert_eq!(a.times(b), Rat::new(1, 18));
    assert_eq!(a.neg(), Rat::new(-1, 3));
    assert_eq!(a.neg().abs(), a);
    assert_eq!(a.min(b), b);
    assert_eq!(a.max(b), a);
    assert!(b.lt(a));
    assert!(b.le(b));
    assert_eq!(f(Rat::new(5, 2)), 2.5);
}
