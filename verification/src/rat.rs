//! The executable scalar type: an exact rational held as a 64-bit numerator
//! and positive denominator.  Every operation reduces its result by the
//! greatest common divisor; a result whose reduced form does not fit in 64
//! bits is replaced by zero, and each contract states exactness whenever the
//! reduced form fits.

use vstd::arithmetic::div_mod::lemma_fundamental_div_mod;
use vstd::arithmetic::div_mod::lemma_fundamental_div_mod_converse;
use vstd::prelude::*;

use crate::frac::fabs;
use crate::frac::fadd;
use crate::frac::feq;
use crate::frac::fint;
use crate::frac::fle;
use crate::frac::flt;
use crate::frac::fmax;
use crate::frac::fmin;
use crate::frac::fmul;
use crate::frac::fneg;
use crate::frac::frac_wf;
use crate::frac::fsub;
use crate::frac::Frac;

verus! {

/// Greatest common divisor by Euclid's algorithm.
pub open spec fn gcd_nat(a: nat, b: nat) -> nat
    decreases b,
{
    if b == 0 {
        a
    } else {
        gcd_nat(b, a % b)
    }
}

/// The greatest common divisor divides both arguments and is positive when
/// the second is.
pub proof fn lemma_gcd(a: nat, b: nat)
    ensures
        b > 0 ==> gcd_nat(a, b) >= 1,
        b == 0 ==> gcd_nat(a, b) == a,
        gcd_nat(a, b) > 0 ==> (a as int) % (gcd_nat(a, b) as int) == 0,
        gcd_nat(a, b) > 0 ==> (b as int) % (gcd_nat(a, b) as int) == 0,
    decreases b,
{
    if b == 0 {
        if a > 0 {
            lemma_fundamental_div_mod_converse(a as int, a as int, 1, 0);
            lemma_fundamental_div_mod_converse(0, a as int, 0, 0);
        }
    } else {
        let r = a % b;
        lemma_gcd(b, r);
        let g = gcd_nat(a, b) as int;
        assert(gcd_nat(a, b) == gcd_nat(b, r));
        if r == 0 {
            // gcd(a, b) == gcd(b, 0) == b.
            assert(gcd_nat(b, 0) == b);
            lemma_fundamental_div_mod(a as int, b as int);
            let q = (a as int) / (b as int);
            assert((b as int) * q == q * (b as int)) by (nonlinear_arith);
            lemma_fundamental_div_mod_converse(a as int, b as int, q, 0);
            lemma_fundamental_div_mod_converse(b as int, b as int, 1, 0);
        } else {
            assert(g >= 1);
            // b and r are multiples of g; a == b * q + r is one as well.
            lemma_fundamental_div_mod(b as int, g);
            lemma_fundamental_div_mod(r as int, g);
            let kb = (b as int) / g;
            let kr = (r as int) / g;
            lemma_fundamental_div_mod(a as int, b as int);
            let q = (a as int) / (b as int);
            assert(a as int == (g * kb) * q + g * kr);
            assert((g * kb) * q + g * kr == (kb * q + kr) * g + 0) by (nonlinear_arith);
            lemma_fundamental_div_mod_converse(a as int, g, kb * q + kr, 0);
        }
    }
}

/// The magnitude of the largest value an executable scalar can hold.
pub open spec fn rat_max() -> int {
    i64::MAX as int
}

/// `x` reduced by the greatest common divisor of its parts.
pub open spec fn rnorm(x: Frac) -> Frac {
    if frac_wf(x) {
        let m = if x.n < 0 {
            -x.n
        } else {
            x.n
        };
        let g = gcd_nat(m as nat, x.d as nat) as int;
        Frac { n: x.n / g, d: x.d / g }
    } else {
        x
    }
}

/// The reduced form of `x` fits the executable representation.
pub open spec fn canon_fits(x: Frac) -> bool {
    -rat_max() <= rnorm(x).n <= rat_max() && rnorm(x).d <= rat_max()
}

/// The reduced form when it fits, and zero otherwise: the value every
/// executable arithmetic operation returns.
pub open spec fn norm_or_zero(x: Frac) -> Frac {
    if canon_fits(x) {
        rnorm(x)
    } else {
        fint(0)
    }
}

/// What [`Rat::new`] returns: the sign moved to the numerator, the value
/// reduced.
pub open spec fn rat_new_spec(n: int, d: int) -> Frac {
    if d < 0 {
        rnorm(Frac { n: -n, d: -d })
    } else {
        rnorm(Frac { n: n, d: d })
    }
}

/// What executable addition returns.
pub open spec fn rat_plus(x: Frac, y: Frac) -> Frac {
    norm_or_zero(fadd(x, y))
}

/// What executable subtraction returns.
pub open spec fn rat_minus(x: Frac, y: Frac) -> Frac {
    norm_or_zero(fsub(x, y))
}

/// What executable multiplication returns.
pub open spec fn rat_times(x: Frac, y: Frac) -> Frac {
    norm_or_zero(fmul(x, y))
}

/// Exact division of a multiple: `(g * k) / g == k`.
proof fn lemma_exact_div(g: int, x: int, k: int)
    requires
        g > 0,
        x == g * k,
    ensures
        x / g == k,
{
    assert(x == g * k + 0);
    assert(g * k == k * g) by (nonlinear_arith);
    lemma_fundamental_div_mod_converse(x, g, k, 0);
}

/// Reduction preserves the value, keeps the denominator positive, and never
/// grows either part.
pub proof fn lemma_rnorm(x: Frac)
    requires
        frac_wf(x),
    ensures
        frac_wf(rnorm(x)),
        feq(rnorm(x), x),
        rnorm(x).n <= (if x.n < 0 { -x.n } else { x.n }),
        -(if x.n < 0 { -x.n } else { x.n }) <= rnorm(x).n,
        rnorm(x).d <= x.d,
        rnorm(x).d >= 1,
{
    let m = if x.n < 0 {
        -x.n
    } else {
        x.n
    };
    let g = gcd_nat(m as nat, x.d as nat) as int;
    lemma_gcd(m as nat, x.d as nat);
    assert(g >= 1);
    lemma_fundamental_div_mod(m, g);
    lemma_fundamental_div_mod(x.d, g);
    let km = m / g;
    let kd = x.d / g;
    assert(m == g * km);
    assert(x.d == g * kd);
    assert(km >= 0) by (nonlinear_arith)
        requires
            g >= 1,
            m == g * km,
            m >= 0,
    ;
    assert(kd >= 1) by (nonlinear_arith)
        requires
            g >= 1,
            x.d == g * kd,
            x.d >= 1,
    ;
    // The numerator with its sign restored.
    if x.n < 0 {
        assert(-(g * km) == g * (-km)) by (nonlinear_arith);
        assert(x.n == g * (-km));
        lemma_exact_div(g, x.n, -km);
        assert(rnorm(x).n == -km);
    } else {
        assert(rnorm(x).n == km);
    }
    // Value preservation: (n / g) * d == n * (d / g).
    let nr = rnorm(x).n;
    assert(x.n == g * nr);
    assert(nr * x.d == x.n * kd) by (nonlinear_arith)
        requires
            x.n == g * nr,
            x.d == g * kd,
    ;
    assert(feq(rnorm(x), x));
    // Neither part grows.
    assert(kd <= x.d) by (nonlinear_arith)
        requires
            g >= 1,
            kd >= 1,
            x.d == g * kd,
    ;
    assert(km <= m) by (nonlinear_arith)
        requires
            g >= 1,
            km >= 0,
            m == g * km,
    ;
}

/// A specification-level record of one arithmetic chain: the representation
/// computed so far, and whether every reduced result along the way stayed
/// within 64 bits (in which case the chain is exact).
pub ghost struct Ex {
    /// The representation the executable chain holds at this point.
    pub v: Frac,
    /// Whether no step of the chain has fallen back to zero.
    pub ok: bool,
}

/// Start a chain from a value already held exactly.
pub open spec fn ex_of(x: Frac) -> Ex {
    Ex { v: x, ok: true }
}

/// One executable addition in a chain.
pub open spec fn ex_plus(x: Ex, y: Ex) -> Ex {
    Ex { v: rat_plus(x.v, y.v), ok: x.ok && y.ok && canon_fits(fadd(x.v, y.v)) }
}

/// One executable subtraction in a chain.
pub open spec fn ex_minus(x: Ex, y: Ex) -> Ex {
    Ex { v: rat_minus(x.v, y.v), ok: x.ok && y.ok && canon_fits(fsub(x.v, y.v)) }
}

/// One executable multiplication in a chain.
pub open spec fn ex_times(x: Ex, y: Ex) -> Ex {
    Ex { v: rat_times(x.v, y.v), ok: x.ok && y.ok && canon_fits(fmul(x.v, y.v)) }
}

/// A chained addition stays within the representation and, when the chain is
/// exact, denotes the ideal sum.
pub proof fn lemma_ex_plus(x: Ex, y: Ex, xi: Frac, yi: Frac)
    requires
        rat_inv(x.v),
        rat_inv(y.v),
        frac_wf(xi),
        frac_wf(yi),
        x.ok ==> feq(x.v, xi),
        y.ok ==> feq(y.v, yi),
    ensures
        rat_inv(ex_plus(x, y).v),
        frac_wf(fadd(xi, yi)),
        ex_plus(x, y).ok ==> feq(ex_plus(x, y).v, fadd(xi, yi)),
{
    let s = fadd(x.v, y.v);
    assert(x.v.d * y.v.d > 0) by (nonlinear_arith)
        requires
            x.v.d > 0,
            y.v.d > 0,
    ;
    assert(s.d > 0);
    assert(xi.d * yi.d > 0) by (nonlinear_arith)
        requires
            xi.d > 0,
            yi.d > 0,
    ;
    assert(frac_wf(fadd(xi, yi)));
    if canon_fits(s) {
        lemma_rnorm(s);
        if x.ok && y.ok {
            crate::frac::lemma_fadd_congr(x.v, y.v, xi, yi);
            crate::frac::lemma_feq_trans(rnorm(s), s, fadd(xi, yi));
        }
    }
}

/// A chained subtraction stays within the representation and, when the chain
/// is exact, denotes the ideal difference.
pub proof fn lemma_ex_minus(x: Ex, y: Ex, xi: Frac, yi: Frac)
    requires
        rat_inv(x.v),
        rat_inv(y.v),
        frac_wf(xi),
        frac_wf(yi),
        x.ok ==> feq(x.v, xi),
        y.ok ==> feq(y.v, yi),
    ensures
        rat_inv(ex_minus(x, y).v),
        frac_wf(fsub(xi, yi)),
        ex_minus(x, y).ok ==> feq(ex_minus(x, y).v, fsub(xi, yi)),
{
    let s = fsub(x.v, y.v);
    assert(x.v.d * y.v.d > 0) by (nonlinear_arith)
        requires
            x.v.d > 0,
            y.v.d > 0,
    ;
    assert(s.d > 0);
    assert(xi.d * yi.d > 0) by (nonlinear_arith)
        requires
            xi.d > 0,
            yi.d > 0,
    ;
    assert(frac_wf(fsub(xi, yi)));
    if canon_fits(s) {
        lemma_rnorm(s);
        if x.ok && y.ok {
            crate::frac::lemma_fsub_congr(x.v, y.v, xi, yi);
            crate::frac::lemma_feq_trans(rnorm(s), s, fsub(xi, yi));
        }
    }
}

/// A chained multiplication stays within the representation and, when the
/// chain is exact, denotes the ideal product.
pub proof fn lemma_ex_times(x: Ex, y: Ex, xi: Frac, yi: Frac)
    requires
        rat_inv(x.v),
        rat_inv(y.v),
        frac_wf(xi),
        frac_wf(yi),
        x.ok ==> feq(x.v, xi),
        y.ok ==> feq(y.v, yi),
    ensures
        rat_inv(ex_times(x, y).v),
        frac_wf(fmul(xi, yi)),
        ex_times(x, y).ok ==> feq(ex_times(x, y).v, fmul(xi, yi)),
{
    let s = fmul(x.v, y.v);
    assert(x.v.d * y.v.d > 0) by (nonlinear_arith)
        requires
            x.v.d > 0,
            y.v.d > 0,
    ;
    assert(s.d > 0);
    assert(xi.d * yi.d > 0) by (nonlinear_arith)
        requires
            xi.d > 0,
            yi.d > 0,
    ;
    assert(frac_wf(fmul(xi, yi)));
    if canon_fits(s) {
        lemma_rnorm(s);
        if x.ok && y.ok {
            crate::frac::lemma_fmul_congr(x.v, y.v, xi, yi);
            crate::frac::lemma_feq_trans(rnorm(s), s, fmul(xi, yi));
        }
    }
}

/// A reduced constant denotes the ratio it was built from.
pub proof fn lemma_rat_new_spec(n: int, d: int)
    requires
        1 <= d <= rat_max(),
        -rat_max() <= n <= rat_max(),
    ensures
        rat_inv(rat_new_spec(n, d)),
        feq(rat_new_spec(n, d), Frac { n: n, d: d }),
{
    lemma_rnorm(Frac { n: n, d: d });
}

/// An exact rational scalar.
#[derive(Clone, Copy, Debug)]
pub struct Rat {
    n: i64,
    d: i64,
}

impl View for Rat {
    type V = Frac;

    closed spec fn view(&self) -> Frac {
        Frac { n: self.n as int, d: self.d as int }
    }
}

/// A representation the executable operations keep: positive denominator and
/// both parts within the 64-bit range symmetric around zero.
pub open spec fn rat_inv(x: Frac) -> bool {
    frac_wf(x) && -rat_max() <= x.n <= rat_max() && x.d <= rat_max()
}

impl Rat {
    /// The representation invariant.
    pub open spec fn inv(&self) -> bool {
        rat_inv(self@)
    }

    /// Build a rational from a numerator and a non-zero denominator; the sign
    /// is carried by the numerator and the value is reduced.
    pub fn new(n: i64, d: i64) -> (r: Rat)
        requires
            d != 0,
            n != i64::MIN,
            d != i64::MIN,
        ensures
            r.inv(),
            r@ == rat_new_spec(n as int, d as int),
            feq(r@, Frac { n: n as int, d: d as int }),
    {
        let (sn, sd): (i64, i64) = if d < 0 {
            (-n, -d)
        } else {
            (n, d)
        };
        let neg = sn < 0;
        let nm: u128 = if neg {
            (-(sn as i128)) as u128
        } else {
            sn as u128
        };
        let r = rat_norm(neg, nm, sd as u128);
        proof {
            let vs = Frac { n: sn as int, d: sd as int };
            lemma_rnorm(vs);
            assert(canon_fits(vs));
            assert(r@ == rnorm(vs));
            assert(r@.n * (d as int) == (n as int) * r@.d) by (nonlinear_arith)
                requires
                    r@.n * vs.d == vs.n * r@.d,
                    (vs.n == -(n as int) && vs.d == -(d as int)) || (vs.n == n as int && vs.d
                        == d as int),
            ;
        }
        r
    }

    /// The rational with integer value `n`.
    pub fn whole(n: i64) -> (r: Rat)
        requires
            n != i64::MIN,
        ensures
            r.inv(),
            r@ == fint(n as int),
    {
        Rat { n: n, d: 1 }
    }

    /// The sum, reduced; exact whenever the reduced sum fits.
    pub fn plus(self, o: Rat) -> (r: Rat)
        requires
            self.inv(),
            o.inv(),
        ensures
            r.inv(),
            r@ == rat_plus(self@, o@),
    {
        proof {
            lemma_rat_bounds(self@, o@);
        }
        let n: i128 = (self.n as i128) * (o.d as i128) + (o.n as i128) * (self.d as i128);
        let d: i128 = (self.d as i128) * (o.d as i128);
        let neg = n < 0;
        let nm: u128 = if neg {
            (-n) as u128
        } else {
            n as u128
        };
        let r = rat_norm(neg, nm, d as u128);
        proof {
            assert(r@ == rat_plus(self@, o@));
        }
        r
    }

    /// The difference, reduced; exact whenever the reduced difference fits.
    pub fn minus(self, o: Rat) -> (r: Rat)
        requires
            self.inv(),
            o.inv(),
        ensures
            r.inv(),
            r@ == rat_minus(self@, o@),
    {
        proof {
            lemma_rat_bounds(self@, o@);
        }
        let n: i128 = (self.n as i128) * (o.d as i128) - (o.n as i128) * (self.d as i128);
        let d: i128 = (self.d as i128) * (o.d as i128);
        let neg = n < 0;
        let nm: u128 = if neg {
            (-n) as u128
        } else {
            n as u128
        };
        let r = rat_norm(neg, nm, d as u128);
        proof {
            assert(r@ == rat_minus(self@, o@));
        }
        r
    }

    /// The product, reduced; exact whenever the reduced product fits.
    pub fn times(self, o: Rat) -> (r: Rat)
        requires
            self.inv(),
            o.inv(),
        ensures
            r.inv(),
            r@ == rat_times(self@, o@),
    {
        proof {
            lemma_rat_bounds(self@, o@);
        }
        let n: i128 = (self.n as i128) * (o.n as i128);
        let d: i128 = (self.d as i128) * (o.d as i128);
        let neg = n < 0;
        let nm: u128 = if neg {
            (-n) as u128
        } else {
            n as u128
        };
        let r = rat_norm(neg, nm, d as u128);
        proof {
            assert(r@ == rat_times(self@, o@));
        }
        r
    }

    /// The negation; always exact.
    pub fn neg(self) -> (r: Rat)
        requires
            self.inv(),
        ensures
            r.inv(),
            r@ == fneg(self@),
    {
        Rat { n: -self.n, d: self.d }
    }

    /// The absolute value; always exact.
    pub fn abs(self) -> (r: Rat)
        requires
            self.inv(),
        ensures
            r.inv(),
            r@ == fabs(self@),
    {
        Rat {
            n: if self.n < 0 {
                -self.n
            } else {
                self.n
            },
            d: self.d,
        }
    }

    /// Exact strict comparison of values.
    pub fn lt(self, o: Rat) -> (r: bool)
        requires
            self.inv(),
            o.inv(),
        ensures
            r == flt(self@, o@),
    {
        proof {
            lemma_rat_bounds(self@, o@);
        }
        (self.n as i128) * (o.d as i128) < (o.n as i128) * (self.d as i128)
    }

    /// Exact comparison of values.
    pub fn le(self, o: Rat) -> (r: bool)
        requires
            self.inv(),
            o.inv(),
        ensures
            r == fle(self@, o@),
    {
        proof {
            lemma_rat_bounds(self@, o@);
        }
        (self.n as i128) * (o.d as i128) <= (o.n as i128) * (self.d as i128)
    }

    /// The smaller value, exactly.
    pub fn min(self, o: Rat) -> (r: Rat)
        requires
            self.inv(),
            o.inv(),
        ensures
            r.inv(),
            r@ == fmin(self@, o@),
    {
        if self.le(o) {
            self
        } else {
            o
        }
    }

    /// The larger value, exactly.
    pub fn max(self, o: Rat) -> (r: Rat)
        requires
            self.inv(),
            o.inv(),
        ensures
            r.inv(),
            r@ == fmax(self@, o@),
    {
        if self.le(o) {
            o
        } else {
            self
        }
    }

    /// The numerator of the reduced representation.
    pub fn num(&self) -> (n: i64)
        ensures
            n as int == self@.n,
    {
        self.n
    }

    /// The denominator of the reduced representation.
    pub fn den(&self) -> (d: i64)
        ensures
            d as int == self@.d,
    {
        self.d
    }
}

/// Bounds on the products of the parts of two well-formed scalars, used to
/// show that 128-bit intermediate arithmetic cannot overflow.
proof fn lemma_rat_bounds(x: Frac, y: Frac)
    requires
        rat_inv(x),
        rat_inv(y),
    ensures
        -rat_max() * rat_max() <= x.n * y.d <= rat_max() * rat_max(),
        -rat_max() * rat_max() <= y.n * x.d <= rat_max() * rat_max(),
        -rat_max() * rat_max() <= x.n * y.n <= rat_max() * rat_max(),
        1 <= x.d * y.d <= rat_max() * rat_max(),
{
    assert((-rat_max() * rat_max() <= x.n * y.d <= rat_max() * rat_max()) && (-rat_max()
        * rat_max() <= y.n * x.d <= rat_max() * rat_max()) && (-rat_max() * rat_max() <= x.n * y.n
        <= rat_max() * rat_max()) && (1 <= x.d * y.d <= rat_max() * rat_max()))
        by (nonlinear_arith)
        requires
            -rat_max() <= x.n <= rat_max(),
            1 <= x.d <= rat_max(),
            -rat_max() <= y.n <= rat_max(),
            1 <= y.d <= rat_max(),
    ;
}

/// Any product of two 64-bit values stays within 128 bits.
proof fn lemma_i64_prod_bound(a: int, b: int)
    requires
        -0x8000_0000_0000_0000 <= a < 0x8000_0000_0000_0000,
        -0x8000_0000_0000_0000 <= b < 0x8000_0000_0000_0000,
    ensures
        -0x4000_0000_0000_0000_0000_0000_0000_0000 <= a * b
            <= 0x4000_0000_0000_0000_0000_0000_0000_0000,
{
    assert(-0x4000_0000_0000_0000_0000_0000_0000_0000 <= a * b
        <= 0x4000_0000_0000_0000_0000_0000_0000_0000) by (nonlinear_arith)
        requires
            -0x8000_0000_0000_0000 <= a < 0x8000_0000_0000_0000,
            -0x8000_0000_0000_0000 <= b < 0x8000_0000_0000_0000,
    ;
}

impl PartialEq for Rat {
    /// Exact comparison of values by cross-multiplication.
    fn eq(&self, o: &Rat) -> (r: bool) {
        proof {
            lemma_i64_prod_bound(self.n as int, o.d as int);
            lemma_i64_prod_bound(o.n as int, self.d as int);
        }
        (self.n as i128) * (o.d as i128) == (o.n as i128) * (self.d as i128)
    }
}

impl vstd::std_specs::cmp::PartialEqSpecImpl for Rat {
    open spec fn obeys_eq_spec() -> bool {
        true
    }

    open spec fn eq_spec(&self, o: &Rat) -> bool {
        feq(self@, o@)
    }
}

/// Euclid's algorithm on unsigned 128-bit integers.
fn gcd_u128(a: u128, b: u128) -> (g: u128)
    requires
        b >= 1,
    ensures
        g as nat == gcd_nat(a as nat, b as nat),
        g >= 1,
{
    let mut x: u128 = a;
    let mut y: u128 = b;
    while y != 0
        invariant
            gcd_nat(x as nat, y as nat) == gcd_nat(a as nat, b as nat),
            x >= 1 || y >= 1,
        decreases y,
    {
        let r = x % y;
        x = y;
        y = r;
    }
    proof {
        lemma_gcd(a as nat, b as nat);
    }
    x
}

/// Reduce a sign-and-magnitude fraction and fit it into the executable
/// representation, falling back to zero when it cannot fit.
fn rat_norm(neg: bool, nm: u128, dm: u128) -> (r: Rat)
    requires
        1 <= dm,
        nm < 0x8000_0000_0000_0000_0000_0000_0000_0000u128,
        dm < 0x8000_0000_0000_0000_0000_0000_0000_0000u128,
    ensures
        r.inv(),
        r@ == norm_or_zero(
            Frac {
                n: if neg {
                    -(nm as int)
                } else {
                    nm as int
                },
                d: dm as int,
            },
        ),
{
    let v = Ghost(
        Frac {
            n: if neg {
                -(nm as int)
            } else {
                nm as int
            },
            d: dm as int,
        },
    );
    let g = gcd_u128(nm, dm);
    let nr = nm / g;
    let dr = dm / g;
    proof {
        lemma_gcd(nm as nat, dm as nat);
        let gi = g as int;
        lemma_fundamental_div_mod(nm as int, gi);
        lemma_fundamental_div_mod(dm as int, gi);
        let km = (nm as int) / gi;
        let kd = (dm as int) / gi;
        assert(nm as int == gi * km);
        assert(dm as int == gi * kd);
        if neg {
            assert(-(gi * km) == gi * (-km)) by (nonlinear_arith);
            assert(v@.n == gi * (-km));
            lemma_exact_div(gi, v@.n, -km);
        }
        assert(rnorm(v@) == Frac {
            n: if neg {
                -(nr as int)
            } else {
                nr as int
            },
            d: dr as int,
        });
        assert(km >= 0) by (nonlinear_arith)
            requires
                gi >= 1,
                nm as int == gi * km,
                nm as int >= 0,
        ;
        assert(kd >= 1) by (nonlinear_arith)
            requires
                gi >= 1,
                dm as int == gi * kd,
                dm as int >= 1,
        ;
    }
    if nr <= (i64::MAX as u128) && dr <= (i64::MAX as u128) {
        let ni: i64 = if neg {
            -(nr as i64)
        } else {
            nr as i64
        };
        Rat { n: ni, d: dr as i64 }
    } else {
        proof {
            assert(!canon_fits(v@));
        }
        Rat { n: 0, d: 1 }
    }
}

} // verus!
