//! Exact rational numbers used for decoded telemetry values.
//!
//! A decoded register is an unsigned integer paired with a layout divisor;
//! the quotient is kept as an exact fraction so that repeated conversions
//! never lose precision.

use vstd::arithmetic::div_mod::{
    lemma_fundamental_div_mod, lemma_mod_multiples_basic, lemma_mod_self_0, lemma_small_mod,
};
use vstd::math::abs;
use vstd::prelude::*;

verus! {

/// Greatest common divisor, by Euclid's scheme.
pub open spec fn gcd(a: nat, b: nat) -> nat
    decreases b,
{
    if b == 0 {
        a
    } else {
        gcd(b, a % b)
    }
}

/// The gcd of two naturals is positive as soon as one of them is.
pub proof fn lemma_gcd_pos(a: nat, b: nat)
    requires
        a > 0 || b > 0,
    ensures
        gcd(a, b) > 0,
    decreases b,
{
    if b > 0 {
        lemma_gcd_pos(b, a % b);
    }
}

/// The gcd divides both of its arguments.
pub proof fn lemma_gcd_divides(a: nat, b: nat)
    requires
        a > 0 || b > 0,
    ensures
        a % gcd(a, b) == 0,
        b % gcd(a, b) == 0,
    decreases b,
{
    let g = gcd(a, b);
    if b == 0 {
        lemma_mod_self_0(a as int);
        lemma_small_mod(0, a);
    } else {
        lemma_gcd_divides(b, a % b);
        lemma_gcd_pos(b, a % b);
        lemma_fundamental_div_mod(a as int, b as int);
        lemma_fundamental_div_mod(b as int, g as int);
        lemma_fundamental_div_mod((a % b) as int, g as int);
        // a == b * (a / b) + a % b, and g divides both summands.
        let k = b as int / g as int;
        let m = (a % b) as int / g as int;
        assert(a as int == (g as int) * (k * (a as int / b as int) + m)) by (nonlinear_arith)
            requires
                b as int == (g as int) * k,
                (a % b) as int == (g as int) * m,
                a as int == (b as int) * (a as int / b as int) + (a % b) as int,
        ;
        lemma_mod_multiples_basic(k * (a as int / b as int) + m, g as int);
    }
}

/// Every common divisor of `a` and `b` divides their gcd.
pub proof fn lemma_gcd_greatest(a: nat, b: nat, c: nat)
    requires
        c > 0,
        a % c == 0,
        b % c == 0,
    ensures
        gcd(a, b) % c == 0,
    decreases b,
{
    if b == 0 {
    } else {
        lemma_fundamental_div_mod(a as int, b as int);
        lemma_fundamental_div_mod(a as int, c as int);
        lemma_fundamental_div_mod(b as int, c as int);
        let q = a as int / c as int;
        let r = b as int / c as int;
        // a % b == a - b * (a / b) is a multiple of c.
        assert((a % b) as int == (c as int) * (q - r * (a as int / b as int))) by (nonlinear_arith)
            requires
                a as int == (c as int) * q,
                b as int == (c as int) * r,
                a as int == (b as int) * (a as int / b as int) + (a % b) as int,
        ;
        lemma_mod_multiples_basic(q - r * (a as int / b as int), c as int);
        lemma_gcd_greatest(b, a % b, c);
    }
}

/// Numerator of the fraction `n / d` brought to reduced form with a positive
/// denominator.
pub open spec fn reduced_num(n: int, d: int) -> int
    recommends
        d != 0,
{
    let g = gcd(abs(n), abs(d)) as int;
    if (n < 0) == (d < 0) {
        abs(n) as int / g
    } else {
        -(abs(n) as int / g)
    }
}

/// Denominator of the fraction `n / d` brought to reduced form; always positive.
pub open spec fn reduced_den(n: int, d: int) -> int
    recommends
        d != 0,
{
    let g = gcd(abs(n), abs(d)) as int;
    abs(d) as int / g
}

/// The reduced form represents exactly the fraction `n / d`:
/// its denominator is positive and cross-multiplication agrees.
pub proof fn lemma_reduced_exact(n: int, d: int)
    requires
        d != 0,
    ensures
        reduced_den(n, d) > 0,
        reduced_num(n, d) * d == n * reduced_den(n, d),
{
    let a = abs(n);
    let b = abs(d);
    let g = gcd(a, b);
    lemma_gcd_pos(a, b);
    lemma_gcd_divides(a, b);
    lemma_fundamental_div_mod(a as int, g as int);
    lemma_fundamental_div_mod(b as int, g as int);
    let p = a as int / g as int;
    let q = b as int / g as int;
    assert(a as int == (g as int) * p);
    assert(b as int == (g as int) * q);
    assert(q > 0) by (nonlinear_arith)
        requires
            b as int == (g as int) * q,
            b > 0,
            g > 0,
            q >= 0,
    ;
    if (n < 0) == (d < 0) {
        assert(p * d == n * q) by (nonlinear_arith)
            requires
                a as int == (g as int) * p,
                b as int == (g as int) * q,
                (n >= 0 && d > 0 && n == a && d == b) || (n < 0 && d < 0 && n == -(a as int) && d
                    == -(b as int)),
        ;
    } else {
        assert(-p * d == n * q) by (nonlinear_arith)
            requires
                a as int == (g as int) * p,
                b as int == (g as int) * q,
                (n >= 0 && d < 0 && n == a && d == -(b as int)) || (n < 0 && d > 0 && n == -(
                a as int) && d == b),
        ;
    }
}

/// The reduced form is in lowest terms: no divisor above one is common to
/// numerator and denominator.
pub proof fn lemma_reduced_lowest_terms(n: int, d: int)
    requires
        d != 0,
    ensures
        gcd(abs(reduced_num(n, d)), abs(reduced_den(n, d))) == 1,
{
    let a = abs(n);
    let b = abs(d);
    let g = gcd(a, b);
    lemma_gcd_pos(a, b);
    lemma_gcd_divides(a, b);
    lemma_fundamental_div_mod(a as int, g as int);
    lemma_fundamental_div_mod(b as int, g as int);
    let p = (a as int / g as int) as nat;
    let q = (b as int / g as int) as nat;
    assert(abs(reduced_num(n, d)) == p);
    assert(abs(reduced_den(n, d)) == q);
    assert(q > 0) by (nonlinear_arith)
        requires
            b as int == (g as int) * (q as int),
            b > 0,
            g > 0,
    ;
    let c = gcd(p, q);
    lemma_gcd_pos(p, q);
    lemma_gcd_divides(p, q);
    lemma_fundamental_div_mod(p as int, c as int);
    lemma_fundamental_div_mod(q as int, c as int);
    // c * g divides both a and b, hence divides g; so c == 1.
    let cg = c * g;
    assert(cg > 0) by (nonlinear_arith)
        requires
            c > 0,
            g > 0,
            cg == c * g,
    ;
    assert(a as int == (cg as int) * (p as int / c as int)) by (nonlinear_arith)
        requires
            a as int == (g as int) * (p as int),
            p as int == (c as int) * (p as int / c as int),
            cg == c * g,
    ;
    assert(b as int == (cg as int) * (q as int / c as int)) by (nonlinear_arith)
        requires
            b as int == (g as int) * (q as int),
            q as int == (c as int) * (q as int / c as int),
            cg == c * g,
    ;
    lemma_mod_multiples_basic(p as int / c as int, cg as int);
    lemma_mod_multiples_basic(q as int / c as int, cg as int);
    assert(a as int == (p as int / c as int) * (cg as int) && b as int == (q as int / c as int) * (
    cg as int)) by (nonlinear_arith)
        requires
            a as int == (cg as int) * (p as int / c as int),
            b as int == (cg as int) * (q as int / c as int),
    ;
    assert(a % cg == 0);
    assert(b % cg == 0);
    lemma_gcd_greatest(a, b, cg);
    // g % (c * g) == 0 with g > 0 forces c * g <= g, hence c == 1.
    lemma_fundamental_div_mod(g as int, cg as int);
    assert(c == 1) by (nonlinear_arith)
        requires
            g as int == (cg as int) * (g as int / cg as int) + (g as int % cg as int),
            g as int % cg as int == 0,
            cg == c * g,
            g > 0,
            c > 0,
    ;
}

/// One is coprime to everything.
pub proof fn lemma_gcd_one(a: nat)
    ensures
        gcd(a, 1) == 1,
{
    lemma_mod_multiples_basic(a as int, 1);
    assert(a % 1 == 0);
    assert(gcd(a, 1) == gcd(1, 0));
}

/// Euclid's algorithm on machine integers.
fn gcd_u64(a: u64, b: u64) -> (g: u64)
    ensures
        g == gcd(a as nat, b as nat),
    decreases b,
{
    if b == 0 {
        a
    } else {
        gcd_u64(b, a % b)
    }
}

/// An exact rational number in reduced form with a positive denominator.
#[derive(Clone, Copy, Debug, PartialEq, Eq, Hash, Structural)]
pub struct Rational {
    numer: i64,
    denom: i64,
}

impl Rational {
    /// Mathematical numerator.
    pub closed spec fn num(self) -> int {
        self.numer as int
    }

    /// Mathematical denominator.
    pub closed spec fn den(self) -> int {
        self.denom as int
    }

    /// A well-formed rational has a positive denominator and is in lowest terms.
    pub open spec fn wf(self) -> bool {
        &&& self.den() > 0
        &&& gcd(abs(self.num()), abs(self.den())) == 1
    }

    /// Builds the reduced fraction `n / d`.
    ///
    /// The two extreme negative inputs are excluded because their magnitudes
    /// do not fit the machine representation.
    pub fn new(n: i64, d: i64) -> (r: Rational)
        requires
            d != 0,
            n != i64::MIN,
            d != i64::MIN,
        ensures
            r.wf(),
            r.num() == reduced_num(n as int, d as int),
            r.den() == reduced_den(n as int, d as int),
            r.num() * d == n * r.den(),
    {
        proof {
            lemma_reduced_exact(n as int, d as int);
            lemma_reduced_lowest_terms(n as int, d as int);
        }
        let a: u64 = if n < 0 {
            (-n) as u64
        } else {
            n as u64
        };
        let b: u64 = if d < 0 {
            (-d) as u64
        } else {
            d as u64
        };
        let g = gcd_u64(a, b);
        proof {
            lemma_gcd_pos(a as nat, b as nat);
            lemma_gcd_divides(a as nat, b as nat);
            lemma_fundamental_div_mod(a as int, g as int);
            lemma_fundamental_div_mod(b as int, g as int);
            assert(a as int / g as int <= a as int && b as int / g as int <= b as int)
                by (nonlinear_arith)
                requires
                    g >= 1,
                    a as int == (g as int) * (a as int / g as int),
                    b as int == (g as int) * (b as int / g as int),
                    a as int / g as int >= 0,
                    b as int / g as int >= 0,
            ;
        }
        let p = a / g;
        let q = b / g;
        let numer: i64 = if (n < 0) != (d < 0) {
            -(p as i64)
        } else {
            p as i64
        };
        Rational { numer, denom: q as i64 }
    }

    /// The rational `n / 1`.
    pub fn from_integer(n: i64) -> (r: Rational)
        requires
            n != i64::MIN,
        ensures
            r.wf(),
            r.num() == n,
            r.den() == 1,
    {
        proof {
            lemma_gcd_one(abs(n as int));
        }
        let r = Rational::new(n, 1);
        proof {
            assert(reduced_den(n as int, 1) == 1 && reduced_num(n as int, 1) == n)
                by (nonlinear_arith)
                requires
                    gcd(abs(n as int), 1) == 1,
                    reduced_den(n as int, 1) == abs(1) as int / gcd(abs(n as int), abs(1)) as int,
                    reduced_num(n as int, 1) == if n < 0 {
                        -(abs(n as int) as int / gcd(abs(n as int), abs(1)) as int)
                    } else {
                        abs(n as int) as int / gcd(abs(n as int), abs(1)) as int
                    },
            ;
        }
        r
    }

    /// Machine numerator.
    pub fn numer(&self) -> (n: i64)
        ensures
            n == self.num(),
    {
        self.numer
    }

    /// Machine denominator.
    pub fn denom(&self) -> (d: i64)
        ensures
            d == self.den(),
    {
        self.denom
    }
}

} // verus!
