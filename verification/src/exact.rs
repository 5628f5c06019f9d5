//! Exact rational numbers for untyped floating-point and complex constants.

use vstd::prelude::*;
use vstd::arithmetic::div_mod::*;
use vstd::string::StringSliceAdditionalSpecFns;

use crate::bignum::{
    abs, big_add, big_div, big_eq, big_from_u64, big_is_zero, big_lt, big_mul, big_neg, big_rem,
    big_pow, big_sub, big_to_decimal, int_spelling, parse_accepts, parse_big, parse_magnitude,
    parse_value, radix_digit, radix_value, trunc_div,
    trunc_rem, BigNum,
};

verus! {

/// Greatest common divisor by Euclid's algorithm.
pub open spec fn gcd(a: nat, b: nat) -> nat
    decreases b,
{
    if b == 0 {
        a
    } else {
        gcd(b, a % b)
    }
}

/// The gcd divides both arguments and is positive unless both are zero.
pub proof fn lemma_gcd_divides(a: nat, b: nat)
    ensures
        (a > 0 || b > 0) ==> gcd(a, b) > 0,
        gcd(a, b) > 0 ==> a % gcd(a, b) == 0 && b % gcd(a, b) == 0,
    decreases b,
{
    if b > 0 {
        let r = a % b;
        lemma_gcd_divides(b, r);
        let g = gcd(b, r);
        assert(g == gcd(a, b));
        if g > 0 {
            lemma_fundamental_div_mod(b as int, g as int);
            lemma_fundamental_div_mod(r as int, g as int);
            lemma_fundamental_div_mod(a as int, b as int);
            let kb = b as int / g as int;
            let kr = r as int / g as int;
            let q = a as int / b as int;
            assert(b as int == g * kb);
            assert(r as int == g * kr);
            assert(a as int == b * q + r);
            assert(a as int == g * (kb * q + kr)) by (nonlinear_arith)
                requires
                    b as int == g * kb,
                    r as int == g * kr,
                    a as int == b * q + r,
            ;
            lemma_mod_multiples_basic(kb * q + kr, g as int);
            assert((kb * q + kr) * g == g * (kb * q + kr)) by (nonlinear_arith);
        }
    }
}

/// Scaling both arguments scales the gcd: `gcd(k*a, k*b) == k * gcd(a, b)`.
pub proof fn lemma_gcd_scale(k: nat, a: nat, b: nat)
    requires
        k > 0,
    ensures
        gcd(k * a, k * b) == k * gcd(a, b),
    decreases b,
{
    if b == 0 {
        assert(k * b == 0) by (nonlinear_arith)
            requires
                b == 0,
        ;
    } else {
        assert(k * b > 0) by (nonlinear_arith)
            requires
                k > 0,
                b > 0,
        ;
        lemma_mod_breakdown((k * a) as int, k as int, b as int);
        lemma_div_multiples_vanish(a as int, k as int);
        assert(((k * a) as int) % (k as int) == 0) by {
            lemma_mod_multiples_basic(a as int, k as int);
            assert((a * k) == (k * a)) by (nonlinear_arith);
        }
        assert((k * a) % (k * b) == k * (a % b));
        lemma_gcd_scale(k, b, a % b);
    }
}

/// Dividing both arguments by their gcd leaves coprime numbers.
pub proof fn lemma_gcd_quotients_coprime(a: nat, b: nat, x: nat, y: nat)
    requires
        gcd(a, b) > 0,
        a == gcd(a, b) * x,
        b == gcd(a, b) * y,
    ensures
        gcd(x, y) == 1,
{
    let g = gcd(a, b);
    lemma_gcd_scale(g, x, y);
    assert(gcd(x, y) == 1) by (nonlinear_arith)
        requires
            g > 0,
            g == g * gcd(x, y),
    ;
}

/// One is coprime to everything.
pub proof fn lemma_gcd_one(a: nat)
    ensures
        gcd(a, 1) == 1,
{
    assert(a % 1 == 0);
    assert(gcd(1, 0) == 1);
}

/// Bezout coefficients: `a*x + b*y == gcd(a, b)`.
pub proof fn lemma_bezout(a: nat, b: nat) -> (r: (int, int))
    ensures
        a * r.0 + b * r.1 == gcd(a, b),
    decreases b,
{
    if b == 0 {
        (1, 0)
    } else {
        let (x, y) = lemma_bezout(b, a % b);
        let q = (a / b) as int;
        lemma_fundamental_div_mod(a as int, b as int);
        assert((a % b) as int == a - b * q);
        assert(a * y + b * (x - q * y) == b * x + (a - b * q) * y) by (nonlinear_arith);
        (y, x - q * y)
    }
}

/// With `gcd(a, b) == 1`, `b` divides `a*c` only by dividing `c`: here, a
/// positive `b` with `a*e == c*b` divides `e`.
pub proof fn lemma_coprime_divides(a: nat, b: nat, c: int, e: int) -> (m: int)
    requires
        gcd(a, b) == 1,
        a * e == c * b,
    ensures
        e == b * m,
{
    let (x, y) = lemma_bezout(a, b);
    assert(e == b * (c * x + e * y)) by (nonlinear_arith)
        requires
            a * x + b * y == 1,
            a * e == c * b,
    ;
    c * x + e * y
}

/// A fraction with a positive denominator has only one spelling in lowest
/// terms.
pub proof fn lemma_lowest_terms_unique(a: int, b: int, c: int, d: int)
    requires
        b > 0,
        d > 0,
        gcd(abs(a) as nat, b as nat) == 1,
        gcd(abs(c) as nat, d as nat) == 1,
        a * d == c * b,
    ensures
        a == c,
        b == d,
{
    assert(abs(a) * d == abs(c) * b) by (nonlinear_arith)
        requires
            a * d == c * b,
            b > 0,
            d > 0,
    ;
    let m = lemma_coprime_divides(abs(a) as nat, b as nat, abs(c), d);
    let k = lemma_coprime_divides(abs(c) as nat, d as nat, abs(a), b);
    assert(m > 0) by (nonlinear_arith)
        requires
            d == b * m,
            b > 0,
            d > 0,
    ;
    assert(k > 0) by (nonlinear_arith)
        requires
            b == d * k,
            b > 0,
            d > 0,
    ;
    assert(b == d) by (nonlinear_arith)
        requires
            d == b * m,
            b == d * k,
            m > 0,
            k > 0,
            b > 0,
    ;
    assert(a == c) by (nonlinear_arith)
        requires
            a * d == c * b,
            b == d,
            d > 0,
    ;
}

/// `trunc_rem` is the ordinary remainder on natural numbers.
pub proof fn lemma_trunc_rem_nat(a: int, b: int)
    requires
        a >= 0,
        b > 0,
    ensures
        trunc_div(a, b) == a / b,
        trunc_rem(a, b) == a % b,
{
    lemma_fundamental_div_mod(a, b);
}

/// Exact division by a positive divisor of the magnitude.
pub proof fn lemma_trunc_div_exact(n: int, g: int)
    requires
        g > 0,
        abs(n) % g == 0,
    ensures
        trunc_div(n, g) * g == n,
{
    lemma_fundamental_div_mod(abs(n), g);
    let k = abs(n) / g;
    assert(abs(n) == g * k);
    if n < 0 {
        assert(trunc_div(n, g) == -k);
        assert(-k * g == -(g * k)) by (nonlinear_arith);
    } else {
        assert(trunc_div(n, g) == k);
        assert(k * g == g * k) by (nonlinear_arith);
    }
}

/// A copy of a big integer.
pub fn big_copy(a: &BigNum) -> (r: BigNum)
    ensures
        r.value() == a.value(),
        a.wf() ==> r.wf(),
{
    let magnitude = a.magnitude.clone();
    assert(magnitude@ =~= a.magnitude@);
    BigNum { negative: a.negative, magnitude }
}

/// The greatest common divisor of two non-negative big integers.
pub fn big_gcd(a: &BigNum, b: &BigNum) -> (r: BigNum)
    requires
        a.value() >= 0,
        b.value() >= 0,
    ensures
        r.value() == gcd(a.value() as nat, b.value() as nat),
        (a.wf() && b.wf()) ==> r.wf(),
{
    let mut x = big_copy(a);
    let mut y = big_copy(b);
    let ghost wf_start = a.wf() && b.wf();
    while !big_is_zero(&y)
        invariant
            x.value() >= 0,
            y.value() >= 0,
            gcd(x.value() as nat, y.value() as nat) == gcd(a.value() as nat, b.value() as nat),
            wf_start ==> x.wf() && y.wf(),
        decreases y.value(),
    {
        let r = big_rem(&x, &y);
        proof {
            lemma_trunc_rem_nat(x.value(), y.value());
        }
        x = y;
        y = r;
    }
    x
}

/// Rational equality of `n1/d1` and `n2/d2` for positive denominators.
pub open spec fn rat_equal(n1: int, d1: int, n2: int, d2: int) -> bool {
    n1 * d2 == n2 * d1
}

/// The fraction `n/d` in lowest terms.
pub fn reduce(n: &BigNum, d: &BigNum) -> (r: (BigNum, BigNum))
    requires
        d.value() > 0,
    ensures
        r.1.value() > 0,
        rat_equal(r.0.value(), r.1.value(), n.value(), d.value()),
        gcd(abs(r.0.value()) as nat, r.1.value() as nat) == 1,
        r.0.wf(),
        r.1.wf(),
{
    let zero = big_from_u64(0);
    let magnitude = if big_lt(n, &zero) { big_neg(n) } else { big_copy(n) };
    let g = big_gcd(&magnitude, d);
    proof {
        lemma_gcd_divides(magnitude.value() as nat, d.value() as nat);
    }
    let rn = big_div(n, &g);
    let rd = big_div(d, &g);
    proof {
        let gv = g.value();
        assert(abs(n.value()) == magnitude.value());
        lemma_trunc_div_exact(n.value(), gv);
        lemma_trunc_div_exact(d.value(), gv);
        let a = rn.value();
        let b = rd.value();
        assert(a * gv == n.value());
        assert(b * gv == d.value());
        assert(b > 0) by (nonlinear_arith)
            requires
                b * gv == d.value(),
                d.value() > 0,
                gv > 0,
        ;
        assert(a * d.value() == n.value() * b) by (nonlinear_arith)
            requires
                a * gv == n.value(),
                b * gv == d.value(),
        ;
        assert(abs(n.value()) == gv * abs(a)) by (nonlinear_arith)
            requires
                a * gv == n.value(),
                gv > 0,
        ;
        assert(d.value() == gv * b) by (nonlinear_arith)
            requires
                b * gv == d.value(),
        ;
        lemma_gcd_quotients_coprime(abs(n.value()) as nat, d.value() as nat, abs(a) as nat, b as nat);
    }
    (rn, rd)
}

/// Fraction arithmetic on (numerator, denominator) pairs.
pub open spec fn rat_add(p: (int, int), q: (int, int)) -> (int, int) {
    (p.0 * q.1 + q.0 * p.1, p.1 * q.1)
}

pub open spec fn rat_sub(p: (int, int), q: (int, int)) -> (int, int) {
    (p.0 * q.1 - q.0 * p.1, p.1 * q.1)
}

pub open spec fn rat_mul(p: (int, int), q: (int, int)) -> (int, int) {
    (p.0 * q.0, p.1 * q.1)
}

pub open spec fn rat_div(p: (int, int), q: (int, int)) -> (int, int) {
    (p.0 * q.1, p.1 * q.0)
}

pub open spec fn rat_neg(p: (int, int)) -> (int, int) {
    (-p.0, p.1)
}

/// Two fractions denote the same rational.
pub open spec fn rat_eq(p: (int, int), q: (int, int)) -> bool {
    p.0 * q.1 == q.0 * p.1
}

/// Order of fractions with positive denominators.
pub open spec fn rat_lt(p: (int, int), q: (int, int)) -> bool {
    p.0 * q.1 < q.0 * p.1
}

/// Equal fractions give equal sums, differences, products and quotients.
pub proof fn lemma_rat_congruence(p: (int, int), p2: (int, int), q: (int, int), q2: (int, int))
    requires
        p.1 != 0,
        p2.1 != 0,
        q.1 != 0,
        q2.1 != 0,
        rat_eq(p, p2),
        rat_eq(q, q2),
    ensures
        rat_eq(rat_add(p, q), rat_add(p2, q2)),
        rat_eq(rat_sub(p, q), rat_sub(p2, q2)),
        rat_eq(rat_mul(p, q), rat_mul(p2, q2)),
        rat_eq(rat_div(p, q), rat_div(p2, q2)),
        rat_eq(rat_neg(p), rat_neg(p2)),
{
    let (a, b) = p;
    let (a2, b2) = p2;
    let (c, d) = q;
    let (c2, d2) = q2;
    assert(a * b2 == a2 * b);
    assert(c * d2 == c2 * d);
    // (a d ± c b)(b2 d2) = (a b2)(d d2) ± (c d2)(b b2)
    lemma_mul4(a, d, b2, d2);
    lemma_mul4(c, b, b2, d2);
    assert((c * b) * (b2 * d2) == (c * d2) * (b * b2)) by {
        lemma_mul4(c, b, d2, b2);
        vstd::arithmetic::mul::lemma_mul_is_commutative(b2, d2);
        vstd::arithmetic::mul::lemma_mul_is_commutative(b2, b);
    }
    vstd::arithmetic::mul::lemma_mul_is_distributive_add_other_way(b2 * d2, a * d, c * b);
    vstd::arithmetic::mul::lemma_mul_is_distributive_sub_other_way(b2 * d2, a * d, c * b);
    // (a2 d2 ± c2 b2)(b d) = (a2 b)(d d2) ± (c2 d)(b b2)
    assert((a2 * d2) * (b * d) == (a2 * b) * (d * d2)) by {
        lemma_mul4(a2, d2, b, d);
        vstd::arithmetic::mul::lemma_mul_is_commutative(d2, d);
    }
    assert((c2 * b2) * (b * d) == (c2 * d) * (b * b2)) by {
        lemma_mul4(c2, b2, b, d);
        lemma_mul4(c2, d, b, b2);
        vstd::arithmetic::mul::lemma_mul_is_commutative(b2, d);
    }
    vstd::arithmetic::mul::lemma_mul_is_distributive_add_other_way(b * d, a2 * d2, c2 * b2);
    vstd::arithmetic::mul::lemma_mul_is_distributive_sub_other_way(b * d, a2 * d2, c2 * b2);
    assert((a * b2) * (d * d2) == (a2 * b) * (d * d2));
    assert((c * d2) * (b * b2) == (c2 * d) * (b * b2));
    assert((a * c) * (b2 * d2) == (a2 * c2) * (b * d)) by (nonlinear_arith)
        requires
            a * b2 == a2 * b,
            c * d2 == c2 * d,
    ;
    assert((a * d) * (b2 * c2) == (a2 * d2) * (b * c)) by {
        lemma_mul4(a, d, b2, c2);
        lemma_mul4(a2, b, c2, d);
        lemma_mul4(a2, b, c, d2);
        lemma_mul4(a2, d2, b, c);
        vstd::arithmetic::mul::lemma_mul_is_commutative(d, c2);
        vstd::arithmetic::mul::lemma_mul_is_commutative(b, c);
        vstd::arithmetic::mul::lemma_mul_is_commutative(b, d2);
        assert((a * b2) * (d * c2) == (a2 * b) * (c2 * d));
        assert((a2 * b) * (c2 * d) == (a2 * b) * (c * d2));
    }
    assert((-a) * b2 == (-a2) * b) by (nonlinear_arith)
        requires
            a * b2 == a2 * b,
    ;
}

/// Regrouping a product of four factors.
pub proof fn lemma_mul4(a: int, b: int, c: int, d: int)
    ensures
        (a * b) * (c * d) == (a * c) * (b * d),
{
    assert((a * b) * (c * d) == (a * c) * (b * d)) by (nonlinear_arith);
}

/// Fraction equality is an equivalence on fractions with nonzero denominators.
pub proof fn lemma_rat_eq_equivalence(p: (int, int), q: (int, int), r: (int, int))
    requires
        p.1 != 0,
        q.1 != 0,
        r.1 != 0,
    ensures
        rat_eq(p, p),
        rat_eq(p, q) ==> rat_eq(q, p),
        rat_eq(p, q) && rat_eq(q, r) ==> rat_eq(p, r),
{
    if rat_eq(p, q) && rat_eq(q, r) {
        assert(p.0 * r.1 == r.0 * p.1) by (nonlinear_arith)
            requires
                p.0 * q.1 == q.0 * p.1,
                q.0 * r.1 == r.0 * q.1,
                q.1 != 0,
        ;
    }
}

/// An exact rational number `numerator / denominator`.
#[derive(Debug)]
pub struct ExactNumber {
    pub numerator: BigNum,
    pub denominator: BigNum,
}

impl ExactNumber {
    /// The number as a (numerator, denominator) fraction.
    pub open spec fn value(&self) -> (int, int) {
        (self.num(), self.den())
    }

    pub open spec fn num(&self) -> int {
        self.numerator.value()
    }

    pub open spec fn den(&self) -> int {
        self.denominator.value()
    }

    /// Numerator and denominator have no common factor.
    pub open spec fn lowest_terms(&self) -> bool {
        gcd(abs(self.num()) as nat, self.den() as nat) == 1
    }

    /// A positive denominator, the fraction in lowest terms, and canonical
    /// big integers.
    pub open spec fn wf(&self) -> bool {
        &&& self.den() > 0
        &&& self.lowest_terms()
        &&& self.numerator.wf()
        &&& self.denominator.wf()
    }

    /// This number equals the fraction `n/d`.
    pub open spec fn equals(&self, n: int, d: int) -> bool {
        rat_equal(self.num(), self.den(), n, d)
    }

    /// Both numbers denote the same rational.
    pub open spec fn same_value(&self, other: &ExactNumber) -> bool {
        rat_equal(self.num(), self.den(), other.num(), other.den())
    }

    /// Well-formed numbers that denote the same rational are stored alike,
    /// so they are spelled alike.
    pub proof fn lemma_same_value_same_fraction(&self, other: &ExactNumber)
        requires
            self.wf(),
            other.wf(),
            self.same_value(other),
        ensures
            self.num() == other.num(),
            self.den() == other.den(),
    {
        lemma_lowest_terms_unique(self.num(), self.den(), other.num(), other.den());
    }

    pub open spec fn spec_is_zero(&self) -> bool {
        self.num() == 0
    }

    pub fn zero() -> (r: ExactNumber)
        ensures
            r.wf(),
            r.num() == 0,
            r.den() == 1,
    {
        proof {
            lemma_gcd_one(0);
        }
        ExactNumber { numerator: big_from_u64(0), denominator: big_from_u64(1) }
    }

    /// The integer `n` as an exact number.
    pub fn from_integer(n: BigNum) -> (r: ExactNumber)
        requires
            n.wf(),
        ensures
            r.wf(),
            r.num() == n.value(),
            r.den() == 1,
    {
        proof {
            lemma_gcd_one(abs(n.value()) as nat);
        }
        ExactNumber { numerator: n, denominator: big_from_u64(1) }
    }

    /// The fraction `n/d` in lowest terms.
    pub fn from_fraction(n: &BigNum, d: &BigNum) -> (r: ExactNumber)
        requires
            d.value() > 0,
        ensures
            r.wf(),
            r.equals(n.value(), d.value()),
    {
        let (numerator, denominator) = reduce(n, d);
        ExactNumber { numerator, denominator }
    }

    pub fn duplicate(&self) -> (r: ExactNumber)
        ensures
            r.num() == self.num(),
            r.den() == self.den(),
            self.wf() ==> r.wf(),
    {
        ExactNumber {
            numerator: big_copy(&self.numerator),
            denominator: big_copy(&self.denominator),
        }
    }

    pub fn is_zero(&self) -> (r: bool)
        ensures
            r == self.spec_is_zero(),
    {
        big_is_zero(&self.numerator)
    }

    pub fn negated(&self) -> (r: ExactNumber)
        requires
            self.wf(),
        ensures
            r.wf(),
            r.num() == -self.num(),
            r.den() == self.den(),
    {
        ExactNumber { numerator: big_neg(&self.numerator), denominator: big_copy(&self.denominator) }
    }

    pub fn add(&self, other: &ExactNumber) -> (r: ExactNumber)
        requires
            self.wf(),
            other.wf(),
        ensures
            r.wf(),
            r.equals(self.num() * other.den() + other.num() * self.den(), self.den() * other.den()),
    {
        let left = big_mul(&self.numerator, &other.denominator);
        let right = big_mul(&other.numerator, &self.denominator);
        let n = big_add(&left, &right);
        let d = big_mul(&self.denominator, &other.denominator);
        proof {
            assert(self.den() * other.den() > 0) by (nonlinear_arith)
                requires
                    self.den() > 0,
                    other.den() > 0,
            ;
        }
        ExactNumber::from_fraction(&n, &d)
    }

    pub fn sub(&self, other: &ExactNumber) -> (r: ExactNumber)
        requires
            self.wf(),
            other.wf(),
        ensures
            r.wf(),
            r.equals(self.num() * other.den() - other.num() * self.den(), self.den() * other.den()),
    {
        let left = big_mul(&self.numerator, &other.denominator);
        let right = big_mul(&other.numerator, &self.denominator);
        let n = big_sub(&left, &right);
        let d = big_mul(&self.denominator, &other.denominator);
        proof {
            assert(self.den() * other.den() > 0) by (nonlinear_arith)
                requires
                    self.den() > 0,
                    other.den() > 0,
            ;
        }
        ExactNumber::from_fraction(&n, &d)
    }

    pub fn mul(&self, other: &ExactNumber) -> (r: ExactNumber)
        requires
            self.wf(),
            other.wf(),
        ensures
            r.wf(),
            r.equals(self.num() * other.num(), self.den() * other.den()),
    {
        let n = big_mul(&self.numerator, &other.numerator);
        let d = big_mul(&self.denominator, &other.denominator);
        proof {
            assert(self.den() * other.den() > 0) by (nonlinear_arith)
                requires
                    self.den() > 0,
                    other.den() > 0,
            ;
        }
        ExactNumber::from_fraction(&n, &d)
    }

    /// The quotient, or `None` when the divisor is zero.
    pub fn div(&self, other: &ExactNumber) -> (r: Option<ExactNumber>)
        requires
            self.wf(),
            other.wf(),
        ensures
            r is None <==> other.num() == 0,
            r matches Some(q) ==> q.wf() && q.equals(
                self.num() * other.den(),
                self.den() * other.num(),
            ),
    {
        if big_is_zero(&other.numerator) {
            return None;
        }
        let zero = big_from_u64(0);
        let n0 = big_mul(&self.numerator, &other.denominator);
        let d0 = big_mul(&self.denominator, &other.numerator);
        let negative = big_lt(&other.numerator, &zero);
        let n = if negative { big_neg(&n0) } else { n0 };
        let d = if negative { big_neg(&d0) } else { d0 };
        proof {
            if other.num() < 0 {
                assert(self.den() * other.num() < 0) by (nonlinear_arith)
                    requires
                        self.den() > 0,
                        other.num() < 0,
                ;
            } else {
                assert(self.den() * other.num() > 0) by (nonlinear_arith)
                    requires
                        self.den() > 0,
                        other.num() > 0,
                ;
            }
        }
        let q = ExactNumber::from_fraction(&n, &d);
        proof {
            let a = q.num();
            let b = q.den();
            if negative {
                assert(a * d0.value() == n0.value() * b) by (nonlinear_arith)
                    requires
                        a * (-d0.value()) == (-n0.value()) * b,
                ;
            }
        }
        Some(q)
    }

    /// Rational equality.
    pub fn equal(&self, other: &ExactNumber) -> (r: bool)
        ensures
            r == self.same_value(other),
    {
        let left = big_mul(&self.numerator, &other.denominator);
        let right = big_mul(&other.numerator, &self.denominator);
        big_eq(&left, &right)
    }

    /// Rational order.
    pub fn less(&self, other: &ExactNumber) -> (r: bool)
        requires
            self.wf(),
            other.wf(),
        ensures
            r == (self.num() * other.den() < other.num() * self.den()),
    {
        let left = big_mul(&self.numerator, &other.denominator);
        let right = big_mul(&other.numerator, &self.denominator);
        big_lt(&left, &right)
    }

    /// The smaller of two numbers; the first when they are equal.
    pub fn min(&self, other: &ExactNumber) -> (r: ExactNumber)
        requires
            self.wf(),
            other.wf(),
        ensures
            r.wf(),
            if other.num() * self.den() < self.num() * other.den() {
                r.num() == other.num() && r.den() == other.den()
            } else {
                r.num() == self.num() && r.den() == self.den()
            },
    {
        if other.less(self) {
            other.duplicate()
        } else {
            self.duplicate()
        }
    }

    /// The larger of two numbers; the second when they are equal.
    pub fn max(&self, other: &ExactNumber) -> (r: ExactNumber)
        requires
            self.wf(),
            other.wf(),
        ensures
            r.wf(),
            if other.num() * self.den() < self.num() * other.den() {
                r.num() == self.num() && r.den() == self.den()
            } else {
                r.num() == other.num() && r.den() == other.den()
            },
    {
        if other.less(self) {
            self.duplicate()
        } else {
            other.duplicate()
        }
    }
}


/// The spelling of an exact number: its integer spelling when the
/// denominator is one, and `numerator/denominator` otherwise.
pub open spec fn exact_spelling(num: int, den: int) -> Seq<char> {
    if den == 1 {
        int_spelling(num)
    } else {
        int_spelling(num) + seq!['/'] + int_spelling(den)
    }
}

impl ExactNumber {
    pub fn to_spelling(&self) -> (r: String)
        ensures
            r@ == exact_spelling(self.num(), self.den()),
    {
        let one = big_from_u64(1);
        let mut spelling = big_to_decimal(&self.numerator);
        if !big_eq(&self.denominator, &one) {
            let denominator = big_to_decimal(&self.denominator);
            proof {
                reveal_strlit("/");
            }
            spelling.append("/");
            spelling.append(denominator.as_str());
        }
        spelling
    }

    /// The integer whose decimal spelling is given, as `BigInt::parse_bytes`
    /// reads it.
    pub fn from_integer_spelling(spelling: &str) -> (r: Option<ExactNumber>)
        ensures
            r is Some <==> parse_accepts(spelling.spec_bytes(), 10),
            r matches Some(x) ==> x.wf() && x.den() == 1 && x.num() == parse_value(
                spelling.spec_bytes(),
                10,
            ),
    {
        match parse_big(spelling.as_bytes(), 10) {
            Some(n) => Some(ExactNumber::from_integer(n)),
            None => None,
        }
    }
}


/// The largest exponent magnitude and fraction length that a floating-point
/// spelling may carry.
pub const MAX_LITERAL_EXPONENT: u32 = 10000;

/// The bytes of a spelling with its digit-separating underscores removed.
pub open spec fn without_underscores(s: Seq<u8>) -> Seq<u8>
    decreases s.len(),
{
    if s.len() == 0 {
        s
    } else if s.last() == 95 {
        without_underscores(s.drop_last())
    } else {
        without_underscores(s.drop_last()).push(s.last())
    }
}

/// The first index at or after `i` holding `a` or `b`, or the length.
pub open spec fn first_from(s: Seq<u8>, a: u8, b: u8, i: int) -> int
    decreases s.len() - i,
{
    if i >= s.len() || i < 0 {
        s.len() as int
    } else if s[i] == a || s[i] == b {
        i
    } else {
        first_from(s, a, b, i + 1)
    }
}

/// Every byte is a digit of `radix`.
pub open spec fn all_digits(s: Seq<u8>, radix: int) -> bool {
    forall|i: int| 0 <= i < s.len() ==> radix_digit(#[trigger] s[i]) < radix
}

pub open spec fn point_index(m: Seq<u8>) -> int {
    first_from(m, 46, 46, 0)
}

pub open spec fn integer_part(m: Seq<u8>) -> Seq<u8> {
    m.take(point_index(m))
}

pub open spec fn fraction_part(m: Seq<u8>) -> Seq<u8> {
    if point_index(m) < m.len() {
        m.skip(point_index(m) + 1)
    } else {
        seq![]
    }
}

/// A mantissa: digits of `radix` with at most one point, at least one digit,
/// and a fraction no longer than the exponent limit.
pub open spec fn mantissa_ok(m: Seq<u8>, radix: int) -> bool {
    &&& all_digits(integer_part(m), radix)
    &&& all_digits(fraction_part(m), radix)
    &&& integer_part(m).len() + fraction_part(m).len() > 0
    &&& fraction_part(m).len() <= MAX_LITERAL_EXPONENT
}

/// The mantissa's digits read as an integer.
pub open spec fn mantissa_value(m: Seq<u8>, radix: int) -> int {
    radix_value(integer_part(m) + fraction_part(m), radix)
}

pub open spec fn exponent_digits(e: Seq<u8>) -> Seq<u8> {
    if e.len() > 0 && (e[0] == 45 || e[0] == 43) {
        e.skip(1)
    } else {
        e
    }
}

/// An exponent: an optional sign and decimal digits, at most the limit.
pub open spec fn exponent_ok(e: Seq<u8>) -> bool {
    &&& exponent_digits(e).len() > 0
    &&& all_digits(exponent_digits(e), 10)
    &&& radix_value(exponent_digits(e), 10) <= MAX_LITERAL_EXPONENT
}

pub open spec fn exponent_value(e: Seq<u8>) -> int {
    if e.len() > 0 && e[0] == 45 {
        -radix_value(exponent_digits(e), 10)
    } else {
        radix_value(exponent_digits(e), 10)
    }
}

pub open spec fn is_hex_spelling(c: Seq<u8>) -> bool {
    c.len() >= 2 && c[0] == 48 && (c[1] == 120 || c[1] == 88)
}

/// The mantissa and exponent parts of a cleaned floating-point spelling.
pub open spec fn float_mantissa(c: Seq<u8>) -> Seq<u8> {
    if is_hex_spelling(c) {
        c.skip(2).take(first_from(c.skip(2), 112, 80, 0))
    } else {
        c.take(first_from(c, 101, 69, 0))
    }
}

pub open spec fn float_exponent(c: Seq<u8>) -> Seq<u8> {
    if is_hex_spelling(c) {
        c.skip(2).skip(first_from(c.skip(2), 112, 80, 0) + 1)
    } else if first_from(c, 101, 69, 0) < c.len() {
        c.skip(first_from(c, 101, 69, 0) + 1)
    } else {
        seq![48]
    }
}

/// Go's decimal and hexadecimal floating-point spellings, underscores aside.
pub open spec fn float_spelling_ok(s: Seq<u8>) -> bool {
    let c = without_underscores(s);
    if is_hex_spelling(c) {
        &&& first_from(c.skip(2), 112, 80, 0) < c.skip(2).len()
        &&& mantissa_ok(float_mantissa(c), 16)
        &&& exponent_ok(float_exponent(c))
    } else {
        &&& mantissa_ok(float_mantissa(c), 10)
        &&& exponent_ok(float_exponent(c))
    }
}

/// The value of an accepted spelling as a fraction (numerator, denominator).
pub open spec fn float_spelling_value(s: Seq<u8>) -> (int, int) {
    let c = without_underscores(s);
    let radix: int = if is_hex_spelling(c) { 16 } else { 10 };
    let base: int = if is_hex_spelling(c) { 2 } else { 10 };
    let m = float_mantissa(c);
    let mantissa = mantissa_value(m, radix);
    let scale = vstd::arithmetic::power::pow(radix, fraction_part(m).len());
    let exponent = exponent_value(float_exponent(c));
    if exponent >= 0 {
        (mantissa * vstd::arithmetic::power::pow(base, exponent as nat), scale)
    } else {
        (mantissa, scale * vstd::arithmetic::power::pow(base, (-exponent) as nat))
    }
}

/// The spelling's bytes without underscores.
pub fn strip_underscores(s: &[u8]) -> (r: Vec<u8>)
    ensures
        r@ == without_underscores(s@),
{
    let mut r: Vec<u8> = Vec::new();
    let mut i: usize = 0;
    while i < s.len()
        invariant
            i <= s@.len(),
            r@ == without_underscores(s@.take(i as int)),
        decreases s@.len() - i,
    {
        assert(s@.take(i as int + 1).drop_last() == s@.take(i as int));
        if s[i] != 95 {
            r.push(s[i]);
        }
        i += 1;
    }
    assert(s@.take(s@.len() as int) == s@);
    r
}

/// The first index holding `a` or `b`, or the length.
fn find_either(s: &[u8], a: u8, b: u8) -> (r: usize)
    ensures
        r as int == first_from(s@, a, b, 0),
        r <= s@.len(),
{
    let mut i: usize = 0;
    while i < s.len()
        invariant
            i <= s@.len(),
            first_from(s@, a, b, 0) == first_from(s@, a, b, i as int),
        decreases s@.len() - i,
    {
        if s[i] == a || s[i] == b {
            return i;
        }
        i += 1;
    }
    i
}

/// Whether every byte is a digit of `radix`.
fn digits_only(s: &[u8], radix: u8) -> (r: bool)
    requires
        2 <= radix <= 36,
    ensures
        r == all_digits(s@, radix as int),
{
    let mut i: usize = 0;
    while i < s.len()
        invariant
            i <= s@.len(),
            2 <= radix <= 36,
            forall|j: int| 0 <= j < i ==> radix_digit(#[trigger] s@[j]) < radix,
        decreases s@.len() - i,
    {
        let b = s[i];
        let d: u8 = if 48 <= b && b <= 57 {
            b - 48
        } else if 97 <= b && b <= 122 {
            b - 97 + 10
        } else if 65 <= b && b <= 90 {
            b - 65 + 10
        } else {
            255
        };
        if d >= radix {
            return false;
        }
        i += 1;
    }
    true
}

/// Digits alone are read by `BigInt::parse_bytes` as their radix value.
proof fn lemma_digits_parse(s: Seq<u8>, radix: int)
    requires
        2 <= radix <= 36,
        s.len() > 0,
        all_digits(s, radix),
    ensures
        parse_accepts(s, radix),
        parse_value(s, radix) == radix_value(s, radix),
{
    assert(radix_digit(s[0]) < radix);
    assert(parse_magnitude(s) == s);
    assert forall|i: int| 0 <= i < s.len() implies (s[i] == 95 || radix_digit(#[trigger] s[i]) < radix) by {
    }
}

/// A mantissa's digit value and fraction length.
fn parse_mantissa(m: &[u8], radix: u8) -> (r: Option<(BigNum, u32)>)
    requires
        2 <= radix <= 36,
    ensures
        r is Some <==> mantissa_ok(m@, radix as int),
        r matches Some(p) ==> p.0.wf() && p.0.value() == mantissa_value(m@, radix as int)
            && p.1 as int == fraction_part(m@).len(),
{
    let point = find_either(m, 46, 46);
    let integer = &m[0..point];
    let fraction: &[u8] = if point < m.len() { &m[point + 1..m.len()] } else { &m[0..0] };
    assert(integer@ == integer_part(m@));
    assert(fraction@ == fraction_part(m@));
    if !digits_only(integer, radix) || !digits_only(fraction, radix) {
        return None;
    }
    if integer.len() == 0 && fraction.len() == 0 {
        return None;
    }
    if fraction.len() > MAX_LITERAL_EXPONENT as usize {
        return None;
    }
    let mut digits: Vec<u8> = Vec::new();
    let mut i: usize = 0;
    while i < integer.len()
        invariant
            i <= integer@.len(),
            digits@ == integer@.take(i as int),
        decreases integer@.len() - i,
    {
        digits.push(integer[i]);
        i += 1;
        assert(digits@ == integer@.take(i as int));
    }
    let mut j: usize = 0;
    while j < fraction.len()
        invariant
            j <= fraction@.len(),
            digits@ == integer@ + fraction@.take(j as int),
        decreases fraction@.len() - j,
    {
        digits.push(fraction[j]);
        j += 1;
        assert(digits@ == integer@ + fraction@.take(j as int));
    }
    assert(integer@.take(integer@.len() as int) == integer@);
    assert(fraction@.take(fraction@.len() as int) == fraction@);
    proof {
        let all = integer@ + fraction@;
        assert(all_digits(all, radix as int)) by {
            assert forall|k: int| 0 <= k < all.len() implies radix_digit(#[trigger] all[k]) < radix by {
                if k < integer@.len() {
                    assert(all[k] == integer@[k]);
                } else {
                    assert(all[k] == fraction@[k - integer@.len()]);
                }
            }
        }
        lemma_digits_parse(all, radix as int);
    }
    match parse_big(digits.as_slice(), radix as u32) {
        Some(value) => Some((value, fraction.len() as u32)),
        None => None,
    }
}

/// An exponent's sign and magnitude.
fn parse_exponent(e: &[u8]) -> (r: Option<(bool, u32)>)
    ensures
        r is Some <==> exponent_ok(e@),
        r matches Some(p) ==> (if p.0 { -(p.1 as int) } else { p.1 as int }) == exponent_value(e@)
            && p.1 <= MAX_LITERAL_EXPONENT,
{
    let signed = e.len() > 0 && (e[0] == 45 || e[0] == 43);
    let negative = e.len() > 0 && e[0] == 45;
    let digits: &[u8] = if signed { &e[1..e.len()] } else { e };
    assert(digits@ == exponent_digits(e@));
    if digits.len() == 0 || !digits_only(digits, 10) {
        return None;
    }
    let mut value: u32 = 0;
    let mut over = false;
    let mut i: usize = 0;
    while i < digits.len()
        invariant
            i <= digits@.len(),
            all_digits(digits@, 10),
            !over ==> value as int == radix_value(digits@.take(i as int), 10) && value
                <= MAX_LITERAL_EXPONENT,
            over ==> radix_value(digits@.take(i as int), 10) > MAX_LITERAL_EXPONENT,
            radix_value(digits@.take(i as int), 10) >= 0,
        decreases digits@.len() - i,
    {
        assert(digits@.take(i as int + 1).drop_last() == digits@.take(i as int));
        assert(radix_digit(digits@[i as int]) < 10);
        let d = (digits[i] - 48) as u32;
        if !over {
            let next = value * 10 + d;
            if next > MAX_LITERAL_EXPONENT {
                over = true;
            } else {
                value = next;
            }
        }
        i += 1;
    }
    assert(digits@.take(digits@.len() as int) == digits@);
    if over {
        return None;
    }
    Some((negative, value))
}

impl ExactNumber {
    /// Reads a Go decimal or hexadecimal floating-point spelling (integer
    /// spellings included), ignoring underscores.
    pub fn from_spelling(spelling: &str) -> (r: Option<ExactNumber>)
        ensures
            r is Some <==> float_spelling_ok(spelling.spec_bytes()),
            r matches Some(x) ==> x.wf() && x.equals(
                float_spelling_value(spelling.spec_bytes()).0,
                float_spelling_value(spelling.spec_bytes()).1,
            ),
    {
        ExactNumber::from_spelling_bytes(spelling.as_bytes())
    }

    /// Reads the bytes of a floating-point spelling, as `from_spelling`.
    pub fn from_spelling_bytes(spelling: &[u8]) -> (r: Option<ExactNumber>)
        ensures
            r is Some <==> float_spelling_ok(spelling@),
            r matches Some(x) ==> x.wf() && x.equals(
                float_spelling_value(spelling@).0,
                float_spelling_value(spelling@).1,
            ),
    {
        let cleaned = strip_underscores(spelling);
        let c = cleaned.as_slice();
        let hex = c.len() >= 2 && c[0] == 48 && (c[1] == 120 || c[1] == 88);
        let (mantissa, exponent, radix, base): (&[u8], &[u8], u8, u64) = if hex {
            let rest = &c[2..c.len()];
            let p = find_either(rest, 112, 80);
            if p >= rest.len() {
                return None;
            }
            (&rest[0..p], &rest[p + 1..rest.len()], 16, 2)
        } else {
            let e = find_either(c, 101, 69);
            if e < c.len() {
                (&c[0..e], &c[e + 1..c.len()], 10, 10)
            } else {
                let zero: &[u8] = &[48];
                (&c[0..e], zero, 10, 10)
            }
        };
        assert(mantissa@ == float_mantissa(c@));
        assert(exponent@ == float_exponent(c@));
        let (digits, fraction_len) = match parse_mantissa(mantissa, radix) {
            Some(p) => p,
            None => return None,
        };
        let (negative, magnitude) = match parse_exponent(exponent) {
            Some(p) => p,
            None => return None,
        };
        let radix_big = big_from_u64(radix as u64);
        let base_big = big_from_u64(base);
        let scale = big_pow(&radix_big, fraction_len);
        let power = big_pow(&base_big, magnitude);
        proof {
            vstd::arithmetic::power::lemma_pow_positive(radix as int, fraction_len as nat);
            vstd::arithmetic::power::lemma_pow_positive(base as int, magnitude as nat);
        }
        if negative && magnitude > 0 {
            let denominator = big_mul(&scale, &power);
            proof {
                assert(scale.value() * power.value() > 0) by (nonlinear_arith)
                    requires
                        scale.value() > 0,
                        power.value() > 0,
                ;
            }
            Some(ExactNumber::from_fraction(&digits, &denominator))
        } else {
            let numerator = big_mul(&digits, &power);
            Some(ExactNumber::from_fraction(&numerator, &scale))
        }
    }
}

} // verus!
