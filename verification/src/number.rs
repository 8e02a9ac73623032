//! `getal`: exact rational numbers.
//!
//! A getal is a fraction `num / den` with `den >= 1`, always stored in lowest terms (reduced
//! by Euclid's gcd), so the same value has one representation. All arithmetic is exact and
//! integer-only, the same on every target: a result that does not fit is reported, never
//! silently rounded.

use vstd::prelude::*;
use vstd::arithmetic::div_mod::*;

verus! {

// ---- specification --------------------------------------------------------------------------

pub open spec fn abs(x: int) -> nat {
    if x < 0 { (-x) as nat } else { x as nat }
}

/// Euclid's greatest common divisor.
pub open spec fn gcd(a: nat, b: nat) -> nat
    decreases b,
{
    if b == 0 { a } else { gcd(b, a % b) }
}

/// `n / d` in lowest terms (for `d > 0`): both divided by their gcd, the sign kept on `n`.
pub open spec fn reduced(n: int, d: int) -> (int, int) {
    let g = gcd(abs(n), d as nat);
    let q = abs(n) / g;
    (if n < 0 { -q } else { q as int }, d / (g as int))
}

/// A numerator/denominator pair that a stored getal can hold.
pub open spec fn representable(p: (int, int)) -> bool {
    &&& i64::MIN < p.0 <= i64::MAX
    &&& 1 <= p.1 <= i64::MAX
}

/// The stored form of the exact fraction `n / d`, if it fits.
pub open spec fn normal_form(n: int, d: int) -> Option<(int, int)> {
    let r = reduced(n, d);
    if representable(r) { Some(r) } else { None }
}

/// Two fractions denote the same number.
pub open spec fn same_value(a: (int, int), b: (int, int)) -> bool {
    a.0 * b.1 == b.0 * a.1
}

/// Round `n / d` (for `d > 0`) to the nearest integer, halves away from zero.
pub open spec fn round_half_away(n: int, d: int) -> int {
    if n >= 0 { (2 * n + d) / (2 * d) } else { -((2 * (-n) + d) / (2 * d)) }
}

/// `n / d` (for `d > 0`) truncated toward zero.
pub open spec fn trunc_div(n: int, d: int) -> int {
    if n >= 0 { n / d } else { -((-n) / d) }
}

pub open spec fn sum_of(a: (int, int), b: (int, int)) -> Option<(int, int)> {
    normal_form(a.0 * b.1 + b.0 * a.1, a.1 * b.1)
}

pub open spec fn difference_of(a: (int, int), b: (int, int)) -> Option<(int, int)> {
    normal_form(a.0 * b.1 - b.0 * a.1, a.1 * b.1)
}

pub open spec fn product_of(a: (int, int), b: (int, int)) -> Option<(int, int)> {
    normal_form(a.0 * b.0, a.1 * b.1)
}

/// The quotient `a / b` for `b != 0` (the sign moved onto the numerator).
pub open spec fn quotient_of(a: (int, int), b: (int, int)) -> Option<(int, int)> {
    if b.0 > 0 {
        normal_form(a.0 * b.1, a.1 * b.0)
    } else {
        normal_form(-(a.0 * b.1), a.1 * (-b.0))
    }
}

// ---- gcd lemmas -----------------------------------------------------------------------------

proof fn lemma_divides_from_mod(a: int, b: int, g: int)
    requires
        b > 0,
        g > 0,
        a >= 0,
        b % g == 0,
        (a % b) % g == 0,
    ensures
        a % g == 0,
{
    lemma_fundamental_div_mod(a, b);
    lemma_fundamental_div_mod(b, g);
    lemma_fundamental_div_mod(a % b, g);
    let p = b / g;
    let q = (a % b) / g;
    let k = p * (a / b) + q;
    assert(a == k * g) by (nonlinear_arith)
        requires
            a == b * (a / b) + a % b,
            b == g * p + 0,
            a % b == g * q + 0,
            k == p * (a / b) + q,
    ;
    lemma_mod_multiples_basic(k, g);
}

/// Euclid's gcd divides both arguments and is positive unless both are zero.
pub proof fn lemma_gcd_divides(a: nat, b: nat)
    requires
        a > 0 || b > 0,
    ensures
        gcd(a, b) > 0,
        a % gcd(a, b) == 0,
        b % gcd(a, b) == 0,
    decreases b,
{
    if b == 0 {
        lemma_mod_self_0(a as int);
        assert(0int % (a as int) == 0) by {
            lemma_mod_multiples_basic(0, a as int);
        }
    } else {
        lemma_mod_pos_bound(a as int, b as int);
        lemma_gcd_divides(b, a % b);
        let g = gcd(b, a % b);
        lemma_divides_from_mod(a as int, b as int, g as int);
    }
}

proof fn lemma_exact_div(x: int, g: int)
    requires
        g > 0,
        x % g == 0,
    ensures
        (x / g) * g == x,
{
    lemma_fundamental_div_mod(x, g);
    assert((x / g) * g == g * (x / g)) by (nonlinear_arith);
}

/// Reducing a fraction keeps its value: `reduced(n, d)` denotes the same number as `n / d`.
pub proof fn lemma_reduced_same_value(n: int, d: int)
    requires
        d > 0,
    ensures
        same_value(reduced(n, d), (n, d)),
        reduced(n, d).1 > 0,
{
    let g = gcd(abs(n), d as nat);
    lemma_gcd_divides(abs(n), d as nat);
    lemma_exact_div(abs(n) as int, g as int);
    lemma_exact_div(d, g as int);
    let q = abs(n) / g;
    let e = d / (g as int);
    assert(e > 0) by (nonlinear_arith)
        requires
            e * g == d,
            d > 0,
            g > 0,
    ;
    if n < 0 {
        assert((-(q as int)) * d == n * e) by (nonlinear_arith)
            requires
                q * g == -n,
                e * g == d,
        ;
    } else {
        assert((q as int) * d == n * e) by (nonlinear_arith)
            requires
                q * g == n,
                e * g == d,
        ;
    }
}

/// The stored form of a fraction is the same number as the fraction.
pub proof fn lemma_normal_form_same_value(n: int, d: int)
    requires
        d > 0,
    ensures
        normal_form(n, d) matches Some(r) ==> same_value(r, (n, d)),
{
    lemma_reduced_same_value(n, d);
}

/// Reducing never grows a fraction's parts, so a fraction of small parts always has a stored form.
pub proof fn lemma_reduced_within(n: int, d: int)
    requires
        d > 0,
    ensures
        abs(reduced(n, d).0) <= abs(n),
        1 <= reduced(n, d).1 <= d,
        abs(n) <= i64::MAX && d <= i64::MAX ==> normal_form(n, d) == Some(reduced(n, d)),
{
    lemma_reduced_same_value(n, d);
    let g = gcd(abs(n), d as nat);
    lemma_gcd_divides(abs(n), d as nat);
    lemma_div_is_ordered_by_denominator(abs(n) as int, 1, g as int);
    lemma_div_is_ordered_by_denominator(d, 1, g as int);
    assert(abs(n) as int / 1 == abs(n) as int);
    assert(d / 1 == d);
}

proof fn lemma_gcd_one(a: nat)
    ensures
        gcd(a, 1) == 1,
{
    assert(a % 1 == 0);
    assert(gcd(1, 0) == 1);
}

// ---- the type -------------------------------------------------------------------------------

/// An exact number: the fraction `num / den` in lowest terms.
#[derive(Debug, Clone, Copy, PartialEq, Eq)]
pub struct Getal {
    num: i64,
    den: i64,
}

impl View for Getal {
    type V = (int, int);

    closed spec fn view(&self) -> (int, int) {
        (self.num as int, self.den as int)
    }
}

impl Getal {
    #[verifier::type_invariant]
    closed spec fn inv(self) -> bool {
        &&& i64::MIN < self.num
        &&& 1 <= self.den
    }

    pub fn numer(&self) -> (r: i64)
        ensures
            r == self@.0,
            i64::MIN < r,
    {
        proof {
            use_type_invariant(self);
        }
        self.num
    }

    pub fn denom(&self) -> (r: i64)
        ensures
            r == self@.1,
            r >= 1,
    {
        proof {
            use_type_invariant(self);
        }
        self.den
    }

    /// The whole number `i`.
    pub fn from_i64(i: i64) -> (r: Getal)
        requires
            i > i64::MIN,
        ensures
            r@ == (i as int, 1int),
            normal_form(i as int, 1) == Some(r@),
    {
        proof {
            lemma_gcd_one(abs(i as int));
            assert(abs(i as int) / 1 == abs(i as int));
            assert(1int / 1 == 1);
        }
        Getal { num: i, den: 1 }
    }

    pub fn zero() -> (r: Getal)
        ensures
            r@ == (0int, 1int),
    {
        Getal { num: 0, den: 1 }
    }

    /// The stored form of `n / d`, or `None` when it does not fit.
    pub fn from_ratio(n: i128, d: i128) -> (r: Option<Getal>)
        requires
            0 < d <= max_product(),
            -2 * max_product() <= n <= 2 * max_product(),
        ensures
            match r {
                Some(g) => normal_form(n as int, d as int) == Some(g@),
                None => normal_form(n as int, d as int) is None,
            },
    {
        let mag: u128 = if n < 0 { (-n) as u128 } else { n as u128 };
        let g = gcd_u128(mag, d as u128);
        proof {
            lemma_gcd_divides(mag as nat, d as nat);
            assert(abs(n as int) == mag as nat);
        }
        let q: u128 = mag / g;
        let e: u128 = (d as u128) / g;
        proof {
            lemma_div_is_ordered_by_denominator(mag as int, 1, g as int);
            lemma_div_is_ordered_by_denominator(d as int, 1, g as int);
        }
        if q <= 0x7fff_ffff_ffff_ffff && 1 <= e && e <= 0x7fff_ffff_ffff_ffff {
            let num: i64 = if n < 0 { -(q as i64) } else { q as i64 };
            Some(Getal { num, den: e as i64 })
        } else {
            None
        }
    }

    pub fn add(&self, other: &Getal) -> (r: Option<Getal>)
        ensures
            match r {
                Some(g) => sum_of(self@, other@) == Some(g@),
                None => sum_of(self@, other@) is None,
            },
    {
        proof {
            use_type_invariant(self);
            use_type_invariant(other);
        }
        let a = self.num as i128;
        let b = self.den as i128;
        let c = other.num as i128;
        let d = other.den as i128;
        proof { lemma_product_bounds(a, b, c, d); }
        Getal::from_ratio(a * d + c * b, b * d)
    }

    pub fn sub(&self, other: &Getal) -> (r: Option<Getal>)
        ensures
            match r {
                Some(g) => difference_of(self@, other@) == Some(g@),
                None => difference_of(self@, other@) is None,
            },
    {
        proof {
            use_type_invariant(self);
            use_type_invariant(other);
        }
        let a = self.num as i128;
        let b = self.den as i128;
        let c = other.num as i128;
        let d = other.den as i128;
        proof { lemma_product_bounds(a, b, c, d); }
        Getal::from_ratio(a * d - c * b, b * d)
    }

    pub fn mul(&self, other: &Getal) -> (r: Option<Getal>)
        ensures
            match r {
                Some(g) => product_of(self@, other@) == Some(g@),
                None => product_of(self@, other@) is None,
            },
    {
        proof {
            use_type_invariant(self);
            use_type_invariant(other);
        }
        let a = self.num as i128;
        let b = self.den as i128;
        let c = other.num as i128;
        let d = other.den as i128;
        proof { lemma_product_bounds(a, b, c, d); }
        Getal::from_ratio(a * c, b * d)
    }

    /// `self / other`; requires a non-zero divisor (the caller reports division by zero).
    pub fn div(&self, other: &Getal) -> (r: Option<Getal>)
        requires
            other@.0 != 0,
        ensures
            match r {
                Some(g) => quotient_of(self@, other@) == Some(g@),
                None => quotient_of(self@, other@) is None,
            },
    {
        proof {
            use_type_invariant(self);
            use_type_invariant(other);
        }
        let a = self.num as i128;
        let b = self.den as i128;
        let c = other.num as i128;
        let d = other.den as i128;
        proof { lemma_product_bounds(a, b, c, d); lemma_product_bounds(c, d, a, b); }
        if c > 0 {
            assert(0 < b * c && b * c == c * b) by (nonlinear_arith)
                requires
                    b >= 1,
                    c >= 1,
            ;
            Getal::from_ratio(a * d, b * c)
        } else {
            assert(0 < b * (-c) && b * (-c) == -(c * b)) by (nonlinear_arith)
                requires
                    b >= 1,
                    c < 0,
            ;
            Getal::from_ratio(-(a * d), b * (-c))
        }
    }

    /// `-self`.
    pub fn neg(&self) -> (r: Getal)
        ensures
            r@ == (-self@.0, self@.1),
    {
        proof {
            use_type_invariant(self);
        }
        Getal { num: -self.num, den: self.den }
    }

    pub fn is_zero(&self) -> (r: bool)
        ensures
            r == (self@.0 == 0),
    {
        self.num == 0
    }

    /// Exact comparison `self < other`.
    pub fn lt(&self, other: &Getal) -> (r: bool)
        ensures
            r == (self@.0 * other@.1 < other@.0 * self@.1),
    {
        proof {
            use_type_invariant(self);
            use_type_invariant(other);
        }
        let a = self.num as i128;
        let b = self.den as i128;
        let c = other.num as i128;
        let d = other.den as i128;
        proof { lemma_product_bounds(a, b, c, d); }
        a * d < c * b
    }

    /// Exact equality of values.
    pub fn same(&self, other: &Getal) -> (r: bool)
        ensures
            r == same_value(self@, other@),
    {
        proof {
            use_type_invariant(self);
            use_type_invariant(other);
        }
        let a = self.num as i128;
        let b = self.den as i128;
        let c = other.num as i128;
        let d = other.den as i128;
        proof { lemma_product_bounds(a, b, c, d); }
        a * d == c * b
    }

    pub fn is_integer(&self) -> (r: bool)
        ensures
            r == (self@.1 == 1),
    {
        self.den == 1
    }

    /// The value truncated toward zero.
    pub fn trunc(&self) -> (r: i64)
        ensures
            r == trunc_div(self@.0, self@.1),
    {
        proof {
            use_type_invariant(self);
        }
        if self.num >= 0 {
            self.num / self.den
        } else {
            let m: i64 = -self.num;
            proof {
                lemma_div_is_ordered_by_denominator(m as int, 1, self.den as int);
            }
            -(m / self.den)
        }
    }

    /// `self * scale`, rounded to the nearest integer with halves away from zero.
    pub fn round_scaled(&self, scale: i64) -> (r: i128)
        requires
            0 < scale <= 0x1_0000,
        ensures
            r == round_half_away(self@.0 * scale, self@.1),
            -0x1_0000_0000_0000_0000_0000 <= r <= 0x1_0000_0000_0000_0000_0000,
    {
        proof {
            use_type_invariant(self);
        }
        proof {
            lemma_mul_within(self.num as int, scale as int, i64::MAX as int);
            assert((i64::MAX as int) * (i64::MAX as int) == max_product());
            assert(-0x8000_0000_0000_0000_0000 <= (self.num as int) * (scale as int) <= 0x8000_0000_0000_0000_0000) by (nonlinear_arith)
                requires
                    i64::MIN < self.num,
                    0 < scale <= 0x1_0000,
            ;
        }
        let n = self.num as i128 * scale as i128;
        let d = self.den as i128;
        if n >= 0 {
            proof {
                lemma_div_is_ordered_by_denominator(2 * n + d, 2, 2 * d);
                lemma_div_pos_is_pos(2 * n + d, 2 * d);
            }
            (2 * n + d) / (2 * d)
        } else {
            let m = -n;
            let q = (2 * m + d) / (2 * d);
            proof {
                lemma_div_is_ordered_by_denominator(2 * m + d, 2, 2 * d);
                lemma_div_pos_is_pos(2 * m + d, 2 * d);
            }
            -q
        }
    }
}

/// The largest product of two stored numerators or denominators: `(2^63 - 1)^2`.
pub open spec fn max_product() -> int {
    0x3fff_ffff_ffff_ffff_0000_0000_0000_0001
}

proof fn lemma_mul_within(x: int, y: int, m: int)
    requires
        -m <= x <= m,
        0 <= y <= m,
    ensures
        -(m * m) <= x * y <= m * m,
{
    if x >= 0 {
        assert(x * y <= m * m) by (nonlinear_arith)
            requires
                0 <= x <= m,
                0 <= y <= m,
        ;
        assert(0 <= x * y) by (nonlinear_arith)
            requires
                0 <= x,
                0 <= y,
        ;
    } else {
        assert((-x) * y <= m * m) by (nonlinear_arith)
            requires
                0 <= -x <= m,
                0 <= y <= m,
        ;
        assert(0 <= (-x) * y) by (nonlinear_arith)
            requires
                0 <= -x,
                0 <= y,
        ;
        assert(x * y == -((-x) * y)) by (nonlinear_arith);
    }
}

proof fn lemma_product_bounds(a: i128, b: i128, c: i128, d: i128)
    requires
        i64::MIN < a <= i64::MAX,
        1 <= b <= i64::MAX,
        i64::MIN < c <= i64::MAX,
        1 <= d <= i64::MAX,
    ensures
        -max_product() <= a * d <= max_product(),
        -max_product() <= c * b <= max_product(),
        -max_product() <= a * c <= max_product(),
        1 <= b * d <= max_product(),
{
    let m = i64::MAX as int;
    assert(m * m == max_product());
    lemma_mul_within(a as int, d as int, m);
    lemma_mul_within(c as int, b as int, m);
    lemma_mul_within(b as int, d as int, m);
    if c >= 0 {
        lemma_mul_within(a as int, c as int, m);
    } else {
        lemma_mul_within(a as int, -c, m);
        assert(a * c == -(a * (-c))) by (nonlinear_arith);
    }
    assert(1 <= b * d) by (nonlinear_arith)
        requires
            1 <= b,
            1 <= d,
    ;
}

fn gcd_u128(a: u128, b: u128) -> (g: u128)
    ensures
        g == gcd(a as nat, b as nat),
    decreases b,
{
    if b == 0 {
        a
    } else {
        gcd_u128(b, a % b)
    }
}

// ---- laws -----------------------------------------------------------------------------------

/// Addition is exact: a computed sum denotes exactly `a + b`.
pub proof fn law_sum_exact(a: (int, int), b: (int, int))
    requires
        a.1 > 0,
        b.1 > 0,
    ensures
        sum_of(a, b) matches Some(r) ==> same_value(r, (a.0 * b.1 + b.0 * a.1, a.1 * b.1)),
{
    assert(a.1 * b.1 > 0) by (nonlinear_arith)
        requires
            a.1 > 0,
            b.1 > 0,
    ;
    lemma_normal_form_same_value(a.0 * b.1 + b.0 * a.1, a.1 * b.1);
}

/// Addition is commutative.
pub proof fn law_sum_commutes(a: (int, int), b: (int, int))
    ensures
        sum_of(a, b) == sum_of(b, a),
{
    assert(a.0 * b.1 + b.0 * a.1 == b.0 * a.1 + a.0 * b.1);
    assert(a.1 * b.1 == b.1 * a.1) by (nonlinear_arith);
}

/// Multiplication is commutative.
pub proof fn law_product_commutes(a: (int, int), b: (int, int))
    ensures
        product_of(a, b) == product_of(b, a),
{
    assert(a.0 * b.0 == b.0 * a.0) by (nonlinear_arith);
    assert(a.1 * b.1 == b.1 * a.1) by (nonlinear_arith);
}

} // verus!
