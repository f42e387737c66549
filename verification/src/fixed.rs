//! Signed decimal fixed-point numbers with twelve fractional digits.
//!
//! A [`Fixed`] holds a count of units of 10^-12 in an `i64`. Sums and
//! differences are exact, products and quotients are rounded toward zero, and
//! every result that leaves the representable range is pinned to the nearest
//! end of it.

use vstd::arithmetic::div_mod::{
    lemma_div_by_multiple, lemma_div_of0, lemma_div_is_ordered, lemma_div_pos_is_pos, lemma_fundamental_div_mod,
    lemma_mod_bound,
};
use vstd::arithmetic::mul::{
    lemma_mul_basics, lemma_mul_inequality, lemma_mul_is_commutative, lemma_mul_nonnegative,
    lemma_mul_nonzero, lemma_mul_unary_negation,
};
use vstd::prelude::*;

verus! {

/// Raw units in the value one.
pub const SCALE: i64 = 1_000_000_000_000;

/// The representable value nearest to `v`.
pub open spec fn saturate(v: int) -> int {
    if v < i64::MIN {
        i64::MIN as int
    } else if v > i64::MAX {
        i64::MAX as int
    } else {
        v
    }
}

/// The quotient of `n` by a non-zero `d`, rounded toward zero.
pub open spec fn quotient(n: int, d: int) -> int {
    if d > 0 {
        if n >= 0 {
            n / d
        } else {
            -((-n) / d)
        }
    } else {
        if n >= 0 {
            -(n / (-d))
        } else {
            (-n) / (-d)
        }
    }
}

/// Raw units of the sum of two values.
pub open spec fn fx_add(a: int, b: int) -> int {
    saturate(a + b)
}

/// Raw units of the difference of two values.
pub open spec fn fx_sub(a: int, b: int) -> int {
    saturate(a - b)
}

/// Raw units of the product of two values.
pub open spec fn fx_mul(a: int, b: int) -> int {
    saturate(quotient(a * b, SCALE as int))
}

/// Raw units of the quotient of two values, the second one non-zero.
pub open spec fn fx_div(a: int, b: int) -> int {
    saturate(quotient(a * SCALE, b))
}

/// A decimal fixed-point number; its view is the count of raw units.
#[derive(Clone, Copy, Debug, PartialEq, Eq, Structural)]
pub struct Fixed {
    pub units: i64,
}

impl View for Fixed {
    type V = int;

    open spec fn view(&self) -> int {
        self.units as int
    }
}

/// Rounding toward zero never overshoots and falls short by less than one
/// divisor.
pub proof fn lemma_quotient_bounds(n: int, d: int)
    requires
        d > 0,
    ensures
        n >= 0 ==> 0 <= quotient(n, d) && quotient(n, d) * d <= n < quotient(n, d) * d + d,
        n <= 0 ==> quotient(n, d) <= 0 && quotient(n, d) * d - d < n <= quotient(n, d) * d,
{
    let m = if n >= 0 { n } else { -n };
    lemma_fundamental_div_mod(m, d);
    lemma_mod_bound(m, d);
    lemma_div_pos_is_pos(m, d);
    lemma_mul_is_commutative(m / d, d);
    lemma_mul_unary_negation(m / d, d);
}

/// Rounding toward zero keeps the order of the dividends.
pub proof fn lemma_quotient_is_monotonic(n1: int, n2: int, d: int)
    requires
        d > 0,
        n1 <= n2,
    ensures
        quotient(n1, d) <= quotient(n2, d),
{
    if n1 >= 0 {
        lemma_div_is_ordered(n1, n2, d);
    } else if n2 < 0 {
        lemma_div_is_ordered(-n2, -n1, d);
    } else {
        lemma_quotient_bounds(n1, d);
        lemma_quotient_bounds(n2, d);
    }
}

/// A multiple of the divisor is divided exactly.
pub proof fn lemma_quotient_of_multiple(k: int, d: int)
    requires
        d != 0,
    ensures
        quotient(k * d, d) == k,
{
    // The dividend as a product of two factors that are not negative.
    let (kk, dd) = (if k >= 0 { k } else { -k }, if d > 0 { d } else { -d });
    lemma_mul_unary_negation(k, d);
    lemma_mul_unary_negation(k, -d);
    lemma_mul_nonnegative(kk, dd);
    lemma_div_by_multiple(kk, dd);
    if kk * dd == 0 {
        lemma_mul_nonzero(kk, dd);
    }
}

/// Multiplying by zero gives zero.
pub proof fn lemma_times_zero(a: int)
    ensures
        fx_mul(a, 0) == 0,
        fx_mul(0, a) == 0,
{
    lemma_mul_basics(a);
    lemma_div_of0(SCALE as int);
}

/// Multiplying a value in range by one leaves it as it is.
pub proof fn lemma_times_one(a: int)
    requires
        i64::MIN <= a <= i64::MAX,
    ensures
        fx_mul(a, SCALE as int) == a,
        fx_mul(SCALE as int, a) == a,
{
    lemma_quotient_of_multiple(a, SCALE as int);
    lemma_mul_is_commutative(a, SCALE as int);
}

/// The order of the factors does not matter.
pub proof fn lemma_times_commutes(a: int, b: int)
    ensures
        fx_mul(a, b) == fx_mul(b, a),
{
    lemma_mul_is_commutative(a, b);
}

/// A product has the sign of its factors' product.
pub proof fn lemma_times_sign(a: int, b: int)
    ensures
        (a >= 0 && b >= 0) || (a <= 0 && b <= 0) ==> fx_mul(a, b) >= 0 && a * b >= 0,
        (a >= 0 && b <= 0) || (a <= 0 && b >= 0) ==> fx_mul(a, b) <= 0 && a * b <= 0,
{
    assert((a >= 0 && b >= 0) || (a <= 0 && b <= 0) ==> a * b >= 0) by (nonlinear_arith);
    assert((a >= 0 && b <= 0) || (a <= 0 && b >= 0) ==> a * b <= 0) by (nonlinear_arith);
    lemma_quotient_bounds(a * b, SCALE as int);
}

/// A factor of magnitude at least one does not bring the other factor
/// closer to zero.
pub proof fn lemma_times_large_factor(a: int, b: int)
    requires
        a >= SCALE || a <= -SCALE,
    ensures
        a >= SCALE && b >= 0 ==> fx_mul(a, b) >= saturate(b),
        a >= SCALE && b <= 0 ==> fx_mul(a, b) <= saturate(b),
        a <= -SCALE && b >= 0 ==> fx_mul(a, b) <= saturate(-b),
        a <= -SCALE && b <= 0 ==> fx_mul(a, b) >= saturate(-b),
{
    let s = SCALE as int;
    // The exact product is at least as far from zero as `b` times one.
    let one_b = if a >= s { b * s } else { (-b) * s };
    lemma_mul_is_commutative(a, b);
    lemma_mul_unary_negation(b, a);
    lemma_mul_unary_negation(b, s);
    if b >= 0 {
        lemma_mul_inequality(s, if a >= s { a } else { -a }, b);
        lemma_mul_is_commutative(s, b);
        lemma_mul_is_commutative(if a >= s { a } else { -a }, b);
    } else {
        lemma_mul_inequality(s, if a >= s { a } else { -a }, -b);
        lemma_mul_is_commutative(s, -b);
        lemma_mul_is_commutative(if a >= s { a } else { -a }, -b);
        lemma_mul_unary_negation(b, -a);
    }
    if (a >= s) == (b >= 0) {
        assert(a * b >= one_b);
        lemma_quotient_is_monotonic(one_b, a * b, s);
    } else {
        assert(a * b <= one_b);
        lemma_quotient_is_monotonic(a * b, one_b, s);
    }
    lemma_quotient_of_multiple(b, s);
    lemma_quotient_of_multiple(-b, s);
}

/// A product that is not pinned to an end of the range is the exact product
/// cut off toward zero: it is less than one raw unit away from it and never
/// larger in magnitude.
pub proof fn lemma_product_error(a: int, b: int)
    requires
        i64::MIN <= quotient(a * b, SCALE as int) <= i64::MAX,
    ensures
        a * b >= 0 ==> 0 <= fx_mul(a, b) * SCALE <= a * b < fx_mul(a, b) * SCALE + SCALE,
        a * b <= 0 ==> fx_mul(a, b) * SCALE - SCALE < a * b <= fx_mul(a, b) * SCALE <= 0,
{
    lemma_quotient_bounds(a * b, SCALE as int);
}

/// A quotient that is not pinned to an end of the range is the exact quotient
/// cut off toward zero: multiplied back by the divisor it is less than one
/// divisor away from the dividend and never larger in magnitude.
pub proof fn lemma_quotient_error(a: int, b: int)
    requires
        b != 0,
        i64::MIN <= quotient(a * SCALE, b) <= i64::MAX,
    ensures
        ({
            let n = a * SCALE;
            let back = fx_div(a, b) * b;
            let size = if b > 0 { b } else { -b };
            &&& n >= 0 ==> 0 <= back <= n < back + size
            &&& n <= 0 ==> back - size < n <= back <= 0
        }),
{
    let n = a * SCALE;
    let q = quotient(n, b);
    if b > 0 {
        lemma_quotient_bounds(n, b);
    } else {
        lemma_quotient_bounds(-n, -b);
        lemma_div_of0(-b);
        assert(q == quotient(-n, -b));
        lemma_mul_unary_negation(q, b);
    }
    assert((n >= 0 ==> q * b >= 0) && (n <= 0 ==> q * b <= 0)) by (nonlinear_arith)
        requires
            (b > 0 && n >= 0) || (b < 0 && n <= 0) ==> q >= 0,
            (b > 0 && n <= 0) || (b < 0 && n >= 0) ==> q <= 0,
            b != 0,
    ;
}

/// Euclidean division by `-d` negates the quotient by `d`.
proof fn lemma_negated_divisor(x: int, d: int)
    by (nonlinear_arith)
    requires
        d != 0,
    ensures
        x / (-d) == -(x / d),
{
}

fn clamp(v: i128) -> (r: i64)
    ensures
        r == saturate(v as int),
{
    if v < i64::MIN as i128 {
        i64::MIN
    } else if v > i64::MAX as i128 {
        i64::MAX
    } else {
        v as i64
    }
}

impl Fixed {
    /// The number made of `units` raw units.
    pub fn from_raw(units: i64) -> (r: Fixed)
        ensures
            r@ == units,
    {
        Fixed { units }
    }

    /// The count of raw units.
    pub fn raw(self) -> (r: i64)
        ensures
            r == self@,
    {
        self.units
    }

    /// The value zero.
    pub fn zero() -> (r: Fixed)
        ensures
            r@ == 0,
    {
        Fixed { units: 0 }
    }

    /// The value one.
    pub fn one() -> (r: Fixed)
        ensures
            r@ == SCALE,
    {
        Fixed { units: SCALE }
    }

    /// Saturating sum.
    pub fn plus(self, rhs: Fixed) -> (r: Fixed)
        ensures
            r@ == fx_add(self@, rhs@),
    {
        Fixed { units: clamp(self.units as i128 + rhs.units as i128) }
    }

    /// Saturating difference.
    pub fn minus(self, rhs: Fixed) -> (r: Fixed)
        ensures
            r@ == fx_sub(self@, rhs@),
    {
        Fixed { units: clamp(self.units as i128 - rhs.units as i128) }
    }

    /// Saturating product, rounded toward zero.
    pub fn times(self, rhs: Fixed) -> (r: Fixed)
        ensures
            r@ == fx_mul(self@, rhs@),
    {
        let a: i128 = self.units as i128;
        let b: i128 = rhs.units as i128;
        assert(-0x4000_0000_0000_0000_0000_0000_0000_0000 <= a * b
            <= 0x4000_0000_0000_0000_0000_0000_0000_0000) by (nonlinear_arith)
            requires
                -0x8000_0000_0000_0000 <= a <= 0x8000_0000_0000_0000,
                -0x8000_0000_0000_0000 <= b <= 0x8000_0000_0000_0000,
        ;
        let p: i128 = a * b;
        Fixed { units: clamp(p / (SCALE as i128)) }
    }

    /// Saturating quotient, rounded toward zero.
    pub fn over(self, rhs: Fixed) -> (r: Fixed)
        requires
            rhs@ != 0,
        ensures
            r@ == fx_div(self@, rhs@),
    {
        let n: i128 = (self.units as i128) * (SCALE as i128);
        let d: i128 = rhs.units as i128;
        assert(n == self.units * 1_000_000_000_000);
        proof {
            lemma_negated_divisor(n as int, d as int);
            lemma_negated_divisor(-(n as int), d as int);
        }
        Fixed { units: clamp(n / d) }
    }
}

} // verus!
