//! Signed fixed-point scalars with 24 fractional bits.

use vstd::prelude::*;

verus! {

/// Number of fractional bits of a [`Fixed`].
pub const FRACTION_BITS: u32 = 24;

/// The raw value that stands for `1.0`.
pub const SCALE: i64 = 16777216;

/// A signed fixed-point number: the value is `raw / 2^24`.
///
/// Every `i64` is a valid raw value, so every `Fixed` is a finite number between
/// about `-5.5e11` and `5.5e11`, in steps of about `6e-8`.
#[derive(Clone, Copy, Debug, PartialEq, Eq, Structural)]
pub struct Fixed {
    pub raw: i64,
}

impl View for Fixed {
    type V = int;

    /// The raw value as a mathematical integer.
    open spec fn view(&self) -> int {
        self.raw as int
    }
}

/// `n` clamped to the range of raw values.
pub open spec fn saturate(n: int) -> int {
    if n < i64::MIN as int {
        i64::MIN as int
    } else if n > i64::MAX as int {
        i64::MAX as int
    } else {
        n
    }
}

/// The absolute value of `n`.
pub open spec fn magnitude(n: int) -> int {
    if n < 0 {
        -n
    } else {
        n
    }
}

/// The quotient `n / d` rounded toward zero, for `d > 0`.
pub open spec fn div_toward_zero(n: int, d: int) -> int {
    if n >= 0 {
        n / d
    } else {
        -((-n) / d)
    }
}

/// The quotient `n / d` rounded away from zero, for `d > 0`.
pub open spec fn div_away_from_zero(n: int, d: int) -> int {
    let q = div_toward_zero(n, d);
    if q * d == n {
        q
    } else if n > 0 {
        q + 1
    } else {
        q - 1
    }
}

/// The raw value of a product of two raw values, rounded toward zero.
pub open spec fn mul_toward_zero(a: int, b: int) -> int {
    div_toward_zero(a * b, SCALE as int)
}

/// The raw value of a product of two raw values, rounded away from zero.
pub open spec fn mul_away_from_zero(a: int, b: int) -> int {
    div_away_from_zero(a * b, SCALE as int)
}

/// The raw value of the quotient of two raw values, rounded toward zero, for `b != 0`.
pub open spec fn quotient_toward_zero(a: int, b: int) -> int {
    if b > 0 {
        div_toward_zero(a * (SCALE as int), b)
    } else {
        div_toward_zero(-a * (SCALE as int), -b)
    }
}

/// The product of two raw values fits a 128-bit integer with room to spare.
pub proof fn lemma_product_bounds(a: int, b: int)
    requires
        -0x8000_0000_0000_0000 <= a <= 0x7fff_ffff_ffff_ffff,
        -0x8000_0000_0000_0000 <= b <= 0x7fff_ffff_ffff_ffff,
    ensures
        -0x4000_0000_0000_0000_0000_0000_0000_0000 <= a * b
            <= 0x4000_0000_0000_0000_0000_0000_0000_0000,
{
    assert(-0x4000_0000_0000_0000_0000_0000_0000_0000 <= a * b
        <= 0x4000_0000_0000_0000_0000_0000_0000_0000) by (nonlinear_arith)
        requires
            -0x8000_0000_0000_0000 <= a <= 0x7fff_ffff_ffff_ffff,
            -0x8000_0000_0000_0000 <= b <= 0x7fff_ffff_ffff_ffff,
    ;
}

/// What rounding toward zero keeps: the quotient has the sign of the numerator, and
/// multiplying it back falls short of the numerator by less than the divisor.
pub proof fn lemma_div_toward_zero(n: int, d: int)
    requires
        d > 0,
    ensures
        n >= 0 ==> 0 <= div_toward_zero(n, d) * d <= n < div_toward_zero(n, d) * d + d,
        n <= 0 ==> 0 >= div_toward_zero(n, d) * d >= n > div_toward_zero(n, d) * d - d,
        n >= 0 ==> 0 <= div_toward_zero(n, d) <= n,
        n <= 0 ==> n <= div_toward_zero(n, d) <= 0,
{
    let m = magnitude(n);
    let k = m / d;
    assert(0 <= k * d <= m < k * d + d && 0 <= k <= m) by (nonlinear_arith)
        requires
            m >= 0,
            d >= 1,
            k == m / d,
    ;
    assert((-k) * d == -(k * d)) by (nonlinear_arith);
}

/// What rounding away from zero keeps: the quotient has the sign of the numerator, and
/// multiplying it back overshoots the numerator by less than the divisor.
pub proof fn lemma_div_away_from_zero(n: int, d: int)
    requires
        d > 0,
    ensures
        n >= 0 ==> 0 <= n <= div_away_from_zero(n, d) * d < n + d,
        n <= 0 ==> 0 >= n >= div_away_from_zero(n, d) * d > n - d,
        n >= 0 ==> 0 <= div_away_from_zero(n, d) <= n,
        n <= 0 ==> n <= div_away_from_zero(n, d) <= 0,
{
    lemma_div_toward_zero(n, d);
    let q = div_toward_zero(n, d);
    assert((q + 1) * d == q * d + d && (q - 1) * d == q * d - d) by (nonlinear_arith);
    if q * d != n {
        if n > 0 {
            assert(q + 1 <= n) by (nonlinear_arith)
                requires
                    q * d < n,
                    q >= 0,
                    d >= 1,
            ;
        } else {
            assert(q - 1 >= n) by (nonlinear_arith)
                requires
                    q * d > n,
                    q <= 0,
                    d >= 1,
            ;
        }
    }
}

/// Multiplying by one changes nothing, and multiplying by zero gives zero.
pub proof fn lemma_mul_by_one_or_zero(x: int)
    ensures
        mul_toward_zero(SCALE as int, x) == x,
        mul_toward_zero(x, SCALE as int) == x,
        mul_toward_zero(0, x) == 0,
        mul_toward_zero(x, 0) == 0,
{
    let s = SCALE as int;
    assert(s * x == x * s && 0 * x == 0 && x * 0 == 0) by (nonlinear_arith);
    assert((x * s) / s == x && (-(x * s)) / s == -x) by (nonlinear_arith)
        requires
            s == 16777216,
    ;
}

/// The exact product of two raw values.
pub fn wide_product(a: i64, b: i64) -> (r: i128)
    ensures
        r as int == (a as int) * (b as int),
{
    proof {
        lemma_product_bounds(a as int, b as int);
    }
    (a as i128) * (b as i128)
}

/// `n / d` rounded toward zero.
pub fn wide_div_toward_zero(n: i128, d: i64) -> (r: i128)
    requires
        d > 0,
    ensures
        r as int == div_toward_zero(n as int, d as int),
{
    n / (d as i128)
}

/// `n / d` rounded away from zero.
pub fn wide_div_away_from_zero(n: i128, d: i64) -> (r: i128)
    requires
        d > 0,
    ensures
        r as int == div_away_from_zero(n as int, d as int),
{
    let q: i128 = n / (d as i128);
    proof {
        lemma_div_toward_zero(n as int, d as int);
        lemma_div_away_from_zero(n as int, d as int);
    }
    if q * (d as i128) == n {
        q
    } else if n > 0 {
        q + 1
    } else {
        q - 1
    }
}

/// The raw value of the quotient of a wide raw value by a raw value, rounded toward zero.
pub fn wide_quotient(numerator: i128, denominator: i64) -> (r: i128)
    requires
        denominator != 0,
        -0x10_0000_0000_0000_0000_0000_0000 <= numerator <= 0x10_0000_0000_0000_0000_0000_0000,
    ensures
        r as int == quotient_toward_zero(numerator as int, denominator as int),
{
    let scaled: i128 = numerator * (SCALE as i128);
    if denominator > 0 {
        scaled / (denominator as i128)
    } else {
        proof {
            assert(-(numerator * (SCALE as int)) == -numerator * (SCALE as int))
                by (nonlinear_arith);
        }
        (-scaled) / (-(denominator as i128))
    }
}

/// A wide value clamped to the range of raw values.
pub fn narrow(n: i128) -> (r: Fixed)
    ensures
        r@ == saturate(n as int),
{
    if n < i64::MIN as i128 {
        Fixed { raw: i64::MIN }
    } else if n > i64::MAX as i128 {
        Fixed { raw: i64::MAX }
    } else {
        Fixed { raw: n as i64 }
    }
}

impl Fixed {
    /// The number zero.
    pub fn zero() -> (r: Fixed)
        ensures
            r@ == 0,
    {
        Fixed { raw: 0 }
    }

    /// The number one.
    pub fn one() -> (r: Fixed)
        ensures
            r@ == SCALE,
    {
        Fixed { raw: SCALE }
    }

    /// The number whose raw value is `raw`.
    pub fn from_raw(raw: i64) -> (r: Fixed)
        ensures
            r@ == raw,
    {
        Fixed { raw }
    }

    /// The whole number `n`, saturated to the representable range.
    pub fn from_int(n: i64) -> (r: Fixed)
        ensures
            r@ == saturate(n * SCALE),
    {
        narrow(wide_product(n, SCALE))
    }

    /// The fraction `numerator / denominator` rounded toward zero and saturated; `None` exactly
    /// when the denominator is zero.
    pub fn from_ratio(numerator: i64, denominator: i64) -> (r: Option<Fixed>)
        ensures
            denominator == 0 <==> r is None,
            r matches Some(q) ==> q@ == saturate(
                quotient_toward_zero(numerator as int, denominator as int),
            ),
    {
        Fixed { raw: numerator }.checked_div(Fixed { raw: denominator })
    }

    /// The raw value.
    pub fn raw(self) -> (r: i64)
        ensures
            r == self@,
    {
        self.raw
    }

    /// The sum, saturated to the representable range.
    pub fn saturating_add(self, rhs: Fixed) -> (r: Fixed)
        ensures
            r@ == saturate(self@ + rhs@),
    {
        narrow(self.raw as i128 + rhs.raw as i128)
    }

    /// The difference, saturated to the representable range.
    pub fn saturating_sub(self, rhs: Fixed) -> (r: Fixed)
        ensures
            r@ == saturate(self@ - rhs@),
    {
        narrow(self.raw as i128 - rhs.raw as i128)
    }

    /// The negation, saturated to the representable range.
    pub fn saturating_neg(self) -> (r: Fixed)
        ensures
            r@ == saturate(-self@),
    {
        narrow(-(self.raw as i128))
    }

    /// The product rounded toward zero, saturated to the representable range.
    pub fn saturating_mul(self, rhs: Fixed) -> (r: Fixed)
        ensures
            r@ == saturate(mul_toward_zero(self@, rhs@)),
    {
        narrow(wide_div_toward_zero(wide_product(self.raw, rhs.raw), SCALE))
    }

    /// The quotient rounded toward zero, saturated to the representable range; `None` exactly
    /// when the divisor is zero.
    pub fn checked_div(self, rhs: Fixed) -> (r: Option<Fixed>)
        ensures
            rhs@ == 0 <==> r is None,
            r matches Some(q) ==> q@ == saturate(quotient_toward_zero(self@, rhs@)),
    {
        if rhs.raw == 0 {
            None
        } else {
            Some(narrow(wide_quotient(self.raw as i128, rhs.raw)))
        }
    }

    /// The distance between two numbers, in raw units.
    pub fn abs_diff(self, other: Fixed) -> (r: u64)
        ensures
            r == magnitude(self@ - other@),
    {
        let d: i128 = self.raw as i128 - other.raw as i128;
        if d < 0 {
            (-d) as u64
        } else {
            d as u64
        }
    }

    /// Whether two numbers differ by at most `tolerance`. A negative tolerance admits nothing.
    pub fn within(self, other: Fixed, tolerance: Fixed) -> (r: bool)
        ensures
            r == (magnitude(self@ - other@) <= tolerance@),
    {
        tolerance.raw >= 0 && self.abs_diff(other) <= tolerance.raw as u64
    }
}

} // verus!
