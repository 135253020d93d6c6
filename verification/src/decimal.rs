//! Fixed-point decimal values, as `rust_decimal::Decimal` represents them: a
//! mantissa of at most 96 bits and a scale of at most 28 decimal places.

use vstd::prelude::*;

verus! {

/// The largest mantissa magnitude a decimal holds: `2^96 - 1`.
pub const MAX_MANTISSA: i128 = 79228162514264337593543950335i128;

/// The largest scale a decimal holds.
pub const MAX_SCALE: u32 = 28u32;

/// `10^n`.
pub open spec fn pow10(n: nat) -> int
    decreases n,
{
    if n == 0 {
        1
    } else {
        10 * pow10((n - 1) as nat)
    }
}

/// A decimal number `mantissa / 10^scale`.
#[derive(Debug, Clone, Copy, PartialEq, Eq, Structural)]
pub struct Dec {
    /// The signed integer the value is a scaling of.
    pub mantissa: i128,
    /// How many of the mantissa's digits stand after the decimal point.
    pub scale: u32,
}

impl Dec {
    /// Whether the parts are within a decimal's range.
    pub open spec fn wf(self) -> bool {
        &&& -MAX_MANTISSA <= self.mantissa <= MAX_MANTISSA
        &&& self.scale <= MAX_SCALE
    }

    /// Whether `self` and `other` denote the same number, whatever their scales.
    pub open spec fn same_value(self, other: Dec) -> bool {
        self.mantissa * pow10(other.scale as nat) == other.mantissa * pow10(self.scale as nat)
    }

    /// The value zero.
    pub fn zero() -> (r: Dec)
        ensures
            r.wf(),
            r.mantissa == 0,
            r.scale == 0,
    {
        Dec { mantissa: 0, scale: 0 }
    }

    /// Builds `mantissa / 10^scale`.
    pub fn new(mantissa: i128, scale: u32) -> (r: Dec)
        ensures
            r.mantissa == mantissa,
            r.scale == scale,
    {
        Dec { mantissa, scale }
    }

    /// Whether the value is zero.
    pub fn is_zero(&self) -> (r: bool)
        ensures
            r == (self.mantissa == 0),
    {
        self.mantissa == 0
    }

    /// Whether `self` and `other` denote the same number, as `Decimal`'s `==`
    /// compares them.
    pub fn value_eq(&self, other: &Dec) -> (r: bool)
        requires
            self.wf(),
            other.wf(),
        ensures
            r == self.same_value(*other),
    {
        if self.scale <= other.scale {
            Self::scaled_eq(self.mantissa, other.mantissa, other.scale - self.scale, self.scale, other.scale)
        } else {
            Self::scaled_eq(other.mantissa, self.mantissa, self.scale - other.scale, other.scale, self.scale)
        }
    }

    /// Whether `low * 10^diff == high`, for mantissas within range.
    fn scaled_eq(low: i128, high: i128, diff: u32, low_scale: u32, high_scale: u32) -> (r: bool)
        requires
            -MAX_MANTISSA <= low <= MAX_MANTISSA,
            -MAX_MANTISSA <= high <= MAX_MANTISSA,
            low_scale + diff == high_scale,
            high_scale <= MAX_SCALE,
        ensures
            r == (low * pow10(high_scale as nat) == high * pow10(low_scale as nat)),
    {
        proof {
            lemma_pow10_split(low_scale as nat, diff as nat);
            lemma_pow10_positive(low_scale as nat);
        }
        let mut x = low;
        let mut k: u32 = 0;
        while k < diff
            invariant
                k <= diff,
                x == low * pow10(k as nat),
                -MAX_MANTISSA <= x <= MAX_MANTISSA,
                -MAX_MANTISSA <= high <= MAX_MANTISSA,
                -MAX_MANTISSA <= low <= MAX_MANTISSA,
                low_scale + diff == high_scale,
            decreases diff - k,
        {
            if x > MAX_MANTISSA / 10 || x < -(MAX_MANTISSA / 10) {
                proof {
                    lemma_scaled_out_of_range(low, high, x, k as nat, diff as nat, low_scale as nat);
                }
                return false;
            }
            proof {
                assert(pow10((k + 1) as nat) == 10 * pow10(k as nat));
                assert(low * pow10((k + 1) as nat) == 10 * (low * pow10(k as nat))) by (nonlinear_arith)
                    requires pow10((k + 1) as nat) == 10 * pow10(k as nat);
            }
            x = x * 10;
            k = k + 1;
        }
        proof {
            assert(low * pow10(high_scale as nat) == x * pow10(low_scale as nat)) by (nonlinear_arith)
                requires
                    pow10(high_scale as nat) == pow10(low_scale as nat) * pow10(diff as nat),
                    x == low * pow10(diff as nat);
            assert((x * pow10(low_scale as nat) == high * pow10(low_scale as nat)) == (x == high)) by (nonlinear_arith)
                requires pow10(low_scale as nat) > 0;
        }
        x == high
    }
}

/// `10^n` is positive.
pub proof fn lemma_pow10_positive(n: nat)
    ensures
        pow10(n) >= 1,
    decreases n,
{
    if n > 0 {
        lemma_pow10_positive((n - 1) as nat);
    }
}

/// `10^(a+b) == 10^a * 10^b`.
pub proof fn lemma_pow10_split(a: nat, b: nat)
    ensures
        pow10(a + b) == pow10(a) * pow10(b),
    decreases b,
{
    if b > 0 {
        lemma_pow10_split(a, (b - 1) as nat);
        assert(pow10(a + b) == 10 * pow10((a + b - 1) as nat));
        assert(pow10(a) * pow10(b) == pow10(a) * (10 * pow10((b - 1) as nat)));
        assert(pow10(a) * (10 * pow10((b - 1) as nat)) == 10 * (pow10(a) * pow10((b - 1) as nat))) by (nonlinear_arith);
    }
}

/// Once a scaled-up mantissa outgrows the range, scaling it further keeps it
/// out of reach of any in-range mantissa.
proof fn lemma_scaled_out_of_range(low: i128, high: i128, x: i128, k: nat, diff: nat, s: nat)
    requires
        k < diff,
        x == low * pow10(k),
        x > MAX_MANTISSA / 10 || x < -(MAX_MANTISSA / 10),
        -MAX_MANTISSA <= high <= MAX_MANTISSA,
    ensures
        low * pow10(s + diff) != high * pow10(s),
{
    lemma_pow10_split(k, (diff - k) as nat);
    lemma_pow10_split(s, diff);
    lemma_pow10_positive(s);
    lemma_pow10_positive((diff - k - 1) as nat);
    let rest = pow10((diff - k) as nat);
    assert(k + (diff - k) as nat == diff);
    assert(pow10(diff) == pow10(k) * rest);
    assert(rest == 10 * pow10((diff - k - 1) as nat));
    assert(rest >= 10);
    let y = low * pow10(diff);
    assert(y == x * rest) by (nonlinear_arith)
        requires
            y == low * pow10(diff),
            pow10(diff) == pow10(k) * rest,
            x == low * pow10(k);
    assert(y > MAX_MANTISSA || y < -MAX_MANTISSA) by (nonlinear_arith)
        requires
            y == x * rest,
            rest >= 10,
            x > MAX_MANTISSA / 10 || x < -(MAX_MANTISSA / 10);
    assert(low * pow10(s + diff) == y * pow10(s)) by (nonlinear_arith)
        requires pow10(s + diff) == pow10(s) * pow10(diff), y == low * pow10(diff);
    assert(y * pow10(s) != high * pow10(s)) by (nonlinear_arith)
        requires
            pow10(s) >= 1,
            y > MAX_MANTISSA || y < -MAX_MANTISSA,
            -MAX_MANTISSA <= high <= MAX_MANTISSA;
}

/// What `Decimal::checked_sub` returns for `a - b`, by the parts of the
/// operands and of the result: `None` on overflow.
pub uninterp spec fn decimal_difference(a_mantissa: i128, a_scale: u32, b_mantissa: i128, b_scale: u32) -> Option<(i128, u32)>;

/// Subtracts through `rust_decimal::Decimal::checked_sub`.
///
/// Trusted: claims that the parts of the result are [`decimal_difference`] of
/// the parts of the operands — a function of the operands alone — that a
/// result is a decimal within range, as every `Decimal` is, and that a value
/// minus itself is zero. What the difference is otherwise, including how it
/// rounds when the exact difference needs more than 96 bits, is left to the
/// name.
#[verifier::external_body]
pub fn checked_sub(a: &Dec, b: &Dec) -> (r: Option<Dec>)
    requires
        a.wf(),
        b.wf(),
    ensures
        r matches Some(d) ==> d.wf() && decimal_difference(a.mantissa, a.scale, b.mantissa, b.scale) == Some((d.mantissa, d.scale)),
        r is None ==> decimal_difference(a.mantissa, a.scale, b.mantissa, b.scale) is None,
        r is Some || a != b,
        r matches Some(d) ==> a != b || d.mantissa == 0,
{
    let x = rust_decimal::Decimal::from_i128_with_scale(a.mantissa, a.scale);
    let y = rust_decimal::Decimal::from_i128_with_scale(b.mantissa, b.scale);
    match x.checked_sub(y) {
        Some(d) => Some(Dec { mantissa: d.mantissa(), scale: d.scale() }),
        None => None,
    }
}

/// What `Decimal::checked_add` returns for `a + b`: `None` on overflow.
pub uninterp spec fn decimal_sum(a_mantissa: i128, a_scale: u32, b_mantissa: i128, b_scale: u32) -> Option<(i128, u32)>;

/// Adds through `rust_decimal::Decimal::checked_add`.
///
/// Trusted: claims that the parts of the result are [`decimal_sum`] of the
/// parts of the operands and that a result is within range. What the sum is,
/// and how it rounds, is left to the name.
#[verifier::external_body]
pub fn checked_add(a: &Dec, b: &Dec) -> (r: Option<Dec>)
    requires
        a.wf(),
        b.wf(),
    ensures
        r matches Some(d) ==> d.wf() && decimal_sum(a.mantissa, a.scale, b.mantissa, b.scale) == Some((d.mantissa, d.scale)),
        r is None ==> decimal_sum(a.mantissa, a.scale, b.mantissa, b.scale) is None,
{
    let x = rust_decimal::Decimal::from_i128_with_scale(a.mantissa, a.scale);
    let y = rust_decimal::Decimal::from_i128_with_scale(b.mantissa, b.scale);
    match x.checked_add(y) {
        Some(d) => Some(Dec { mantissa: d.mantissa(), scale: d.scale() }),
        None => None,
    }
}

/// What `Decimal::checked_mul` returns for `a * b`: `None` on overflow.
pub uninterp spec fn decimal_product(a_mantissa: i128, a_scale: u32, b_mantissa: i128, b_scale: u32) -> Option<(i128, u32)>;

/// Multiplies through `rust_decimal::Decimal::checked_mul`.
///
/// Trusted: claims that the parts of the result are [`decimal_product`] of
/// the parts of the operands and that a result is within range. What the
/// product is, and how it rounds, is left to the name.
#[verifier::external_body]
pub fn checked_mul(a: &Dec, b: &Dec) -> (r: Option<Dec>)
    requires
        a.wf(),
        b.wf(),
    ensures
        r matches Some(d) ==> d.wf() && decimal_product(a.mantissa, a.scale, b.mantissa, b.scale) == Some((d.mantissa, d.scale)),
        r is None ==> decimal_product(a.mantissa, a.scale, b.mantissa, b.scale) is None,
{
    let x = rust_decimal::Decimal::from_i128_with_scale(a.mantissa, a.scale);
    let y = rust_decimal::Decimal::from_i128_with_scale(b.mantissa, b.scale);
    match x.checked_mul(y) {
        Some(d) => Some(Dec { mantissa: d.mantissa(), scale: d.scale() }),
        None => None,
    }
}

/// What `Decimal::checked_div` returns for `a / b`: `None` when `b` is zero
/// or on overflow.
pub uninterp spec fn decimal_quotient(a_mantissa: i128, a_scale: u32, b_mantissa: i128, b_scale: u32) -> Option<(i128, u32)>;

/// Divides through `rust_decimal::Decimal::checked_div`.
///
/// Trusted: claims that the parts of the result are [`decimal_quotient`] of
/// the parts of the operands, that a result is within range, and that
/// dividing by zero gives `None`, as the method's documentation and source
/// say. What the quotient is, and how it rounds, is left to the name.
#[verifier::external_body]
pub fn checked_div(a: &Dec, b: &Dec) -> (r: Option<Dec>)
    requires
        a.wf(),
        b.wf(),
    ensures
        r matches Some(d) ==> d.wf() && decimal_quotient(a.mantissa, a.scale, b.mantissa, b.scale) == Some((d.mantissa, d.scale)),
        r is None ==> decimal_quotient(a.mantissa, a.scale, b.mantissa, b.scale) is None,
        b.mantissa == 0 ==> r is None,
{
    let x = rust_decimal::Decimal::from_i128_with_scale(a.mantissa, a.scale);
    let y = rust_decimal::Decimal::from_i128_with_scale(b.mantissa, b.scale);
    match x.checked_div(y) {
        Some(d) => Some(Dec { mantissa: d.mantissa(), scale: d.scale() }),
        None => None,
    }
}

/// What `Decimal::round_dp` returns for `a` rounded to `dp` places.
pub uninterp spec fn decimal_rounded(a_mantissa: i128, a_scale: u32, dp: u32) -> (i128, u32);

/// Rounds through `rust_decimal::Decimal::round_dp` (half to even).
///
/// Trusted: claims that the parts of the result are [`decimal_rounded`] of
/// the operand's parts and the places, and that it is within range. The
/// rounding itself is left to the name.
#[verifier::external_body]
pub fn round_dp(a: &Dec, dp: u32) -> (r: Dec)
    requires
        a.wf(),
    ensures
        r.wf(),
        decimal_rounded(a.mantissa, a.scale, dp) == (r.mantissa, r.scale),
{
    let d = rust_decimal::Decimal::from_i128_with_scale(a.mantissa, a.scale).round_dp(dp);
    Dec { mantissa: d.mantissa(), scale: d.scale() }
}

/// What `u32::try_from(Decimal)` returns for `mantissa / 10^scale`: `None`
/// for a negative value, else the value with its fraction cut off, `None`
/// when that exceeds `u32::MAX`.
pub open spec fn decimal_as_u32(a_mantissa: i128, a_scale: u32) -> Option<u32> {
    if a_mantissa < 0 {
        None
    } else {
        let whole = a_mantissa as int / pow10(a_scale as nat);
        if whole <= u32::MAX { Some(whole as u32) } else { None }
    }
}

/// Converts through `u32::try_from(rust_decimal::Decimal)`.
///
/// Trusted: claims the result is [`decimal_as_u32`] of the operand's parts:
/// `Decimal`'s conversion refuses a negative value, truncates the rest and
/// refuses what does not fit.
#[verifier::external_body]
pub fn to_u32(a: &Dec) -> (r: Option<u32>)
    requires
        a.wf(),
    ensures
        r == decimal_as_u32(a.mantissa, a.scale),
{
    u32::try_from(rust_decimal::Decimal::from_i128_with_scale(a.mantissa, a.scale)).ok()
}

/// Whether `a` is numerically less than `b`.
pub open spec fn value_less(a: Dec, b: Dec) -> bool {
    a.mantissa * pow10(b.scale as nat) < b.mantissa * pow10(a.scale as nat)
}

/// Compares through `rust_decimal::Decimal`'s `<`.
///
/// Trusted: claims the comparison is numeric, `mantissa / 10^scale` against
/// `mantissa / 10^scale`, as `Decimal`'s documented ordering is.
#[verifier::external_body]
pub fn less_than(a: &Dec, b: &Dec) -> (r: bool)
    requires
        a.wf(),
        b.wf(),
    ensures
        r == value_less(*a, *b),
{
    rust_decimal::Decimal::from_i128_with_scale(a.mantissa, a.scale) < rust_decimal::Decimal::from_i128_with_scale(
        b.mantissa,
        b.scale,
    )
}

impl Dec {
    /// The integer `v`, at scale zero.
    pub fn from_int(v: i64) -> (r: Dec)
        ensures
            r.wf(),
            r.mantissa == v,
            r.scale == 0,
    {
        Dec { mantissa: v as i128, scale: 0 }
    }

    /// The largest decimal.
    pub open spec fn max_value() -> Dec {
        Dec { mantissa: MAX_MANTISSA, scale: 0 }
    }

    /// The smallest decimal.
    pub open spec fn min_value() -> Dec {
        Dec { mantissa: (-MAX_MANTISSA) as i128, scale: 0 }
    }
}

/// `a + b`, saturating at the largest or smallest decimal by `a`'s sign when
/// the sum overflows, as `Decimal::saturating_add` does.
pub fn saturating_add(a: &Dec, b: &Dec) -> (r: Dec)
    requires
        a.wf(),
        b.wf(),
    ensures
        r.wf(),
        match decimal_sum(a.mantissa, a.scale, b.mantissa, b.scale) {
            Some((m, s)) => r == Dec { mantissa: m, scale: s },
            None => r == if a.mantissa >= 0 { Dec::max_value() } else { Dec::min_value() },
        },
{
    match checked_add(a, b) {
        Some(d) => d,
        None => if a.mantissa >= 0 {
            Dec { mantissa: MAX_MANTISSA, scale: 0 }
        } else {
            Dec { mantissa: -MAX_MANTISSA, scale: 0 }
        },
    }
}

} // verus!
