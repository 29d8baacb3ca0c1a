//! Exact scaled-decimal numbers: `value * 10^exp` with an `i64` mantissa.
//!
//! All money amounts and prices that are compared or accumulated go through
//! this type so that no binary floating-point drift enters the arithmetic.
//! Comparison and equality always rescale both operands to the smaller of the
//! two exponents and compare the resulting mantissas, so two representations
//! of the same number compare equal.

use vstd::prelude::*;
use vstd::string::StringExecFns;

use crate::arith::{pow10, pow10_i128, lemma_pow10_pos, lemma_pow10_increases,
    lemma_pow10_values, div_half_away, div_floor_by, mag_div_half_up, mag_div_ceil};

verus! {

/// `value * 10^exp` as an exact decimal.
#[derive(Clone, Copy, Debug)]
pub struct FloatExp {
    pub value: i64,
    pub exp: i32,
}

/// The mantissa of `a` rescaled to exponent `m`; exact whenever `m <= a.exp`.
pub open spec fn norm_val(a: FloatExp, m: int) -> int
    recommends
        m <= a.exp,
{
    a.value * pow10((a.exp - m) as nat)
}

/// The smaller of the two exponents, the scale at which both mantissas are
/// exactly representable.
pub open spec fn smaller_exp(a: FloatExp, b: FloatExp) -> int {
    if a.exp <= b.exp {
        a.exp as int
    } else {
        b.exp as int
    }
}

/// Numeric strict order: mantissas compared after rescaling to the smaller
/// exponent.
pub open spec fn fe_lt(a: FloatExp, b: FloatExp) -> bool {
    norm_val(a, smaller_exp(a, b)) < norm_val(b, smaller_exp(a, b))
}

/// Numeric equality (value equality, not field equality).
pub open spec fn fe_eq(a: FloatExp, b: FloatExp) -> bool {
    norm_val(a, smaller_exp(a, b)) == norm_val(b, smaller_exp(a, b))
}

/// The mantissa that represents `a` at exponent `e`, rounded to nearest with
/// halves away from zero when `e` is coarser than `a.exp`; exact otherwise.
pub open spec fn rescale_round(a: FloatExp, e: int) -> int {
    if e <= a.exp {
        a.value * pow10((a.exp - e) as nat)
    } else {
        div_half_away(a.value as int, pow10((e - a.exp) as nat))
    }
}

/// The mantissa that represents `a` at exponent `e`, rounded toward negative
/// infinity when `e` is coarser than `a.exp`; exact otherwise.
pub open spec fn rescale_floor(a: FloatExp, e: int) -> int {
    if e <= a.exp {
        a.value * pow10((a.exp - e) as nat)
    } else {
        div_floor_by(a.value as int, pow10((e - a.exp) as nat))
    }
}

pub open spec fn i64_fits(x: int) -> bool {
    i64::MIN <= x <= i64::MAX
}

pub open spec fn abs_int(x: int) -> int {
    if x >= 0 {
        x
    } else {
        -x
    }
}

/// Numerator of the quotient `a / b` carried to exponent `e`: the mantissa
/// of `a` at the common exponent, scaled up by `10^-e` when `e` is negative.
pub open spec fn div_scale_num(a: FloatExp, b: FloatExp, e: int) -> int {
    if e <= 0 {
        norm_val(a, smaller_exp(a, b)) * pow10((-e) as nat)
    } else {
        norm_val(a, smaller_exp(a, b))
    }
}

/// Denominator of the quotient `a / b` carried to exponent `e`: the mantissa
/// of `b` at the common exponent, scaled up by `10^e` when `e` is positive.
pub open spec fn div_scale_den(a: FloatExp, b: FloatExp, e: int) -> int {
    if e <= 0 {
        norm_val(b, smaller_exp(a, b))
    } else {
        norm_val(b, smaller_exp(a, b)) * pow10(e as nat)
    }
}

/// Rounded division with a sign-carrying denominator.
pub open spec fn signed_div_half_away(n: int, d: int) -> int {
    if d >= 0 {
        div_half_away(n, d)
    } else {
        div_half_away(-n, -d)
    }
}

/// Floor division with a sign-carrying denominator.
pub open spec fn signed_div_floor(n: int, d: int) -> int {
    if d >= 0 {
        div_floor_by(n, d)
    } else {
        div_floor_by(-n, -d)
    }
}

/// The mantissa of `a / b` at exponent `e`, rounded to nearest with halves
/// away from zero.
pub open spec fn div_round_spec(a: FloatExp, b: FloatExp, e: int) -> int {
    signed_div_half_away(div_scale_num(a, b, e), div_scale_den(a, b, e))
}

/// The mantissa of `a / b` at exponent `e`, rounded toward negative infinity.
pub open spec fn div_floor_spec(a: FloatExp, b: FloatExp, e: int) -> int {
    signed_div_floor(div_scale_num(a, b, e), div_scale_den(a, b, e))
}

/// The machine bounds under which the exact quotient is computed: both
/// rescaled mantissas stay within `10^38`.
pub open spec fn div_operands_fit(a: FloatExp, b: FloatExp, e: int) -> bool {
    &&& b.value != 0
    &&& i64_fits(norm_val(a, smaller_exp(a, b)))
    &&& i64_fits(norm_val(b, smaller_exp(a, b)))
    &&& -pow10(38) <= div_scale_num(a, b, e) <= pow10(38)
    &&& -pow10(38) <= div_scale_den(a, b, e) <= pow10(38)
}

/// Rejected decimal text: not of the shape `[+-] digits [ '.' digits ]`
/// with at least one digit, or a value whose mantissa cannot be held.
#[derive(Clone, Copy, Debug, PartialEq, Eq, Structural)]
pub struct ParseNumError;

pub open spec fn is_dec_digit(c: char) -> bool {
    48 <= c as u32 <= 57
}

pub open spec fn digit_val(c: char) -> int {
    c as u32 - 48
}

/// One pass over the digit-and-dot body of a decimal string: accumulates the
/// digits as an integer and counts the digits after the dot. `None` on any
/// character outside the grammar, a second dot, or a body with no digit.
pub open spec fn body_scan(s: Seq<char>, seen_digit: bool, seen_dot: bool, acc: int, frac: nat)
    -> Option<(int, nat)>
    decreases s.len(),
{
    if s.len() == 0 {
        if seen_digit {
            Some((acc, frac))
        } else {
            None
        }
    } else {
        let c = s[0];
        if is_dec_digit(c) {
            body_scan(
                s.subrange(1, s.len() as int),
                true,
                seen_dot,
                acc * 10 + digit_val(c),
                if seen_dot {
                    frac + 1
                } else {
                    frac
                },
            )
        } else if c as u32 == 46 && !seen_dot {
            body_scan(s.subrange(1, s.len() as int), seen_digit, true, acc, frac)
        } else {
            None
        }
    }
}

/// Parse a decimal string: optional sign, digits, optional single dot.
/// Yields the sign, the digits read as one integer, and the count of
/// fractional digits.
pub open spec fn dec_parse(s: Seq<char>) -> Option<(bool, int, nat)> {
    if s.len() >= 1 && s[0] as u32 == 45 {
        match body_scan(s.subrange(1, s.len() as int), false, false, 0, 0) {
            Some((n, f)) => Some((true, n, f)),
            None => None,
        }
    } else if s.len() >= 1 && s[0] as u32 == 43 {
        match body_scan(s.subrange(1, s.len() as int), false, false, 0, 0) {
            Some((n, f)) => Some((false, n, f)),
            None => None,
        }
    } else {
        match body_scan(s, false, false, 0, 0) {
            Some((n, f)) => Some((false, n, f)),
            None => None,
        }
    }
}

/// The mantissa that the parsed decimal `(neg, num, frac)` takes at
/// exponent `e`: the number is `num * 10^-frac`, rounded half away from
/// zero to `e` decimal places.
pub open spec fn from_str_mantissa(neg: bool, num: int, frac: nat, e: int) -> int {
    let mag = if e + frac <= 0 {
        num * pow10((-(e + frac)) as nat)
    } else {
        div_half_away(num, pow10((e + frac) as nat))
    };
    if neg {
        -mag
    } else {
        mag
    }
}

/// The inputs on which `from_str` succeeds: well-formed decimal text whose
/// digit string and resulting mantissa stay within the machine bounds.
pub open spec fn from_str_ok(s: Seq<char>, e: int) -> bool {
    match dec_parse(s) {
        Some((neg, num, frac)) => num < pow10(38) && i64_fits(
            from_str_mantissa(neg, num, frac, e),
        ),
        None => false,
    }
}

/// A value whose magnitude is below half of `10^e` rounds to zero at
/// exponent `e`: the mantissa of `a.round(e)` is `0` whenever
/// `2 * |a.value| < 10^(e - a.exp)`.
pub proof fn lemma_round_small(a: FloatExp, e: int)
    requires
        e > a.exp,
        2 * abs_int(a.value as int) < pow10((e - a.exp) as nat),
    ensures
        rescale_round(a, e) == 0,
{
    let k = (e - a.exp) as nat;
    let p = pow10(k);
    let v = a.value as int;
    let mag = abs_int(v);
    lemma_pow10_pos((k - 1) as nat);
    assert(p == 10 * pow10((k - 1) as nat));
    assert(p == 2 * (5 * pow10((k - 1) as nat)));
    assert(p % 2 == 0) by {
        vstd::arithmetic::div_mod::lemma_mod_multiples_basic(5 * pow10((k - 1) as nat), 2);
    }
    vstd::arithmetic::div_mod::lemma_fundamental_div_mod(p, 2);
    assert(2 * (p / 2) == p);
    assert(mag + p / 2 < p);
    vstd::arithmetic::div_mod::lemma_basic_div(mag + p / 2, p);
    assert(rescale_round(a, e) == div_half_away(v, p));
}

/// A nonzero mantissa times `10^d` with `d >= 19` lies strictly outside the
/// `i64` range.
proof fn lemma_dominates(v: i64, d: nat)
    requires
        d >= 19,
        v != 0,
    ensures
        v > 0 ==> v * pow10(d) > i64::MAX,
        v < 0 ==> v * pow10(d) < i64::MIN,
{
    lemma_pow10_increases(19, d);
    lemma_pow10_values();
    if v > 0 {
        assert(v * pow10(d) >= pow10(d)) by (nonlinear_arith)
            requires
                v >= 1,
                pow10(d) >= 1,
        ;
    } else {
        assert(v * pow10(d) <= -pow10(d)) by (nonlinear_arith)
            requires
                v <= -1,
                pow10(d) >= 1,
        ;
    }
}

impl FloatExp {
    /// The represented number is `value * 10^exp`.
    pub fn new(value: i64, exp: i32) -> (r: Self)
        ensures
            r.value == value,
            r.exp == exp,
    {
        Self { value, exp }
    }

    pub fn is_zero(&self) -> (r: bool)
        ensures
            r == (self.value == 0),
    {
        self.value == 0
    }

    /// Absolute value; the exponent is kept.
    pub fn abs(&self) -> (r: Self)
        requires
            self.value != i64::MIN,
        ensures
            r.exp == self.exp,
            r.value == if self.value >= 0 { self.value as int } else { -(self.value as int) },
    {
        if self.value >= 0 {
            Self { value: self.value, exp: self.exp }
        } else {
            Self { value: -self.value, exp: self.exp }
        }
    }

    /// Numeric comparison: both mantissas are rescaled to the smaller
    /// exponent (always exact) and compared.
    pub fn compare(&self, other: &Self) -> (r: core::cmp::Ordering)
        ensures
            (r == core::cmp::Ordering::Less) == fe_lt(*self, *other),
            (r == core::cmp::Ordering::Greater) == fe_lt(*other, *self),
            (r == core::cmp::Ordering::Equal) == fe_eq(*self, *other),
    {
        proof {
            lemma_pow10_pos((self.exp - smaller_exp(*self, *other)) as nat);
            lemma_pow10_pos((other.exp - smaller_exp(*self, *other)) as nat);
        }
        if self.exp == other.exp {
            if self.value < other.value {
                core::cmp::Ordering::Less
            } else if self.value > other.value {
                core::cmp::Ordering::Greater
            } else {
                core::cmp::Ordering::Equal
            }
        } else if self.exp > other.exp {
            let r = Self::compare_scaled(self, other);
            r
        } else {
            match Self::compare_scaled(other, self) {
                core::cmp::Ordering::Less => core::cmp::Ordering::Greater,
                core::cmp::Ordering::Greater => core::cmp::Ordering::Less,
                core::cmp::Ordering::Equal => core::cmp::Ordering::Equal,
            }
        }
    }

    /// Compare `hi` (the operand with the larger exponent) against `lo`;
    /// `hi`'s mantissa is the one that must be scaled up.
    fn compare_scaled(hi: &Self, lo: &Self) -> (r: core::cmp::Ordering)
        requires
            hi.exp > lo.exp,
        ensures
            (r == core::cmp::Ordering::Less) == fe_lt(*hi, *lo),
            (r == core::cmp::Ordering::Greater) == fe_lt(*lo, *hi),
            (r == core::cmp::Ordering::Equal) == fe_eq(*hi, *lo),
    {
        let ghost m = smaller_exp(*hi, *lo);
        proof {
            assert(m == lo.exp as int);
            assert(norm_val(*lo, m) == lo.value * 1);
        }
        let d: i64 = (hi.exp as i64) - (lo.exp as i64);
        if d <= 18 {
            let p = pow10_i128(d as u32);
            proof {
                lemma_pow10_increases(d as nat, 18);
                lemma_pow10_values();
                lemma_pow10_pos(d as nat);
                assert((hi.value as i128) * p <= i128::MAX && (hi.value as i128) * p
                    >= i128::MIN) by (nonlinear_arith)
                    requires
                        1 <= p <= 1_000_000_000_000_000_000,
                        -0x8000_0000_0000_0000 <= hi.value as i128 <= 0x7fff_ffff_ffff_ffff,
                ;
            }
            let s: i128 = (hi.value as i128) * p;
            let lv: i128 = lo.value as i128;
            proof {
                assert(hi.exp - m == d);
                assert(norm_val(*hi, m) == hi.value * pow10(d as nat));
                assert(s == hi.value * pow10(d as nat));
                assert(lv == norm_val(*lo, m));
            }
            if s < lv {
                core::cmp::Ordering::Less
            } else if s > lv {
                core::cmp::Ordering::Greater
            } else {
                core::cmp::Ordering::Equal
            }
        } else {
            proof {
                assert(hi.exp - m == d);
                assert(norm_val(*hi, m) == hi.value * pow10(d as nat));
                if hi.value != 0 {
                    lemma_dominates(hi.value, d as nat);
                }
            }
            if hi.value == 0 {
                if lo.value > 0 {
                    core::cmp::Ordering::Less
                } else if lo.value < 0 {
                    core::cmp::Ordering::Greater
                } else {
                    core::cmp::Ordering::Equal
                }
            } else if hi.value > 0 {
                core::cmp::Ordering::Greater
            } else {
                core::cmp::Ordering::Less
            }
        }
    }
}

impl FloatExp {
    /// Exact rescaling to a finer (or equal) exponent: multiply the mantissa
    /// by the matching power of ten.
    fn rescale_up(&self, exp: i32) -> (r: Self)
        requires
            exp <= self.exp,
            i64_fits(self.value * pow10((self.exp - exp) as nat)),
        ensures
            r.exp == exp,
            r.value == norm_val(*self, exp as int),
    {
        let ghost dg = (self.exp - exp) as nat;
        if self.value == 0 {
            proof {
                assert(0 * pow10(dg) == 0) by (nonlinear_arith);
            }
            Self { value: 0, exp }
        } else if exp == self.exp {
            proof {
                assert(self.value * pow10(0) == self.value);
            }
            Self { value: self.value, exp }
        } else {
            proof {
                if self.exp - exp >= 19 {
                    lemma_dominates(self.value, dg);
                }
            }
            let d: i64 = (self.exp as i64) - (exp as i64);
            let p: i128 = pow10_i128(d as u32);
            proof {
                assert((self.value as i128) * p == self.value * pow10(dg));
            }
            let prod: i128 = (self.value as i128) * p;
            Self { value: prod as i64, exp }
        }
    }

    /// When the target exponent is more than 38 places coarser, any `i64`
    /// mantissa rounds to zero (and floors to zero or minus one).
    proof fn lemma_tiny_quotient(&self, exp: int)
        requires
            exp - self.exp > 38,
        ensures
            rescale_round(*self, exp) == 0,
            self.value >= 0 ==> rescale_floor(*self, exp) == 0,
            self.value < 0 ==> rescale_floor(*self, exp) == -1,
    {
        let k = (exp - self.exp) as nat;
        let p = pow10(k);
        let v = self.value as int;
        let mag = if v >= 0 { v } else { -v };
        lemma_pow10_increases(39, k);
        lemma_pow10_values();
        assert(pow10(39) == 10 * pow10(38));
        assert(p >= 10 * pow10(38));
        // p/2 is at least 5 * 10^38, which dominates any i64 magnitude
        vstd::arithmetic::div_mod::lemma_div_is_ordered(10 * pow10(38), p, 2);
        assert((2 * (5 * pow10(38))) / 2 == 5 * pow10(38)) by {
            vstd::arithmetic::div_mod::lemma_div_multiples_vanish(5 * pow10(38), 2);
        }
        assert(10 * pow10(38) == 2 * (5 * pow10(38)));
        assert(p / 2 >= 5 * pow10(38));
        vstd::arithmetic::div_mod::lemma_fundamental_div_mod(p, 2);
        vstd::arithmetic::div_mod::lemma_mod_division_less_than_divisor(p, 2);
        assert(mag + p / 2 < p);
        vstd::arithmetic::div_mod::lemma_basic_div(mag + p / 2, p);
        assert(rescale_round(*self, exp) == div_half_away(v, p));
        if v < 0 {
            assert(div_half_away(v, p) == -((mag + p / 2) / p));
        }
        // floor: magnitude below p, so the quotient is 0 (or -1 for negatives)
        vstd::arithmetic::div_mod::lemma_basic_div(mag, p);
        if v < 0 {
            assert(div_floor_by(v, p) == -((mag + p - 1) / p));
            if mag == 0 {
                assert(v == 0);
            } else {
                vstd::arithmetic::div_mod::lemma_div_by_self(p);
                vstd::arithmetic::div_mod::lemma_div_is_ordered(p, mag + p - 1, p);
                vstd::arithmetic::div_mod::lemma_multiply_divide_lt(mag + p - 1, p, 2);
                assert(mag + p - 1 < p * 2) by (nonlinear_arith)
                    requires
                        mag < p,
                ;
                assert((mag + p - 1) / p == 1);
            }
        }
    }

    /// Rescaling to a coarser exponent, rounding to nearest with halves away
    /// from zero.
    fn rescale_down_round(&self, exp: i32) -> (r: Self)
        requires
            exp > self.exp,
        ensures
            r.exp == exp,
            r.value == rescale_round(*self, exp as int),
    {
        let k: i64 = (exp as i64) - (self.exp as i64);
        let neg = self.value < 0;
        let mag: u128 = if neg {
            (-(self.value as i128)) as u128
        } else {
            self.value as u128
        };
        if k > 38 {
            proof {
                self.lemma_tiny_quotient(exp as int);
            }
            Self { value: 0, exp }
        } else {
            let p: i128 = pow10_i128(k as u32);
            proof {
                lemma_pow10_pos(k as nat);
                lemma_pow10_values();
                lemma_pow10_increases(k as nat, 38);
            }
            let q: u128 = mag_div_half_up(mag, p as u128);
            proof {
                assert(rescale_round(*self, exp as int) == div_half_away(
                    self.value as int,
                    pow10(k as nat),
                ));
            }
            if neg {
                Self { value: (-(q as i128)) as i64, exp }
            } else {
                Self { value: q as i64, exp }
            }
        }
    }

    /// Rescaling to a coarser exponent, rounding toward negative infinity.
    fn rescale_down_floor(&self, exp: i32) -> (r: Self)
        requires
            exp > self.exp,
        ensures
            r.exp == exp,
            r.value == rescale_floor(*self, exp as int),
    {
        let k: i64 = (exp as i64) - (self.exp as i64);
        let neg = self.value < 0;
        let mag: u128 = if neg {
            (-(self.value as i128)) as u128
        } else {
            self.value as u128
        };
        if k > 38 {
            proof {
                self.lemma_tiny_quotient(exp as int);
            }
            if neg {
                Self { value: -1, exp }
            } else {
                Self { value: 0, exp }
            }
        } else {
            let p: i128 = pow10_i128(k as u32);
            proof {
                lemma_pow10_pos(k as nat);
                lemma_pow10_values();
                lemma_pow10_increases(k as nat, 38);
                assert(rescale_floor(*self, exp as int) == div_floor_by(
                    self.value as int,
                    pow10(k as nat),
                ));
            }
            if neg {
                let q: u128 = mag_div_ceil(mag, p as u128);
                Self { value: (-(q as i128)) as i64, exp }
            } else {
                let q: u128 = mag / (p as u128);
                proof {
                    vstd::arithmetic::div_mod::lemma_div_nonincreasing(mag as int, p as int);
                    vstd::arithmetic::div_mod::lemma_div_pos_is_pos(mag as int, p as int);
                }
                Self { value: q as i64, exp }
            }
        }
    }

    /// Round to the given exponent (number of decimal places when negative):
    /// nearest value, halves away from zero.
    pub fn round(&self, exp: i32) -> (r: Self)
        requires
            i64_fits(rescale_round(*self, exp as int)),
        ensures
            r.exp == exp,
            r.value == rescale_round(*self, exp as int),
    {
        if exp <= self.exp {
            self.rescale_up(exp)
        } else {
            self.rescale_down_round(exp)
        }
    }

    /// Round down (toward negative infinity) to the given exponent.
    pub fn floor(&self, exp: i32) -> (r: Self)
        requires
            i64_fits(rescale_floor(*self, exp as int)),
        ensures
            r.exp == exp,
            r.value == rescale_floor(*self, exp as int),
    {
        if exp <= self.exp {
            self.rescale_up(exp)
        } else {
            self.rescale_down_floor(exp)
        }
    }

    /// The nearest integer (mantissa at exponent zero).
    pub fn to_i64(&self) -> (r: i64)
        requires
            i64_fits(rescale_round(*self, 0)),
        ensures
            r == rescale_round(*self, 0),
    {
        self.round(0).value
    }

    /// Exact addition of two values that already share an exponent; callers
    /// must rescale first when the exponents differ.
    pub fn add(&self, rhs: Self) -> (r: Self)
        requires
            self.exp == rhs.exp,
            i64_fits(self.value + rhs.value),
        ensures
            r.exp == self.exp,
            r.value == self.value + rhs.value,
    {
        Self { value: self.value + rhs.value, exp: self.exp }
    }

    /// Exact subtraction of two values that already share an exponent.
    pub fn sub(&self, rhs: Self) -> (r: Self)
        requires
            self.exp == rhs.exp,
            i64_fits(self.value - rhs.value),
        ensures
            r.exp == self.exp,
            r.value == self.value - rhs.value,
    {
        Self { value: self.value - rhs.value, exp: self.exp }
    }

    /// Exact product: mantissas multiply and exponents add.
    pub fn mul(&self, rhs: Self) -> (r: Self)
        requires
            i64_fits(self.value * rhs.value),
            i32::MIN <= self.exp + rhs.exp <= i32::MAX,
        ensures
            r.exp == self.exp + rhs.exp,
            r.value == self.value * rhs.value,
    {
        let prod: i128 = (self.value as i128) * (rhs.value as i128);
        Self { value: prod as i64, exp: self.exp + rhs.exp }
    }

    /// Scale the mantissa by an integer factor; the exponent is kept.
    pub fn mul_i64(&self, rhs: i64) -> (r: Self)
        requires
            i64_fits(self.value * rhs),
        ensures
            r.exp == self.exp,
            r.value == self.value * rhs,
    {
        let prod: i128 = (self.value as i128) * (rhs as i128);
        Self { value: prod as i64, exp: self.exp }
    }

    /// Divide the mantissa by an integer, truncating toward zero; the
    /// exponent is kept.
    pub fn div_i64(&self, rhs: i64) -> (r: Self)
        requires
            rhs != 0,
            !(self.value == i64::MIN && rhs == -1),
        ensures
            r.exp == self.exp,
            r.value == crate::arith::div_trunc(self.value as int, rhs as int),
    {
        let n_neg = self.value < 0;
        let n_mag: u128 = if n_neg {
            (-(self.value as i128)) as u128
        } else {
            self.value as u128
        };
        let d_neg = rhs < 0;
        let d_mag: u128 = if d_neg {
            (-(rhs as i128)) as u128
        } else {
            rhs as u128
        };
        let q: u128 = n_mag / d_mag;
        proof {
            vstd::arithmetic::div_mod::lemma_div_nonincreasing(n_mag as int, d_mag as int);
            vstd::arithmetic::div_mod::lemma_div_pos_is_pos(n_mag as int, d_mag as int);
            if n_neg == d_neg && q > i64::MAX {
                // only possible for mantissa i64::MIN divided by -1, excluded
                assert(n_mag == 0x8000_0000_0000_0000);
                assert(d_mag >= 2);
                vstd::arithmetic::div_mod::lemma_div_is_ordered_by_denominator(
                    n_mag as int,
                    2,
                    d_mag as int,
                );
                assert(n_mag as int / 2 == 0x4000_0000_0000_0000);
            }
        }
        if n_neg == d_neg {
            Self { value: q as i64, exp: self.exp }
        } else {
            Self { value: (-(q as i128)) as i64, exp: self.exp }
        }
    }

    /// Addition after rescaling both operands to the smaller of the two
    /// exponents (always exact), for operands of different precision.
    pub fn min_exp_add(&self, rhs: Self) -> (r: Self)
        requires
            i64_fits(norm_val(*self, smaller_exp(*self, rhs))),
            i64_fits(norm_val(rhs, smaller_exp(*self, rhs))),
            i64_fits(norm_val(*self, smaller_exp(*self, rhs)) + norm_val(rhs, smaller_exp(*self, rhs))),
        ensures
            r.exp == smaller_exp(*self, rhs),
            r.value == norm_val(*self, smaller_exp(*self, rhs)) + norm_val(rhs, smaller_exp(*self, rhs)),
    {
        let e = if self.exp <= rhs.exp {
            self.exp
        } else {
            rhs.exp
        };
        let a = self.rescale_up(e);
        let b = rhs.rescale_up(e);
        Self { value: a.value + b.value, exp: e }
    }

    /// Parse a decimal string (optional sign, digits, at most one dot) into
    /// a value at the given exponent, rounding half away from zero. The
    /// digits are read exactly; no binary floating-point intermediate is
    /// involved.
    pub fn from_str(raw: String, exp: i32) -> (r: Result<Self, ParseNumError>)
        ensures
            r is Ok <==> from_str_ok(raw@, exp as int),
            r is Ok ==> r->Ok_0.exp == exp,
            r is Ok ==> match dec_parse(raw@) {
                Some((neg, num, frac)) => r->Ok_0.value == from_str_mantissa(
                    neg,
                    num,
                    frac,
                    exp as int,
                ),
                None => false,
            },
    {
        let s = raw.as_str();
        let n = s.unicode_len();
        let mut i: usize = 0;
        let mut neg = false;
        if n >= 1 {
            let c0 = s.get_char(0);
            let cv = c0 as u32;
            if cv == 45 {
                neg = true;
                i = 1;
            } else if cv == 43 {
                i = 1;
            }
        }
        let ghost target = body_scan(raw@.subrange(i as int, n as int), false, false, 0, 0);
        proof {
            lemma_pow10_values();
            if i == 0 {
                assert(raw@.subrange(0, n as int) =~= raw@);
            }
            assert(dec_parse(raw@) == match target {
                Some((nm, f)) => Some((neg, nm, f)),
                None => None::<(bool, int, nat)>,
            });
        }
        let mut seen_digit = false;
        let mut seen_dot = false;
        let mut acc: u128 = 0;
        let mut too_big = false;
        let mut frac: usize = 0;
        let ghost mut true_acc: int = 0;
        while i < n
            invariant
                i <= n,
                n == raw@.len(),
                s@ == raw@,
                frac <= i,
                0 <= true_acc,
                !too_big ==> acc == true_acc && acc < 100_000_000_000_000_000_000_000_000_000_000_000_000u128,
                too_big ==> true_acc >= pow10(38),
                pow10(38) == 100_000_000_000_000_000_000_000_000_000_000_000_000,
                dec_parse(raw@) == match target {
                    Some((nm, f)) => Some((neg, nm, f)),
                    None => None::<(bool, int, nat)>,
                },
                body_scan(
                    raw@.subrange(i as int, n as int),
                    seen_digit,
                    seen_dot,
                    true_acc,
                    frac as nat,
                ) == target,
            decreases n - i,
        {
            let c = s.get_char(i);
            let d = c as u32;
            let ghost pre = raw@.subrange(i as int, n as int);
            proof {
                assert(pre[0] == raw@[i as int]);
                assert(pre.subrange(1, pre.len() as int) =~= raw@.subrange(i + 1, n as int));
            }
            if 48 <= d && d <= 57 {
                seen_digit = true;
                if seen_dot {
                    frac = frac + 1;
                }
                proof {
                    true_acc = true_acc * 10 + (d - 48);
                }
                if !too_big {
                    if acc >= 10_000_000_000_000_000_000_000_000_000_000_000_000u128 {
                        proof {
                            assert(pow10(37) == 10_000_000_000_000_000_000_000_000_000_000_000_000)
                                by {
                                reveal_with_fuel(pow10, 40);
                            }
                        }
                        too_big = true;
                    } else {
                        acc = acc * 10 + ((d - 48) as u128);
                    }
                }
            } else if d == 46 && !seen_dot {
                seen_dot = true;
            } else {
                proof {
                    assert(pre.len() > 0);
                    assert(pre[0] == c);
                    assert(!is_dec_digit(c));
                    assert(!(c as u32 == 46 && !seen_dot));
                    assert(body_scan(pre, seen_digit, seen_dot, true_acc, frac as nat)
                        == None::<(int, nat)>);
                }
                return Err(ParseNumError);
            }
            i = i + 1;
        }
        proof {
            assert(raw@.subrange(n as int, n as int) =~= Seq::<char>::empty());
        }
        if !seen_digit {
            return Err(ParseNumError);
        }
        if too_big {
            return Err(ParseNumError);
        }
        let ghost num = true_acc;
        let ghost fr = frac as nat;
        let ghost e = exp as int;
        let ghost mg = if e + fr <= 0 {
            num * pow10((-(e + fr)) as nat)
        } else {
            div_half_away(num, pow10((e + fr) as nat))
        };
        let t: i128 = (exp as i128) + (frac as i128);
        let max_mag: u128 = if neg {
            9_223_372_036_854_775_808
        } else {
            9_223_372_036_854_775_807
        };
        if t <= 0 {
            let k: i128 = -t;
            let ghost kn = k as nat;
            if acc == 0 {
                proof {
                    assert(mg == 0 * pow10(kn));
                    assert(mg == 0) by (nonlinear_arith)
                        requires
                            mg == 0 * pow10(kn),
                    ;
                }
                return Ok(Self { value: 0, exp });
            }
            proof {
                lemma_pow10_pos(kn);
                assert(pow10(kn) <= num * pow10(kn)) by (nonlinear_arith)
                    requires
                        num >= 1,
                        pow10(kn) >= 1,
                ;
            }
            if k > 18 {
                proof {
                    lemma_pow10_increases(19, kn);
                }
                return Err(ParseNumError);
            }
            let p: i128 = pow10_i128(k as u32);
            let pb: u128 = p as u128;
            if acc > max_mag / pb {
                proof {
                    vstd::arithmetic::div_mod::lemma_fundamental_div_mod(max_mag as int, pb as int);
                    vstd::arithmetic::div_mod::lemma_mod_division_less_than_divisor(
                        max_mag as int,
                        pb as int,
                    );
                    assert(num * pow10(kn) > max_mag) by (nonlinear_arith)
                        requires
                            num >= (max_mag as int) / (pb as int) + 1,
                            pow10(kn) == pb as int,
                            pb >= 1,
                            (max_mag as int) == ((max_mag as int) / (pb as int)) * (pb as int) + (
                            max_mag as int) % (pb as int),
                            (max_mag as int) % (pb as int) < pb as int,
                    ;
                }
                return Err(ParseNumError);
            }
            proof {
                vstd::arithmetic::div_mod::lemma_fundamental_div_mod(max_mag as int, pb as int);
                vstd::arithmetic::div_mod::lemma_mod_division_less_than_divisor(
                    max_mag as int,
                    pb as int,
                );
                assert(num * pow10(kn) <= max_mag) by (nonlinear_arith)
                    requires
                        0 <= num <= (max_mag as int) / (pb as int),
                        pow10(kn) == pb as int,
                        pb >= 1,
                        (max_mag as int) == ((max_mag as int) / (pb as int)) * (pb as int) + (
                        max_mag as int) % (pb as int),
                        0 <= (max_mag as int) % (pb as int),
                ;
            }
            let prod: u128 = acc * pb;
            if neg {
                Ok(Self { value: (-(prod as i128)) as i64, exp })
            } else {
                Ok(Self { value: prod as i64, exp })
            }
        } else {
            let ghost tn = t as nat;
            if t > 38 {
                proof {
                    let p = pow10(tn);
                    lemma_pow10_increases(39, tn);
                    assert(pow10(39) == 10 * pow10(38));
                    vstd::arithmetic::div_mod::lemma_div_is_ordered(10 * pow10(38), p, 2);
                    assert((2 * (5 * pow10(38))) / 2 == 5 * pow10(38)) by {
                        vstd::arithmetic::div_mod::lemma_div_multiples_vanish(5 * pow10(38), 2);
                    }
                    assert(10 * pow10(38) == 2 * (5 * pow10(38)));
                    vstd::arithmetic::div_mod::lemma_fundamental_div_mod(p, 2);
                    vstd::arithmetic::div_mod::lemma_mod_division_less_than_divisor(p, 2);
                    assert(num + p / 2 < p);
                    vstd::arithmetic::div_mod::lemma_basic_div(num + p / 2, p);
                    assert(mg == 0);
                }
                return Ok(Self { value: 0, exp });
            }
            proof {
                lemma_pow10_increases(tn, 38);
                lemma_pow10_pos(tn);
            }
            let p: i128 = pow10_i128(t as u32);
            let pb: u128 = p as u128;
            let q: u128 = mag_div_half_up(acc, pb);
            proof {
                assert(mg == q);
            }
            if q > max_mag {
                return Err(ParseNumError);
            }
            if neg {
                Ok(Self { value: (-(q as i128)) as i64, exp })
            } else {
                Ok(Self { value: q as i64, exp })
            }
        }
    }

    /// Magnitudes of the rescaled numerator and denominator of
    /// `self / rhs` at the target exponent, and whether their signs agree.
    fn div_operands(&self, rhs: Self, new_exp: i32) -> (r: (u128, u128, bool))
        requires
            div_operands_fit(*self, rhs, new_exp as int),
        ensures
            r.0 == abs_int(div_scale_num(*self, rhs, new_exp as int)),
            r.1 == abs_int(div_scale_den(*self, rhs, new_exp as int)),
            r.1 >= 1,
            r.2 == ((div_scale_num(*self, rhs, new_exp as int) >= 0) == (div_scale_den(
                *self,
                rhs,
                new_exp as int,
            ) >= 0)),
    {
        let ghost m = smaller_exp(*self, rhs);
        let ghost nn = div_scale_num(*self, rhs, new_exp as int);
        let ghost dd = div_scale_den(*self, rhs, new_exp as int);
        let e = if self.exp <= rhs.exp {
            self.exp
        } else {
            rhs.exp
        };
        let a = self.rescale_up(e);
        let b = rhs.rescale_up(e);
        proof {
            lemma_pow10_pos((rhs.exp - m) as nat);
            vstd::arithmetic::mul::lemma_mul_nonzero(rhs.value as int, pow10((rhs.exp - m) as nat));
            lemma_pow10_values();
        }
        let a_neg = a.value < 0;
        let a_mag: u128 = if a_neg {
            (-(a.value as i128)) as u128
        } else {
            a.value as u128
        };
        let b_neg = b.value < 0;
        let b_mag: u128 = if b_neg {
            (-(b.value as i128)) as u128
        } else {
            b.value as u128
        };
        if new_exp <= 0 {
            // the numerator carries the 10^-new_exp factor
            if a_mag == 0 {
                proof {
                    assert(nn == 0 * pow10((-new_exp) as nat));
                    assert(nn == 0) by (nonlinear_arith)
                        requires
                            nn == 0 * pow10((-new_exp) as nat),
                    ;
                    assert(dd == b.value);
                }
                (0u128, b_mag, !b_neg)
            } else {
                let k: i64 = -(new_exp as i64);
                proof {
                    let kn = k as nat;
                    lemma_pow10_pos(kn);
                    assert(pow10(kn) <= a_mag * pow10(kn)) by (nonlinear_arith)
                        requires
                            a_mag >= 1,
                            pow10(kn) >= 1,
                    ;
                    if a.value >= 0 {
                        assert(a_mag == a.value);
                        assert(nn >= 0) by (nonlinear_arith)
                            requires
                                a.value >= 0,
                                pow10(kn) >= 1,
                                nn == a.value * pow10(kn),
                        ;
                        assert(a_mag * pow10(kn) == nn);
                    } else {
                        assert(a_mag == -(a.value as int));
                        vstd::arithmetic::mul::lemma_mul_unary_negation(
                            a.value as int,
                            pow10(kn),
                        );
                        assert(a_mag * pow10(kn) == -nn);
                        assert(nn < 0) by (nonlinear_arith)
                            requires
                                a.value < 0,
                                pow10(kn) >= 1,
                                nn == a.value * pow10(kn),
                        ;
                    }
                    assert(a_mag * pow10(kn) == abs_int(nn));
                    if k > 38 {
                        lemma_pow10_increases(39, kn);
                        assert(pow10(39) == 10 * pow10(38));
                    }
                    assert(dd == b.value);
                    assert((nn >= 0) == !a_neg);
                    assert((dd >= 0) == !b_neg);
                }
                let p: i128 = pow10_i128(k as u32);
                let num: u128 = a_mag * (p as u128);
                (num, b_mag, a_neg == b_neg)
            }
        } else {
            // the denominator carries the 10^new_exp factor; it is nonzero
            let k: i64 = new_exp as i64;
            proof {
                let kn = k as nat;
                lemma_pow10_pos(kn);
                assert(pow10(kn) <= b_mag * pow10(kn)) by (nonlinear_arith)
                    requires
                        b_mag >= 1,
                        pow10(kn) >= 1,
                ;
                if b.value >= 0 {
                    assert(b_mag == b.value);
                    assert(dd > 0) by (nonlinear_arith)
                        requires
                            b.value > 0,
                            pow10(kn) >= 1,
                            dd == b.value * pow10(kn),
                    ;
                    assert(b_mag * pow10(kn) == dd);
                } else {
                    assert(b_mag == -(b.value as int));
                    vstd::arithmetic::mul::lemma_mul_unary_negation(b.value as int, pow10(kn));
                    assert(b_mag * pow10(kn) == -dd);
                    assert(dd < 0) by (nonlinear_arith)
                        requires
                            b.value < 0,
                            pow10(kn) >= 1,
                            dd == b.value * pow10(kn),
                    ;
                }
                assert(b_mag * pow10(kn) == abs_int(dd));
                if k > 38 {
                    lemma_pow10_increases(39, kn);
                    assert(pow10(39) == 10 * pow10(38));
                }
                assert(nn == a.value);
                assert((nn >= 0) == !a_neg);
                assert((dd >= 0) == !b_neg);
            }
            let p: i128 = pow10_i128(k as u32);
            let den: u128 = b_mag * (p as u128);
            (a_mag, den, a_neg == b_neg)
        }
    }

    /// Exact quotient at the caller-chosen exponent, rounded to nearest with
    /// halves away from zero. The quotient is computed with exact integer
    /// arithmetic rather than through a floating-point intermediate.
    pub fn div_round(&self, rhs: Self, new_exp: i32) -> (r: Self)
        requires
            div_operands_fit(*self, rhs, new_exp as int),
            i64_fits(div_round_spec(*self, rhs, new_exp as int)),
        ensures
            r.exp == new_exp,
            r.value == div_round_spec(*self, rhs, new_exp as int),
    {
        let ghost nn = div_scale_num(*self, rhs, new_exp as int);
        let ghost dd = div_scale_den(*self, rhs, new_exp as int);
        let ghost res = div_round_spec(*self, rhs, new_exp as int);
        let (nm, dm, pos) = self.div_operands(rhs, new_exp);
        proof {
            lemma_pow10_values();
        }
        let q: u128 = mag_div_half_up(nm, dm);
        proof {
            if nm == 0 {
                if dm >= 2 {
                    vstd::arithmetic::div_mod::lemma_div_is_strictly_smaller(dm as int, 2);
                }
                vstd::arithmetic::div_mod::lemma_basic_div(dm as int / 2, dm as int);
                assert(q == 0);
            }
            assert(res == if pos {
                q as int
            } else {
                -(q as int)
            });
        }
        if pos {
            Self { value: q as i64, exp: new_exp }
        } else {
            Self { value: (-(q as i128)) as i64, exp: new_exp }
        }
    }

    /// Exact quotient at the caller-chosen exponent, rounded toward negative
    /// infinity, with exact integer arithmetic.
    pub fn div_floor(&self, rhs: Self, new_exp: i32) -> (r: Self)
        requires
            div_operands_fit(*self, rhs, new_exp as int),
            i64_fits(div_floor_spec(*self, rhs, new_exp as int)),
        ensures
            r.exp == new_exp,
            r.value == div_floor_spec(*self, rhs, new_exp as int),
    {
        let ghost nn = div_scale_num(*self, rhs, new_exp as int);
        let ghost dd = div_scale_den(*self, rhs, new_exp as int);
        let ghost res = div_floor_spec(*self, rhs, new_exp as int);
        let (nm, dm, pos) = self.div_operands(rhs, new_exp);
        proof {
            lemma_pow10_values();
        }
        if pos {
            let q: u128 = nm / dm;
            proof {
                vstd::arithmetic::div_mod::lemma_div_nonincreasing(nm as int, dm as int);
                vstd::arithmetic::div_mod::lemma_div_pos_is_pos(nm as int, dm as int);
                assert(res == q as int);
            }
            Self { value: q as i64, exp: new_exp }
        } else {
            let q: u128 = mag_div_ceil(nm, dm);
            proof {
                if nm == 0 {
                    vstd::arithmetic::div_mod::lemma_basic_div(dm as int - 1, dm as int);
                    assert(q == 0);
                }
                assert(res == -(q as int));
            }
            Self { value: (-(q as i128)) as i64, exp: new_exp }
        }
    }

    /// Subtraction after rescaling both operands to the smaller exponent.
    pub fn min_exp_sub(&self, rhs: Self) -> (r: Self)
        requires
            i64_fits(norm_val(*self, smaller_exp(*self, rhs))),
            i64_fits(norm_val(rhs, smaller_exp(*self, rhs))),
            i64_fits(norm_val(*self, smaller_exp(*self, rhs)) - norm_val(rhs, smaller_exp(*self, rhs))),
        ensures
            r.exp == smaller_exp(*self, rhs),
            r.value == norm_val(*self, smaller_exp(*self, rhs)) - norm_val(rhs, smaller_exp(*self, rhs)),
    {
        let e = if self.exp <= rhs.exp {
            self.exp
        } else {
            rhs.exp
        };
        let a = self.rescale_up(e);
        let b = rhs.rescale_up(e);
        Self { value: a.value - b.value, exp: e }
    }
}

/// The decimal rendering of a value: exactly `max(0, -exp)` fractional
/// digits, integer values plain.
pub open spec fn display_chars(v: FloatExp) -> Seq<char> {
    if v.exp >= 0 {
        crate::text::dec_int(v.value * pow10(v.exp as nat))
    } else {
        let f = (-v.exp) as nat;
        let mag = abs_int(v.value as int);
        let sign = if v.value < 0 {
            seq!['-']
        } else {
            Seq::<char>::empty()
        };
        sign + crate::text::dec_digits(mag / pow10(f)) + seq!['.'] + crate::text::fixed_digits(
            mag % pow10(f),
            f,
        )
    }
}

impl FloatExp {
    /// The decimal text of this value, with exactly `max(0, -exp)`
    /// fractional digits.
    pub fn to_display_string(&self) -> (r: String)
        requires
            self.exp >= 0 ==> i64_fits(self.value * pow10(self.exp as nat)),
            -19 <= self.exp,
        ensures
            r@ == display_chars(*self),
    {
        if self.exp >= 0 {
            let whole = self.rescale_up(0);
            crate::text::i64_to_string(whole.value)
        } else {
            let f: u32 = (-(self.exp as i64)) as u32;
            proof {
                lemma_pow10_increases(f as nat, 19);
                lemma_pow10_values();
                lemma_pow10_pos(f as nat);
            }
            let p128: i128 = pow10_i128(f);
            let p: u64 = p128 as u64;
            let neg = self.value < 0;
            let mag: u64 = if neg {
                (-(self.value as i128)) as u64
            } else {
                self.value as u64
            };
            proof {
                vstd::arithmetic::div_mod::lemma_div_nonincreasing(mag as int, p as int);
                vstd::arithmetic::div_mod::lemma_div_pos_is_pos(mag as int, p as int);
                vstd::arithmetic::div_mod::lemma_mod_division_less_than_divisor(mag as int, p as int);
            }
            let ip: u64 = mag / p;
            let fp: u64 = mag % p;
            let mut s = if neg {
                "-".to_owned()
            } else {
                String::new()
            };
            s.append(crate::text::u64_to_string(ip).as_str());
            s.append(".");
            s.append(crate::text::fixed_width_string(fp, f).as_str());
            proof {
                reveal_strlit("-");
                reveal_strlit(".");
                assert(s@ =~= display_chars(*self));
            }
            s
        }
    }
}

impl PartialEq for FloatExp {
    /// Equality is numeric: `{value: 100, exp: -3}` equals `{value: 10, exp: -2}`.
    fn eq(&self, other: &Self) -> (r: bool) {
        matches!(self.compare(other), core::cmp::Ordering::Equal)
    }
}

impl vstd::std_specs::cmp::PartialEqSpecImpl for FloatExp {
    open spec fn obeys_eq_spec() -> bool {
        true
    }

    open spec fn eq_spec(&self, other: &Self) -> bool {
        fe_eq(*self, *other)
    }
}

impl PartialOrd for FloatExp {
    fn partial_cmp(&self, other: &Self) -> (r: Option<core::cmp::Ordering>) {
        Some(self.compare(other))
    }
}

impl vstd::std_specs::cmp::PartialOrdSpecImpl for FloatExp {
    open spec fn obeys_partial_cmp_spec() -> bool {
        true
    }

    open spec fn partial_cmp_spec(&self, other: &Self) -> Option<core::cmp::Ordering> {
        if fe_lt(*self, *other) {
            Some(core::cmp::Ordering::Less)
        } else if fe_lt(*other, *self) {
            Some(core::cmp::Ordering::Greater)
        } else {
            Some(core::cmp::Ordering::Equal)
        }
    }
}

} // verus!
