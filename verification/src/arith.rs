//! Integer arithmetic helpers shared by the scaled-decimal type and the
//! time-bucket computations: powers of ten and sign-aware rounded division.

use vstd::prelude::*;

verus! {

/// Mathematical `10^n`.
pub open spec fn pow10(n: nat) -> int
    decreases n,
{
    if n == 0 {
        1
    } else {
        10 * pow10((n - 1) as nat)
    }
}

pub proof fn lemma_pow10_pos(n: nat)
    ensures
        pow10(n) >= 1,
    decreases n,
{
    if n > 0 {
        lemma_pow10_pos((n - 1) as nat);
    }
}

pub proof fn lemma_pow10_increases(m: nat, n: nat)
    requires
        m <= n,
    ensures
        pow10(m) <= pow10(n),
    decreases n,
{
    if m < n {
        lemma_pow10_increases(m, (n - 1) as nat);
        lemma_pow10_pos((n - 1) as nat);
    }
}

/// Concrete powers of ten that the bounds proofs need; `10^19` exceeds
/// `i64::MAX`, and `10^38` still fits in an `i128`.
pub proof fn lemma_pow10_values()
    ensures
        pow10(18) == 1_000_000_000_000_000_000,
        pow10(19) == 10_000_000_000_000_000_000,
        pow10(19) > i64::MAX,
        pow10(38) == 100_000_000_000_000_000_000_000_000_000_000_000_000,
        pow10(38) < i128::MAX,
{
    reveal_with_fuel(pow10, 40);
}

/// Exact power of ten as an `i128`; defined for exponents up to 38.
pub fn pow10_i128(n: u32) -> (r: i128)
    requires
        n <= 38,
    ensures
        r == pow10(n as nat),
{
    let mut i: u32 = 0;
    let mut r: i128 = 1;
    while i < n
        invariant
            i <= n <= 38,
            r == pow10(i as nat),
        decreases n - i,
    {
        proof {
            lemma_pow10_increases((i + 1) as nat, 38);
            lemma_pow10_values();
            lemma_pow10_pos(i as nat);
        }
        r = r * 10;
        i = i + 1;
    }
    r
}

/// Rounded division, halves away from zero, of `n` by a positive power of
/// ten `d`: the integer nearest `n / d`.
pub open spec fn div_half_away(n: int, d: int) -> int {
    if n >= 0 {
        (n + d / 2) / d
    } else {
        -(((-n) + d / 2) / d)
    }
}

/// Division truncating toward zero, the behaviour of `/` on machine
/// integers: the magnitudes divide and the signs combine.
pub open spec fn div_trunc(n: int, d: int) -> int {
    let q = (if n >= 0 {
        n
    } else {
        -n
    }) / (if d >= 0 {
        d
    } else {
        -d
    });
    if (n >= 0) == (d >= 0) {
        q
    } else {
        -q
    }
}

/// Division rounding toward negative infinity.
pub open spec fn div_floor_by(n: int, d: int) -> int {
    if n >= 0 {
        n / d
    } else {
        -(((-n) + d - 1) / d)
    }
}

/// `(n + d/2) / d` on magnitudes: division rounded to nearest, halves up.
pub fn mag_div_half_up(n: u128, d: u128) -> (r: u128)
    requires
        1 <= d,
        n + d / 2 <= u128::MAX,
    ensures
        r == (n + d / 2) as int / d as int,
        r <= n,
{
    let r = (n + d / 2) / d;
    proof {
        let ni = n as int;
        let di = d as int;
        if n == 0 {
            vstd::arithmetic::div_mod::lemma_basic_div(di / 2, di);
        } else if d == 1 {
            assert((ni + 0) / 1 == ni) by (nonlinear_arith);
        } else {
            let h = di / 2;
            assert(2 * h <= di) by {
                vstd::arithmetic::div_mod::lemma_fundamental_div_mod(di, 2);
                vstd::arithmetic::div_mod::lemma_mod_division_less_than_divisor(di, 2);
            }
            assert(ni + h <= di * ni) by (nonlinear_arith)
                requires
                    ni >= 1,
                    di >= 2,
                    2 * h <= di,
            ;
            vstd::arithmetic::div_mod::lemma_multiply_divide_le(ni + h, di, ni);
        }
    }
    r
}

/// `(n + d - 1) / d` on magnitudes: division rounded up.
pub fn mag_div_ceil(n: u128, d: u128) -> (r: u128)
    requires
        1 <= d,
        n + d - 1 <= u128::MAX,
    ensures
        r == (n + d - 1) as int / d as int,
        r <= n,
        n > 0 ==> r >= 1,
{
    let r = (n + (d - 1)) / d;
    proof {
        let ni = n as int;
        let di = d as int;
        if n == 0 {
            vstd::arithmetic::div_mod::lemma_basic_div(di - 1, di);
        } else if d == 1 {
            assert((ni + 0) / 1 == ni) by (nonlinear_arith);
        } else {
            assert(ni + di - 1 <= di * ni) by (nonlinear_arith)
                requires
                    ni >= 1,
                    di >= 2,
            ;
            vstd::arithmetic::div_mod::lemma_multiply_divide_le(ni + di - 1, di, ni);
        }
        if n > 0 {
            assert(di * 1 <= ni + di - 1) by (nonlinear_arith)
                requires
                    ni >= 1,
                    di >= 1,
            ;
            vstd::arithmetic::div_mod::lemma_div_by_self(di);
            vstd::arithmetic::div_mod::lemma_div_is_ordered(di, ni + di - 1, di);
        }
    }
    r
}

} // verus!
