//! Rounding integers to a power-of-ten grid.

use vstd::prelude::*;

use crate::arith::{pow10, pow10_i128, lemma_pow10_values, lemma_pow10_increases, lemma_pow10_pos,
    div_trunc};

verus! {

/// Round toward zero to a multiple of `10^y`.
pub fn floor_int(x: i64, y: u32) -> (r: i64)
    requires
        y <= 18,
    ensures
        r == div_trunc(x as int, pow10(y as nat)) * pow10(y as nat),
{
    proof {
        lemma_pow10_values();
        lemma_pow10_increases(y as nat, 18);
        lemma_pow10_pos(y as nat);
    }
    let p: u64 = pow10_i128(y) as u64;
    let neg = x < 0;
    let mag: u64 = if neg {
        (-(x as i128)) as u64
    } else {
        x as u64
    };
    let q: u64 = mag / p;
    proof {
        vstd::arithmetic::div_mod::lemma_fundamental_div_mod(mag as int, p as int);
        vstd::arithmetic::div_mod::lemma_mod_division_less_than_divisor(mag as int, p as int);
        vstd::arithmetic::div_mod::lemma_div_pos_is_pos(mag as int, p as int);
        vstd::arithmetic::mul::lemma_mul_is_commutative(q as int, p as int);
        assert(q * p == mag - (mag as int) % (p as int));
        if neg {
            vstd::arithmetic::mul::lemma_mul_unary_negation(q as int, p as int);
        }
    }
    let back: u64 = q * p;
    if neg {
        (-(back as i128)) as i64
    } else {
        back as i64
    }
}

/// Round away from zero, up to the next multiple of `10^y` for positive
/// inputs; the quotient truncates toward zero, as the plain integer
/// division it is built on does.
pub fn ceil_int(x: i64, y: u32) -> (r: i64)
    requires
        y <= 18,
        x + pow10(y as nat) - 1 <= i64::MAX,
    ensures
        r == div_trunc(x + pow10(y as nat) - 1, pow10(y as nat)) * pow10(y as nat),
{
    proof {
        lemma_pow10_values();
        lemma_pow10_increases(y as nat, 18);
        lemma_pow10_pos(y as nat);
    }
    let p: i64 = pow10_i128(y) as i64;
    let s: i64 = x + (p - 1);
    let neg = s < 0;
    let mag: u64 = if neg {
        (-(s as i128)) as u64
    } else {
        s as u64
    };
    let pu: u64 = p as u64;
    let q: u64 = mag / pu;
    proof {
        vstd::arithmetic::div_mod::lemma_fundamental_div_mod(mag as int, pu as int);
        vstd::arithmetic::div_mod::lemma_mod_division_less_than_divisor(mag as int, pu as int);
        vstd::arithmetic::div_mod::lemma_div_pos_is_pos(mag as int, pu as int);
        vstd::arithmetic::mul::lemma_mul_is_commutative(q as int, pu as int);
        assert(q * pu == mag - (mag as int) % (pu as int));
        if neg {
            vstd::arithmetic::mul::lemma_mul_unary_negation(q as int, pu as int);
        }
    }
    let back: u64 = q * pu;
    if neg {
        (-(back as i128)) as i64
    } else {
        back as i64
    }
}

} // verus!
