//! Saturating fixed-point arithmetic over `i64`.
//!
//! A real number r is represented by the integer `r * SCALE`, rounded
//! toward zero.  Every arithmetic result is clipped to `[-CAP, CAP]`,
//! so the operations are total and never overflow.

use vstd::prelude::*;

verus! {

/// Number of fixed-point units per 1.0.
pub const SCALE: i64 = 65536;

/// Largest magnitude a stored value can take (saturation bound).
pub const CAP: i64 = 0x8000_0000;

/// Saturate a mathematical integer into `[-CAP, CAP]`.
pub open spec fn clip(x: int) -> int {
    if x < -(CAP as int) {
        -(CAP as int)
    } else if x > CAP as int {
        CAP as int
    } else {
        x
    }
}

/// Division rounding toward zero (the rounding of machine division).
pub open spec fn tdiv(a: int, b: int) -> int
    recommends
        b > 0,
{
    if a >= 0 {
        a / b
    } else {
        -((-a) / b)
    }
}

/// Saturating fixed-point addition.
pub open spec fn fadd(a: int, b: int) -> int {
    clip(a + b)
}

/// Saturating fixed-point subtraction.
pub open spec fn fsub(a: int, b: int) -> int {
    clip(a - b)
}

/// Saturating fixed-point multiplication: the product of two scaled
/// values carries a factor SCALE too many, which the division removes.
pub open spec fn fmul(a: int, b: int) -> int {
    clip(tdiv(a * b, SCALE as int))
}

/// The range every stored fixed-point value lies in.
pub open spec fn in_range(x: int) -> bool {
    -(CAP as int) <= x <= CAP as int
}

/// Truncating division is bounded by the dividend and keeps its sign.
pub proof fn lemma_tdiv_bounds(a: int, b: int)
    requires
        b > 0,
    ensures
        a >= 0 ==> 0 <= tdiv(a, b) <= a,
        a < 0 ==> a <= tdiv(a, b) <= 0,
{
    if a >= 0 {
        vstd::arithmetic::div_mod::lemma_div_is_ordered_by_denominator(a, 1, b);
        vstd::arithmetic::div_mod::lemma_div_basics(b);
    } else {
        vstd::arithmetic::div_mod::lemma_div_is_ordered_by_denominator(-a, 1, b);
        vstd::arithmetic::div_mod::lemma_div_basics(b);
    }
}

fn clamp128(s: i128) -> (r: i128)
    ensures
        r as int == clip(s as int),
{
    let lo: i128 = -(CAP as i128);
    let hi: i128 = CAP as i128;
    if s < lo {
        lo
    } else if s > hi {
        hi
    } else {
        s
    }
}

fn tdiv128(a: i128, b: i128) -> (r: i128)
    requires
        b > 0,
        a > i128::MIN,
    ensures
        r as int == tdiv(a as int, b as int),
{
    if a >= 0 {
        let q: u128 = (a as u128) / (b as u128);
        proof {
            lemma_tdiv_bounds(a as int, b as int);
        }
        q as i128
    } else {
        let q: u128 = ((-a) as u128) / (b as u128);
        proof {
            lemma_tdiv_bounds(a as int, b as int);
        }
        -(q as i128)
    }
}

/// Saturating fixed-point addition.
pub fn add_fix(a: i64, b: i64) -> (r: i64)
    ensures
        r as int == fadd(a as int, b as int),
        in_range(r as int),
{
    let s: i128 = a as i128 + b as i128;
    let c: i128 = clamp128(s);
    c as i64
}

/// Saturating fixed-point subtraction.
pub fn sub_fix(a: i64, b: i64) -> (r: i64)
    ensures
        r as int == fsub(a as int, b as int),
        in_range(r as int),
{
    let s: i128 = a as i128 - b as i128;
    let c: i128 = clamp128(s);
    c as i64
}

/// Saturating fixed-point multiplication.
pub fn mul_fix(a: i64, b: i64) -> (r: i64)
    ensures
        r as int == fmul(a as int, b as int),
        in_range(r as int),
{
    proof {
        assert((a as int) * (b as int) <= 0x4000_0000_0000_0000_0000_0000_0000_0000int
            && (a as int) * (b as int) >= -0x4000_0000_0000_0000_0000_0000_0000_0000int)
            by (nonlinear_arith)
            requires
                -0x8000_0000_0000_0000 <= a as int <= 0x7fff_ffff_ffff_ffff,
                -0x8000_0000_0000_0000 <= b as int <= 0x7fff_ffff_ffff_ffff,
        ;
    }
    let p: i128 = (a as i128) * (b as i128);
    let q: i128 = tdiv128(p, SCALE as i128);
    let c: i128 = clamp128(q);
    c as i64
}

/// Truncating division of a fixed-point value by a positive count.
pub fn div_fix(a: i64, n: u64) -> (r: i64)
    requires
        n > 0,
    ensures
        r as int == tdiv(a as int, n as int),
{
    proof {
        lemma_tdiv_bounds(a as int, n as int);
    }
    let q: i128 = tdiv128(a as i128, n as i128);
    q as i64
}

/// Divides a non-negative accumulated cost by `2 * n`.
pub fn div_cost(total: i64, n: usize) -> (r: i64)
    requires
        n > 0,
        total >= 0,
    ensures
        r as int == tdiv(total as int, 2 * n as int),
        r >= 0,
{
    let d: u128 = 2 * (n as u128);
    proof {
        lemma_tdiv_bounds(total as int, 2 * n as int);
    }
    ((total as u128) / d) as i64
}

} // verus!
