//! Activation functions and their derivatives, as pure fixed-point
//! scalar functions.
//!
//! The sigmoid is computed as 1 / (1 + e^(-x)): e^x is evaluated in
//! fixed point by splitting x * log2(e) into an integer power of two
//! and a fractional part approximated with a short polynomial.  The
//! argument is saturated to [-ARG_CLAMP, ARG_CLAMP]; outside that range
//! the true sigmoid is within one fixed-point unit of 0 or 1 anyway.

use vstd::prelude::*;

use crate::fixed::{fmul, fsub, mul_fix, sub_fix, SCALE};
use vstd::arithmetic::div_mod::{
    lemma_div_is_ordered, lemma_div_multiples_vanish, lemma_div_pos_is_pos,
    lemma_mod_division_less_than_divisor, lemma_multiply_divide_lt,
};
use vstd::arithmetic::power2::{lemma2_to64, lemma_pow2_pos, lemma_pow2_strictly_increases, pow2};

verus! {

/// Sigmoid arguments are saturated to this magnitude (16.0 in fixed
/// point) before the exponential is taken.
pub const ARG_CLAMP: i64 = 1048576;

/// log2(e), ln(2), ln(2)^2 / 2 and ln(2)^3 / 6, all scaled by SCALE.
pub const LOG2E: u64 = 94548;

pub const EXP_C1: u64 = 45426;

pub const EXP_C2: u64 = 15743;

pub const EXP_C3: u64 = 3637;

/// Scaled intermediate v = u * log2(e) of the exponential.
pub open spec fn exp_v(u: int) -> int {
    (u * LOG2E as int) / (SCALE as int)
}

/// Integer part of the base-two exponent.
pub open spec fn exp_k(u: int) -> int {
    exp_v(u) / (SCALE as int)
}

/// Fractional part of the base-two exponent.
pub open spec fn exp_f(u: int) -> int {
    exp_v(u) % (SCALE as int)
}

/// Polynomial approximation of 2^(exp_f(u) / SCALE), scaled by SCALE.
pub open spec fn exp_p(u: int) -> int {
    let f = exp_f(u);
    let t1 = (f * EXP_C1 as int) / (SCALE as int);
    let f2 = (f * f) / (SCALE as int);
    let t2 = (f2 * EXP_C2 as int) / (SCALE as int);
    let f3 = (f2 * f) / (SCALE as int);
    let t3 = (f3 * EXP_C3 as int) / (SCALE as int);
    SCALE as int + t1 + t2 + t3
}

/// Fixed-point e^(u / SCALE) for 0 <= u <= ARG_CLAMP.
pub open spec fn spec_exp_pos(u: int) -> int {
    exp_p(u) * pow2(exp_k(u) as nat)
}

/// Fixed-point sigmoid 1 / (1 + e^(-x / SCALE)), scaled by SCALE.
pub open spec fn spec_sigmoid(x: int) -> int {
    let xc = if x < -(ARG_CLAMP as int) {
        -(ARG_CLAMP as int)
    } else if x > ARG_CLAMP as int {
        ARG_CLAMP as int
    } else {
        x
    };
    if xc >= 0 {
        let e = spec_exp_pos(xc);
        (e * SCALE as int) / (e + SCALE as int)
    } else {
        let e = spec_exp_pos(-xc);
        SCALE as int - (e * SCALE as int) / (e + SCALE as int)
    }
}

/// Bounds for every intermediate of the fixed-point exponential.
pub proof fn lemma_exp_pos_bounds(u: int)
    requires
        0 <= u <= ARG_CLAMP as int,
    ensures
        0 <= exp_v(u) <= 1512768,
        0 <= exp_k(u) <= 23,
        0 <= exp_f(u) < 65536,
        65536 <= exp_p(u) <= 130342,
        65536 <= spec_exp_pos(u) <= 0x100_0000_0000,
        u == 0 ==> spec_exp_pos(u) == 65536,
{
    let s = SCALE as int;
    lemma_div_pos_is_pos(u * LOG2E as int, s);
    lemma_div_is_ordered(u * LOG2E as int, 1048576int * 94548, s);
    assert(exp_v(u) <= 1512768);
    lemma_div_pos_is_pos(exp_v(u), s);
    lemma_div_is_ordered(exp_v(u), 1512768, s);
    lemma_mod_division_less_than_divisor(exp_v(u), s);
    let f = exp_f(u);
    lemma_div_pos_is_pos(f * EXP_C1 as int, s);
    lemma_div_is_ordered(f * EXP_C1 as int, 65535int * 45426, s);
    assert(f * f >= 0 && f * f <= 65535int * 65535) by (nonlinear_arith)
        requires
            0 <= f <= 65535,
    ;
    lemma_div_pos_is_pos(f * f, s);
    lemma_div_is_ordered(f * f, 65535int * 65535, s);
    let f2 = (f * f) / s;
    lemma_div_pos_is_pos(f2 * EXP_C2 as int, s);
    lemma_div_is_ordered(f2 * EXP_C2 as int, 65534int * 15743, s);
    assert(f2 * f >= 0 && f2 * f <= 65534int * 65535) by (nonlinear_arith)
        requires
            0 <= f2 <= 65534 && 0 <= f <= 65535,
    ;
    lemma_div_pos_is_pos(f2 * f, s);
    lemma_div_is_ordered(f2 * f, 65534int * 65535, s);
    let f3 = (f2 * f) / s;
    lemma_div_pos_is_pos(f3 * EXP_C3 as int, s);
    lemma_div_is_ordered(f3 * EXP_C3 as int, 65533int * 3637, s);
    assert(65536 <= exp_p(u) <= 130342);
    let k = exp_k(u) as nat;
    lemma_pow2_pos(k);
    if k < 23 {
        lemma_pow2_strictly_increases(k, 23);
    }
    lemma2_to64();
    assert(pow2(23) == 0x800000);
    assert(1 <= pow2(k) <= 0x800000);
    assert(spec_exp_pos(u) >= 65536 && spec_exp_pos(u) <= 130342int * 0x800000) by (nonlinear_arith)
        requires
            65536 <= exp_p(u) <= 130342,
            1 <= pow2(k) <= 0x800000,
            spec_exp_pos(u) == exp_p(u) * pow2(k),
    ;
    if u == 0 {
        vstd::arithmetic::div_mod::lemma_div_of0(s);
        assert(exp_v(0) == 0);
        assert(exp_k(0) == 0);
        assert(exp_f(0) == 0);
        assert(exp_p(0) == s);
        assert(pow2(0) == 1);
        assert(spec_exp_pos(0) == exp_p(0) * pow2(exp_k(0) as nat));
        assert(exp_p(0) * pow2(exp_k(0) as nat) == 65536int * 1);
    }
}

/// The quotient e * SCALE / (e + SCALE) lies in [SCALE / 2, SCALE - 1]
/// whenever e >= SCALE, and equals exactly SCALE / 2 when e == SCALE.
proof fn lemma_sigmoid_quotient(e: int)
    requires
        SCALE as int <= e,
    ensures
        32768 <= (e * SCALE as int) / (e + SCALE as int) <= 65535,
        e == SCALE as int ==> (e * SCALE as int) / (e + SCALE as int) == 32768,
{
    let s = SCALE as int;
    let d = e + s;
    assert(e * s < d * s) by (nonlinear_arith)
        requires
            d == e + s && s > 0,
    ;
    lemma_multiply_divide_lt(e * s, d, s);
    assert((e * s) / d <= 65535);
    assert(e * s >= d * 32768) by (nonlinear_arith)
        requires
            d == e + s && s == 65536 && e >= s,
    ;
    lemma_div_is_ordered(d * 32768, e * s, d);
    lemma_div_multiples_vanish(32768, d);
    assert((d * 32768) / d == 32768);
    if e == s {
        assert(e * s == d * 32768) by (nonlinear_arith)
            requires
                d == e + s && s == 65536 && e == s,
        ;
    }
}

/// Sigmoid range: for every x, 0 < sigmoid(x) < 1, and sigmoid(0) is
/// exactly one half.
pub proof fn lemma_sigmoid_range(x: int)
    ensures
        0 < spec_sigmoid(x) < SCALE as int,
        spec_sigmoid(0) == (SCALE as int) / 2,
{
    let xc = if x < -(ARG_CLAMP as int) {
        -(ARG_CLAMP as int)
    } else if x > ARG_CLAMP as int {
        ARG_CLAMP as int
    } else {
        x
    };
    if xc >= 0 {
        lemma_exp_pos_bounds(xc);
        lemma_sigmoid_quotient(spec_exp_pos(xc));
    } else {
        lemma_exp_pos_bounds(-xc);
        lemma_sigmoid_quotient(spec_exp_pos(-xc));
    }
    lemma_exp_pos_bounds(0);
    lemma_sigmoid_quotient(spec_exp_pos(0));
}

/// Activation functions
#[derive(Clone, Copy, Debug, PartialEq, Eq, Structural)]
pub enum Activation {
    Identity,
    Sigmoid,
    Relu,
    Perceptron,
}

/// What each activation returns, elementwise on fixed-point scalars.
pub open spec fn spec_apply(act: Activation, x: int) -> int {
    match act {
        Activation::Identity => x,
        Activation::Sigmoid => spec_sigmoid(x),
        Activation::Relu => if x > 0 {
            x
        } else {
            0
        },
        Activation::Perceptron => if x > 0 {
            SCALE as int
        } else {
            0
        },
    }
}

/// The derivative of each activation, evaluated at the pre-activation
/// value.  The hard-threshold derivative is the constant 1: a
/// deliberate simplification that lets the perceptron step sit in a
/// gradient-based layer despite not being differentiable.
pub open spec fn spec_apply_prime(act: Activation, x: int) -> int {
    match act {
        Activation::Identity => SCALE as int,
        Activation::Sigmoid => fmul(spec_sigmoid(x), fsub(SCALE as int, spec_sigmoid(x))),
        Activation::Relu => if x > 0 {
            SCALE as int
        } else {
            0
        },
        Activation::Perceptron => SCALE as int,
    }
}

impl Activation {
    /// Applies the activation to one fixed-point scalar.
    pub fn apply(&self, input: i64) -> (r: i64)
        ensures
            r as int == spec_apply(*self, input as int),
    {
        match self {
            Self::Identity => input,
            Self::Sigmoid => Self::sigmoid(input),
            Self::Relu => Self::relu(input),
            Self::Perceptron => Self::perceptron(input),
        }
    }

    /// Applies the activation's derivative to one fixed-point scalar.
    pub fn apply_prime(&self, input: i64) -> (r: i64)
        ensures
            r as int == spec_apply_prime(*self, input as int),
    {
        match self {
            Self::Identity => SCALE,
            Self::Sigmoid => Self::sigmoid_prime(input),
            Self::Relu => Self::relu_prime(input),
            Self::Perceptron => Self::perceptron_prime(input),
        }
    }

    fn exp_pos(u: i64) -> (r: i64)
        requires
            0 <= u <= ARG_CLAMP,
        ensures
            r as int == spec_exp_pos(u as int),
            65536 <= r as int <= 0x100_0000_0000,
    {
        proof {
            lemma_exp_pos_bounds(u as int);
        }
        let uu: u64 = u as u64;
        let v: u64 = (uu * LOG2E) / 65536;
        let k: u64 = v / 65536;
        let f: u64 = v % 65536;
        assert(v as int == exp_v(u as int));
        assert(k as int == exp_k(u as int));
        assert(f as int == exp_f(u as int));
        let t1: u64 = (f * EXP_C1) / 65536;
        let f2: u64 = (f * f) / 65536;
        let t2: u64 = (f2 * EXP_C2) / 65536;
        let f3: u64 = (f2 * f) / 65536;
        let t3: u64 = (f3 * EXP_C3) / 65536;
        let p: u64 = 65536 + t1 + t2 + t3;
        assert(p as int == exp_p(u as int));
        proof {
            lemma2_to64();
        }
        let mut r: u64 = p;
        let mut i: u64 = 0;
        while i < k
            invariant
                0 <= i <= k,
                k as int == exp_k(u as int),
                k <= 23,
                65536 <= p <= 130342,
                r as int == p as int * pow2(i as nat),
            decreases k - i,
        {
            proof {
                lemma2_to64();
                if (i as nat) < 23 {
                    lemma_pow2_strictly_increases(i as nat, 23);
                }
                lemma_pow2_pos(i as nat);
                assert(r as int * 2 == p as int * pow2((i + 1) as nat)) by (nonlinear_arith)
                    requires
                        r as int == p as int * pow2(i as nat),
                        pow2((i + 1) as nat) == 2 * pow2(i as nat),
                ;
                assert(p as int * pow2((i + 1) as nat) <= 130342int * 0x800000) by (nonlinear_arith)
                    requires
                        0 <= p as int <= 130342,
                        0 <= pow2((i + 1) as nat) <= 0x800000,
                ;
            }
            r = r * 2;
            i = i + 1;
        }
        proof {
            lemma_pow2_pos(k as nat);
            assert(r as int >= p as int) by (nonlinear_arith)
                requires
                    r as int == p as int * pow2(k as nat),
                    p as int >= 0,
                    pow2(k as nat) >= 1,
            ;
        }
        r as i64
    }

    /// https://en.wikipedia.org/wiki/Sigmoid_function
    fn sigmoid(input: i64) -> (r: i64)
        ensures
            r as int == spec_sigmoid(input as int),
            0 < r < SCALE,
    {
        proof {
            lemma_sigmoid_range(input as int);
        }
        let xc: i64 = if input < -ARG_CLAMP {
            -ARG_CLAMP
        } else if input > ARG_CLAMP {
            ARG_CLAMP
        } else {
            input
        };
        if xc >= 0 {
            let e = Self::exp_pos(xc);
            let num: u64 = (e as u64) * (SCALE as u64);
            let den: u64 = (e as u64) + (SCALE as u64);
            proof {
                lemma_sigmoid_quotient(e as int);
            }
            (num / den) as i64
        } else {
            let e = Self::exp_pos(-xc);
            let num: u64 = (e as u64) * (SCALE as u64);
            let den: u64 = (e as u64) + (SCALE as u64);
            proof {
                lemma_sigmoid_quotient(e as int);
            }
            SCALE - (num / den) as i64
        }
    }

    fn sigmoid_prime(input: i64) -> (r: i64)
        ensures
            r as int == spec_apply_prime(Activation::Sigmoid, input as int),
    {
        let a = Self::sigmoid(input);
        mul_fix(a, sub_fix(SCALE, a))
    }

    /// https://en.wikipedia.org/wiki/Rectifier_(neural_networks)
    fn relu(input: i64) -> (r: i64)
        ensures
            r as int == spec_apply(Activation::Relu, input as int),
    {
        if input > 0 {
            input
        } else {
            0
        }
    }

    fn relu_prime(input: i64) -> (r: i64)
        ensures
            r as int == spec_apply_prime(Activation::Relu, input as int),
    {
        if input <= 0 {
            0
        } else {
            SCALE
        }
    }

    fn perceptron(input: i64) -> (r: i64)
        ensures
            r as int == spec_apply(Activation::Perceptron, input as int),
    {
        if input > 0 {
            SCALE
        } else {
            0
        }
    }

    fn perceptron_prime(input: i64) -> (r: i64)
        ensures
            r as int == spec_apply_prime(Activation::Perceptron, input as int),
    {
        SCALE
    }
}

/// ReLU non-negativity: for every x, relu(x) >= 0, and relu(x) == x
/// for x >= 0.
pub proof fn lemma_relu_nonneg(x: int)
    ensures
        spec_apply(Activation::Relu, x) >= 0,
        x >= 0 ==> spec_apply(Activation::Relu, x) == x,
{
}

} // verus!
