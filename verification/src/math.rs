//! Numeric operations available to the evaluator.
//!
//! Numbers are `i64` with wrapping semantics, so every operation is total:
//! division by zero yields `0`, a negative exponent yields `0`, the square
//! root of a negative number yields `0`, and overflow wraps around.

use vstd::prelude::*;
use crate::Num;

verus! {

/// A unary operation, usable as a prefix operator or as an appended
/// (postfix) operator.
#[derive(Clone, Copy, Debug, PartialEq, Eq, Structural)]
pub enum UnaryOp {
    /// Arithmetic negation (wrapping: the minimum value maps to itself).
    Neg,
    /// Absolute value (wrapping: the minimum value maps to itself).
    Abs,
    /// Integer square root (largest `r >= 0` with `r * r <= v`); `0` for
    /// negative arguments.
    Sqrt,
    /// Factorial-style product `v * (v - 1) * ... * 2 * 1` with wrapping
    /// multiplication; arguments below `1` are returned unchanged.
    Fac,
}

/// A binary infix operation.
#[derive(Clone, Copy, Debug, PartialEq, Eq, Structural)]
pub enum BinaryOp {
    /// Wrapping addition.
    Add,
    /// Wrapping subtraction.
    Sub,
    /// Wrapping multiplication.
    Mul,
    /// Truncating division; division by zero yields `0`.
    Div,
    /// Wrapping exponentiation; a negative exponent yields `0`.
    Pow,
}

/// Wrapping addition on `Num`, as `i64::wrapping_add` computes it.
pub open spec fn wrap_add(a: Num, b: Num) -> Num {
    vstd::wrapping::i64_specs::wrapping_add(a, b)
}

/// Wrapping subtraction on `Num`, as `i64::wrapping_sub` computes it.
pub open spec fn wrap_sub(a: Num, b: Num) -> Num {
    vstd::wrapping::i64_specs::wrapping_sub(a, b)
}

/// Wrapping multiplication on `Num`, as `i64::wrapping_mul` computes it.
pub open spec fn wrap_mul(a: Num, b: Num) -> Num {
    vstd::wrapping::i64_specs::wrapping_mul(a, b)
}

/// Wrapping negation: the minimum value maps to itself.
pub open spec fn spec_neg(v: Num) -> Num {
    if v == Num::MIN {
        Num::MIN
    } else {
        (-v) as Num
    }
}

/// Wrapping absolute value: the minimum value maps to itself.
pub open spec fn spec_abs(v: Num) -> Num {
    if v < 0 {
        spec_neg(v)
    } else {
        v
    }
}

/// The magnitude of `v` as an unbounded integer.
pub open spec fn abs_int(v: Num) -> int {
    if v < 0 {
        -v
    } else {
        v as int
    }
}

/// Floor of the square root: the largest `r >= 0` with `r * r <= n`
/// (`0` when `n <= 0`).
pub open spec fn spec_isqrt(n: int) -> int
    decreases n,
{
    if n <= 0 {
        0
    } else {
        let r = spec_isqrt(n - 1);
        if (r + 1) * (r + 1) <= n {
            r + 1
        } else {
            r
        }
    }
}

/// The factorial-style product `v * (v - 1) * ... * 2 * 1` with wrapping
/// multiplication; arguments below `1` are returned unchanged.
pub open spec fn spec_fac(v: Num) -> Num
    decreases v,
{
    if v <= 1 {
        v
    } else {
        wrap_mul(v, spec_fac((v - 1) as Num))
    }
}

/// `a` raised to the power `b` with wrapping multiplication (`1` when
/// `b <= 0`).
pub open spec fn spec_pow(a: Num, b: Num) -> Num
    decreases b,
{
    if b <= 0 {
        1
    } else {
        wrap_mul(a, spec_pow(a, (b - 1) as Num))
    }
}

/// Truncating signed division: the quotient of the magnitudes, carrying the
/// sign of the exact quotient. Division by zero yields `0`; the one
/// overflowing case (minimum value divided by `-1`) yields the minimum value.
pub open spec fn spec_div(a: Num, b: Num) -> Num {
    if b == 0 {
        0
    } else if a == Num::MIN && b == -1 {
        Num::MIN
    } else {
        let q = abs_int(a) / abs_int(b);
        if (a < 0) != (b < 0) {
            (-q) as Num
        } else {
            q as Num
        }
    }
}

/// What a unary operation returns on a given value.
pub open spec fn spec_apply_unary(op: UnaryOp, v: Num) -> Num {
    match op {
        UnaryOp::Neg => spec_neg(v),
        UnaryOp::Abs => spec_abs(v),
        UnaryOp::Sqrt => if v < 0 {
            0
        } else {
            spec_isqrt(v as int) as Num
        },
        UnaryOp::Fac => spec_fac(v),
    }
}

/// What a binary operation returns on given values.
pub open spec fn spec_apply_binary(op: BinaryOp, a: Num, b: Num) -> Num {
    match op {
        BinaryOp::Add => wrap_add(a, b),
        BinaryOp::Sub => wrap_sub(a, b),
        BinaryOp::Mul => wrap_mul(a, b),
        BinaryOp::Div => spec_div(a, b),
        BinaryOp::Pow => if b < 0 {
            0
        } else {
            spec_pow(a, b)
        },
    }
}

/// `spec_isqrt(n)` is the floor of the square root of `n`.
pub proof fn lemma_isqrt_bounds(n: int)
    requires
        n >= 0,
    ensures
        0 <= spec_isqrt(n),
        spec_isqrt(n) * spec_isqrt(n) <= n,
        n < (spec_isqrt(n) + 1) * (spec_isqrt(n) + 1),
    decreases n,
{
    if n > 0 {
        lemma_isqrt_bounds(n - 1);
        let r = spec_isqrt(n - 1);
        if (r + 1) * (r + 1) <= n {
            assert(n <= (r + 1) * (r + 1));
            assert((r + 1) * (r + 1) < (r + 2) * (r + 2)) by (nonlinear_arith)
                requires r >= 0;
        }
    }
}

/// Any `r` satisfying the floor-square-root bounds equals `spec_isqrt(n)`.
pub proof fn lemma_isqrt_unique(n: int, r: int)
    requires
        n >= 0,
        0 <= r,
        r * r <= n,
        n < (r + 1) * (r + 1),
    ensures
        r == spec_isqrt(n),
{
    lemma_isqrt_bounds(n);
    let s = spec_isqrt(n);
    if r < s {
        assert((r + 1) * (r + 1) <= s * s) by (nonlinear_arith)
            requires 0 <= r + 1 <= s;
    }
    if s < r {
        assert((s + 1) * (s + 1) <= r * r) by (nonlinear_arith)
            requires 0 <= s + 1 <= r;
    }
}

/// Integer square root of a nonnegative number.
pub fn isqrt(n: Num) -> (r: Num)
    requires
        n >= 0,
    ensures
        r == spec_isqrt(n as int),
        0 <= r,
        r * r <= n,
        n < (r + 1) * (r + 1),
{
    let mut r: i64 = 0;
    loop
        invariant
            0 <= r <= 3037000499i64,
            r * r <= n,
            n >= 0,
        ensures
            0 <= r,
            r * r <= n,
            (r + 1) * (r + 1) > n || r == 3037000499i64,
        decreases 3037000499i64 - r,
    {
        if r >= 3037000499i64 {
            break;
        }
        assert((r + 1) * (r + 1) <= 3037000499i64 * 3037000499i64) by (nonlinear_arith)
            requires 0 <= r + 1 <= 3037000499i64;
        let s = (r + 1) * (r + 1);
        if s > n {
            break;
        }
        r = r + 1;
    }
    proof {
        if r == 3037000499i64 && (r + 1) * (r + 1) <= n {
            // The square of the next candidate exceeds the largest `Num`,
            // so `r` is already the floor of the square root.
            assert(3037000500int * 3037000500int > Num::MAX as int) by (nonlinear_arith);
        }
        lemma_isqrt_unique(n as int, r as int);
    }
    r
}

/// Calculate the factorial-style product of the given number, with wrapping
/// multiplication; arguments below `1` are returned unchanged. The product
/// is accumulated iteratively, so large arguments cost time, not stack.
pub fn fac(a: Num) -> (r: Num)
    ensures
        r == spec_fac(a),
{
    if a <= 1 {
        return a;
    }
    let mut acc: i64 = 1;
    let mut j: i64 = 1;
    while j < a
        invariant
            1 <= j <= a,
            acc == spec_fac(j),
        decreases a - j,
    {
        j = j + 1;
        acc = j.wrapping_mul(acc);
        assert(acc == spec_fac(j));
    }
    acc
}

/// `base` raised to the power `exp >= 0` with wrapping multiplication.
pub fn pow_num(base: Num, exp: Num) -> (r: Num)
    requires
        exp >= 0,
    ensures
        r == spec_pow(base, exp),
{
    let mut acc: i64 = 1;
    let mut i: i64 = 0;
    while i < exp
        invariant
            0 <= i <= exp,
            acc == spec_pow(base, i),
        decreases exp - i,
    {
        acc = base.wrapping_mul(acc);
        i = i + 1;
        assert(acc == spec_pow(base, i));
    }
    acc
}

/// The magnitude of a number as a `u64`.
fn abs_u64(a: Num) -> (r: u64)
    ensures
        r == abs_int(a),
{
    if a < 0 {
        if a == Num::MIN {
            9223372036854775808u64
        } else {
            (-a) as u64
        }
    } else {
        a as u64
    }
}

/// Truncating signed division, total as `spec_div` describes it.
pub fn div_num(a: Num, b: Num) -> (r: Num)
    ensures
        r == spec_div(a, b),
{
    if b == 0 {
        0
    } else if a == Num::MIN && b == -1 {
        Num::MIN
    } else {
        let ua = abs_u64(a);
        let ub = abs_u64(b);
        let q = ua / ub;
        proof {
            assert(q == abs_int(a) / abs_int(b));
            assert(q * ub <= ua) by (nonlinear_arith)
                requires ub >= 1, q == ua as int / ub as int, ua >= 0;
            assert(q <= ua) by (nonlinear_arith)
                requires ub >= 1, q * ub <= ua, q >= 0;
        }
        if (a < 0) != (b < 0) {
            if q >= 9223372036854775808u64 {
                assert(q == 9223372036854775808u64);
                Num::MIN
            } else {
                -(q as i64)
            }
        } else {
            proof {
                if ua == 9223372036854775808u64 {
                    // Same signs with `a` at the minimum value: `b <= -2`,
                    // so the quotient is at most half the magnitude.
                    assert(b < 0 && b != -1);
                    assert(ub >= 2);
                    assert(q * 2 <= q * ub) by (nonlinear_arith)
                        requires q >= 0, ub >= 2;
                }
            }
            q as i64
        }
    }
}

/// Apply a unary operation.
pub fn apply_unary(op: UnaryOp, v: Num) -> (r: Num)
    ensures
        r == spec_apply_unary(op, v),
{
    match op {
        UnaryOp::Neg => if v == Num::MIN {
            Num::MIN
        } else {
            -v
        },
        UnaryOp::Abs => if v == Num::MIN {
            Num::MIN
        } else if v < 0 {
            -v
        } else {
            v
        },
        UnaryOp::Sqrt => if v < 0 {
            0
        } else {
            isqrt(v)
        },
        UnaryOp::Fac => fac(v),
    }
}

/// Apply a binary operation.
pub fn apply_binary(op: BinaryOp, a: Num, b: Num) -> (r: Num)
    ensures
        r == spec_apply_binary(op, a, b),
{
    match op {
        BinaryOp::Add => a.wrapping_add(b),
        BinaryOp::Sub => a.wrapping_sub(b),
        BinaryOp::Mul => a.wrapping_mul(b),
        BinaryOp::Div => div_num(a, b),
        BinaryOp::Pow => if b < 0 {
            0
        } else {
            pow_num(a, b)
        },
    }
}

} // verus!
