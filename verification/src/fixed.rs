//! Fixed-point scalar arithmetic.
//!
//! A scalar is an `i64` counting thousandths of a unit (`SCALE` raw units are
//! one whole unit). Multiplication and division truncate toward zero, and the
//! square root rounds down; each helper's contract states its result exactly
//! over the mathematical integers.

use vstd::arithmetic::div_mod::{
    lemma_div_is_ordered, lemma_div_multiples_vanish, lemma_div_nonincreasing, lemma_div_pos_is_pos,
};
use vstd::arithmetic::mul::lemma_mul_inequality;
use vstd::prelude::*;

verus! {

/// Raw units per whole unit: all quantities are counts of thousandths.
pub const SCALE: i64 = 1000;

/// Whether a mathematical integer is representable as an `i64`.
pub open spec fn in_i64(x: int) -> bool {
    i64::MIN <= x <= i64::MAX
}

/// Absolute value of a mathematical integer.
pub open spec fn iabs(x: int) -> int {
    if x < 0 {
        -x
    } else {
        x
    }
}

/// Division truncated toward zero, for positive divisors.
/// A non-positive divisor yields 0; no caller divides by such a value.
pub open spec fn tdiv(a: int, b: int) -> int {
    if b <= 0 {
        0
    } else if a >= 0 {
        a / b
    } else {
        -((-a) / b)
    }
}

/// Fixed-point product: `(a * b) / SCALE`, truncated toward zero.
pub open spec fn fmul(a: int, b: int) -> int {
    tdiv(a * b, SCALE as int)
}

/// Fixed-point quotient: `(a * SCALE) / b`, truncated toward zero.
pub open spec fn fdiv(a: int, b: int) -> int {
    tdiv(a * SCALE as int, b)
}

/// Integer square root, rounded down; 0 for non-positive arguments.
pub open spec fn int_sqrt(n: int) -> int
    decreases n,
{
    if n <= 0 {
        0
    } else {
        let r = int_sqrt(n - 1);
        if (r + 1) * (r + 1) <= n {
            r + 1
        } else {
            r
        }
    }
}

/// `int_sqrt(n)` is the floor of the square root: it is non-negative, its
/// square is at most `n`, and the next square is beyond `n`.
pub proof fn lemma_int_sqrt_bounds(n: int)
    requires
        n >= 0,
    ensures
        0 <= int_sqrt(n),
        int_sqrt(n) * int_sqrt(n) <= n,
        n < (int_sqrt(n) + 1) * (int_sqrt(n) + 1),
    decreases n,
{
    if n > 0 {
        lemma_int_sqrt_bounds(n - 1);
        let r = int_sqrt(n - 1);
        if (r + 1) * (r + 1) <= n {
            assert((r + 1 + 1) * (r + 1 + 1) > (r + 1) * (r + 1)) by (nonlinear_arith)
                requires
                    r >= 0,
            ;
        }
    }
}

/// Any non-negative integer whose square is at most `n` and whose successor's
/// square exceeds `n` is `int_sqrt(n)`.
pub proof fn lemma_int_sqrt_unique(n: int, r: int)
    requires
        n >= 0,
        r >= 0,
        r * r <= n,
        n < (r + 1) * (r + 1),
    ensures
        r == int_sqrt(n),
{
    lemma_int_sqrt_bounds(n);
    let s = int_sqrt(n);
    if r < s {
        assert((r + 1) * (r + 1) <= s * s) by (nonlinear_arith)
            requires
                0 <= r,
                r < s,
        ;
    }
    if s < r {
        assert((s + 1) * (s + 1) <= r * r) by (nonlinear_arith)
            requires
                0 <= s,
                s < r,
        ;
    }
}

/// A non-negative integer whose square is at most `n` is at most `int_sqrt(n)`.
pub proof fn lemma_int_sqrt_ge(a: int, n: int)
    requires
        0 <= a,
        a * a <= n,
    ensures
        a <= int_sqrt(n),
{
    lemma_int_sqrt_bounds(n);
    let s = int_sqrt(n);
    if s < a {
        assert((s + 1) * (s + 1) <= a * a) by (nonlinear_arith)
            requires
                0 <= s,
                s < a,
        ;
    }
}

/// Truncated division flips sign with its dividend.
pub proof fn lemma_tdiv_neg(a: int, b: int)
    ensures
        tdiv(-a, b) == -tdiv(a, b),
{
}

/// Dividing by a positive integer cannot grow the magnitude.
pub proof fn lemma_tdiv_le(a: int, b: int)
    requires
        b >= 1,
    ensures
        iabs(tdiv(a, b)) <= iabs(a),
{
    if a >= 0 {
        lemma_div_nonincreasing(a, b);
        lemma_div_pos_is_pos(a, b);
    } else {
        lemma_div_nonincreasing(-a, b);
        lemma_div_pos_is_pos(-a, b);
    }
}

/// Scaling `a` by `c / m` cannot exceed `c` in magnitude when `|a| <= m`.
pub proof fn lemma_tdiv_scaled_bound(a: int, c: int, m: int)
    requires
        iabs(a) <= m,
        c >= 1,
        m >= 1,
    ensures
        iabs(tdiv(a * c, m)) <= c,
{
    lemma_mul_inequality(iabs(a), m, c);
    lemma_div_is_ordered(iabs(a) * c, m * c, m);
    lemma_div_multiples_vanish(c, m);
    lemma_div_pos_is_pos(iabs(a) * c, m);
    assert(iabs(a * c) == iabs(a) * c) by (nonlinear_arith)
        requires
            c >= 1,
    ;
    if a >= 0 {
    } else {
        assert(a * c < 0 && -(a * c) == (-a) * c) by (nonlinear_arith)
            requires
                a < 0,
                c >= 1,
        ;
        assert(tdiv(a * c, m) == -(((-a) * c) / m));
        assert((-a) * c == iabs(a) * c);
    }
}

/// The magnitude of a product is bounded by the product of magnitude bounds.
pub proof fn lemma_mul_bound(a: int, b: int, ca: int, cb: int)
    requires
        iabs(a) <= ca,
        iabs(b) <= cb,
    ensures
        iabs(a * b) <= ca * cb,
{
    assert(iabs(a * b) <= ca * cb) by (nonlinear_arith)
        requires
            iabs(a) <= ca,
            iabs(b) <= cb,
    ;
}

/// Truncated division of an `i128` by a positive divisor.
pub fn tdiv_i128(a: i128, b: i128) -> (r: i128)
    requires
        b >= 1,
        a > i128::MIN,
    ensures
        r as int == tdiv(a as int, b as int),
{
    proof {
        lemma_div_nonincreasing(iabs(a as int), b as int);
        lemma_div_pos_is_pos(iabs(a as int), b as int);
    }
    if a >= 0 {
        ((a as u128) / (b as u128)) as i128
    } else {
        -((((-a) as u128) / (b as u128)) as i128)
    }
}

/// Largest `r` with `r * r <= n`, by binary search.
pub fn isqrt_u128(n: u128) -> (r: u128)
    ensures
        r as int == int_sqrt(n as int),
{
    let mut lo: u128 = 0;
    let mut hi: u128 = 0x1_0000_0000_0000_0000;
    while hi - lo > 1
        invariant
            lo < hi <= 0x1_0000_0000_0000_0000,
            (lo as int) * (lo as int) <= n as int,
            (hi as int) * (hi as int) > n as int,
        decreases hi - lo,
    {
        let mid: u128 = lo + (hi - lo) / 2;
        assert(lo < mid < hi);
        assert(mid * mid <= u128::MAX) by (nonlinear_arith)
            requires
                0 < mid < 0x1_0000_0000_0000_0000u128,
        ;
        if mid * mid <= n {
            lo = mid;
        } else {
            hi = mid;
        }
    }
    proof {
        lemma_int_sqrt_unique(n as int, lo as int);
    }
    lo
}

} // verus!
