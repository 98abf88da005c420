//! Shared integer arithmetic: row-major index bounds, an exact integer
//! square root, and division truncated toward zero.

use vstd::prelude::*;
use vstd::arithmetic::mul::{lemma_mul_inequality, lemma_mul_strict_inequality};

verus! {

/// A coordinate pair inside a `width * height` grid addresses a cell of its
/// row-major buffer.
pub proof fn lemma_row_index_in_range(width: int, height: int, x: int, y: int)
    requires
        0 <= x < width,
        0 <= y < height,
    ensures
        0 <= y * width + x < width * height,
{
    lemma_mul_inequality(y, height - 1, width);
    assert((height - 1) * width + width == height * width) by (nonlinear_arith);
    vstd::arithmetic::mul::lemma_mul_nonnegative(y, width);
}

/// The floor of the square root of `n`.
pub open spec fn isqrt_spec(n: nat) -> nat
    decreases n,
{
    if n == 0 {
        0
    } else {
        let r = isqrt_spec((n - 1) as nat);
        if (r + 1) * (r + 1) <= n {
            r + 1
        } else {
            r
        }
    }
}

/// `isqrt_spec(n)` squares to at most `n`, and the next integer squares past
/// `n`.
pub proof fn lemma_isqrt_bounds(n: nat)
    ensures
        isqrt_spec(n) * isqrt_spec(n) <= n,
        n < (isqrt_spec(n) + 1) * (isqrt_spec(n) + 1),
    decreases n,
{
    if n > 0 {
        lemma_isqrt_bounds((n - 1) as nat);
        let r = isqrt_spec((n - 1) as nat);
        assert(r * r <= n - 1);
        assert(n - 1 < (r + 1) * (r + 1));
        if (r + 1) * (r + 1) <= n {
            assert(isqrt_spec(n) == r + 1);
            assert(n == (r + 1) * (r + 1));
            assert((r + 1) * (r + 1) < (r + 2) * (r + 2)) by (nonlinear_arith);
            assert(isqrt_spec(n) * isqrt_spec(n) <= n);
            assert(n < (isqrt_spec(n) + 1) * (isqrt_spec(n) + 1));
        } else {
            assert(isqrt_spec(n) == r);
            assert(isqrt_spec(n) * isqrt_spec(n) <= n);
            assert(n < (isqrt_spec(n) + 1) * (isqrt_spec(n) + 1));
        }
    } else {
        assert(isqrt_spec(n) == 0);
        vstd::arithmetic::mul::lemma_mul_basics(isqrt_spec(n) as int + 1);
        assert(isqrt_spec(n) * isqrt_spec(n) == 0) by (nonlinear_arith)
            requires
                isqrt_spec(n) == 0,
        ;
    }
}

/// Any `r` bracketed by the two square bounds is the integer square root.
pub proof fn lemma_isqrt_unique(n: nat, r: nat)
    requires
        r * r <= n,
        n < (r + 1) * (r + 1),
    ensures
        isqrt_spec(n) == r,
{
    lemma_isqrt_bounds(n);
    let s = isqrt_spec(n);
    if s < r {
        lemma_mul_inequality(s as int + 1, r as int, s as int + 1);
        lemma_mul_inequality(s as int + 1, r as int, r as int);
    }
    if r < s {
        lemma_mul_inequality(r as int + 1, s as int, r as int + 1);
        lemma_mul_inequality(r as int + 1, s as int, s as int);
    }
}

/// Exact integer square root by bisection.
pub fn isqrt_u128(n: u128) -> (r: u128)
    requires
        n < 0x4000_0000_0000_0000_0000_0000_0000_0000,
    ensures
        r == isqrt_spec(n as nat),
{
    let mut lo: u128 = 0;
    let mut hi: u128 = 0x8000_0000_0000_0000;
    assert(lo * lo == 0) by (nonlinear_arith)
        requires
            lo == 0,
    ;
    assert(n < (hi + 1) * (hi + 1)) by (nonlinear_arith)
        requires
            n < 0x4000_0000_0000_0000_0000_0000_0000_0000,
            hi == 0x8000_0000_0000_0000,
    ;
    while lo < hi
        invariant
            lo <= hi <= 0x8000_0000_0000_0000,
            lo * lo <= n,
            n < (hi + 1) * (hi + 1),
        decreases hi - lo,
    {
        let mid = lo + (hi - lo + 1) / 2;
        assert(mid * mid <= 0x4000_0000_0000_0000_0000_0000_0000_0000) by (nonlinear_arith)
            requires
                0 <= mid <= 0x8000_0000_0000_0000,
        ;
        if mid * mid <= n {
            lo = mid;
        } else {
            hi = mid - 1;
        }
    }
    proof {
        lemma_isqrt_unique(n as nat, lo as nat);
    }
    lo
}

/// The product of two bounded factors is bounded by the product of the
/// bounds.
pub proof fn lemma_abs_mul_bound(a: int, b: int, ba: int, bb: int)
    requires
        -ba <= a <= ba,
        -bb <= b <= bb,
    ensures
        -(ba * bb) <= a * b <= ba * bb,
{
    assert(-(ba * bb) <= a * b <= ba * bb) by (nonlinear_arith)
        requires
            -ba <= a <= ba,
            -bb <= b <= bb,
    ;
}

/// A square is never negative.
pub proof fn lemma_square_nonneg(a: int)
    ensures
        a * a >= 0,
{
    assert(a * a >= 0) by (nonlinear_arith);
}

/// Division truncated toward zero, for a positive divisor: what hardware
/// division computes on a signed dividend.
pub open spec fn div_trunc(a: int, b: int) -> int {
    if a >= 0 {
        a / b
    } else {
        -((-a) / b)
    }
}

/// Divide, truncating toward zero.
pub fn div_trunc_i128(a: i128, b: i128) -> (q: i128)
    requires
        b > 0,
        a > i128::MIN,
    ensures
        q == div_trunc(a as int, b as int),
        a >= 0 ==> 0 <= q <= a,
        a < 0 ==> a <= q <= 0,
{
    if a >= 0 {
        let q = (a as u128) / (b as u128);
        proof {
            vstd::arithmetic::div_mod::lemma_div_pos_is_pos(a as int, b as int);
            vstd::arithmetic::div_mod::lemma_div_nonincreasing(a as int, b as int);
        }
        q as i128
    } else {
        let m = (-a) as u128;
        let q = m / (b as u128);
        proof {
            vstd::arithmetic::div_mod::lemma_div_pos_is_pos(m as int, b as int);
            vstd::arithmetic::div_mod::lemma_div_nonincreasing(m as int, b as int);
        }
        -(q as i128)
    }
}

/// Truncating division scaled back up stays within the dividend's bound.
pub proof fn lemma_div_trunc_scaled_bound(a: int, d: int, bound: int)
    requires
        d > 0,
        -bound <= a <= bound,
        0 <= bound,
    ensures
        -bound <= div_trunc(a, d) * d <= bound,
{
    if a >= 0 {
        let q = a / d;
        vstd::arithmetic::div_mod::lemma_fundamental_div_mod(a, d);
        vstd::arithmetic::div_mod::lemma_div_pos_is_pos(a, d);
        vstd::arithmetic::mul::lemma_mul_is_commutative(q, d);
        vstd::arithmetic::mul::lemma_mul_nonnegative(q, d);
    } else {
        let q = (-a) / d;
        vstd::arithmetic::div_mod::lemma_fundamental_div_mod(-a, d);
        vstd::arithmetic::div_mod::lemma_div_pos_is_pos(-a, d);
        vstd::arithmetic::mul::lemma_mul_is_commutative(q, d);
        vstd::arithmetic::mul::lemma_mul_nonnegative(q, d);
        assert((-q) * d == -(q * d)) by (nonlinear_arith);
    }
}

} // verus!
