//! Fixed-point scalars and the integer square root.
//!
//! Fractional quantities (unit normals, reflectances, trigonometric matrix
//! entries) are carried as integers scaled by `FP_ONE`. Division truncates
//! toward zero, as Rust's integer division does, which `div_fp` mirrors in
//! specifications.
use vstd::prelude::*;
use vstd::arithmetic::div_mod::lemma_div_is_ordered;
use vstd::arithmetic::div_mod::lemma_div_multiples_vanish;
use vstd::arithmetic::div_mod::lemma_div_pos_is_pos;
use vstd::arithmetic::div_mod::lemma_fundamental_div_mod;
use vstd::arithmetic::div_mod::lemma_mod_bound;
use vstd::arithmetic::mul::lemma_mul_inequality;

verus! {

/// Number of fixed-point steps per unit: a fraction `x` is stored as
/// `round(x * FP_ONE)`.
pub const FP_ONE: i64 = 65536;

/// Largest coordinate magnitude the geometry containers and the rasterizer
/// accept; transformed geometry is checked against it.
pub const COORD_BOUND: i64 = 0x100_0000;

/// Truncating (round-toward-zero) division, the meaning of `/` on Rust's
/// signed integers; the divisor must be positive.
pub open spec fn div_fp(a: int, b: int) -> int
    recommends
        b > 0,
{
    if a >= 0 {
        a / b
    } else {
        -((-a) / b)
    }
}

/// Truncating division of a wide value by a positive divisor.
pub fn div_trunc128(a: i128, b: i128) -> (r: i128)
    requires
        0 < b,
    ensures
        r == div_fp(a as int, b as int),
{
    proof {
        if a >= 0 {
            lemma_div_pos_is_pos(a as int, b as int);
            lemma_div_is_ordered(a as int, 0x8000_0000_0000_0000_0000_0000_0000_0000int - 1, b as int);
        } else {
            lemma_div_pos_is_pos(-(a as int), b as int);
            lemma_div_is_ordered(-(a as int), 0x8000_0000_0000_0000_0000_0000_0000_0000int, b as int);
        }
    }
    a / b
}

/// Truncating division of a machine word by a positive divisor.
pub fn div64(a: i64, b: i64) -> (r: i64)
    requires
        0 < b,
    ensures
        r == div_fp(a as int, b as int),
{
    proof {
        if a >= 0 {
            lemma_div_pos_is_pos(a as int, b as int);
            lemma_div_is_ordered(a as int, 0x8000_0000_0000_0000int - 1, b as int);
        } else {
            lemma_div_pos_is_pos(-(a as int), b as int);
            lemma_div_is_ordered(-(a as int), 0x8000_0000_0000_0000int, b as int);
        }
    }
    a / b
}

/// Truncating division stays within `f` when the numerator is within
/// `m * f`.
pub proof fn lemma_div_fp_bound(a: int, m: int, f: int)
    requires
        0 < m,
        0 <= f,
        -(m * f) <= a <= m * f,
    ensures
        -f <= div_fp(a, m) <= f,
{
    if a >= 0 {
        lemma_div_pos_is_pos(a, m);
        lemma_div_is_ordered(a, m * f, m);
        lemma_div_multiples_vanish(f, m);
    } else {
        lemma_div_pos_is_pos(-a, m);
        lemma_div_is_ordered(-a, m * f, m);
        lemma_div_multiples_vanish(f, m);
    }
}

/// Dividing an exact multiple of a positive divisor gives back the factor.
pub proof fn lemma_div_fp_exact(v: int, d: int)
    requires
        0 < d,
    ensures
        div_fp(d * v, d) == v,
{
    if v >= 0 {
        lemma_div_multiples_vanish(v, d);
    } else {
        lemma_div_multiples_vanish(-v, d);
        assert(-(d * v) == d * (-v)) by (nonlinear_arith);
    }
}

/// `r` is the integer square root of `n`.
pub open spec fn isqrt_of(n: int, r: int) -> bool {
    0 <= r && r * r <= n && n < (r + 1) * (r + 1)
}

/// The integer square root of `n`: the largest `r` with `r * r <= n`.
pub open spec fn spec_isqrt(n: int) -> int {
    choose|r: int| isqrt_of(n, r)
}

/// Two integer square roots of the same number are equal.
pub proof fn lemma_isqrt_unique(n: int, r1: int, r2: int)
    requires
        isqrt_of(n, r1),
        isqrt_of(n, r2),
    ensures
        r1 == r2,
{
    assert(r1 == r2) by (nonlinear_arith)
        requires
            0 <= r1 && r1 * r1 <= n && n < (r1 + 1) * (r1 + 1),
            0 <= r2 && r2 * r2 <= n && n < (r2 + 1) * (r2 + 1),
    ;
}

proof fn lemma_div_ge_implies_sq_le(n: int, mid: int, q: int)
    requires
        0 <= n,
        0 < mid,
        q == n / mid,
        mid <= q,
    ensures
        mid * mid <= n,
{
    lemma_fundamental_div_mod(n, mid);
    lemma_mod_bound(n, mid);
    lemma_mul_inequality(mid, q, mid);
    assert(mid * mid <= q * mid);
    assert(mid * (n / mid) <= n);
    assert(q * mid == mid * q) by (nonlinear_arith);
}

proof fn lemma_div_lt_implies_sq_gt(n: int, mid: int, q: int)
    requires
        0 <= n,
        0 < mid,
        q == n / mid,
        q < mid,
    ensures
        n < mid * mid,
{
    lemma_fundamental_div_mod(n, mid);
    lemma_mod_bound(n, mid);
    lemma_mul_inequality(q, mid - 1, mid);
    assert(q * mid <= (mid - 1) * mid);
    assert(q * mid == mid * q) by (nonlinear_arith);
    assert((mid - 1) * mid + mid == mid * mid) by (nonlinear_arith);
}

/// The integer square root of a wide nonnegative value.
pub fn isqrt128(n: i128) -> (r: i128)
    requires
        0 <= n < 0x1000_0000_0000_0000_0000_0000_0000_0000i128,
    ensures
        isqrt_of(n as int, r as int),
        r == spec_isqrt(n as int),
        0 <= r <= 0x1_0000_0000_0000_0000i128,
{
    let mut lo: i128 = 0;
    let mut hi: i128 = 0x1_0000_0000_0000_0000i128;
    assert((0x1_0000_0000_0000_0000int + 1) * (0x1_0000_0000_0000_0000int + 1)
        > 0x1000_0000_0000_0000_0000_0000_0000_0000int) by (nonlinear_arith);
    while lo < hi
        invariant
            0 <= lo <= hi <= 0x1_0000_0000_0000_0000i128,
            (lo as int) * (lo as int) <= n as int,
            (n as int) < ((hi as int) + 1) * ((hi as int) + 1),
            0 <= n < 0x1000_0000_0000_0000_0000_0000_0000_0000i128,
        decreases hi - lo,
    {
        let mid = lo + (hi - lo + 1) / 2;
        let q = n / mid;
        if mid <= q {
            proof {
                lemma_div_ge_implies_sq_le(n as int, mid as int, q as int);
            }
            lo = mid;
        } else {
            proof {
                lemma_div_lt_implies_sq_gt(n as int, mid as int, q as int);
            }
            hi = mid - 1;
        }
    }
    proof {
        let r0 = spec_isqrt(n as int);
        assert(isqrt_of(n as int, lo as int));
        assert(isqrt_of(n as int, r0));
        lemma_isqrt_unique(n as int, lo as int, r0);
    }
    lo
}

/// The integer square root of a nonnegative machine word.
pub fn isqrt(n: i64) -> (r: i64)
    requires
        0 <= n,
    ensures
        isqrt_of(n as int, r as int),
        r == spec_isqrt(n as int),
        0 <= r <= 0x1_0000_0000i64,
{
    let wide = isqrt128(n as i128);
    proof {
        assert(isqrt_of(n as int, wide as int));
        assert((wide as int) * (wide as int) <= n as int);
        assert(wide as int <= 0x1_0000_0000int) by (nonlinear_arith)
            requires
                0 <= wide as int,
                (wide as int) * (wide as int) <= n as int,
                n as int <= 0x7FFF_FFFF_FFFF_FFFFint,
    ;
    }
    wide as i64
}

} // verus!
