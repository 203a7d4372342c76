//! Fixed-point scalar arithmetic: the coordinate scale, an exact integer
//! square root, floor division for signed values, and linear interpolation.

use vstd::prelude::*;
use vstd::arithmetic::div_mod::lemma_fundamental_div_mod;

verus! {

/// Number of fixed-point steps that stand for the real value 1.0.
pub const SCALE: i64 = 1024;

/// Largest coordinate magnitude accepted by the intersection math; keeps
/// every intermediate product of the quadratic inside `i128`.
pub const COORD_BOUND: i64 = 65536;

/// Largest ray parameter the intersection can report: a hit distance always
/// lies in `[0, DIST_BOUND]` when the ray and sphere respect `COORD_BOUND`.
pub const DIST_BOUND: i64 = 0x8000_0000_0000;

/// Largest coordinate magnitude accepted by the general vector operations
/// (dot, cross, interpolation); keeps their products inside `i64`/`i128`.
pub const VEC_BOUND: i64 = 0x4000_0000;

/// The floor of the square root of `n` (0 for negative `n`).
pub open spec fn sqrt_floor(n: int) -> int
    decreases n,
{
    if n <= 0 {
        0
    } else {
        let p = sqrt_floor(n - 1);
        if (p + 1) * (p + 1) <= n {
            p + 1
        } else {
            p
        }
    }
}

/// `sqrt_floor(n)` is the unique `r >= 0` with `r^2 <= n < (r+1)^2`.
pub proof fn lemma_sqrt_floor_bounds(n: int)
    requires
        0 <= n,
    ensures
        0 <= sqrt_floor(n),
        sqrt_floor(n) * sqrt_floor(n) <= n,
        n < (sqrt_floor(n) + 1) * (sqrt_floor(n) + 1),
    decreases n,
{
    if n == 0 {
    } else {
        lemma_sqrt_floor_bounds(n - 1);
        let p = sqrt_floor(n - 1);
        if (p + 1) * (p + 1) <= n {
            assert((p + 1) * (p + 1) + 1 <= (p + 2) * (p + 2)) by (nonlinear_arith)
                requires
                    0 <= p,
            ;
        }
    }
}

/// Any `r` meeting the square-root bounds equals `sqrt_floor(n)`.
pub proof fn lemma_sqrt_floor_unique(n: int, r: int)
    requires
        0 <= n,
        0 <= r,
        r * r <= n,
        n < (r + 1) * (r + 1),
    ensures
        r == sqrt_floor(n),
{
    lemma_sqrt_floor_bounds(n);
    let s = sqrt_floor(n);
    if r < s {
        assert((r + 1) * (r + 1) <= s * s) by (nonlinear_arith)
            requires
                0 <= r,
                r < s,
        ;
    } else if s < r {
        assert((s + 1) * (s + 1) <= r * r) by (nonlinear_arith)
            requires
                0 <= s,
                s < r,
        ;
    }
}

/// `sqrt_floor(n) <= m` whenever `n < (m+1)^2`.
pub proof fn lemma_sqrt_floor_le(n: int, m: int)
    requires
        0 <= n,
        0 <= m,
        n < (m + 1) * (m + 1),
    ensures
        sqrt_floor(n) <= m,
{
    lemma_sqrt_floor_bounds(n);
    let s = sqrt_floor(n);
    if m < s {
        assert((m + 1) * (m + 1) <= s * s) by (nonlinear_arith)
            requires
                0 <= m,
                m < s,
        ;
    }
}

/// A product of bounded factors is bounded by the product of the bounds.
pub proof fn lemma_mul_bound(x: int, y: int, bx: int, by: int)
    by (nonlinear_arith)
    requires
        -bx <= x <= bx,
        -by <= y <= by,
    ensures
        -(bx * by) <= x * y <= bx * by,
{
}

/// A Euclidean quotient by a positive divisor lies between the dividend and 0.
pub proof fn lemma_div_range(n: int, d: int)
    requires
        1 <= d,
    ensures
        n >= 0 ==> 0 <= n / d <= n,
        n < 0 ==> n <= n / d <= 0,
{
    lemma_fundamental_div_mod(n, d);
    let q = n / d;
    let r = n % d;
    if n >= 0 {
        assert(0 <= q && q <= n) by (nonlinear_arith)
            requires
                d * q + r == n,
                0 <= r < d,
                1 <= d,
                0 <= n,
        ;
    } else {
        assert(n <= q && q <= 0) by (nonlinear_arith)
            requires
                d * q + r == n,
                0 <= r < d,
                1 <= d,
                n < 0,
        ;
    }
}

/// Euclidean (floor) division of a possibly negative value by a positive one.
pub fn div_floor(n: i128, d: i128) -> (q: i128)
    requires
        0 < d,
    ensures
        q == n as int / d as int,
{
    proof {
        lemma_div_range(n as int, d as int);
    }
    match n.checked_div_euclid(d) {
        Some(q) => q,
        None => vstd::pervasive::unreached(),
    }
}

/// The floor of the square root of `n`, by binary search.
pub fn isqrt(n: u128) -> (r: u64)
    ensures
        r == sqrt_floor(n as int),
{
    let mut lo: u128 = 0;
    let mut hi: u128 = 0x1_0000_0000_0000_0000;
    proof {
        assert((0x1_0000_0000_0000_0000int) * 0x1_0000_0000_0000_0000 > u128::MAX);
    }
    while lo + 1 < hi
        invariant
            lo < hi <= 0x1_0000_0000_0000_0000u128,
            (lo as int) * (lo as int) <= n as int,
            (n as int) < (hi as int) * (hi as int),
        decreases hi - lo,
    {
        let mid = lo + (hi - lo) / 2;
        proof {
            assert(mid * mid <= 0xffff_ffff_ffff_ffffu128 * 0xffff_ffff_ffff_ffffu128)
                by (nonlinear_arith)
                requires
                    0 <= mid <= 0xffff_ffff_ffff_ffffu128,
            ;
        }
        let sq = mid * mid;
        if sq <= n {
            lo = mid;
        } else {
            hi = mid;
        }
    }
    proof {
        lemma_sqrt_floor_unique(n as int, lo as int);
    }
    lo as u64
}

/// The fixed-point interpolation `a + (b - a) * num / den` (floor division).
pub open spec fn spec_interp(a: int, b: int, num: int, den: int) -> int {
    a + ((b - a) * num) / den
}

/// Interpolates from `a` (at `num == 0`) to `b` (at `num == den`); the result
/// never leaves the interval between `a` and `b`.
pub fn interp(a: i64, b: i64, num: i64, den: i64) -> (r: i64)
    requires
        -VEC_BOUND <= a <= VEC_BOUND,
        -VEC_BOUND <= b <= VEC_BOUND,
        0 <= num <= den,
        1 <= den,
    ensures
        r == spec_interp(a as int, b as int, num as int, den as int),
        a <= b ==> a <= r <= b,
        b <= a ==> b <= r <= a,
{
    let diff: i128 = b as i128 - a as i128;
    proof {
        lemma_mul_bound(diff as int, num as int, 2 * (VEC_BOUND as int), i64::MAX as int);
    }
    let q = div_floor(diff * (num as i128), den as i128);
    proof {
        lemma_interp_range(a as int, b as int, num as int, den as int);
    }
    a + q as i64
}

/// The interpolated value lies between its endpoints.
proof fn lemma_interp_range(a: int, b: int, num: int, den: int)
    requires
        0 <= num <= den,
        1 <= den,
    ensures
        a <= b ==> a <= spec_interp(a, b, num, den) <= b,
        b <= a ==> b <= spec_interp(a, b, num, den) <= a,
{
    let diff = b - a;
    let q = (diff * num) / den;
    lemma_div_range(diff * num, den);
    lemma_fundamental_div_mod(diff * num, den);
    let r = (diff * num) % den;
    if diff >= 0 {
        assert(0 <= diff * num) by (nonlinear_arith)
            requires
                0 <= diff,
                0 <= num,
        ;
        assert(q <= diff) by (nonlinear_arith)
            requires
                den * q + r == diff * num,
                0 <= r < den,
                1 <= den,
                0 <= diff,
                num <= den,
        ;
    } else {
        assert(diff * num <= 0) by (nonlinear_arith)
            requires
                diff < 0,
                0 <= num,
        ;
        assert(diff <= q) by (nonlinear_arith)
            requires
                den * q + r == diff * num,
                0 <= r < den,
                1 <= den,
                diff < 0,
                num <= den,
        ;
    }
}

} // verus!
