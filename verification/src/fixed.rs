//! Fixed-point arithmetic shared by every pipeline stage.
//!
//! A real quantity `q` is represented by the integer `q * UNIT`, so one
//! pixel (or one unit of a normalized coordinate) is `UNIT` and the
//! thresholds of the classifier keep three decimal digits of precision.

use vstd::prelude::*;

verus! {

/// Scale of the fixed-point representation: the real value 1.0 is `UNIT`.
pub const UNIT: i64 = 1000;

/// Largest magnitude a fixed-point coordinate is allowed to take.
/// Keeps products of two coordinates inside `i64` and sums of a few
/// such products inside `i128` with plenty of headroom.
pub const COORD_LIMIT: i64 = 0x4000_0000;

/// Truncating (round-toward-zero) division by a positive divisor,
/// matching what Rust's `/` computes on signed integers.
pub open spec fn div_trunc(n: int, d: int) -> int
    recommends
        d > 0,
{
    if n >= 0 {
        n / d
    } else {
        -((-n) / d)
    }
}

/// The larger of two integers.
pub open spec fn spec_max(a: int, b: int) -> int {
    if a >= b {
        a
    } else {
        b
    }
}

/// The smaller of two integers.
pub open spec fn spec_min(a: int, b: int) -> int {
    if a <= b {
        a
    } else {
        b
    }
}

/// `v` forced into the interval `[lo, hi]`.
pub open spec fn spec_clamp(v: int, lo: int, hi: int) -> int
    recommends
        lo <= hi,
{
    if v < lo {
        lo
    } else if v > hi {
        hi
    } else {
        v
    }
}

pub fn clamp_i64(v: i64, lo: i64, hi: i64) -> (r: i64)
    requires
        lo <= hi,
    ensures
        r == spec_clamp(v as int, lo as int, hi as int),
{
    if v < lo {
        lo
    } else if v > hi {
        hi
    } else {
        v
    }
}

/// Truncating division of an `i128` by a positive divisor, computed over
/// magnitudes so that the rounding direction is explicit.
pub fn div_trunc_i128(n: i128, d: i128) -> (q: i128)
    requires
        d > 0,
        n > i128::MIN,
    ensures
        q == div_trunc(n as int, d as int),
{
    if n >= 0 {
        let nn = n as u128;
        let dd = d as u128;
        let q = nn / dd;
        assert(q <= nn) by (nonlinear_arith)
            requires
                dd > 0,
                q == nn / dd,
        {};
        q as i128
    } else {
        let nn = (-n) as u128;
        let dd = d as u128;
        let q = nn / dd;
        assert(q <= nn) by (nonlinear_arith)
            requires
                dd > 0,
                q == nn / dd,
        {};
        -(q as i128)
    }
}

/// The floor of the square root of a non-negative integer, characterized
/// by its defining property.
pub open spec fn sqrt_floor(n: int) -> int {
    choose|r: int| 0 <= r && #[trigger] (r * r) <= n < (r + 1) * (r + 1)
}

/// Any integer with the floor-square-root property is `sqrt_floor`.
pub proof fn lemma_sqrt_floor_unique(n: int, r: int)
    requires
        0 <= r,
        r * r <= n,
        n < (r + 1) * (r + 1),
    ensures
        r == sqrt_floor(n),
{
    assert(exists|q: int| 0 <= q && #[trigger] (q * q) <= n < (q + 1) * (q + 1)) by {
        assert(0 <= r && r * r <= n < (r + 1) * (r + 1));
    }
    let r2 = sqrt_floor(n);
    assert(0 <= r2 && r2 * r2 <= n < (r2 + 1) * (r2 + 1));
    assert(r == r2) by (nonlinear_arith)
        requires
            0 <= r,
            0 <= r2,
            r * r <= n < (r + 1) * (r + 1),
            r2 * r2 <= n < (r2 + 1) * (r2 + 1),
    {};
}

/// A truncated average of values bounded by `lim` stays within `lim`.
pub proof fn lemma_avg_bound(total: int, n: int, lim: int)
    requires
        n >= 1,
        lim >= 0,
        -(n * lim) <= total <= n * lim,
    ensures
        -lim <= div_trunc(total, n) <= lim,
{
    if total >= 0 {
        assert(0 <= total / n <= lim) by (nonlinear_arith)
            requires
                0 <= total <= n * lim,
                n >= 1,
        {};
    } else {
        assert(0 <= (-total) / n <= lim) by (nonlinear_arith)
            requires
                0 <= -total <= n * lim,
                n >= 1,
        {};
    }
}

/// `|x| <= bx` and `|y| <= by` bound the product by `bx * by`.
pub proof fn lemma_mul_range(x: int, y: int, bx: int, by: int)
    requires
        -bx <= x <= bx,
        -by <= y <= by,
        bx >= 0,
        by >= 0,
    ensures
        -(bx * by) <= x * y <= bx * by,
{
    assert(-(bx * by) <= x * y <= bx * by) by (nonlinear_arith)
        requires
            -bx <= x <= bx,
            -by <= y <= by,
            bx >= 0,
            by >= 0,
    {};
}

/// If `v * v <= r2 < (rr + 1)^2` then `|v| <= rr`.
pub proof fn lemma_abs_le_sqrt(v: int, rr: int, r2: int)
    requires
        rr >= 0,
        v * v <= r2,
        r2 < (rr + 1) * (rr + 1),
    ensures
        -rr <= v <= rr,
{
    assert(-rr <= v <= rr) by (nonlinear_arith)
        requires
            rr >= 0,
            v * v <= r2,
            r2 < (rr + 1) * (rr + 1),
    {};
}

/// A quotient `v * UNIT / rr` with `|v| <= rr` stays within one unit.
pub proof fn lemma_ratio_unit(v: int, rr: int)
    requires
        rr >= 1,
        -rr <= v <= rr,
    ensures
        -UNIT <= div_trunc(v * UNIT, rr) <= UNIT,
{
    if v >= 0 {
        assert(v * 1000 <= rr * 1000) by (nonlinear_arith)
            requires
                0 <= v <= rr,
        {};
        assert(0 <= (v * 1000) / rr <= 1000) by (nonlinear_arith)
            requires
                0 <= v * 1000 <= rr * 1000,
                rr >= 1,
        {};
    } else {
        assert((-v) * 1000 <= rr * 1000) by (nonlinear_arith)
            requires
                0 <= -v <= rr,
        {};
        assert(0 <= ((-v) * 1000) / rr <= 1000) by (nonlinear_arith)
            requires
                0 <= (-v) * 1000 <= rr * 1000,
                rr >= 1,
        {};
        assert(-(v * 1000) == (-v) * 1000) by (nonlinear_arith);
    }
}

/// Floor division of a fixed-point value by `UNIT`, with the remainder:
/// splits `v` into whole pixels and a sub-pixel fraction in `[0, UNIT)`.
pub fn div_floor_rem_unit(v: i64) -> (r: (i64, i64))
    ensures
        r.0 == (v as int) / (UNIT as int),
        r.1 == (v as int) % (UNIT as int),
        0 <= r.1 < UNIT,
        v == r.0 * UNIT + r.1,
{
    let q: i64 = if v >= 0 {
        ((v as u64) / (UNIT as u64)) as i64
    } else {
        let nv: u64 = (-(v as i128)) as u64;
        let qm: u64 = (nv + (UNIT as u64) - 1) / (UNIT as u64);
        proof {
            assert(qm * 1000 < nv + 1000 && nv <= qm * 1000) by (nonlinear_arith)
                requires
                    qm == (nv + 999) / 1000,
                    nv >= 1,
            {};
        }
        -(qm as i64)
    };
    let rem128: i128 = (v as i128) - (q as i128) * (UNIT as i128);
    let rem: i64 = rem128 as i64;
    proof {
        assert(q == (v as int) / 1000 && rem == (v as int) % 1000) by (nonlinear_arith)
            requires
                v == q * 1000 + rem,
                0 <= rem < 1000,
        {};
    }
    (q, rem)
}

/// Upper bound (exclusive) on the arguments `isqrt` accepts: 2^126.
pub const ISQRT_DOMAIN: u128 = 0x4000_0000_0000_0000_0000_0000_0000_0000;

/// Integer square root: the largest `r` with `r * r <= x`.
pub fn isqrt(x: u128) -> (r: u64)
    requires
        x < ISQRT_DOMAIN,
    ensures
        (r as int) * (r as int) <= x as int,
        x < ((r as int) + 1) * ((r as int) + 1),
{
    let mut lo: u128 = 0;
    let mut hi: u128 = 0x8000_0000_0000_0000;
    assert(0x8000_0000_0000_0000u128 * 0x8000_0000_0000_0000u128 == ISQRT_DOMAIN) by (nonlinear_arith);
    while hi - lo > 1
        invariant
            lo < hi <= 0x8000_0000_0000_0000u128,
            (lo as int) * (lo as int) <= x as int,
            (hi as int) * (hi as int) > x as int,
        decreases hi - lo,
    {
        let mid = lo + (hi - lo) / 2;
        assert(lo < mid < hi);
        assert((mid as int) * (mid as int) <= 0x8000_0000_0000_0000 * 0x8000_0000_0000_0000)
            by (nonlinear_arith)
            requires
                0 <= mid <= 0x8000_0000_0000_0000u128,
        {};
        if mid * mid <= x {
            lo = mid;
        } else {
            hi = mid;
        }
    }
    assert(hi == lo + 1);
    lo as u64
}

} // verus!
