//! Exact integer helpers: clamping, square roots, rounding of quotients.

use vstd::prelude::*;

verus! {

/// `a` limited to `lo..=hi`; `lo` wins where the range is empty.
pub open spec fn spec_clamp(a: int, lo: int, hi: int) -> int {
    if a < lo {
        lo
    } else if a > hi {
        hi
    } else {
        a
    }
}

/// `a` limited to `lo..=hi`: `lo` if `a` lies below it, else `hi` if `a`
/// lies above it, else `a`.
pub fn clamp(a: i64, lo: i64, hi: i64) -> (r: i64)
    ensures
        r == spec_clamp(a as int, lo as int, hi as int),
{
    if a < lo {
        lo
    } else if a > hi {
        hi
    } else {
        a
    }
}

/// The integer square root: the largest `r` with `r * r <= n`.
pub open spec fn spec_isqrt(n: nat) -> nat
    decreases n,
{
    if n == 0 {
        0
    } else {
        let r = spec_isqrt((n - 1) as nat);
        if (r + 1) * (r + 1) <= n {
            r + 1
        } else {
            r
        }
    }
}

/// `spec_isqrt(n)` is the one number whose square is at most `n` while the
/// square of its successor is not.
pub proof fn lemma_isqrt_bounds(n: nat)
    ensures
        spec_isqrt(n) * spec_isqrt(n) <= n,
        n < (spec_isqrt(n) + 1) * (spec_isqrt(n) + 1),
    decreases n,
{
    let s = spec_isqrt(n);
    if n == 0 {
        assert(s == 0);
        assert(n < (s + 1) * (s + 1)) by (nonlinear_arith)
            requires
                s == 0,
                n == 0,
        ;
    } else {
        lemma_isqrt_bounds((n - 1) as nat);
        let r = spec_isqrt((n - 1) as nat);
        if (r + 1) * (r + 1) <= n {
            assert(s == r + 1);
            assert(n < (s + 1) * (s + 1)) by (nonlinear_arith)
                requires
                    s == r + 1,
                    n - 1 < (r + 1) * (r + 1),
            ;
        } else {
            assert(s == r);
        }
    }
}

/// Any `r` that brackets `n` between its square and its successor's is the
/// integer square root of `n`.
pub proof fn lemma_isqrt_unique(n: nat, r: nat)
    requires
        r * r <= n,
        n < (r + 1) * (r + 1),
    ensures
        r == spec_isqrt(n),
{
    lemma_isqrt_bounds(n);
    let s = spec_isqrt(n);
    if r < s {
        assert((r + 1) * (r + 1) <= s * s) by (nonlinear_arith)
            requires
                r + 1 <= s,
        ;
    }
    if s < r {
        assert((s + 1) * (s + 1) <= r * r) by (nonlinear_arith)
            requires
                s + 1 <= r,
        ;
    }
}

/// The integer square root of `n`.
pub fn isqrt(n: u128) -> (r: u64)
    ensures
        r == spec_isqrt(n as nat),
        r * r <= n,
        n < (r + 1) * (r + 1),
{
    let mut lo: u128 = 0;
    let mut hi: u128 = 0x1_0000_0000_0000_0000;
    assert(n < hi * hi) by (nonlinear_arith)
        requires
            hi == 0x1_0000_0000_0000_0000,
            n <= 0xffff_ffff_ffff_ffff_ffff_ffff_ffff_ffff,
    ;
    while hi - lo > 1
        invariant
            lo < hi <= 0x1_0000_0000_0000_0000,
            lo * lo <= n,
            n < hi * hi,
        decreases hi - lo,
    {
        let mid: u128 = lo + (hi - lo) / 2;
        assert(mid * mid < 0x1_0000_0000_0000_0000 * 0x1_0000_0000_0000_0000)
            by (nonlinear_arith)
            requires
                0 <= mid < 0x1_0000_0000_0000_0000,
        ;
        if mid * mid <= n {
            lo = mid;
        } else {
            hi = mid;
        }
    }
    proof {
        lemma_isqrt_unique(n as nat, lo as nat);
    }
    lo as u64
}

/// The quotient of `n` by a positive `d`, rounded towards zero.
pub open spec fn trunc_div(n: int, d: int) -> int {
    if n >= 0 {
        n / d
    } else {
        -((-n) / d)
    }
}

/// A quotient rounded towards zero stays between integer bounds of the
/// exact quotient.
pub proof fn lemma_trunc_div_between(n: int, d: int, lo: int, hi: int)
    requires
        d > 0,
        lo * d <= n <= hi * d,
    ensures
        lo <= trunc_div(n, d) <= hi,
{
    if n >= 0 {
        let q = n / d;
        assert(q * d <= n < (q + 1) * d && lo <= q <= hi) by (nonlinear_arith)
            requires
                q == n / d,
                d > 0,
                lo * d <= n <= hi * d,
        ;
    } else {
        let m = -n;
        let q = m / d;
        assert(q * d <= m < (q + 1) * d && lo <= -q <= hi) by (nonlinear_arith)
            requires
                q == m / d,
                m == -n,
                d > 0,
                lo * d <= n <= hi * d,
        ;
    }
}

/// The quotient of `n` by a positive `d`, rounded to the nearest whole
/// number, halves away from zero.
pub open spec fn round_div(n: int, d: int) -> int {
    if n >= 0 {
        (2 * n + d) / (2 * d)
    } else {
        -((2 * (-n) + d) / (2 * d))
    }
}

/// The nearest whole number to a sum that is not negative, divided by 256
/// times a count, is the whole part of the mean, plus 128, divided by 256
/// and rounded down.
pub proof fn lemma_round_mean(sum: int, count: int)
    requires
        sum >= 0,
        count > 0,
    ensures
        round_div(sum, 256 * count) == (sum / count + 128) / 256,
{
    let q = sum / count;
    let r = sum % count;
    let k = (q + 128) / 256;
    let j = (q + 128) % 256;
    let x = 2 * sum + 256 * count;
    let d = 2 * (256 * count);
    let rest = 2 * (count * j) + 2 * r;
    assert(sum == q * count + r && 0 <= r < count) by (nonlinear_arith)
        requires
            q == sum / count,
            r == sum % count,
            count > 0,
    ;
    assert(x == k * d + rest && 0 <= rest < d) by (nonlinear_arith)
        requires
            x == 2 * sum + 256 * count,
            d == 2 * (256 * count),
            rest == 2 * (count * j) + 2 * r,
            sum == q * count + r,
            0 <= r < count,
            q + 128 == 256 * k + j,
            0 <= j < 256,
    ;
    vstd::arithmetic::div_mod::lemma_fundamental_div_mod_converse(x, d, k, rest);
}

/// The nearest whole number to a quotient that is negative is not
/// positive.
pub proof fn lemma_round_negative(n: int, d: int)
    requires
        n < 0,
        d > 0,
    ensures
        round_div(n, d) <= 0,
{
    assert((2 * (-n) + d) / (2 * d) >= 0) by (nonlinear_arith)
        requires
            n < 0,
            d > 0,
    ;
}

/// The length `a` scaled by `num / den`, rounded to the nearest whole
/// number and limited to the range of `i32`.
pub open spec fn spec_scale_dimen(a: int, num: int, den: int) -> int {
    spec_clamp(round_div(a * num, den), i32::MIN as int, i32::MAX as int)
}

/// The length `a` scaled by `num / den`, rounded to the nearest whole
/// number and limited to the range of `i32`.
pub fn scale_dimen(a: i32, num: usize, den: usize) -> (r: i32)
    requires
        den > 0,
    ensures
        r == spec_scale_dimen(a as int, num as int, den as int),
{
    let size: u128 = if a < 0 { (-(a as i64)) as u128 } else { a as u128 };
    let n: u128 = num as u128;
    let d: u128 = den as u128;
    assert(size * n <= 0x8000_0000 * 0x1_0000_0000_0000_0000) by (nonlinear_arith)
        requires
            0 <= size <= 0x8000_0000,
            0 <= n < 0x1_0000_0000_0000_0000,
    ;
    let q: u128 = (2 * (size * n) + d) / (2 * d);
    proof {
        let (ai, ni, di) = (a as int, num as int, den as int);
        assert((ai >= 0 ==> size * n == ai * ni && ai * ni >= 0) && (ai < 0 ==> size * n == -(ai
            * ni) && ai * ni <= 0)) by (nonlinear_arith)
            requires
                size == (if ai < 0 { -ai } else { ai }),
                n == ni,
                ni >= 0,
        ;
        assert(di / (2 * di) == 0) by (nonlinear_arith)
            requires
                di > 0,
        ;
    }
    if a < 0 {
        if q >= 0x8000_0000 {
            i32::MIN
        } else {
            -(q as i32)
        }
    } else {
        if q > 0x7fff_ffff {
            i32::MAX
        } else {
            q as i32
        }
    }
}

/// A length scaled by one is the length.
pub proof fn lemma_scale_by_one(a: int, n: int)
    requires
        n > 0,
        i32::MIN <= a <= i32::MAX,
    ensures
        spec_scale_dimen(a, n, n) == a,
{
    if a >= 0 {
        assert(a * n >= 0 && (2 * (a * n) + n) / (2 * n) == a) by (nonlinear_arith)
            requires
                a >= 0,
                n > 0,
        ;
    } else {
        assert(a * n < 0 && (2 * (-(a * n)) + n) / (2 * n) == -a) by (nonlinear_arith)
            requires
                a < 0,
                n > 0,
        ;
    }
}

/// The size to which an image of `w` by `h` pixels is brought so that it
/// has about `area` pixels and the same proportions: the sides times the
/// square root of `area / (w * h)`, rounded down.
pub open spec fn spec_scaled_to_area(w: u32, h: u32, area: usize) -> (int, int) {
    if w * h < area {
        (w as int, h as int)
    } else {
        (
            spec_isqrt(((area * w) / (h as int)) as nat) as int,
            spec_isqrt(((area * h) / (w as int)) as nat) as int,
        )
    }
}

/// The size to which an image of `w` by `h` pixels is brought to fit the
/// area `area`: its own size where it has fewer pixels than that, else the
/// size of about that area with the same proportions.
pub fn scaled_to_area(w: u32, h: u32, area: usize) -> (r: (u32, u32))
    requires
        area > 0,
    ensures
        (r.0 as int, r.1 as int) == spec_scaled_to_area(w, h, area),
{
    let wide: u128 = w as u128;
    let high: u128 = h as u128;
    let a: u128 = area as u128;
    assert(wide * high <= 0xffff_ffff * 0xffff_ffff && a * wide <= 0xffff_ffff_ffff_ffff
        * 0xffff_ffff && a * high <= 0xffff_ffff_ffff_ffff * 0xffff_ffff) by (nonlinear_arith)
        requires
            0 <= wide <= 0xffff_ffff,
            0 <= high <= 0xffff_ffff,
            0 <= a <= 0xffff_ffff_ffff_ffff,
    ;
    if wide * high < a {
        return (w, h);
    }
    assert(wide > 0 && high > 0) by (nonlinear_arith)
        requires
            wide * high >= a,
            a > 0,
            wide >= 0,
            high >= 0,
    ;
    let across: u64 = isqrt((a * wide) / high);
    let down: u64 = isqrt((a * high) / wide);
    proof {
        // each side shrinks, since the area is no more than the image has
        let (ai, wi, hi) = (a as int, wide as int, high as int);
        let (qa, qd) = ((ai * wi) / hi, (ai * hi) / wi);
        assert(qa <= wi * wi && qd <= hi * hi) by (nonlinear_arith)
            requires
                ai <= wi * hi,
                hi > 0,
                wi > 0,
                ai >= 0,
                qa == (ai * wi) / hi,
                qd == (ai * hi) / wi,
        ;
        assert(across <= wi) by (nonlinear_arith)
            requires
                across * across <= qa,
                qa <= wi * wi,
                across >= 0,
                wi >= 0,
        ;
        assert(down <= hi) by (nonlinear_arith)
            requires
                down * down <= qd,
                qd <= hi * hi,
                down >= 0,
                hi >= 0,
        ;
    }
    (across as u32, down as u32)
}

} // verus!
