//! Integer helpers the simulation is built on: absolute value, a ceiling
//! integer square root, and the small nonlinear lemmas the force and clamp
//! proofs lean on.

use vstd::prelude::*;

verus! {

/// Absolute value of a mathematical integer.
pub open spec fn iabs(x: int) -> int {
    if x < 0 {
        -x
    } else {
        x
    }
}

/// `r` is the ceiling square root of `n`: the least non-negative integer
/// whose square reaches `n`.
pub open spec fn is_sqrt_ceil(n: int, r: int) -> bool {
    0 <= r && n <= r * r && (r == 0 || (r - 1) * (r - 1) < n)
}

/// The ceiling square root of `n` (0 for non-positive `n`).
pub open spec fn sqrt_ceil(n: int) -> int {
    choose|r: int| #[trigger] is_sqrt_ceil(n, r)
}

/// A ceiling square root exists for every integer.
pub proof fn lemma_sqrt_ceil_exists(n: int)
    ensures
        exists|r: int| #[trigger] is_sqrt_ceil(n, r),
    decreases n,
{
    if n <= 0 {
        assert(is_sqrt_ceil(n, 0));
    } else {
        lemma_sqrt_ceil_exists(n - 1);
        let r = choose|r: int| #[trigger] is_sqrt_ceil(n - 1, r);
        if n <= r * r {
            if r == 0 {
                assert(n <= 0);
                assert(false);
            }
            assert((r - 1) * (r - 1) < n - 1 || n - 1 == 0);
            assert(is_sqrt_ceil(n, r));
        } else {
            assert(r * r == n - 1);
            assert((r + 1) * (r + 1) == r * r + 2 * r + 1) by (nonlinear_arith);
            assert(is_sqrt_ceil(n, r + 1));
        }
    }
}

/// The ceiling square root is unique.
pub proof fn lemma_sqrt_ceil_unique(n: int, r1: int, r2: int)
    by (nonlinear_arith)
    requires
        is_sqrt_ceil(n, r1),
        is_sqrt_ceil(n, r2),
    ensures
        r1 == r2,
{
}

/// What `sqrt_ceil` picks satisfies the defining predicate.
pub proof fn lemma_sqrt_ceil_is(n: int)
    ensures
        is_sqrt_ceil(n, sqrt_ceil(n)),
{
    lemma_sqrt_ceil_exists(n);
}

/// A square bound on the argument bounds the ceiling square root.
pub proof fn lemma_sqrt_ceil_le(n: int, b: int)
    requires
        0 <= b,
        n <= b * b,
    ensures
        sqrt_ceil(n) <= b,
{
    lemma_sqrt_ceil_is(n);
    let r = sqrt_ceil(n);
    if r > b {
        assert(b <= r - 1);
        assert(b * b <= (r - 1) * (r - 1)) by (nonlinear_arith)
            requires
                0 <= b,
                b <= r - 1,
        ;
        assert(false);
    }
}

/// A component of a vector is no longer than the ceiling square root of the
/// squared length.
pub proof fn lemma_component_le_sqrt(x: int, y: int, n: int)
    requires
        x * x + y * y <= n,
    ensures
        iabs(x) <= sqrt_ceil(n),
{
    lemma_sqrt_ceil_is(n);
    let r = sqrt_ceil(n);
    assert(iabs(x) * iabs(x) <= n) by (nonlinear_arith)
        requires
            x * x + y * y <= n,
    ;
    if iabs(x) > r {
        assert(r * r < iabs(x) * iabs(x)) by (nonlinear_arith)
            requires
                0 <= r,
                r < iabs(x),
        ;
        assert(false);
    }
}

/// Multiplying two values below given non-negative bounds stays below the
/// product of the bounds.
pub proof fn lemma_mul_le(a: int, ab: int, b: int, bb: int)
    by (nonlinear_arith)
    requires
        0 <= a <= ab,
        0 <= b <= bb,
    ensures
        a * b <= ab * bb,
{
}

/// Dividing a smaller non-negative numerator by the same positive divisor
/// gives a smaller quotient.
pub proof fn lemma_div_le(a: int, b: int, d: int)
    by (nonlinear_arith)
    requires
        0 <= a <= b,
        0 < d,
    ensures
        0 <= a / d <= b / d,
{
}

/// `(a * c) / a == c` for positive `a` and non-negative `c`.
pub proof fn lemma_mul_div_cancel(a: int, c: int)
    by (nonlinear_arith)
    requires
        0 < a,
        0 <= c,
    ensures
        (a * c) / a == c,
{
}

/// Zero divided by any positive integer is zero.
pub proof fn lemma_zero_div(d: int)
    by (nonlinear_arith)
    requires
        1 <= d,
    ensures
        0int / d == 0,
{
}

/// The ceiling square root of a positive integer is positive.
pub proof fn lemma_sqrt_ceil_pos(n: int)
    requires
        1 <= n,
    ensures
        1 <= sqrt_ceil(n),
{
    lemma_sqrt_ceil_is(n);
    let r = sqrt_ceil(n);
    if r < 1 {
        assert(r == 0);
        assert(r * r == 0) by (nonlinear_arith)
            requires
                r == 0,
        ;
        assert(false);
    }
}

/// The square of a value equals the square of its negation.
pub proof fn lemma_sq_abs(x: int, a: int)
    by (nonlinear_arith)
    requires
        a == x || a == -x,
    ensures
        a * a == x * x,
{
}

/// Scaling a vector onto a speed cap by integer division lands at or under
/// the cap: with `m` at least the vector's length (`ax^2 + ay^2 <= m^2`),
/// the rescaled components `ax * cap / m` and `ay * cap / m` have a squared
/// sum of at most `cap^2`.
pub proof fn lemma_scale_down(ax: int, ay: int, cap: int, m: int, cx: int, cy: int)
    requires
        1 <= m,
        0 <= cap,
        0 <= ax,
        0 <= ay,
        ax * ax + ay * ay <= m * m,
        cx == (ax * cap) / m,
        cy == (ay * cap) / m,
    ensures
        0 <= cx <= cap,
        0 <= cy <= cap,
        cx * cx + cy * cy <= cap * cap,
{
    assert(ax <= m && ay <= m) by (nonlinear_arith)
        requires
            0 <= ax,
            0 <= ay,
            1 <= m,
            ax * ax + ay * ay <= m * m,
    ;
    lemma_mul_le(ax, m, cap, cap);
    lemma_mul_le(ay, m, cap, cap);
    lemma_div_le(ax * cap, m * cap, m);
    lemma_div_le(ay * cap, m * cap, m);
    lemma_mul_div_cancel(m, cap);
    assert(0 <= cx <= cap && 0 <= cy <= cap);
    vstd::arithmetic::div_mod::lemma_fundamental_div_mod(ax * cap, m);
    vstd::arithmetic::div_mod::lemma_fundamental_div_mod(ay * cap, m);
    vstd::arithmetic::div_mod::lemma_mod_bound(ax * cap, m);
    vstd::arithmetic::div_mod::lemma_mod_bound(ay * cap, m);
    assert(m * cx <= ax * cap);
    assert(m * cy <= ay * cap);
    assert((cx * cx + cy * cy) * (m * m) <= (ax * ax + ay * ay) * (cap * cap))
        by (nonlinear_arith)
        requires
            0 <= cx,
            0 <= cy,
            0 <= ax,
            0 <= ay,
            0 <= cap,
            1 <= m,
            m * cx <= ax * cap,
            m * cy <= ay * cap,
    ;
    assert((ax * ax + ay * ay) * (cap * cap) <= (m * m) * (cap * cap)) by (nonlinear_arith)
        requires
            ax * ax + ay * ay <= m * m,
            0 <= cap,
    ;
    assert(cx * cx + cy * cy <= cap * cap) by (nonlinear_arith)
        requires
            1 <= m,
            (cx * cx + cy * cy) * (m * m) <= (m * m) * (cap * cap),
    ;
}

/// Absolute value of an `i64`, as a `u64`.
pub fn abs_i64(x: i64) -> (r: u64)
    ensures
        r == iabs(x as int),
{
    if x < 0 {
        if x == i64::MIN {
            9_223_372_036_854_775_808u64
        } else {
            (-x) as u64
        }
    } else {
        x as u64
    }
}

/// Ceiling integer square root: the least `r` with `r * r >= n`.
pub fn isqrt_ceil(n: u128) -> (r: u128)
    requires
        n <= 0xffff_ffff_ffff_ffffu128 * 0xffff_ffff_ffff_ffffu128,
    ensures
        is_sqrt_ceil(n as int, r as int),
        r == sqrt_ceil(n as int),
{
    let mut lo: u128 = 0;
    let mut hi: u128 = 0xffff_ffff_ffff_ffffu128;
    while lo < hi
        invariant
            lo <= hi,
            hi <= 0xffff_ffff_ffff_ffffu128,
            n <= hi * hi,
            lo == 0 || (lo - 1) * (lo - 1) < n,
        decreases hi - lo,
    {
        let mid = lo + (hi - lo) / 2;
        assert(mid * mid <= hi * hi
            && hi * hi <= 0xffff_ffff_ffff_ffff * 0xffff_ffff_ffff_ffff) by (nonlinear_arith)
            requires
                0 <= mid <= hi <= 0xffff_ffff_ffff_ffff,
        ;
        if mid * mid >= n {
            hi = mid;
        } else {
            lo = mid + 1;
        }
    }
    proof {
        lemma_sqrt_ceil_is(n as int);
        lemma_sqrt_ceil_unique(n as int, lo as int, sqrt_ceil(n as int));
    }
    lo
}

} // verus!
