//! Exact integer arithmetic underlying the geometry: truncating division,
//! the integer square root, and the lemmas about them that the contour
//! algorithms rely on.

use vstd::prelude::*;

verus! {

/// Truncating integer division (rounds toward zero), the rounding every
/// fixed-point scaling step of the engine uses.  Meaningful for `b != 0`.
pub open spec fn tdiv(a: int, b: int) -> int {
    if a >= 0 {
        a / b
    } else {
        -((-a) / b)
    }
}

/// The truncated quotient is bounded by any bound on the exact quotient:
/// if `|a| <= m * b` then `|tdiv(a, b)| <= m`.
pub proof fn lemma_tdiv_bound(a: int, b: int, m: int)
    requires
        b > 0,
        m >= 0,
        -(m * b) <= a <= m * b,
    ensures
        -m <= tdiv(a, b) <= m,
{
    let n = if a >= 0 { a } else { -a };
    assert(n / b <= (m * b) / b) by {
        vstd::arithmetic::div_mod::lemma_div_is_ordered(n, m * b, b);
    }
    assert((b * m) / b == m) by {
        vstd::arithmetic::div_mod::lemma_div_multiples_vanish(m, b);
    }
    assert(m * b == b * m) by (nonlinear_arith);
    assert(n / b >= 0) by {
        vstd::arithmetic::div_mod::lemma_div_pos_is_pos(n, b);
    }
}

/// Truncation rounds toward zero: for `b > 0` the product `tdiv(a, b) * b`
/// lies between zero and `a`.
pub proof fn lemma_tdiv_magnitude(a: int, b: int)
    requires
        b > 0,
    ensures
        a >= 0 ==> 0 <= tdiv(a, b) && b * tdiv(a, b) <= a,
        a <= 0 ==> tdiv(a, b) <= 0 && a <= b * tdiv(a, b),
{
    let n = if a >= 0 { a } else { -a };
    assert(n == b * (n / b) + n % b) by {
        vstd::arithmetic::div_mod::lemma_fundamental_div_mod(n, b);
    }
    assert(0 <= n % b < b) by {
        vstd::arithmetic::div_mod::lemma_mod_bound(n, b);
    }
    assert(n / b >= 0) by {
        vstd::arithmetic::div_mod::lemma_div_pos_is_pos(n, b);
    }
    assert(b * (-(n / b)) == -(b * (n / b))) by (nonlinear_arith);
}

/// The magnitude of an integer.
pub open spec fn abs_i(x: int) -> int {
    if x >= 0 {
        x
    } else {
        -x
    }
}

/// A product is bounded by the product of the operands' bounds.
pub proof fn lemma_abs_mul_bound(x: int, y: int, bx: int, by: int)
    requires
        -bx <= x <= bx,
        -by <= y <= by,
    ensures
        -(bx * by) <= x * y <= bx * by,
{
    assert(-(bx * by) <= x * y <= bx * by) by (nonlinear_arith)
        requires
            -bx <= x <= bx,
            -by <= y <= by,
    ;
}

/// A square bounded by a square bounds the base: `x * x <= b * b` with
/// `b >= 0` gives `-b <= x <= b`.
pub proof fn lemma_sq_le(x: int, b: int)
    requires
        x * x <= b * b,
        b >= 0,
    ensures
        -b <= x <= b,
{
    assert(-b <= x <= b) by (nonlinear_arith)
        requires
            x * x <= b * b,
            b >= 0,
    ;
}

/// Multiplies two 128-bit integers whose magnitudes are bounded by the two
/// given constants, which keeps the product within the 128-bit range.
pub fn mul_wide(a: i128, b: i128, abound: i128, bbound: i128) -> (r: i128)
    requires
        0 <= abound,
        0 <= bbound,
        -abound <= a <= abound,
        -bbound <= b <= bbound,
        abound * bbound <= 0x4000_0000_0000_0000_0000_0000_0000_0000,
    ensures
        r == a * b,
        -(abound * bbound) <= r <= abound * bbound,
{
    proof {
        lemma_abs_mul_bound(a as int, b as int, abound as int, bbound as int);
    }
    a * b
}

/// Truncating 128-bit division for a positive divisor.
pub fn tdiv_wide(a: i128, b: i128) -> (r: i128)
    requires
        b > 0,
    ensures
        r == tdiv(a as int, b as int),
        -abs_i(a as int) <= r <= abs_i(a as int),
{
    proof {
        let n = abs_i(a as int);
        assert(n * b >= n) by (nonlinear_arith)
            requires
                b >= 1,
                n >= 0,
        ;
        lemma_tdiv_bound(a as int, b as int, n);
    }
    let q = a.checked_div(b);
    match q {
        Some(v) => v,
        None => vstd::pervasive::unreached(),
    }
}

/// Expansion of a squared difference.
pub proof fn lemma_sq_sub(p: int, q: int)
    ensures
        (p - q) * (p - q) == p * p - 2 * (p * q) + q * q,
{
    assert((p - q) * (p - q) == p * p - 2 * (p * q) + q * q) by (nonlinear_arith);
}

/// Expansion of a squared sum.
pub proof fn lemma_sq_add(p: int, q: int)
    ensures
        (p + q) * (p + q) == p * p + 2 * (p * q) + q * q,
{
    assert((p + q) * (p + q) == p * p + 2 * (p * q) + q * q) by (nonlinear_arith);
}

/// Swapping the inner factors of a product of two products.
pub proof fn lemma_mul_swap4(a: int, b: int, m: int, w: int)
    ensures
        (a * b) * (m * w) == (a * m) * (b * w),
{
    assert((a * b) * (m * w) == (a * m) * (b * w)) by (nonlinear_arith);
}

/// Squaring keeps the order of magnitudes: `|p| <= m` gives `p * p <= m * m`.
pub proof fn lemma_sq_ordered(p: int, m: int)
    requires
        -m <= p <= m,
    ensures
        p * p <= m * m,
{
    assert(p * p <= m * m) by (nonlinear_arith)
        requires
            -m <= p <= m,
    ;
}

/// Cancelling a positive factor from an inequality of products.
pub proof fn lemma_mul_cancel_le(f: int, p: int, q: int)
    requires
        f > 0,
        f * p <= f * q,
    ensures
        p <= q,
{
    assert(p <= q) by (nonlinear_arith)
        requires
            f > 0,
            f * p <= f * q,
    ;
}

/// The two-squares (Brahmagupta-Fibonacci) identity: the squared "dot"
/// and "cross" combinations of two plane vectors sum to the product of
/// their squared norms.
pub proof fn lemma_two_squares_identity(x: int, z: int, c: int, s: int)
    ensures
        (x * c - z * s) * (x * c - z * s) + (x * s + z * c) * (x * s + z * c) == (x * x + z * z) * (
        c * c + s * s),
{
    lemma_sq_sub(x * c, z * s);
    lemma_sq_add(x * s, z * c);
    lemma_mul_swap4(x, c, z, s);
    lemma_mul_swap4(x, s, z, c);
    vstd::arithmetic::mul::lemma_mul_is_commutative(c, s);
    lemma_mul_swap4(x, c, x, c);
    lemma_mul_swap4(z, s, z, s);
    lemma_mul_swap4(x, s, x, s);
    lemma_mul_swap4(z, c, z, c);
    vstd::arithmetic::mul::lemma_mul_is_distributive_add(x * x + z * z, c * c, s * s);
    vstd::arithmetic::mul::lemma_mul_is_distributive_add_other_way(c * c, x * x, z * z);
    vstd::arithmetic::mul::lemma_mul_is_distributive_add_other_way(s * s, x * x, z * z);
}

/// Truncating division loses less than the divisor: the remainder
/// `a - b * tdiv(a, b)` has magnitude at most `b - 1`.
pub proof fn lemma_tdiv_remainder(a: int, b: int)
    requires
        b >= 1,
    ensures
        -(b - 1) <= a - b * tdiv(a, b) <= b - 1,
{
    let n = if a >= 0 { a } else { -a };
    assert(n == b * (n / b) + n % b) by {
        vstd::arithmetic::div_mod::lemma_fundamental_div_mod(n, b);
    }
    assert(0 <= n % b < b) by {
        vstd::arithmetic::div_mod::lemma_mod_bound(n, b);
    }
    if a < 0 {
        assert(b * (-(n / b)) == -(b * (n / b))) by (nonlinear_arith);
    }
}

/// For a positive divisor, `k <= d / h` exactly when `k * h <= d`.
pub proof fn lemma_le_div_iff(k: int, d: int, h: int)
    requires
        h >= 1,
        k >= 0,
        d >= 0,
    ensures
        (k <= d / h) <==> (k * h <= d),
{
    if k <= d / h {
        vstd::arithmetic::mul::lemma_mul_inequality(k, d / h, h);
        vstd::arithmetic::div_mod::lemma_fundamental_div_mod(d, h);
        vstd::arithmetic::div_mod::lemma_mod_bound(d, h);
        assert((d / h) * h == h * (d / h)) by (nonlinear_arith);
    }
    if k * h <= d {
        vstd::arithmetic::div_mod::lemma_div_is_ordered(k * h, d, h);
        vstd::arithmetic::div_mod::lemma_div_multiples_vanish(k, h);
        assert(k * h == h * k) by (nonlinear_arith);
    }
}

/// `r` is the integer square root of `n`: the largest integer whose square
/// does not exceed `n`.
pub open spec fn is_isqrt(n: int, r: int) -> bool {
    0 <= r && r * r <= n && n < (r + 1) * (r + 1)
}

/// The integer square root of a nonnegative integer.
pub open spec fn isqrt(n: int) -> int {
    choose|r: int| is_isqrt(n, r)
}

/// The integer square root exists for every nonnegative integer.
pub proof fn lemma_isqrt_exists(n: int)
    requires
        n >= 0,
    ensures
        is_isqrt(n, isqrt(n)),
    decreases n,
{
    if n == 0 {
        assert(is_isqrt(0, 0));
    } else {
        lemma_isqrt_exists(n - 1);
        let r = isqrt(n - 1);
        if n < (r + 1) * (r + 1) {
            assert(is_isqrt(n, r));
        } else {
            assert(n == (r + 1) * (r + 1));
            assert((r + 1) * (r + 1) < (r + 2) * (r + 2)) by (nonlinear_arith)
                requires r >= 0;
            assert(is_isqrt(n, r + 1));
        }
    }
}

/// The integer square root is unique.
pub proof fn lemma_isqrt_unique(n: int, r1: int, r2: int)
    requires
        is_isqrt(n, r1),
        is_isqrt(n, r2),
    ensures
        r1 == r2,
{
    if r1 < r2 {
        assert((r1 + 1) * (r1 + 1) <= r2 * r2) by (nonlinear_arith)
            requires 0 <= r1, r1 < r2;
    }
    if r2 < r1 {
        assert((r2 + 1) * (r2 + 1) <= r1 * r1) by (nonlinear_arith)
            requires 0 <= r2, r2 < r1;
    }
}

/// The defining bounds of `isqrt`, stated for direct use.
pub proof fn lemma_isqrt_bounds(n: int)
    requires
        n >= 0,
    ensures
        0 <= isqrt(n),
        isqrt(n) * isqrt(n) <= n,
        n < (isqrt(n) + 1) * (isqrt(n) + 1),
{
    lemma_isqrt_exists(n);
}

/// The integer square root is monotone.
pub proof fn lemma_isqrt_monotone(a: int, b: int)
    requires
        0 <= a <= b,
    ensures
        isqrt(a) <= isqrt(b),
{
    lemma_isqrt_exists(a);
    lemma_isqrt_exists(b);
    let ra = isqrt(a);
    let rb = isqrt(b);
    if rb < ra {
        assert((rb + 1) * (rb + 1) <= ra * ra) by (nonlinear_arith)
            requires 0 <= rb, rb < ra;
    }
}

/// A single coordinate never exceeds the integer norm of its vector:
/// `|dx| <= isqrt(dx * dx + dz * dz)`.
pub proof fn lemma_coordinate_le_norm(dx: int, dz: int)
    ensures
        (if dx >= 0 { dx } else { -dx }) <= isqrt(dx * dx + dz * dz),
{
    let a = if dx >= 0 { dx } else { -dx };
    assert(a * a == dx * dx) by (nonlinear_arith)
        requires a == dx || a == -dx;
    assert(dz * dz >= 0) by (nonlinear_arith);
    assert(is_isqrt(a * a, a)) by {
        assert(a * a < (a + 1) * (a + 1)) by (nonlinear_arith)
            requires a >= 0;
    }
    lemma_isqrt_exists(a * a);
    lemma_isqrt_unique(a * a, a, isqrt(a * a));
    lemma_isqrt_monotone(a * a, dx * dx + dz * dz);
}

/// The triangle inequality for integer norms of plane vectors, up to the
/// rounding of each square root: the norm of a sum exceeds the sum of the
/// norms by at most one.
pub proof fn lemma_isqrt_triangle(ax: int, az: int, bx: int, bz: int)
    ensures
        isqrt((ax + bx) * (ax + bx) + (az + bz) * (az + bz)) <= isqrt(ax * ax + az * az) + isqrt(
            bx * bx + bz * bz) + 1,
{
    let na = ax * ax + az * az;
    let nb = bx * bx + bz * bz;
    let ns = (ax + bx) * (ax + bx) + (az + bz) * (az + bz);
    assert(ax * ax >= 0 && az * az >= 0 && bx * bx >= 0 && bz * bz >= 0 && (ax + bx) * (ax + bx)
        >= 0 && (az + bz) * (az + bz) >= 0) by (nonlinear_arith);
    lemma_isqrt_bounds(na);
    lemma_isqrt_bounds(nb);
    lemma_isqrt_bounds(ns);
    let p = isqrt(na);
    let q = isqrt(nb);
    let r = isqrt(ns);
    let dot = ax * bx + az * bz;
    // dot * dot <= na * nb, by the two-squares identity with the second
    // vector's z component negated.
    lemma_two_squares_identity(ax, az, bx, -bz);
    assert(ax * bx - az * (-bz) == dot) by (nonlinear_arith)
        requires
            dot == ax * bx + az * bz,
    ;
    assert((ax * (-bz) + az * bx) * (ax * (-bz) + az * bx) >= 0) by (nonlinear_arith);
    assert(bx * bx + (-bz) * (-bz) == nb) by (nonlinear_arith)
        requires
            nb == bx * bx + bz * bz,
    ;
    assert((ax * bx - az * (-bz)) * (ax * bx - az * (-bz)) == dot * dot);
    assert(dot * dot <= na * nb);
    // dot < (p + 1) * (q + 1).
    assert(na * nb < ((p + 1) * (q + 1)) * ((p + 1) * (q + 1))) by (nonlinear_arith)
        requires
            0 <= na < (p + 1) * (p + 1),
            0 <= nb < (q + 1) * (q + 1),
            p >= 0,
            q >= 0,
    ;
    assert(dot < (p + 1) * (q + 1)) by (nonlinear_arith)
        requires
            dot * dot < ((p + 1) * (q + 1)) * ((p + 1) * (q + 1)),
            (p + 1) * (q + 1) >= 1,
    ;
    // ns expands to na + 2 dot + nb, strictly below (p + q + 2) squared.
    assert(ns == na + 2 * dot + nb) by (nonlinear_arith)
        requires
            ns == (ax + bx) * (ax + bx) + (az + bz) * (az + bz),
            na == ax * ax + az * az,
            nb == bx * bx + bz * bz,
            dot == ax * bx + az * bz,
    ;
    assert((p + 1) * (p + 1) + 2 * ((p + 1) * (q + 1)) + (q + 1) * (q + 1) == (p + q + 2) * (p + q
        + 2)) by (nonlinear_arith);
    assert(r < p + q + 2) by (nonlinear_arith)
        requires
            r >= 0,
            p >= 0,
            q >= 0,
            r * r <= ns,
            ns < (p + q + 2) * (p + q + 2),
    ;
}

/// Computes the integer square root by binary search over the answer.
pub fn isqrt_exec(n: u128) -> (r: u128)
    ensures
        r == isqrt(n as int),
        r < 0x1_0000_0000_0000_0000,
{
    let mut lo: u128 = 0;
    let mut hi: u128 = 0x1_0000_0000_0000_0000;
    // Invariant: lo * lo <= n < hi * hi, so the root lies in [lo, hi).
    while lo + 1 < hi
        invariant
            lo < hi <= 0x1_0000_0000_0000_0000,
            lo * lo <= n,
            n < hi * hi,
        decreases hi - lo,
    {
        let mid: u128 = lo + (hi - lo) / 2;
        assert(lo < mid < hi);
        assert(mid * mid < 0x1_0000_0000_0000_0000_0000_0000_0000_0000) by (nonlinear_arith)
            requires mid < 0x1_0000_0000_0000_0000;
        if mid * mid <= n {
            lo = mid;
        } else {
            hi = mid;
        }
    }
    proof {
        assert(is_isqrt(n as int, lo as int));
        lemma_isqrt_exists(n as int);
        lemma_isqrt_unique(n as int, lo as int, isqrt(n as int));
    }
    lo
}

} // verus!
