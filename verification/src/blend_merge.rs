//! The blend merger: suppresses excessive horizontal-radius jumps between
//! vertically adjacent layers.  Layers are processed from the top down, and
//! a lower point whose horizontal distance from the vertical axis through
//! the origin falls short of the (already corrected) upper point's distance
//! by more than the tolerance is pulled toward the upper point by half the
//! tolerance, at its own height.

use crate::math::{is_isqrt, isqrt, isqrt_exec, lemma_abs_mul_bound, lemma_coordinate_le_norm,
    lemma_isqrt_bounds, lemma_isqrt_exists, lemma_isqrt_monotone, lemma_isqrt_triangle,
    lemma_isqrt_unique, lemma_mul_swap4, lemma_sq_le, lemma_tdiv_bound, lemma_tdiv_magnitude,
    mul_wide, tdiv, tdiv_wide};
use crate::model::{rows, stack_in_range, RawPoint, MAX_COORD};
use vstd::prelude::*;

verus! {

/// Horizontal distance of a point from the vertical axis through the
/// origin: the integer norm of its horizontal components.
pub open spec fn horizontal_distance(p: RawPoint) -> int {
    isqrt(p.x * p.x + p.z * p.z)
}

/// Corrected points can drift past the plain coordinate bound by the
/// accumulated tolerance; arithmetic on points within twice the bound
/// stays exact.
pub open spec fn in_wide_range(p: RawPoint) -> bool {
    -2 * MAX_COORD <= p.x <= 2 * MAX_COORD && -2 * MAX_COORD <= p.y <= 2 * MAX_COORD && -2
        * MAX_COORD <= p.z <= 2 * MAX_COORD
}

/// Every point of the layer has all components within the bound.
pub open spec fn layer_within(s: Seq<RawPoint>, b: int) -> bool {
    forall|j: int|
        0 <= j < s.len() ==> -b <= (#[trigger] s[j]).x <= b && -b <= s[j].y <= b && -b <= s[j].z
            <= b
}

impl RawPoint {
    /// The distance along the horizontal plane from the vertical axis.
    pub fn calculate_horizontal_distance(&self) -> (d: i64)
        requires
            in_wide_range(*self),
        ensures
            d == horizontal_distance(*self),
            0 <= d <= 3_000_000_000_000_000_000,
    {
        let x2: i128 = mul_wide(self.x as i128, self.x as i128, 2_000_000_000_000_000_000,
            2_000_000_000_000_000_000);
        let z2: i128 = mul_wide(self.z as i128, self.z as i128, 2_000_000_000_000_000_000,
            2_000_000_000_000_000_000);
        proof {
            assert(x2 >= 0 && z2 >= 0) by (nonlinear_arith)
                requires
                    x2 == self.x * self.x,
                    z2 == self.z * self.z,
            ;
        }
        let n: u128 = (x2 + z2) as u128;
        let r: u128 = isqrt_exec(n);
        proof {
            lemma_isqrt_bounds(n as int);
            let b: int = 3_000_000_000_000_000_000;
            assert(isqrt(n as int) * isqrt(n as int) <= n < b * b);
            lemma_sq_le(isqrt(n as int), b);
        }
        r as i64
    }
}

/// The corrected lower point: starting at the upper point, moved by
/// `dist_change` along the horizontal line toward the lower point, keeping
/// the lower point's height.  Coincident horizontal positions leave the
/// lower point unchanged.
pub open spec fn pulled_point(upper: RawPoint, lower: RawPoint, dist_change: int) -> RawPoint {
    let dx = upper.x - lower.x;
    let dz = upper.z - lower.z;
    let d = isqrt(dx * dx + dz * dz);
    if d == 0 {
        lower
    } else {
        RawPoint {
            x: (upper.x - tdiv(dist_change * dx, d)) as i64,
            y: lower.y,
            z: (upper.z - tdiv(dist_change * dz, d)) as i64,
        }
    }
}

/// The pull never moves farther than it is asked to: each horizontal
/// component of the pulled point stays within `dist_change` of the upper
/// point's, and the height is the lower point's.
pub proof fn lemma_pulled_point_bound(upper: RawPoint, lower: RawPoint, dist_change: int, bu: int)
    requires
        -bu <= upper.x <= bu,
        -bu <= upper.y <= bu,
        -bu <= upper.z <= bu,
        lower.in_range(),
        0 <= dist_change,
        MAX_COORD <= bu,
        bu + dist_change <= 4 * MAX_COORD,
    ensures
        -(bu + dist_change) <= pulled_point(upper, lower, dist_change).x <= bu + dist_change,
        pulled_point(upper, lower, dist_change).y == lower.y,
        -(bu + dist_change) <= pulled_point(upper, lower, dist_change).z <= bu + dist_change,
{
    let dx = upper.x - lower.x;
    let dz = upper.z - lower.z;
    let d = isqrt(dx * dx + dz * dz);
    assert(dx * dx >= 0 && dz * dz >= 0) by (nonlinear_arith);
    lemma_isqrt_bounds(dx * dx + dz * dz);
    if d != 0 {
        lemma_coordinate_le_norm(dx, dz);
        lemma_coordinate_le_norm(dz, dx);
        assert(dz * dz + dx * dx == dx * dx + dz * dz);
        lemma_abs_mul_bound(dist_change, dx, dist_change, d);
        lemma_abs_mul_bound(dist_change, dz, dist_change, d);
        assert(dist_change * d == d * dist_change) by (nonlinear_arith);
        lemma_tdiv_bound(dist_change * dx, d, dist_change);
        lemma_tdiv_bound(dist_change * dz, d, dist_change);
    }
}

/// Moves from the higher point toward the lower point's horizontal position
/// by the given distance, preserving the lower height, exactly as
/// `pulled_point` describes.
pub fn get_point_at_distance(higher_point: RawPoint, lower_point: RawPoint, distance_to_change:
    i64) -> (p: RawPoint)
    requires
        in_wide_range(higher_point),
        in_wide_range(lower_point),
        0 <= distance_to_change <= MAX_COORD,
    ensures
        p == pulled_point(higher_point, lower_point, distance_to_change as int),
{
    let dx: i64 = higher_point.x - lower_point.x;
    let dz: i64 = higher_point.z - lower_point.z;
    let dx2: i128 = mul_wide(dx as i128, dx as i128, 4_000_000_000_000_000_000,
        4_000_000_000_000_000_000);
    let dz2: i128 = mul_wide(dz as i128, dz as i128, 4_000_000_000_000_000_000,
        4_000_000_000_000_000_000);
    proof {
        assert(dx2 >= 0 && dz2 >= 0) by (nonlinear_arith)
            requires
                dx2 == dx * dx,
                dz2 == dz * dz,
        ;
    }
    let d128: u128 = isqrt_exec((dx2 + dz2) as u128);
    if d128 == 0 {
        lower_point
    } else {
        proof {
            let d = isqrt((dx * dx + dz * dz) as int);
            lemma_isqrt_bounds((dx * dx + dz * dz) as int);
            lemma_coordinate_le_norm(dx as int, dz as int);
            lemma_coordinate_le_norm(dz as int, dx as int);
            assert(dz * dz + dx * dx == dx * dx + dz * dz);
            lemma_abs_mul_bound(distance_to_change as int, dx as int, distance_to_change as int, d);
            lemma_abs_mul_bound(distance_to_change as int, dz as int, distance_to_change as int, d);
            assert(distance_to_change * d == d * distance_to_change) by (nonlinear_arith);
            lemma_tdiv_bound(distance_to_change * dx, d, distance_to_change as int);
            lemma_tdiv_bound(distance_to_change * dz, d, distance_to_change as int);
        }
        let mx: i128 = tdiv_wide(mul_wide(distance_to_change as i128, dx as i128,
            1_000_000_000_000_000_000, 4_000_000_000_000_000_000), d128 as i128);
        let mz: i128 = tdiv_wide(mul_wide(distance_to_change as i128, dz as i128,
            1_000_000_000_000_000_000, 4_000_000_000_000_000_000), d128 as i128);
        let px: i128 = higher_point.x as i128 - mx;
        let pz: i128 = higher_point.z as i128 - mz;
        RawPoint { x: px as i64, y: lower_point.y, z: pz as i64 }
    }
}

/// One pairwise correction step of the merger: position `j` of the lower
/// layer is pulled in exactly when the upper point's horizontal distance
/// exceeds the lower point's by more than the tolerance; every other
/// position, and every position beyond the upper layer's length, is kept.
pub open spec fn corrected_layer(upper: Seq<RawPoint>, lower: Seq<RawPoint>, tol: int) -> Seq<
    RawPoint> {
    lower.map(|j: int, p: RawPoint|
        if j < upper.len() && horizontal_distance(upper[j]) - horizontal_distance(p) > tol {
            pulled_point(upper[j], p, tdiv(tol, 2))
        } else {
            p
        })
}

/// The final state of layer `k` after the top-down pass: the topmost layer
/// is never modified, and each other layer is corrected against the final
/// state of the layer above it, so corrections cascade downward.
pub open spec fn blended_layer(m: Seq<Seq<RawPoint>>, tol: int, k: int) -> Seq<RawPoint>
    decreases m.len() - k,
{
    if k < 0 || k >= m.len() {
        Seq::empty()
    } else if k == m.len() - 1 {
        m[k]
    } else {
        corrected_layer(blended_layer(m, tol, k + 1), m[k], tol)
    }
}

/// Each correction moves a point by at most half the tolerance, so layer
/// `k` stays within the coordinate bound plus the tolerance for every
/// layer above it.
pub proof fn lemma_blended_layer_within(m: Seq<Seq<RawPoint>>, tol: int, k: int)
    requires
        stack_in_range(m),
        1 <= tol,
        0 <= k < m.len(),
        m.len() * tol <= MAX_COORD,
    ensures
        layer_within(blended_layer(m, tol, k), MAX_COORD + (m.len() - 1 - k) * tol),
    decreases m.len() - k,
{
    let b = MAX_COORD + (m.len() - 1 - k) * tol;
    assert(0 <= (m.len() - 1 - k) * tol <= m.len() * tol) by (nonlinear_arith)
        requires
            0 <= m.len() - 1 - k < m.len(),
            tol >= 1,
    ;
    if k == m.len() - 1 {
        assert forall|j: int| 0 <= j < blended_layer(m, tol, k).len() implies -b <= (
        #[trigger] blended_layer(m, tol, k)[j]).x <= b && -b <= blended_layer(m, tol, k)[j].y <= b
            && -b <= blended_layer(m, tol, k)[j].z <= b by {
            assert(m[k][j].in_range());
        }
    } else {
        lemma_blended_layer_within(m, tol, k + 1);
        let upper = blended_layer(m, tol, k + 1);
        let bu = MAX_COORD + (m.len() - 1 - (k + 1)) * tol;
        assert((m.len() - 1 - (k + 1)) * tol + tol == (m.len() - 1 - k) * tol) by (nonlinear_arith);
        assert forall|j: int| 0 <= j < blended_layer(m, tol, k).len() implies -b <= (
        #[trigger] blended_layer(m, tol, k)[j]).x <= b && -b <= blended_layer(m, tol, k)[j].y <= b
            && -b <= blended_layer(m, tol, k)[j].z <= b by {
            assert(m[k][j].in_range());
            let p = m[k][j];
            if j < upper.len() && horizontal_distance(upper[j]) - horizontal_distance(p) > tol {
                lemma_pulled_point_bound(upper[j], p, tdiv(tol, 2), bu);
                crate::math::lemma_tdiv_bound(tol, 2, tol);
            }
        }
    }
}

/// The merger's boundary law, for every adjacent pair of layers: where the
/// final upper point's horizontal distance exceeds the original lower
/// point's by at most the tolerance, the lower point comes through
/// unchanged; where it exceeds the tolerance, the result holds the pull of
/// the lower point toward the final upper point by half the tolerance, at
/// the lower point's original height.
pub proof fn lemma_blend_boundary(m: Seq<Seq<RawPoint>>, tol: int, i: int, j: int)
    requires
        1 <= i < m.len(),
        0 <= j < m[i - 1].len(),
        j < blended_layer(m, tol, i).len(),
    ensures
        horizontal_distance(blended_layer(m, tol, i)[j]) - horizontal_distance(m[i - 1][j]) <= tol
            ==> blended_layer(m, tol, i - 1)[j] == m[i - 1][j],
        horizontal_distance(blended_layer(m, tol, i)[j]) - horizontal_distance(m[i - 1][j]) > tol
            ==> blended_layer(m, tol, i - 1)[j] == pulled_point(blended_layer(m, tol, i)[j], m[i
            - 1][j], tdiv(tol, 2)) && blended_layer(m, tol, i - 1)[j].y == m[i - 1][j].y,
{
    assert(blended_layer(m, tol, i - 1) == corrected_layer(blended_layer(m, tol, i), m[i - 1],
        tol));
}

/// No adjacent pair of layers violates the tolerance: the upper layer's
/// horizontal distance never exceeds the lower one's by more than `tol` at
/// any shared angular position.
pub open spec fn no_violation(m: Seq<Seq<RawPoint>>, tol: int) -> bool {
    forall|i: int, j: int|
        0 <= i < m.len() - 1 && 0 <= j < m[i + 1].len() && j < m[i].len() ==> horizontal_distance(
            #[trigger] m[i + 1][j]) - horizontal_distance(#[trigger] m[i][j]) <= tol
}

/// A triggered pull settles its pair: the pull vector's integer norm is at
/// most half the tolerance plus one, and the reverse triangle inequality
/// then bounds the corrected gap by `tdiv(tol, 2) + 2`, which stays within
/// any tolerance of at least three units.
pub proof fn lemma_pull_gap(upper: RawPoint, lower: RawPoint, tol: int)
    requires
        in_wide_range(upper),
        lower.in_range(),
        3 <= tol <= MAX_COORD,
        horizontal_distance(upper) - horizontal_distance(lower) > tol,
    ensures
        horizontal_distance(upper) - horizontal_distance(pulled_point(upper, lower, tdiv(tol, 2)))
            <= tol,
{
    let t2 = tdiv(tol, 2);
    vstd::arithmetic::div_mod::lemma_fundamental_div_mod(tol, 2);
    vstd::arithmetic::div_mod::lemma_mod_bound(tol, 2);
    assert(1 <= t2 && 2 * t2 <= tol && t2 + 2 <= tol);
    let dx = upper.x - lower.x;
    let dz = upper.z - lower.z;
    let d = isqrt(dx * dx + dz * dz);
    assert(dx * dx >= 0 && dz * dz >= 0) by (nonlinear_arith);
    lemma_isqrt_bounds(dx * dx + dz * dz);
    // The points are farther apart than the gap, less one for rounding.
    lemma_isqrt_triangle(lower.x as int, lower.z as int, dx, dz);
    assert(horizontal_distance(upper) <= horizontal_distance(lower) + d + 1);
    assert(d >= tol);
    let mx = tdiv(t2 * dx, d);
    let mz = tdiv(t2 * dz, d);
    lemma_coordinate_le_norm(dx, dz);
    lemma_coordinate_le_norm(dz, dx);
    assert(dz * dz + dx * dx == dx * dx + dz * dz);
    lemma_abs_mul_bound(t2, dx, t2, d);
    lemma_abs_mul_bound(t2, dz, t2, d);
    assert(t2 * d == d * t2) by (nonlinear_arith);
    lemma_tdiv_bound(t2 * dx, d, t2);
    lemma_tdiv_bound(t2 * dz, d, t2);
    // The pull's squared norm is at most (t2 + 1) squared.
    lemma_tdiv_magnitude(t2 * dx, d);
    lemma_tdiv_magnitude(t2 * dz, d);
    assert((d * mx) * (d * mx) <= (t2 * dx) * (t2 * dx)) by (nonlinear_arith)
        requires
            d >= 1,
            (t2 * dx >= 0 && 0 <= mx && d * mx <= t2 * dx) || (t2 * dx <= 0 && mx <= 0 && t2 * dx
                <= d * mx),
    ;
    assert((d * mz) * (d * mz) <= (t2 * dz) * (t2 * dz)) by (nonlinear_arith)
        requires
            d >= 1,
            (t2 * dz >= 0 && 0 <= mz && d * mz <= t2 * dz) || (t2 * dz <= 0 && mz <= 0 && t2 * dz
                <= d * mz),
    ;
    lemma_mul_swap4(d, mx, d, mx);
    lemma_mul_swap4(d, mz, d, mz);
    lemma_mul_swap4(t2, dx, t2, dx);
    lemma_mul_swap4(t2, dz, t2, dz);
    vstd::arithmetic::mul::lemma_mul_is_distributive_add(d * d, mx * mx, mz * mz);
    vstd::arithmetic::mul::lemma_mul_is_distributive_add(t2 * t2, dx * dx, dz * dz);
    assert((t2 * t2) * (dx * dx + dz * dz) < (t2 * t2) * ((d + 1) * (d + 1))) by (nonlinear_arith)
        requires
            dx * dx + dz * dz < (d + 1) * (d + 1),
            t2 >= 1,
    ;
    let mm = mx * mx + mz * mz;
    assert(mm <= (t2 + 1) * (t2 + 1)) by (nonlinear_arith)
        requires
            mm == mx * mx + mz * mz,
            (d * d) * (mx * mx + mz * mz) < (t2 * t2) * ((d + 1) * (d + 1)),
            d >= 2 * t2,
            t2 >= 1,
    ;
    assert(mm >= 0) by (nonlinear_arith)
        requires
            mm == mx * mx + mz * mz,
    ;
    lemma_isqrt_monotone(mm, (t2 + 1) * (t2 + 1));
    assert(is_isqrt((t2 + 1) * (t2 + 1), t2 + 1)) by (nonlinear_arith)
        requires
            t2 >= 0,
    ;
    lemma_isqrt_exists((t2 + 1) * (t2 + 1));
    lemma_isqrt_unique((t2 + 1) * (t2 + 1), t2 + 1, isqrt((t2 + 1) * (t2 + 1)));
    assert(isqrt(mm) <= t2 + 1);
    // The corrected point sits the pull's norm away from the upper point,
    // so its distance from the axis is short by at most that norm plus one.
    lemma_isqrt_triangle(upper.x - mx, upper.z - mz, mx, mz);
    let pp = pulled_point(upper, lower, t2);
    assert(d != 0);
    assert(pp.x as int == upper.x - mx && pp.z as int == upper.z - mz);
    assert(horizontal_distance(pp) == isqrt((upper.x - mx) * (upper.x - mx) + (upper.z - mz) * (
    upper.z - mz)));
    assert(horizontal_distance(upper) <= horizontal_distance(pp) + isqrt(mm) + 1);
}

/// The merger never changes a layer's length.
pub proof fn lemma_blended_layer_len(m: Seq<Seq<RawPoint>>, tol: int, k: int)
    requires
        0 <= k < m.len(),
    ensures
        blended_layer(m, tol, k).len() == m[k].len(),
    decreases m.len() - k,
{
}

/// The merger's whole output as one stack of layers.
pub open spec fn blended_stack(m: Seq<Seq<RawPoint>>, tol: int) -> Seq<Seq<RawPoint>> {
    Seq::new(m.len(), |k: int| blended_layer(m, tol, k))
}

/// One pass of the merger leaves no violation behind, for any tolerance of
/// at least three units: every pair it corrects ends within the tolerance,
/// and every pair it leaves alone already was.
pub proof fn lemma_blend_no_violation(m: Seq<Seq<RawPoint>>, tol: int)
    requires
        stack_in_range(m),
        3 <= tol <= MAX_COORD,
        m.len() * tol <= MAX_COORD,
    ensures
        no_violation(blended_stack(m, tol), tol),
{
    let out = blended_stack(m, tol);
    assert forall|i: int, j: int|
        0 <= i < out.len() - 1 && 0 <= j < out[i + 1].len() && j < out[i].len() implies
        horizontal_distance(#[trigger] out[i + 1][j]) - horizontal_distance(#[trigger] out[i][j])
            <= tol by {
        lemma_blended_layer_len(m, tol, i);
        lemma_blended_layer_len(m, tol, i + 1);
        let upper = blended_layer(m, tol, i + 1);
        let p = m[i][j];
        assert(p.in_range());
        assert(out[i] == corrected_layer(upper, m[i], tol));
        if horizontal_distance(upper[j]) - horizontal_distance(p) > tol {
            lemma_blended_layer_within(m, tol, i + 1);
            assert((m.len() - 1 - (i + 1)) * tol <= m.len() * tol) by (nonlinear_arith)
                requires
                    0 <= m.len() - 1 - (i + 1) < m.len(),
                    tol >= 1,
            ;
            assert(in_wide_range(upper[j]));
            lemma_pull_gap(upper[j], p, tol);
            assert(out[i][j] == pulled_point(upper[j], p, tdiv(tol, 2)));
        } else {
            assert(out[i][j] == p);
        }
    }
}

/// Idempotence of the merger: for any tolerance of at least three units,
/// a second pass over the first pass's output changes nothing — one pass
/// reaches a fixed point.
pub proof fn lemma_blend_idempotent(m: Seq<Seq<RawPoint>>, tol: int, k: int)
    requires
        stack_in_range(m),
        3 <= tol <= MAX_COORD,
        m.len() * tol <= MAX_COORD,
        0 <= k < m.len(),
    ensures
        blended_layer(blended_stack(m, tol), tol, k) == blended_stack(m, tol)[k],
{
    lemma_blend_no_violation(m, tol);
    lemma_blend_fixed_point(blended_stack(m, tol), tol, k);
}

/// A model without violations is a fixed point of the merger: the pass
/// leaves every layer exactly as it found it.  Together with
/// `lemma_blend_no_violation` this closes the merger's idempotence, stated
/// as `lemma_blend_idempotent`.
pub proof fn lemma_blend_fixed_point(m: Seq<Seq<RawPoint>>, tol: int, k: int)
    requires
        no_violation(m, tol),
        0 <= k < m.len(),
    ensures
        blended_layer(m, tol, k) == m[k],
    decreases m.len() - k,
{
    if k == m.len() - 1 {
    } else {
        lemma_blend_fixed_point(m, tol, k + 1);
        let upper = blended_layer(m, tol, k + 1);
        assert(upper == m[k + 1]);
        assert forall|j: int| 0 <= j < m[k].len() implies corrected_layer(upper, m[k], tol)[j]
            == m[k][j] by {
            if j < upper.len() {
                assert(horizontal_distance(m[k + 1][j]) - horizontal_distance(m[k][j]) <= tol);
            }
        }
        assert(corrected_layer(upper, m[k], tol) =~= m[k]);
    }
}

/// Bounds excessive radius jumps between adjacent layers, top to bottom:
/// the result holds `blended_layer` of the input at every index.  The
/// product bound on layer count and tolerance keeps every cascaded
/// correction within exact integer range.
pub fn blend_merge(points: Vec<Vec<RawPoint>>, overlap_tolerance: i64) -> (res: Vec<Vec<RawPoint>>)
    requires
        stack_in_range(rows(points@)),
        1 <= overlap_tolerance <= MAX_COORD,
        points@.len() * overlap_tolerance <= MAX_COORD,
    ensures
        res@.len() == points@.len(),
        forall|k: int|
            0 <= k < res@.len() ==> #[trigger] rows(res@)[k] == blended_layer(rows(points@),
                overlap_tolerance as int, k),
{
    let ghost orig = rows(points@);
    let ghost tol = overlap_tolerance as int;
    let mut points = points;
    let levels_count: usize = points.len();
    if levels_count == 0 {
        return points;
    }
    let half: i64 = ((overlap_tolerance as u64) / 2) as i64;
    proof {
        assert(half as int == tdiv(tol, 2));
    }
    let mut i: usize = levels_count - 1;
    while i >= 1
        invariant
            points@.len() == levels_count == orig.len(),
            0 <= i < levels_count,
            stack_in_range(orig),
            1 <= tol <= MAX_COORD,
            orig.len() * tol <= MAX_COORD,
            half as int == tdiv(tol, 2),
            tol == overlap_tolerance,
            forall|k: int|
                i <= k < levels_count ==> #[trigger] points@[k]@ == blended_layer(orig, tol, k),
            forall|k: int| 0 <= k < i ==> #[trigger] points@[k]@ == orig[k],
        decreases i,
    {
        let ghost upper_final = blended_layer(orig, tol, i as int);
        proof {
            lemma_blended_layer_within(orig, tol, i as int);
            assert((orig.len() - 1 - i) * tol <= orig.len() * tol) by (nonlinear_arith)
                requires
                    0 <= orig.len() - 1 - i < orig.len(),
                    tol >= 1,
            ;
        }
        let lower_len: usize = points[i - 1].len();
        let upper_len: usize = points[i].len();
        let bound: usize = if lower_len < upper_len { lower_len } else { upper_len };
        let mut new_lower: Vec<RawPoint> = Vec::new();
        let mut j: usize = 0;
        while j < lower_len
            invariant
                points@.len() == levels_count == orig.len(),
                1 <= i < levels_count,
                stack_in_range(orig),
                1 <= tol <= MAX_COORD,
                orig.len() * tol <= MAX_COORD,
                half as int == tdiv(tol, 2),
                tol == overlap_tolerance,
                forall|k: int|
                    i <= k < levels_count ==> #[trigger] points@[k]@ == blended_layer(orig, tol, k),
                forall|k: int| 0 <= k < i ==> #[trigger] points@[k]@ == orig[k],
                upper_final == blended_layer(orig, tol, i as int),
                layer_within(upper_final, 2 * MAX_COORD),
                upper_len == points@[i as int]@.len(),
                lower_len == points@[i - 1]@.len(),
                bound == if lower_len < upper_len { lower_len } else { upper_len },
                j <= lower_len,
                new_lower@.len() == j,
                forall|q: int|
                    0 <= q < j ==> #[trigger] new_lower@[q] == corrected_layer(upper_final, orig[i
                        - 1], tol)[q],
            decreases lower_len - j,
        {
            let lower_point: RawPoint = points[i - 1][j];
            proof {
                assert(orig[i - 1][j as int].in_range());
            }
            if j < bound {
                let current_point: RawPoint = points[i][j];
                proof {
                    assert(upper_final[j as int] == points@[i as int]@[j as int]);
                    assert(in_wide_range(upper_final[j as int]));
                }
                let du: i64 = current_point.calculate_horizontal_distance();
                let dl: i64 = lower_point.calculate_horizontal_distance();
                if du - dl > overlap_tolerance {
                    let new_point: RawPoint = get_point_at_distance(current_point, lower_point,
                        half);
                    new_lower.push(new_point);
                } else {
                    new_lower.push(lower_point);
                }
            } else {
                new_lower.push(lower_point);
            }
            proof {
                assert(new_lower@[j as int] == corrected_layer(upper_final, orig[i - 1], tol)[
                    j as int]);
            }
            j = j + 1;
        }
        proof {
            assert(new_lower@ =~= corrected_layer(upper_final, orig[i - 1], tol));
            assert(corrected_layer(upper_final, orig[i - 1], tol) == blended_layer(orig, tol, i
                - 1));
        }
        points.set(i - 1, new_lower);
        i = i - 1;
    }
    proof {
        assert(forall|k: int|
            0 <= k < points@.len() ==> #[trigger] rows(points@)[k] == points@[k]@);
    }
    points
}

} // verus!
