//! The shrink-and-offset compensator: rescales each contour point radially
//! around the center axis, adding half the nozzle diameter to the radius
//! and then shrinking by the material's shrink percentage.  A zero nozzle
//! diameter or a zero shrink factor passes the model through unchanged.

use crate::math::{isqrt, isqrt_exec, lemma_abs_mul_bound, lemma_coordinate_le_norm,
    lemma_isqrt_bounds, lemma_sq_le, lemma_tdiv_bound, mul_wide, tdiv, tdiv_wide};
use crate::model::{rows, stack_in_range, RawPoint, SliceError, MAX_COORD};
use vstd::prelude::*;

verus! {

/// A material profile as delivered by the configuration provider.
#[derive(Clone, Copy, Debug, PartialEq, Eq, Structural)]
pub struct MaterialProfile {
    /// Expected material contraction, as a whole percentage in `[0, 100]`.
    pub shrink_factor: i64,
}

/// One compensated point.  In polar coordinates around the center axis the
/// new radius is `(r + nozzle_half) * (100 - shrink) / 100`; the point is
/// scaled along its own radial direction (`dx / r`, `dz / r`), each step
/// rounded toward zero, and the height is untouched.  A point on the axis
/// itself (`r == 0`) is left unchanged.
pub open spec fn adjusted_point(p: RawPoint, center: RawPoint, nozzle_half: int, shrink: int)
    -> RawPoint {
    let dx = p.x - center.x;
    let dz = p.z - center.z;
    let r = isqrt(dx * dx + dz * dz);
    if r == 0 {
        p
    } else {
        let ar = tdiv((r + nozzle_half) * (100 - shrink), 100);
        RawPoint {
            x: (center.x + tdiv(ar * dx, r)) as i64,
            y: p.y,
            z: (center.z + tdiv(ar * dz, r)) as i64,
        }
    }
}

/// Compensates one point, exactly as `adjusted_point` describes.
fn adjust_point(p: RawPoint, center: RawPoint, nozzle_half: i64, shrink: i64) -> (res: RawPoint)
    requires
        p.in_range(),
        center.in_range(),
        0 <= nozzle_half <= MAX_COORD,
        0 <= shrink <= 100,
    ensures
        res == adjusted_point(p, center, nozzle_half as int, shrink as int),
{
    let dx: i64 = p.x - center.x;
    let dz: i64 = p.z - center.z;
    let dx2: i128 = mul_wide(dx as i128, dx as i128, 2_000_000_000_000_000_000,
        2_000_000_000_000_000_000);
    let dz2: i128 = mul_wide(dz as i128, dz as i128, 2_000_000_000_000_000_000,
        2_000_000_000_000_000_000);
    proof {
        assert(dx2 >= 0 && dz2 >= 0) by (nonlinear_arith)
            requires
                dx2 == dx * dx,
                dz2 == dz * dz,
        ;
    }
    let r128: u128 = isqrt_exec((dx2 + dz2) as u128);
    if r128 == 0 {
        p
    } else {
        proof {
            let r = isqrt((dx * dx + dz * dz) as int);
            lemma_isqrt_bounds((dx * dx + dz * dz) as int);
            let b: int = 3_000_000_000_000_000_000;
            assert(r * r <= dx * dx + dz * dz < b * b);
            lemma_sq_le(r, b);
        }
        let r: i128 = r128 as i128;
        let scaled: i128 = mul_wide(r + nozzle_half as i128, 100 - shrink as i128,
            4_000_000_000_000_000_000, 100);
        let ar: i128 = tdiv_wide(scaled, 100);
        proof {
            let rr = isqrt((dx * dx + dz * dz) as int);
            lemma_tdiv_bound(scaled as int, 100, 4_000_000_000_000_000_000);
            lemma_coordinate_le_norm(dx as int, dz as int);
            lemma_coordinate_le_norm(dz as int, dx as int);
            assert(dz * dz + dx * dx == dx * dx + dz * dz);
            lemma_abs_mul_bound(ar as int, dx as int, 4_000_000_000_000_000_000, rr);
            lemma_abs_mul_bound(ar as int, dz as int, 4_000_000_000_000_000_000, rr);
            assert(4_000_000_000_000_000_000 * rr == rr * 4_000_000_000_000_000_000)
                by (nonlinear_arith);
            lemma_tdiv_bound(ar * dx, rr, 4_000_000_000_000_000_000);
            lemma_tdiv_bound(ar * dz, rr, 4_000_000_000_000_000_000);
        }
        let mx: i128 = tdiv_wide(mul_wide(ar, dx as i128, 4_000_000_000_000_000_000,
            2_000_000_000_000_000_000), r);
        let mz: i128 = tdiv_wide(mul_wide(ar, dz as i128, 4_000_000_000_000_000_000,
            2_000_000_000_000_000_000), r);
        let px: i128 = center.x as i128 + mx;
        let pz: i128 = center.z as i128 + mz;
        RawPoint { x: px as i64, y: p.y, z: pz as i64 }
    }
}

/// Applies the shrink-and-offset correction to a whole model.  With a zero
/// nozzle diameter or zero shrink factor the input is returned unchanged,
/// exactly; otherwise every point is `adjusted_point` of the original, with
/// the nozzle offset being half the nozzle diameter.
pub fn adjust_for_shrink_and_offset(points: Vec<Vec<RawPoint>>, center: RawPoint, nozzle_size:
    i64, shrink_allowance: i64) -> (res: Vec<Vec<RawPoint>>)
    requires
        stack_in_range(rows(points@)),
        center.in_range(),
        0 <= nozzle_size <= MAX_COORD,
        0 <= shrink_allowance <= 100,
    ensures
        nozzle_size == 0 || shrink_allowance == 0 ==> res@ == points@,
        res@.len() == points@.len(),
        forall|i: int| 0 <= i < res@.len() ==> (#[trigger] res@[i])@.len() == points@[i]@.len(),
        nozzle_size != 0 && shrink_allowance != 0 ==> forall|i: int, j: int|
            0 <= i < res@.len() && 0 <= j < res@[i]@.len() ==> (#[trigger] res@[i]@[j])
                == adjusted_point(points@[i]@[j], center, tdiv(nozzle_size as int, 2),
                shrink_allowance as int),
{
    if nozzle_size == 0 || shrink_allowance == 0 {
        return points;
    }
    let nozzle_half: i64 = ((nozzle_size as u64) / 2) as i64;
    proof {
        assert(nozzle_half as int == tdiv(nozzle_size as int, 2));
    }
    let mut adjusted_points: Vec<Vec<RawPoint>> = Vec::new();
    let mut i: usize = 0;
    while i < points.len()
        invariant
            stack_in_range(rows(points@)),
            center.in_range(),
            0 <= nozzle_half <= MAX_COORD,
            1 <= shrink_allowance <= 100,
            i <= points@.len(),
            adjusted_points@.len() == i,
            forall|k: int|
                0 <= k < i ==> (#[trigger] adjusted_points@[k])@.len() == points@[k]@.len(),
            forall|k: int, j: int|
                0 <= k < i && 0 <= j < points@[k]@.len() ==> (#[trigger] adjusted_points@[k]@[j])
                    == adjusted_point(points@[k]@[j], center, nozzle_half as int,
                    shrink_allowance as int),
        decreases points@.len() - i,
    {
        let layer_len: usize = points[i].len();
        let mut adjusted_layer: Vec<RawPoint> = Vec::new();
        let mut j: usize = 0;
        while j < layer_len
            invariant
                stack_in_range(rows(points@)),
                center.in_range(),
                0 <= nozzle_half <= MAX_COORD,
                1 <= shrink_allowance <= 100,
                i < points@.len(),
                layer_len == points@[i as int]@.len(),
                j <= layer_len,
                adjusted_layer@.len() == j,
                forall|q: int|
                    0 <= q < j ==> (#[trigger] adjusted_layer@[q]) == adjusted_point(points@[
                        i as int]@[q], center, nozzle_half as int, shrink_allowance as int),
            decreases layer_len - j,
        {
            let pt: RawPoint = points[i][j];
            proof {
                assert(rows(points@)[i as int][j as int].in_range());
            }
            adjusted_layer.push(adjust_point(pt, center, nozzle_half, shrink_allowance));
            j = j + 1;
        }
        adjusted_points.push(adjusted_layer);
        i = i + 1;
    }
    adjusted_points
}

/// The compensation step as driven by the configuration providers: both
/// lookups must have delivered a value, and the delivered values must be in
/// range, before any geometry is touched.  A missing value is a provider
/// failure; an out-of-range value is a configuration error.
pub fn adjust_with_providers(points: Vec<Vec<RawPoint>>, center: RawPoint, profile: Option<
    MaterialProfile>, nozzle_size: Option<i64>) -> (res: Result<Vec<Vec<RawPoint>>, SliceError>)
    requires
        stack_in_range(rows(points@)),
        center.in_range(),
    ensures
        profile is None || nozzle_size is None ==> res == Result::<Vec<Vec<RawPoint>>,
            SliceError>::Err(SliceError::ProviderFailure),
        profile is Some && nozzle_size is Some && !(0 <= nozzle_size->0 <= MAX_COORD && 0
            <= profile->0.shrink_factor <= 100) ==> res == Result::<Vec<Vec<RawPoint>>,
            SliceError>::Err(SliceError::InvalidConfiguration),
        profile is Some && nozzle_size is Some && 0 <= nozzle_size->0 <= MAX_COORD && 0
            <= profile->0.shrink_factor <= 100 ==> res is Ok && res->Ok_0@.len() == points@.len()
            && (forall|i: int|
            0 <= i < points@.len() ==> (#[trigger] res->Ok_0@[i])@.len() == points@[i]@.len()) && (
        nozzle_size->0 == 0 || profile->0.shrink_factor == 0 ==> res->Ok_0@ == points@) && (
        nozzle_size->0 != 0 && profile->0.shrink_factor != 0 ==> forall|i: int, j: int|
            0 <= i < points@.len() && 0 <= j < points@[i]@.len() ==> (#[trigger] res->Ok_0@[i]@[j])
                == adjusted_point(points@[i]@[j], center, tdiv(nozzle_size->0 as int, 2),
                profile->0.shrink_factor as int)),
{
    match (profile, nozzle_size) {
        (Some(prof), Some(nozzle)) => {
            if 0 <= nozzle && nozzle <= MAX_COORD && 0 <= prof.shrink_factor
                && prof.shrink_factor <= 100 {
                Ok(adjust_for_shrink_and_offset(points, center, nozzle, prof.shrink_factor))
            } else {
                Err(SliceError::InvalidConfiguration)
            }
        },
        _ => Err(SliceError::ProviderFailure),
    }
}

} // verus!
