//! Vector and triangle primitives of the slicing engine: fixed-point
//! vectors, the ray-triangle intersection test, and the rotating ray used by
//! the radial scan.
//!
//! All quantities are integers.  A direction vector is carried in units of
//! `DIR_UNIT`, so a unit-length direction has squared norm at most
//! `DIR_UNIT * DIR_UNIT`; rotation coefficients (a cosine/sine pair) use the
//! same scale.  The intersection test is the Möller-Trumbore algorithm
//! carried out in exact 128-bit arithmetic: instead of dividing by the
//! determinant, every barycentric test multiplies through by its magnitude,
//! so acceptance and rejection are exact.  The determinant's magnitude is
//! used rather than its sign, so a hit counts from either winding direction.

use crate::math::{abs_i, lemma_sq_le, lemma_tdiv_magnitude, mul_wide, tdiv, tdiv_wide};
use vstd::prelude::*;

verus! {

/// Largest coordinate magnitude of the geometry a scan works on.
pub const GEOM_LIMIT: i64 = 1_000_000_000;

/// Largest component magnitude accepted for a ray direction.
pub const DIR_LIMIT: i64 = 1_000_000;

/// The fixed-point scale of direction vectors and rotation coefficients:
/// this value stands for one.
pub const DIR_UNIT: i64 = 65536;

/// Largest ray parameter (in `DIR_UNIT` scale) a hit may report.
pub const MAX_RAY_PARAM: i64 = 2_000_000_000;

/// A three-component vector in fixed-point integer coordinates.
#[derive(Clone, Copy, Debug, PartialEq, Eq, Structural)]
pub struct Vec3 {
    pub x: i64,
    pub y: i64,
    pub z: i64,
}

impl Vec3 {
    pub open spec fn in_geom_range(self) -> bool {
        -GEOM_LIMIT <= self.x <= GEOM_LIMIT && -GEOM_LIMIT <= self.y <= GEOM_LIMIT
            && -GEOM_LIMIT <= self.z <= GEOM_LIMIT
    }

    pub open spec fn in_dir_range(self) -> bool {
        -DIR_LIMIT <= self.x <= DIR_LIMIT && -DIR_LIMIT <= self.y <= DIR_LIMIT && -DIR_LIMIT
            <= self.z <= DIR_LIMIT
    }

    pub fn new(x: i64, y: i64, z: i64) -> (v: Vec3)
        ensures
            v == (Vec3 { x, y, z }),
    {
        Vec3 { x, y, z }
    }

    /// Scales every component by the given factor, exactly.
    pub fn scale(&self, factor: i64) -> (v: Vec3)
        requires
            self.in_geom_range(),
            -GEOM_LIMIT <= factor <= GEOM_LIMIT,
        ensures
            v.x == self.x * factor,
            v.y == self.y * factor,
            v.z == self.z * factor,
    {
        proof {
            crate::math::lemma_abs_mul_bound(self.x as int, factor as int, GEOM_LIMIT as int,
                GEOM_LIMIT as int);
            crate::math::lemma_abs_mul_bound(self.y as int, factor as int, GEOM_LIMIT as int,
                GEOM_LIMIT as int);
            crate::math::lemma_abs_mul_bound(self.z as int, factor as int, GEOM_LIMIT as int,
                GEOM_LIMIT as int);
        }
        Vec3 { x: self.x * factor, y: self.y * factor, z: self.z * factor }
    }
}

/// The components of a vector as unbounded integers.
pub open spec fn v3(v: Vec3) -> (int, int, int) {
    (v.x as int, v.y as int, v.z as int)
}

/// Componentwise difference.
pub open spec fn subv(a: (int, int, int), b: (int, int, int)) -> (int, int, int) {
    (a.0 - b.0, a.1 - b.1, a.2 - b.2)
}

/// The cross product.
pub open spec fn crossv(a: (int, int, int), b: (int, int, int)) -> (int, int, int) {
    (a.1 * b.2 - a.2 * b.1, a.2 * b.0 - a.0 * b.2, a.0 * b.1 - a.1 * b.0)
}

/// The dot product.
pub open spec fn dotv(a: (int, int, int), b: (int, int, int)) -> int {
    a.0 * b.0 + a.1 * b.1 + a.2 * b.2
}

/// A triangle given by its three vertices.  The intersection test works for
/// either orientation of the vertex winding.
#[derive(Clone, Copy, Debug, PartialEq, Eq, Structural)]
pub struct Triangle {
    pub p1: Vec3,
    pub p2: Vec3,
    pub p3: Vec3,
}

/// What `ray_intersection` returns: the Möller-Trumbore acceptance tests,
/// multiplied through by the magnitude `d` of the determinant so that they
/// are exact, followed by the rounded intersection point.
///
/// With `e1 = p2 - p1`, `e2 = p3 - p1`, `h = dir x e2`, `s = origin - p1`
/// and `q = s x e1`, a hit requires a nonzero determinant `det = e1 . h`,
/// barycentric coordinates within the triangle (`0 <= u`, `0 <= v`,
/// `u + v <= 1`, each scaled by `d`), and an intersection strictly in front
/// of the ray origin (`t > 0`, that is `c >= 1`).  The reported point is
/// `origin + dir * c / d`, each component rounded toward zero, and the
/// reported parameter is `c / d` in `DIR_UNIT` scale.  A hit whose point
/// falls outside the coordinate range, or whose parameter overflows, is
/// treated as a miss.
/// The first edge of the triangle.
pub open spec fn mt_e1(tri: Triangle) -> (int, int, int) {
    subv(v3(tri.p2), v3(tri.p1))
}

/// The second edge of the triangle.
pub open spec fn mt_e2(tri: Triangle) -> (int, int, int) {
    subv(v3(tri.p3), v3(tri.p1))
}

/// The cross product of the ray direction with the second edge.
pub open spec fn mt_h(tri: Triangle, dir: Vec3) -> (int, int, int) {
    crossv(v3(dir), mt_e2(tri))
}

/// The Möller-Trumbore determinant.
pub open spec fn mt_det(tri: Triangle, dir: Vec3) -> int {
    dotv(mt_e1(tri), mt_h(tri, dir))
}

/// The vector from the first vertex to the ray origin.
pub open spec fn mt_s(tri: Triangle, origin: Vec3) -> (int, int, int) {
    subv(v3(origin), v3(tri.p1))
}

/// The cross product of that vector with the first edge.
pub open spec fn mt_q(tri: Triangle, origin: Vec3) -> (int, int, int) {
    crossv(mt_s(tri, origin), mt_e1(tri))
}

/// The numerator of the barycentric coordinate `u` (times the determinant).
pub open spec fn mt_unum(tri: Triangle, origin: Vec3, dir: Vec3) -> int {
    dotv(mt_s(tri, origin), mt_h(tri, dir))
}

/// The numerator of the barycentric coordinate `v` (times the determinant).
pub open spec fn mt_vnum(tri: Triangle, origin: Vec3, dir: Vec3) -> int {
    dotv(v3(dir), mt_q(tri, origin))
}

/// The numerator of the ray parameter `t` (times the determinant).
pub open spec fn mt_tnum(tri: Triangle, origin: Vec3) -> int {
    dotv(mt_e2(tri), mt_q(tri, origin))
}

pub open spec fn mt_result(tri: Triangle, origin: Vec3, dir: Vec3) -> Option<(Vec3, i64)> {
    let det = mt_det(tri, dir);
    if det == 0 {
        None
    } else {
        let d = abs_i(det);
        let un = mt_unum(tri, origin, dir);
        let vn = mt_vnum(tri, origin, dir);
        let tn = mt_tnum(tri, origin);
        let a = if det > 0 { un } else { -un };
        let b = if det > 0 { vn } else { -vn };
        let c = if det > 0 { tn } else { -tn };
        if 0 <= a && a <= d && 0 <= b && a + b <= d && c >= 1 {
            let px = origin.x + tdiv(dir.x * c, d);
            let py = origin.y + tdiv(dir.y * c, d);
            let pz = origin.z + tdiv(dir.z * c, d);
            let tt = tdiv(c * (DIR_UNIT as int), d);
            if -GEOM_LIMIT <= px <= GEOM_LIMIT && -GEOM_LIMIT <= py <= GEOM_LIMIT && -GEOM_LIMIT
                <= pz <= GEOM_LIMIT && tt <= MAX_RAY_PARAM {
                Some((Vec3 { x: px as i64, y: py as i64, z: pz as i64 }, tt as i64))
            } else {
                None
            }
        } else {
            None
        }
    }
}

impl Triangle {
    pub open spec fn in_geom_range(self) -> bool {
        self.p1.in_geom_range() && self.p2.in_geom_range() && self.p3.in_geom_range()
    }

    pub fn new(p1: Vec3, p2: Vec3, p3: Vec3) -> (t: Triangle)
        ensures
            t == (Triangle { p1, p2, p3 }),
    {
        Triangle { p1, p2, p3 }
    }

    /// The Möller-Trumbore ray-triangle intersection test, exact over the
    /// fixed-point model: returns the rounded intersection point and the ray
    /// parameter in `DIR_UNIT` scale, exactly as `mt_result` describes.
    #[verifier::rlimit(50)]
    pub fn ray_intersection(&self, raycaster: &RayCaster) -> (res: Option<(Vec3, i64)>)
        requires
            self.in_geom_range(),
            raycaster.origin.in_geom_range(),
            raycaster.direction.in_dir_range(),
        ensures
            res == mt_result(*self, raycaster.origin, raycaster.direction),
    {
        let origin = raycaster.origin;
        let dir = raycaster.direction;
        let e1x: i128 = self.p2.x as i128 - self.p1.x as i128;
        let e1y: i128 = self.p2.y as i128 - self.p1.y as i128;
        let e1z: i128 = self.p2.z as i128 - self.p1.z as i128;
        let e2x: i128 = self.p3.x as i128 - self.p1.x as i128;
        let e2y: i128 = self.p3.y as i128 - self.p1.y as i128;
        let e2z: i128 = self.p3.z as i128 - self.p1.z as i128;
        let dx: i128 = dir.x as i128;
        let dy: i128 = dir.y as i128;
        let dz: i128 = dir.z as i128;
        // h = dir x e2; components bounded by 2 * DIR_LIMIT * (2 * GEOM_LIMIT).
        let hx: i128 = mul_wide(dy, e2z, 1_000_000, 2_000_000_000) - mul_wide(dz, e2y, 1_000_000,
            2_000_000_000);
        let hy: i128 = mul_wide(dz, e2x, 1_000_000, 2_000_000_000) - mul_wide(dx, e2z, 1_000_000,
            2_000_000_000);
        let hz: i128 = mul_wide(dx, e2y, 1_000_000, 2_000_000_000) - mul_wide(dy, e2x, 1_000_000,
            2_000_000_000);
        // det = e1 . h; bounded by 3 * (2e9 * 4e15).
        let det: i128 = mul_wide(e1x, hx, 2_000_000_000, 4_000_000_000_000_000) + mul_wide(e1y, hy,
            2_000_000_000, 4_000_000_000_000_000) + mul_wide(e1z, hz, 2_000_000_000,
            4_000_000_000_000_000);
        proof {
            assert((hx as int, hy as int, hz as int) == mt_h(*self, dir));
            assert(det as int == mt_det(*self, dir));
        }
        if det == 0 {
            return None;
        }
        let sx: i128 = origin.x as i128 - self.p1.x as i128;
        let sy: i128 = origin.y as i128 - self.p1.y as i128;
        let sz: i128 = origin.z as i128 - self.p1.z as i128;
        let unum: i128 = mul_wide(sx, hx, 2_000_000_000, 4_000_000_000_000_000) + mul_wide(sy, hy,
            2_000_000_000, 4_000_000_000_000_000) + mul_wide(sz, hz, 2_000_000_000,
            4_000_000_000_000_000);
        // q = s x e1; components bounded by 2 * (2e9 * 2e9).
        let qx: i128 = mul_wide(sy, e1z, 2_000_000_000, 2_000_000_000) - mul_wide(sz, e1y,
            2_000_000_000, 2_000_000_000);
        let qy: i128 = mul_wide(sz, e1x, 2_000_000_000, 2_000_000_000) - mul_wide(sx, e1z,
            2_000_000_000, 2_000_000_000);
        let qz: i128 = mul_wide(sx, e1y, 2_000_000_000, 2_000_000_000) - mul_wide(sy, e1x,
            2_000_000_000, 2_000_000_000);
        let vnum: i128 = mul_wide(dx, qx, 1_000_000, 8_000_000_000_000_000_000) + mul_wide(dy, qy,
            1_000_000, 8_000_000_000_000_000_000) + mul_wide(dz, qz, 1_000_000,
            8_000_000_000_000_000_000);
        let tnum: i128 = mul_wide(e2x, qx, 2_000_000_000, 8_000_000_000_000_000_000) + mul_wide(
            e2y, qy, 2_000_000_000, 8_000_000_000_000_000_000) + mul_wide(e2z, qz, 2_000_000_000,
            8_000_000_000_000_000_000);
        proof {
            assert((qx as int, qy as int, qz as int) == mt_q(*self, origin));
            assert(unum as int == mt_unum(*self, origin, dir));
            assert(vnum as int == mt_vnum(*self, origin, dir));
            assert(tnum as int == mt_tnum(*self, origin));
        }
        let d: i128 = if det > 0 { det } else { -det };
        let a: i128 = if det > 0 { unum } else { -unum };
        let b: i128 = if det > 0 { vnum } else { -vnum };
        let c: i128 = if det > 0 { tnum } else { -tnum };
        if !(0 <= a && a <= d && 0 <= b && a + b <= d && c >= 1) {
            return None;
        }
        // c is bounded by 3 * (2e9 * 8e18) = 4.8e28.
        let px: i128 = origin.x as i128 + tdiv_wide(mul_wide(dx, c, 1_000_000,
            48_000_000_000_000_000_000_000_000_000), d);
        let py: i128 = origin.y as i128 + tdiv_wide(mul_wide(dy, c, 1_000_000,
            48_000_000_000_000_000_000_000_000_000), d);
        let pz: i128 = origin.z as i128 + tdiv_wide(mul_wide(dz, c, 1_000_000,
            48_000_000_000_000_000_000_000_000_000), d);
        let tt: i128 = tdiv_wide(mul_wide(c, 65536, 48_000_000_000_000_000_000_000_000_000, 65536),
            d);
        if -1_000_000_000 <= px && px <= 1_000_000_000 && -1_000_000_000 <= py && py
            <= 1_000_000_000 && -1_000_000_000 <= pz && pz <= 1_000_000_000 && tt <= 2_000_000_000 {
            proof {
                lemma_tdiv_magnitude((c * (DIR_UNIT as int)) as int, d as int);
            }
            Some((Vec3 { x: px as i64, y: py as i64, z: pz as i64 }, tt as i64))
        } else {
            None
        }
    }
}

/// The rotating, climbing ray of the radial scan.
///
/// The direction turns in the horizontal plane by a caller-supplied
/// cosine/sine pair at each step while the origin climbs by a fixed height
/// increment; `steps` counts the rotations performed since the caster was
/// created or last reset.
#[derive(Clone, Copy, Debug, PartialEq, Eq, Structural)]
pub struct RayCaster {
    pub origin: Vec3,
    pub direction: Vec3,
    pub steps: u64,
}

/// A valid rotation coefficient pair: a fixed-point cosine/sine whose
/// squared norm does not exceed one.
pub open spec fn valid_rotation(c: int, s: int) -> bool {
    c * c + s * s <= (DIR_UNIT as int) * (DIR_UNIT as int)
}

/// A well-formed scan direction: horizontal, with squared norm at most one
/// in `DIR_UNIT` scale.
pub open spec fn dir_norm_ok(v: Vec3) -> bool {
    v.y == 0 && v.x * v.x + v.z * v.z <= (DIR_UNIT as int) * (DIR_UNIT as int)
}

/// The direction after one rotation step: the rotation matrix for the
/// supplied cosine/sine pair, applied in the horizontal plane with each
/// component rounded toward zero.
pub open spec fn rotated_dir(v: Vec3, c: int, s: int) -> Vec3 {
    let ax = v.x * c - v.z * s;
    let az = v.x * s + v.z * c;
    Vec3 {
        x: tdiv(ax, DIR_UNIT as int) as i64,
        y: v.y,
        z: tdiv(az, DIR_UNIT as int) as i64,
    }
}

/// Rounding toward zero never grows the direction: a rotation by a valid
/// coefficient pair keeps the squared norm within one.
/// The squared horizontal norm of a direction.
pub open spec fn dir_norm_sq(v: Vec3) -> int {
    v.x * v.x + v.z * v.z
}

/// The rotation matrix preserves the squared norm exactly before any
/// rounding: the two rotated products satisfy the Brahmagupta-Fibonacci
/// identity.
pub proof fn lemma_rotation_identity(x: int, z: int, c: int, s: int)
    ensures
        (x * c - z * s) * (x * c - z * s) + (x * s + z * c) * (x * s + z * c) == (x * x + z * z) * (
        c * c + s * s),
{
    crate::math::lemma_two_squares_identity(x, z, c, s);
}

pub proof fn lemma_rotation_keeps_norm(v: Vec3, c: int, s: int)
    requires
        dir_norm_ok(v),
        valid_rotation(c, s),
    ensures
        dir_norm_ok(rotated_dir(v, c, s)),
        -(DIR_UNIT as int) <= rotated_dir(v, c, s).x as int <= DIR_UNIT as int,
        -(DIR_UNIT as int) <= rotated_dir(v, c, s).z as int <= DIR_UNIT as int,
{
    let u = DIR_UNIT as int;
    let x = v.x as int;
    let z = v.z as int;
    let ax = x * c - z * s;
    let az = x * s + z * c;
    let n = x * x + z * z;
    lemma_rotation_identity(x, z, c, s);
    assert(ax * ax + az * az == n * (c * c + s * s));
    // Bound the right-hand side by one in fixed-point scale.
    assert(x * x >= 0) by (nonlinear_arith);
    assert(z * z >= 0) by (nonlinear_arith);
    assert(c * c >= 0) by (nonlinear_arith);
    assert(s * s >= 0) by (nonlinear_arith);
    vstd::arithmetic::mul::lemma_mul_upper_bound(n, u * u, c * c + s * s, u * u);
    let nx = tdiv(ax, u);
    let nz = tdiv(az, u);
    lemma_tdiv_magnitude(ax, u);
    lemma_tdiv_magnitude(az, u);
    // |u * nx| <= |ax| and |u * nz| <= |az|, so the rounded components keep
    // the squared norm bounded.
    let axm = if ax >= 0 { ax } else { -ax };
    let azm = if az >= 0 { az } else { -az };
    crate::math::lemma_sq_ordered(u * nx, axm);
    crate::math::lemma_sq_ordered(u * nz, azm);
    assert(axm * axm == ax * ax) by (nonlinear_arith)
        requires
            axm == ax || axm == -ax,
    ;
    assert(azm * azm == az * az) by (nonlinear_arith)
        requires
            azm == az || azm == -az,
    ;
    crate::math::lemma_mul_swap4(u, nx, u, nx);
    crate::math::lemma_mul_swap4(u, nz, u, nz);
    vstd::arithmetic::mul::lemma_mul_is_distributive_add(u * u, nx * nx, nz * nz);
    crate::math::lemma_mul_cancel_le(u * u, nx * nx + nz * nz, u * u);
    assert(nx * nx <= u * u && nz * nz <= u * u) by (nonlinear_arith)
        requires
            nx * nx + nz * nz <= u * u,
    ;
    lemma_sq_le(nx, u);
    lemma_sq_le(nz, u);
    assert(rotated_dir(v, c, s).x as int == nx);
    assert(rotated_dir(v, c, s).z as int == nz);
}

/// Rounding toward zero also loses little: one rotation step keeps the
/// squared norm, scaled by `DIR_UNIT` squared, within `8 * DIR_UNIT` cubed
/// of the exact rotated value `dir_norm_sq(v) * (c * c + s * s)`.  With
/// `lemma_rotation_keeps_norm` this brackets the direction's drift: each
/// step scales the squared norm by the pair's squared norm (at most one)
/// and truncation costs at most `8 * DIR_UNIT` of the scaled square — a
/// relative loss of about eight parts in `DIR_UNIT` per step.
pub proof fn lemma_rotation_norm_lower(v: Vec3, c: int, s: int)
    requires
        dir_norm_ok(v),
        valid_rotation(c, s),
    ensures
        (DIR_UNIT as int) * (DIR_UNIT as int) * dir_norm_sq(rotated_dir(v, c, s)) >= dir_norm_sq(v)
            * (c * c + s * s) - 8 * ((DIR_UNIT as int) * (DIR_UNIT as int) * (DIR_UNIT as int)),
{
    let u = DIR_UNIT as int;
    let x = v.x as int;
    let z = v.z as int;
    let ax = x * c - z * s;
    let az = x * s + z * c;
    lemma_rotation_identity(x, z, c, s);
    assert(c * c <= u * u && s * s <= u * u) by (nonlinear_arith)
        requires
            c * c + s * s <= u * u,
    ;
    lemma_sq_le(c, u);
    lemma_sq_le(s, u);
    assert(x * x <= u * u && z * z <= u * u) by (nonlinear_arith)
        requires
            x * x + z * z <= u * u,
    ;
    lemma_sq_le(x, u);
    lemma_sq_le(z, u);
    crate::math::lemma_abs_mul_bound(x, c, u, u);
    crate::math::lemma_abs_mul_bound(z, s, u, u);
    crate::math::lemma_abs_mul_bound(x, s, u, u);
    crate::math::lemma_abs_mul_bound(z, c, u, u);
    let nx = tdiv(ax, u);
    let nz = tdiv(az, u);
    let rx = ax - u * nx;
    let rz = az - u * nz;
    crate::math::lemma_tdiv_remainder(ax, u);
    crate::math::lemma_tdiv_remainder(az, u);
    crate::math::lemma_sq_sub(ax, rx);
    crate::math::lemma_sq_sub(az, rz);
    crate::math::lemma_abs_mul_bound(ax, rx, 2 * (u * u), u - 1);
    crate::math::lemma_abs_mul_bound(az, rz, 2 * (u * u), u - 1);
    assert(rx * rx >= 0) by (nonlinear_arith);
    assert(rz * rz >= 0) by (nonlinear_arith);
    crate::math::lemma_mul_swap4(u, nx, u, nx);
    crate::math::lemma_mul_swap4(u, nz, u, nz);
    assert(2 * (2 * (u * u) * (u - 1)) <= 4 * ((u * u) * u)) by (nonlinear_arith)
        requires
            u >= 1,
    ;
    assert((u * u) * (nx * nx) >= ax * ax - 4 * ((u * u) * u));
    assert((u * u) * (nz * nz) >= az * az - 4 * ((u * u) * u));
    vstd::arithmetic::mul::lemma_mul_is_distributive_add(u * u, nx * nx, nz * nz);
    crate::math::lemma_tdiv_bound(ax, u, 2 * u);
    crate::math::lemma_tdiv_bound(az, u, 2 * u);
    assert(rotated_dir(v, c, s).x as int == nx);
    assert(rotated_dir(v, c, s).z as int == nz);
    assert(dir_norm_sq(rotated_dir(v, c, s)) == nx * nx + nz * nz);
}

impl RayCaster {
    pub fn new(origin: Vec3, direction: Vec3) -> (rc: RayCaster)
        ensures
            rc == (RayCaster { origin, direction, steps: 0u64 }),
    {
        RayCaster { origin, direction, steps: 0 }
    }

    /// One scan step: turns the direction by the supplied cosine/sine pair
    /// and raises the origin by the height increment.
    pub fn ray_rotate(&mut self, cos_step: i64, sin_step: i64, height_step: i64)
        requires
            dir_norm_ok(old(self).direction),
            valid_rotation(cos_step as int, sin_step as int),
            -4_000_000_000 <= old(self).origin.y <= 4_000_000_000,
            -4_000_000_000 <= height_step <= 4_000_000_000,
            old(self).steps < 0x1000_0000_0000_0000,
        ensures
            final(self).direction == rotated_dir(old(self).direction, cos_step as int,
                sin_step as int),
            dir_norm_ok(final(self).direction),
            final(self).origin.x == old(self).origin.x,
            final(self).origin.y == old(self).origin.y + height_step,
            final(self).origin.z == old(self).origin.z,
            final(self).steps == old(self).steps + 1,
    {
        proof {
            let u = DIR_UNIT as int;
            assert(cos_step * cos_step <= u * u && sin_step * sin_step <= u * u)
                by (nonlinear_arith)
                requires
                    cos_step * cos_step + sin_step * sin_step <= u * u,
            ;
            lemma_sq_le(cos_step as int, u);
            lemma_sq_le(sin_step as int, u);
            let v = old(self).direction;
            assert(v.x * v.x <= u * u && v.z * v.z <= u * u) by (nonlinear_arith)
                requires
                    v.x * v.x + v.z * v.z <= u * u,
            ;
            lemma_sq_le(v.x as int, u);
            lemma_sq_le(v.z as int, u);
            lemma_rotation_keeps_norm(v, cos_step as int, sin_step as int);
        }
        let dx: i128 = self.direction.x as i128;
        let dz: i128 = self.direction.z as i128;
        let ax: i128 = mul_wide(dx, cos_step as i128, 65536, 65536) - mul_wide(dz,
            sin_step as i128, 65536, 65536);
        let az: i128 = mul_wide(dx, sin_step as i128, 65536, 65536) + mul_wide(dz,
            cos_step as i128, 65536, 65536);
        let nx: i128 = tdiv_wide(ax, 65536);
        let nz: i128 = tdiv_wide(az, 65536);
        self.direction = Vec3 { x: nx as i64, y: self.direction.y, z: nz as i64 };
        self.origin = Vec3 { x: self.origin.x, y: self.origin.y + height_step, z: self.origin.z };
        self.steps = self.steps + 1;
    }

    /// Returns the caster to a fresh origin and direction, clearing the
    /// accumulated step count.
    pub fn reset_raycaster(&mut self, origin: Vec3, direction: Vec3)
        ensures
            *final(self) == (RayCaster { origin, direction, steps: 0u64 }),
    {
        self.origin = origin;
        self.direction = direction;
        self.steps = 0;
    }
}

} // verus!
