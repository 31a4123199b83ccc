//! The ray-scan slicing engine: groups a flat vertex stream into triangles
//! and sweeps a rotating, climbing ray around the center axis against each
//! triangle, collecting the intersection points into height buckets ordered
//! by angular sample index.
//!
//! The whole scan is exact integer arithmetic, so the result is a function
//! of the inputs alone and the contract of `slicer` pins it down: the
//! recorded hits are rebuilt here as spec functions (`tri_hits_upto`,
//! `mesh_hits_upto`), and each returned layer holds exactly the first hit
//! recorded for each of its angular slots, in increasing angular order.
//! An angular slot no triangle hit is absent from its layer — the engine
//! synthesizes no points — so a bucket short of `segment_count` hits
//! yields a shorter layer, explicit in the contract.

use crate::geometry::{dir_norm_ok, mt_result, rotated_dir, valid_rotation, RayCaster, Triangle,
    Vec3, DIR_UNIT};
use crate::math::{lemma_le_div_iff, lemma_sq_le};
use crate::model::SliceError;
use vstd::prelude::*;

verus! {

/// Largest coordinate magnitude accepted in a vertex stream or center.
pub const INPUT_LIMIT: i64 = 1_000_000;

/// The axis along which height is measured while scanning.
#[derive(Clone, Copy, Debug, PartialEq, Eq, Structural)]
pub enum Axis {
    X,
    Y,
    Z,
}

impl Axis {
    /// Validates an axis selector character; anything but `x`, `y` or `z`
    /// is rejected.
    pub fn from_selector(selector: char) -> (res: Result<Axis, SliceError>)
        ensures
            selector == 'x' ==> res == Result::<Axis, SliceError>::Ok(Axis::X),
            selector == 'y' ==> res == Result::<Axis, SliceError>::Ok(Axis::Y),
            selector == 'z' ==> res == Result::<Axis, SliceError>::Ok(Axis::Z),
            selector != 'x' && selector != 'y' && selector != 'z' ==> res == Result::<Axis,
                SliceError>::Err(SliceError::InvalidAxis),
    {
        if selector == 'x' {
            Ok(Axis::X)
        } else if selector == 'y' {
            Ok(Axis::Y)
        } else if selector == 'z' {
            Ok(Axis::Z)
        } else {
            Err(SliceError::InvalidAxis)
        }
    }
}

/// The coordinate permutation that brings the chosen vertical axis onto
/// the scan's height axis; it is its own inverse.
pub open spec fn scan_frame(v: Vec3, axis: Axis) -> Vec3 {
    match axis {
        Axis::X => Vec3 { x: v.y, y: v.x, z: v.z },
        Axis::Y => v,
        Axis::Z => Vec3 { x: v.x, y: v.z, z: v.y },
    }
}

/// Swaps coordinates into (or back out of) the scan frame.
pub fn to_scan_frame(v: Vec3, axis: Axis) -> (r: Vec3)
    ensures
        r == scan_frame(v, axis),
{
    match axis {
        Axis::X => Vec3 { x: v.y, y: v.x, z: v.z },
        Axis::Y => v,
        Axis::Z => Vec3 { x: v.x, y: v.z, z: v.y },
    }
}

/// The explicit scan configuration: angular resolution, layer geometry,
/// the height range of interest, the extra height offset added to recorded
/// points, the fixed-point rotation step, and the vertical axis.
#[derive(Clone, Copy, Debug, PartialEq, Eq, Structural)]
pub struct SliceConfig {
    pub segment_count: u32,
    pub layer_height: i64,
    pub height_min: i64,
    pub height_max: i64,
    pub height_offset: i64,
    pub rot_cos: i64,
    pub rot_sin: i64,
    pub vertical_axis: Axis,
}

impl SliceConfig {
    /// A usable configuration: at least one angular segment, a layer height
    /// that gives a whole positive height step per segment, a nonempty
    /// height range, and a rotation coefficient pair of norm at most one.
    pub open spec fn wf(self) -> bool {
        1 <= self.segment_count <= 100_000 && self.segment_count <= self.layer_height
            <= 1_000_000 && -1_000_000 <= self.height_min && self.height_min < self.height_max
            && self.height_max <= 1_000_000 && 0 <= self.height_offset <= 1_000_000
            && valid_rotation(self.rot_cos as int, self.rot_sin as int)
    }

    /// The height the ray climbs per angular step.
    pub open spec fn height_step(self) -> int {
        self.layer_height as int / self.segment_count as int
    }

    /// The number of height buckets covering the configured range.
    pub open spec fn layer_count(self) -> int {
        (self.height_max - self.height_min + self.layer_height - 1) / self.layer_height as int
    }
}

/// The triangle formed by the `t`-th group of nine values of the stream.
pub open spec fn triangle_at(s: Seq<i64>, t: int) -> Triangle {
    Triangle {
        p1: Vec3 { x: s[9 * t], y: s[9 * t + 1], z: s[9 * t + 2] },
        p2: Vec3 { x: s[9 * t + 3], y: s[9 * t + 4], z: s[9 * t + 5] },
        p3: Vec3 { x: s[9 * t + 6], y: s[9 * t + 7], z: s[9 * t + 8] },
    }
}

/// Groups every nine consecutive values of the flat vertex stream into one
/// triangle; a stream holding a fractional triangle is a structural error.
pub fn triangulate(input: &Vec<i64>) -> (res: Result<Vec<Triangle>, SliceError>)
    ensures
        input@.len() % 9 != 0 <==> res == Result::<Vec<Triangle>, SliceError>::Err(
            SliceError::MalformedVertexStream),
        input@.len() % 9 == 0 <==> res is Ok,
        res is Ok ==> res->Ok_0@.len() == input@.len() / 9 && forall|t: int|
            0 <= t < res->Ok_0@.len() ==> #[trigger] res->Ok_0@[t] == triangle_at(input@, t),
{
    if input.len() % 9 != 0 {
        return Err(SliceError::MalformedVertexStream);
    }
    let mut triangled: Vec<Triangle> = Vec::new();
    let mut i: usize = 0;
    while input.len() - i >= 9
        invariant
            input@.len() % 9 == 0,
            i % 9 == 0,
            i <= input@.len(),
            i as int == 9 * (triangled@.len() as int),
            forall|q: int|
                0 <= q < triangled@.len() ==> #[trigger] triangled@[q] == triangle_at(input@, q),
        decreases input@.len() - i,
    {
        let triangle = Triangle::new(Vec3::new(input[i], input[i + 1], input[i + 2]), Vec3::new(
            input[i + 3], input[i + 4], input[i + 5]), Vec3::new(input[i + 6], input[i + 7],
            input[i + 8]));
        triangled.push(triangle);
        proof {
            assert(9 * (triangled@.len() as int) == 9 * (triangled@.len() - 1) + 9)
                by (nonlinear_arith);
        }
        i = i + 9;
    }
    proof {
        let n = input@.len() as int;
        let t = triangled@.len() as int;
        assert(i as int == n) by (nonlinear_arith)
            requires
                n % 9 == 0,
                (i as int) % 9 == 0,
                i as int <= n < i as int + 9,
        ;
        assert(n == t * 9 + 0) by (nonlinear_arith)
            requires
                n == 9 * t,
        ;
        vstd::arithmetic::div_mod::lemma_fundamental_div_mod_converse_div(n, 9, t, 0);
    }
    Ok(triangled)
}

/// The smallest height among the triangle's vertices.
pub open spec fn tri_min_y(t: Triangle) -> int {
    let a = if t.p1.y < t.p2.y { t.p1.y } else { t.p2.y };
    if a < t.p3.y { a as int } else { t.p3.y as int }
}

/// The largest height among the triangle's vertices.
pub open spec fn tri_max_y(t: Triangle) -> int {
    let a = if t.p1.y > t.p2.y { t.p1.y } else { t.p2.y };
    if a > t.p3.y { a as int } else { t.p3.y as int }
}

/// The height extent of a triangle along the scan's vertical axis.
pub fn find_height(positions: &Triangle) -> (r: (i64, i64))
    ensures
        r.0 == tri_min_y(*positions),
        r.1 == tri_max_y(*positions),
{
    let lo1: i64 = if positions.p1.y < positions.p2.y { positions.p1.y } else { positions.p2.y };
    let min_height: i64 = if lo1 < positions.p3.y { lo1 } else { positions.p3.y };
    let hi1: i64 = if positions.p1.y > positions.p2.y { positions.p1.y } else { positions.p2.y };
    let max_height: i64 = if hi1 > positions.p3.y { hi1 } else { positions.p3.y };
    (min_height, max_height)
}

/// The scan direction before any rotation: horizontal, one unit long in
/// `DIR_UNIT` scale, pointing along negative z.
pub open spec fn initial_direction() -> Vec3 {
    Vec3 { x: 0i64, y: 0i64, z: -65536i64 }
}

/// The ray direction after `k` rotation steps of the configured
/// coefficient pair.
pub open spec fn dir_after(cfg: SliceConfig, k: nat) -> Vec3
    decreases k,
{
    if k == 0 {
        initial_direction()
    } else {
        rotated_dir(dir_after(cfg, (k - 1) as nat), cfg.rot_cos as int, cfg.rot_sin as int)
    }
}

/// The ray origin at step `k`: on the center axis, `k` height steps above
/// the starting height.
pub open spec fn scan_origin(cx: i64, cz: i64, start_y: int, hstep: int, k: nat) -> Vec3 {
    Vec3 { x: cx, y: (start_y + k * hstep) as i64, z: cz }
}

/// The intersection test's outcome at step `k` of scanning one triangle.
pub open spec fn step_hit(tri: Triangle, cfg: SliceConfig, cx: i64, cz: i64, k: nat) -> Option<(
    Vec3, i64)> {
    mt_result(tri, scan_origin(cx, cz, tri_min_y(tri), cfg.height_step(), k), dir_after(cfg, k))
}

/// What step `k` records: the hit's bucket, its angular sample index, and
/// the point with the height offset applied.  A miss, a hit outside the
/// configured height range, and a hit past the last bucket record nothing.
pub open spec fn hit_record(tri: Triangle, cfg: SliceConfig, cx: i64, cz: i64, k: nat) -> Option<(
    int, int, Vec3)> {
    match step_hit(tri, cfg, cx, cz, k) {
        Option::None => Option::None,
        Option::Some(hit) => {
            let y2 = hit.0.y + cfg.height_offset;
            if cfg.height_min <= y2 && y2 < cfg.height_max {
                let b = (y2 - cfg.height_min) / (cfg.layer_height as int);
                if b < cfg.layer_count() {
                    Option::Some(
                        (b, (k as int) % (cfg.segment_count as int), Vec3 {
                            x: hit.0.x,
                            y: y2 as i64,
                            z: hit.0.z,
                        }),
                    )
                } else {
                    Option::None
                }
            } else {
                Option::None
            }
        },
    }
}

/// How many steps the scan of one triangle takes: the ray starts at the
/// triangle's lowest height and stops once it passes the triangle's
/// highest height or the configured maximum.
pub open spec fn tri_steps(tri: Triangle, cfg: SliceConfig) -> nat {
    let start = tri_min_y(tri);
    let stop = if tri_max_y(tri) < cfg.height_max { tri_max_y(tri) } else {
        cfg.height_max as int
    };
    if stop < start {
        0
    } else {
        ((stop - start) / cfg.height_step() + 1) as nat
    }
}

/// All records of the first `k` steps of scanning one triangle, in step
/// order.
pub open spec fn tri_hits_upto(tri: Triangle, cfg: SliceConfig, cx: i64, cz: i64, k: nat) -> Seq<(
    int, int, Vec3)>
    decreases k,
{
    if k == 0 {
        Seq::empty()
    } else {
        let rest = tri_hits_upto(tri, cfg, cx, cz, (k - 1) as nat);
        match hit_record(tri, cfg, cx, cz, (k - 1) as nat) {
            Option::None => rest,
            Option::Some(h) => rest.push(h),
        }
    }
}

/// The `t`-th triangle of the stream, brought into the scan frame.
pub open spec fn scan_triangle_at(s: Seq<i64>, axis: Axis, t: int) -> Triangle {
    let raw = triangle_at(s, t);
    Triangle {
        p1: scan_frame(raw.p1, axis),
        p2: scan_frame(raw.p2, axis),
        p3: scan_frame(raw.p3, axis),
    }
}

/// All records of scanning the first `t` triangles of the stream, in
/// stream order.
pub open spec fn mesh_hits_upto(s: Seq<i64>, cfg: SliceConfig, cx: i64, cz: i64, t: nat) -> Seq<(
    int, int, Vec3)>
    decreases t,
{
    if t == 0 {
        Seq::empty()
    } else {
        let tri = scan_triangle_at(s, cfg.vertical_axis, t - 1);
        mesh_hits_upto(s, cfg, cx, cz, (t - 1) as nat) + tri_hits_upto(tri, cfg, cx, cz,
            tri_steps(tri, cfg))
    }
}

/// Every record of the whole scan.
pub open spec fn all_hits(s: Seq<i64>, cfg: SliceConfig, cx: i64, cz: i64) -> Seq<(int, int, Vec3)> {
    mesh_hits_upto(s, cfg, cx, cz, (s.len() / 9) as nat)
}

/// The center point, brought into the scan frame.
pub open spec fn scan_center(center: Seq<i64>, axis: Axis) -> Vec3 {
    scan_frame(Vec3 { x: center[0], y: center[1], z: center[2] }, axis)
}

/// The first record for bucket `b` and angular index `a`, in scan order.
pub open spec fn first_hit_for(hits: Seq<(int, int, Vec3)>, b: int, a: int) -> Option<Vec3>
    decreases hits.len(),
{
    if hits.len() == 0 {
        Option::None
    } else if hits[0].0 == b && hits[0].1 == a {
        Option::Some(hits[0].2)
    } else {
        first_hit_for(hits.drop_first(), b, a)
    }
}

/// The flat coordinate triples of bucket `b`, over the first `a` angular
/// slots in increasing order; a slot with no record contributes nothing.
pub open spec fn layer_upto(hits: Seq<(int, int, Vec3)>, b: int, a: nat) -> Seq<i64>
    decreases a,
{
    if a == 0 {
        Seq::empty()
    } else {
        let rest = layer_upto(hits, b, (a - 1) as nat);
        match first_hit_for(hits, b, a - 1) {
            Option::None => rest,
            Option::Some(p) => rest + seq![p.x, p.y, p.z],
        }
    }
}

/// One recorded intersection: its height bucket, angular sample index, and
/// position (already carrying the height offset).
struct ScanHit {
    bucket: usize,
    angle: usize,
    point: Vec3,
}

/// The mathematical reading of one recorded hit.
spec fn hit_view(h: ScanHit) -> (int, int, Vec3) {
    (h.bucket as int, h.angle as int, h.point)
}

/// The mathematical reading of the recorded hit list.
spec fn hits_view(s: Seq<ScanHit>) -> Seq<(int, int, Vec3)> {
    s.map_values(|h: ScanHit| hit_view(h))
}

/// Scans one triangle, appending exactly the records `tri_hits_upto`
/// describes over the triangle's whole step count.
fn scan_triangle(triangle: &Triangle, cfg: &SliceConfig, cx: i64, cz: i64, height_step: i64,
    num_layers: usize, hits: &mut Vec<ScanHit>)
    requires
        cfg.wf(),
        triangle.in_geom_range(),
        -INPUT_LIMIT <= tri_min_y(*triangle) <= INPUT_LIMIT,
        -INPUT_LIMIT <= tri_max_y(*triangle) <= INPUT_LIMIT,
        -INPUT_LIMIT <= cx <= INPUT_LIMIT,
        -INPUT_LIMIT <= cz <= INPUT_LIMIT,
        height_step == cfg.height_step(),
        1 <= height_step <= 1_000_000,
        num_layers == cfg.layer_count(),
        forall|q: int|
            0 <= q < old(hits)@.len() ==> (#[trigger] old(hits)@[q]).bucket < num_layers && old(
            hits)@[q].angle < cfg.segment_count,
    ensures
        hits_view(final(hits)@) == hits_view(old(hits)@) + tri_hits_upto(*triangle, *cfg, cx, cz,
            tri_steps(*triangle, *cfg)),
        forall|q: int|
            0 <= q < final(hits)@.len() ==> (#[trigger] final(hits)@[q]).bucket < num_layers && final(
            hits)@[q].angle < cfg.segment_count,
{
    let height = find_height(triangle);
    let start_y: i64 = height.0;
    let stop_y: i64 = if height.1 < cfg.height_max { height.1 } else { cfg.height_max };
    let mut raycaster = RayCaster::new(Vec3::new(cx, start_y, cz), Vec3::new(0, 0, -DIR_UNIT));
    proof {
        assert(dir_norm_ok(raycaster.direction));
        assert(raycaster.direction == dir_after(*cfg, 0));
        assert(hits_view(hits@) =~= hits_view(hits@) + tri_hits_upto(*triangle, *cfg, cx, cz, 0));
        if stop_y >= start_y {
            lemma_le_div_iff(0, stop_y - start_y, height_step as int);
        }
    }
    let segments: u64 = cfg.segment_count as u64;
    let ghost ts = tri_steps(*triangle, *cfg);
    while raycaster.origin.y <= stop_y
        invariant
            cfg.wf(),
            triangle.in_geom_range(),
            dir_norm_ok(raycaster.direction),
            raycaster.direction == dir_after(*cfg, raycaster.steps as nat),
            raycaster.origin.x == cx,
            raycaster.origin.z == cz,
            raycaster.origin.y as int == start_y + (raycaster.steps as int) * (height_step as int),
            -INPUT_LIMIT <= cx <= INPUT_LIMIT,
            -INPUT_LIMIT <= cz <= INPUT_LIMIT,
            -INPUT_LIMIT <= start_y <= INPUT_LIMIT,
            -INPUT_LIMIT <= stop_y <= INPUT_LIMIT,
            start_y == tri_min_y(*triangle),
            stop_y as int == (if tri_max_y(*triangle) < cfg.height_max { tri_max_y(*triangle) } else {
                cfg.height_max as int
            }),
            height_step == cfg.height_step(),
            1 <= height_step <= 1_000_000,
            num_layers == cfg.layer_count(),
            segments == cfg.segment_count,
            ts == tri_steps(*triangle, *cfg),
            raycaster.steps as int <= ts,
            -2_000_001 <= raycaster.origin.y <= 3_000_000,
            hits_view(hits@) == hits_view(old(hits)@) + tri_hits_upto(*triangle, *cfg, cx, cz,
                raycaster.steps as nat),
            forall|q: int|
                0 <= q < hits@.len() ==> (#[trigger] hits@[q]).bucket < num_layers && hits@[
                q].angle < cfg.segment_count,
        decreases stop_y + height_step - raycaster.origin.y,
    {
        let ghost k = raycaster.steps as nat;
        proof {
            let u = DIR_UNIT as int;
            let d = raycaster.direction;
            assert(d.x * d.x <= u * u && d.z * d.z <= u * u) by (nonlinear_arith)
                requires
                    d.x * d.x + d.z * d.z <= u * u,
            ;
            lemma_sq_le(d.x as int, u);
            lemma_sq_le(d.z as int, u);
            assert(raycaster.origin == scan_origin(cx, cz, start_y as int, height_step as int, k));
            // The step count stays below the triangle's step total.
            lemma_le_div_iff(k as int, stop_y - start_y, height_step as int);
        }
        let ghost prev_hits = hits@;
        let hit = triangle.ray_intersection(&raycaster);
        if let Some(intersection) = hit {
            let pt: Vec3 = intersection.0;
            let adjusted_y: i64 = pt.y + cfg.height_offset;
            if adjusted_y >= cfg.height_min && adjusted_y < cfg.height_max {
                let bucket_u64: u64 = (adjusted_y - cfg.height_min) as u64 / cfg.layer_height
                    as u64;
                let bucket: usize = bucket_u64 as usize;
                let angle: usize = (raycaster.steps % segments) as usize;
                if bucket < num_layers {
                    let recorded = Vec3 { x: pt.x, y: adjusted_y, z: pt.z };
                    hits.push(ScanHit { bucket, angle, point: recorded });
                    proof {
                        let h = (bucket as int, angle as int, recorded);
                        assert(hit_record(*triangle, *cfg, cx, cz, k) == Option::Some(h));
                        assert(tri_hits_upto(*triangle, *cfg, cx, cz, k + 1) == tri_hits_upto(
                            *triangle, *cfg, cx, cz, k).push(h));
                        assert(hits_view(hits@) =~= hits_view(prev_hits).push(h));
                        assert(hits_view(hits@) =~= hits_view(old(hits)@) + tri_hits_upto(
                            *triangle, *cfg, cx, cz, k + 1));
                    }
                } else {
                    proof {
                        assert(hit_record(*triangle, *cfg, cx, cz, k) is None);
                        assert(tri_hits_upto(*triangle, *cfg, cx, cz, k + 1) == tri_hits_upto(
                            *triangle, *cfg, cx, cz, k));
                    }
                }
            } else {
                proof {
                    assert(hit_record(*triangle, *cfg, cx, cz, k) is None);
                    assert(tri_hits_upto(*triangle, *cfg, cx, cz, k + 1) == tri_hits_upto(
                        *triangle, *cfg, cx, cz, k));
                }
            }
        } else {
            proof {
                assert(hit_record(*triangle, *cfg, cx, cz, k) is None);
                assert(tri_hits_upto(*triangle, *cfg, cx, cz, k + 1) == tri_hits_upto(*triangle,
                    *cfg, cx, cz, k));
            }
        }
        proof {
            vstd::arithmetic::mul::lemma_mul_is_distributive_add_other_way(height_step as int,
                k as int, 1);
        }
        raycaster.ray_rotate(cfg.rot_cos, cfg.rot_sin, height_step);
    }
    proof {
        if stop_y >= start_y {
            let k = raycaster.steps as int;
            lemma_le_div_iff(k, stop_y - start_y, height_step as int);
            assert(k == ts);
        } else {
            assert(raycaster.steps == 0);
        }
    }
}

/// Looks up the first recorded hit for a bucket and angular index, in
/// recording order.
fn find_hit(hits: &Vec<ScanHit>, bucket: usize, angle: usize) -> (res: Option<Vec3>)
    ensures
        res == first_hit_for(hits_view(hits@), bucket as int, angle as int),
{
    let ghost hv = hits_view(hits@);
    let mut q: usize = 0;
    while q < hits.len()
        invariant
            hv == hits_view(hits@),
            q <= hits@.len(),
            forall|i: int| 0 <= i < q ==> !((#[trigger] hv[i]).0 == bucket && hv[i].1 == angle),
        decreases hits@.len() - q,
    {
        if hits[q].bucket == bucket && hits[q].angle == angle {
            proof {
                lemma_first_hit_skip(hv, bucket as int, angle as int, q as int);
                assert(hv.skip(q as int)[0] == hv[q as int]);
            }
            return Some(hits[q].point);
        }
        q = q + 1;
    }
    proof {
        lemma_first_hit_skip(hv, bucket as int, angle as int, hv.len() as int);
        assert(hv.skip(hv.len() as int).len() == 0);
    }
    None
}

/// Records before position `q` that match neither index do not change
/// which hit is found first.
proof fn lemma_first_hit_skip(hits: Seq<(int, int, Vec3)>, b: int, a: int, q: int)
    requires
        0 <= q <= hits.len(),
        forall|i: int| 0 <= i < q ==> !((#[trigger] hits[i]).0 == b && hits[i].1 == a),
    ensures
        first_hit_for(hits, b, a) == first_hit_for(hits.skip(q), b, a),
    decreases q,
{
    if q == 0 {
        assert(hits.skip(0) =~= hits);
    } else {
        lemma_first_hit_skip(hits, b, a, q - 1);
        let s = hits.skip(q - 1);
        assert(s[0] == hits[q - 1]);
        assert(s.drop_first() =~= hits.skip(q));
    }
}

/// Slices a mesh given as a flat vertex stream around the center axis.
///
/// The stream must hold whole triangles (nine values each) and the center
/// exactly three coordinates; violations are reported as structural
/// errors, checked in that order, and every other input succeeds.  On
/// success the result holds one layer per height bucket of the configured
/// range, lowest first; each layer is a flat sequence of coordinate
/// triples, at most one per angular sample, ordered by increasing angular
/// sample index, holding exactly the first hit the scan recorded for each
/// sample — `layer_upto` over `all_hits` of the stream.
pub fn slicer(positions: &Vec<i64>, center: &Vec<i64>, config: &SliceConfig) -> (res: Result<
    Vec<Vec<i64>>, SliceError>)
    requires
        config.wf(),
        forall|q: int| 0 <= q < positions@.len() ==> -INPUT_LIMIT <= #[trigger] positions@[q]
            <= INPUT_LIMIT,
        forall|q: int| 0 <= q < center@.len() ==> -INPUT_LIMIT <= #[trigger] center@[q]
            <= INPUT_LIMIT,
    ensures
        positions@.len() % 9 != 0 <==> res == Result::<Vec<Vec<i64>>, SliceError>::Err(
            SliceError::MalformedVertexStream),
        positions@.len() % 9 == 0 && center@.len() != 3 <==> res == Result::<Vec<Vec<i64>>,
            SliceError>::Err(SliceError::InvalidCenter),
        positions@.len() % 9 == 0 && center@.len() == 3 ==> res is Ok,
        res is Ok ==> res->Ok_0@.len() == config.layer_count(),
        res is Ok ==> forall|b: int|
            0 <= b < res->Ok_0@.len() ==> (#[trigger] res->Ok_0@[b])@ == layer_upto(all_hits(
                positions@, *config, scan_center(center@, config.vertical_axis).x, scan_center(
                center@, config.vertical_axis).z), b, config.segment_count as nat),
        res is Ok ==> forall|k: int|
            0 <= k < res->Ok_0@.len() ==> (#[trigger] res->Ok_0@[k])@.len() % 3 == 0 && res->Ok_0@[
            k]@.len() <= 3 * config.segment_count,
{
    let triangled: Vec<Triangle> = match triangulate(positions) {
        Ok(t) => t,
        Err(e) => {
            return Err(e);
        },
    };
    if center.len() != 3 {
        return Err(SliceError::InvalidCenter);
    }
    let axis = config.vertical_axis;
    let center_point = to_scan_frame(Vec3::new(center[0], center[1], center[2]), axis);
    let cx: i64 = center_point.x;
    let cz: i64 = center_point.z;
    proof {
        assert(center_point == scan_center(center@, axis));
    }
    let height_step: i64 = ((config.layer_height as u64) / (config.segment_count as u64)) as i64;
    proof {
        vstd::arithmetic::div_mod::lemma_div_is_ordered(config.segment_count as int,
            config.layer_height as int, config.segment_count as int);
        vstd::arithmetic::div_mod::lemma_div_by_self(config.segment_count as int);
    }
    let span: i64 = config.height_max - config.height_min;
    let num_layers_u64: u64 = ((span + config.layer_height - 1) as u64) / (config.layer_height
        as u64);
    let num_layers: usize = num_layers_u64 as usize;
    proof {
        assert(num_layers == config.layer_count());
    }
    let mut hits: Vec<ScanHit> = Vec::new();
    let mut t: usize = 0;
    proof {
        assert(hits_view(hits@) =~= mesh_hits_upto(positions@, *config, cx, cz, 0));
    }
    while t < triangled.len()
        invariant
            config.wf(),
            forall|q: int| 0 <= q < positions@.len() ==> -INPUT_LIMIT <= #[trigger] positions@[q]
                <= INPUT_LIMIT,
            positions@.len() % 9 == 0,
            triangled@.len() == positions@.len() / 9,
            forall|q: int|
                0 <= q < triangled@.len() ==> #[trigger] triangled@[q] == triangle_at(positions@,
                q),
            -INPUT_LIMIT <= cx <= INPUT_LIMIT,
            -INPUT_LIMIT <= cz <= INPUT_LIMIT,
            axis == config.vertical_axis,
            height_step == config.height_step(),
            1 <= height_step <= 1_000_000,
            num_layers == config.layer_count(),
            t <= triangled@.len(),
            hits_view(hits@) == mesh_hits_upto(positions@, *config, cx, cz, t as nat),
            forall|q: int|
                0 <= q < hits@.len() ==> (#[trigger] hits@[q]).bucket < num_layers && hits@[
                q].angle < config.segment_count,
        decreases triangled@.len() - t,
    {
        let raw = triangled[t];
        let triangle = Triangle {
            p1: to_scan_frame(raw.p1, axis),
            p2: to_scan_frame(raw.p2, axis),
            p3: to_scan_frame(raw.p3, axis),
        };
        proof {
            assert(triangle == scan_triangle_at(positions@, axis, t as int));
        }
        let ghost before = hits@;
        scan_triangle(&triangle, config, cx, cz, height_step, num_layers, &mut hits);
        proof {
            assert(hits_view(before) == mesh_hits_upto(positions@, *config, cx, cz, t as nat));
            assert(hits_view(hits@) == hits_view(before) + tri_hits_upto(triangle, *config, cx,
                cz, tri_steps(triangle, *config)));
            assert(mesh_hits_upto(positions@, *config, cx, cz, (t + 1) as nat) == mesh_hits_upto(
                positions@, *config, cx, cz, t as nat) + tri_hits_upto(scan_triangle_at(
                positions@, config.vertical_axis, t as int), *config, cx, cz, tri_steps(
                scan_triangle_at(positions@, config.vertical_axis, t as int), *config)));
            assert(hits_view(hits@) =~= mesh_hits_upto(positions@, *config, cx, cz, (t
                + 1) as nat));
        }
        t = t + 1;
    }
    let ghost allh = all_hits(positions@, *config, cx, cz);
    proof {
        assert(hits_view(hits@) == allh);
    }
    let mut intersections: Vec<Vec<i64>> = Vec::new();
    let mut b: usize = 0;
    while b < num_layers
        invariant
            config.wf(),
            b <= num_layers,
            num_layers == config.layer_count(),
            allh == hits_view(hits@),
            intersections@.len() == b,
            forall|k: int|
                0 <= k < b ==> (#[trigger] intersections@[k])@ == layer_upto(allh, k,
                    config.segment_count as nat),
            forall|k: int|
                0 <= k < b ==> (#[trigger] intersections@[k])@.len() % 3 == 0 && intersections@[
                k]@.len() <= 3 * config.segment_count,
        decreases num_layers - b,
    {
        let segment_count: usize = config.segment_count as usize;
        let mut layer: Vec<i64> = Vec::new();
        let mut a: usize = 0;
        while a < segment_count
            invariant
                allh == hits_view(hits@),
                segment_count == config.segment_count,
                b < num_layers,
                a <= segment_count,
                layer@ == layer_upto(allh, b as int, a as nat),
                layer@.len() % 3 == 0,
                layer@.len() <= 3 * a,
            decreases segment_count - a,
        {
            if let Some(p) = find_hit(&hits, b, a) {
                layer.push(p.x);
                layer.push(p.y);
                layer.push(p.z);
                proof {
                    assert(layer@ =~= layer_upto(allh, b as int, (a + 1) as nat));
                }
            } else {
                proof {
                    assert(layer@ =~= layer_upto(allh, b as int, (a + 1) as nat));
                }
            }
            a = a + 1;
        }
        intersections.push(layer);
        b = b + 1;
    }
    Ok(intersections)
}

} // verus!
