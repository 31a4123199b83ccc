use radial_slicer::adjust_for_shrink_and_offset::{adjust_for_shrink_and_offset,
    adjust_with_providers, MaterialProfile};
use radial_slicer::blend_merge::{blend_merge, get_point_at_distance};
use radial_slicer::calculate_print_time::{calculate_print_time, dec_string};
use radial_slicer::geometry::{RayCaster, Triangle, Vec3};
use radial_slicer::model::{RawPoint, SliceError};
use radial_slicer::slicer::{find_height, slicer, triangulate, Axis, SliceConfig};

fn p(x: i64, y: i64, z: i64) -> RawPoint {
    RawPoint { x, y, z }
}

fn config(segments: u32, layer_height: i64, hmin: i64, hmax: i64) -> SliceConfig {
    // A quarter-turn rotation step keeps the fixed-point direction exact.
    SliceConfig {
        segment_count: segments,
        layer_height,
        height_min: hmin,
        height_max: hmax,
        height_offset: 0,
        rot_cos: 0,
        rot_sin: 65536,
        vertical_axis: Axis::Y,
    }
}

/// Two triangles forming one wall of a square prism between two heights.
fn wall(a: (i64, i64), b: (i64, i64), y0: i64, y1: i64, out: &mut Vec<i64>) {
    let tris = [
        [(a.0, y0, a.1), (b.0, y0, b.1), (b.0, y1, b.1)],
        [(a.0, y0, a.1), (b.0, y1, b.1), (a.0, y1, a.1)],
    ];
    for t in tris.iter() {
        for v in t.iter() {
            out.push(v.0);
            out.push(v.1);
            out.push(v.2);
        }
    }
}

fn square_prism(half: i64, y0: i64, y1: i64) -> Vec<i64> {
    let mut out = Vec::new();
    wall((-half, -half), (half, -half), y0, y1, &mut out);
    wall((half, -half), (half, half), y0, y1, &mut out);
    wall((half, half), (-half, half), y0, y1, &mut out);
    wall((-half, half), (-half, -half), y0, y1, &mut out);
    out
}

#[test]
fn malformed_vertex_stream_is_rejected() {
    let cfg = config(4, 5, 0, 10);
    let res = slicer(&vec![1, 2, 3, 4], &vec![0, 0, 0], &cfg);
    assert_eq!(res, Err(SliceError::MalformedVertexStream));
}

#[test]
fn wrong_center_length_is_rejected() {
    let cfg = config(4, 5, 0, 10);
    let res = slicer(&vec![], &vec![0, 0], &cfg);
    assert_eq!(res, Err(SliceError::InvalidCenter));
    let res2 = slicer(&vec![], &vec![0, 0, 0, 0], &cfg);
    assert_eq!(res2, Err(SliceError::InvalidCenter));
}

#[test]
fn axis_selector_is_validated() {
    assert_eq!(Axis::from_selector('x'), Ok(Axis::X));
    assert_eq!(Axis::from_selector('y'), Ok(Axis::Y));
    assert_eq!(Axis::from_selector('z'), Ok(Axis::Z));
    assert_eq!(Axis::from_selector('q'), Err(SliceError::InvalidAxis));
}

#[test]
fn triangulate_rejects_fractional_triangles() {
    let stream: Vec<i64> = (0..10).collect();
    assert_eq!(triangulate(&stream), Err(SliceError::MalformedVertexStream));
}

#[test]
fn triangulate_groups_by_nine() {
    let stream: Vec<i64> = (0..18).collect();
    let tris = triangulate(&stream).unwrap();
    assert_eq!(tris.len(), 2);
    assert_eq!(tris[0].p1, Vec3 { x: 0, y: 1, z: 2 });
    assert_eq!(tris[0].p3, Vec3 { x: 6, y: 7, z: 8 });
    assert_eq!(tris[1].p2, Vec3 { x: 12, y: 13, z: 14 });
}

#[test]
fn find_height_returns_extent() {
    let t = Triangle::new(Vec3::new(0, 5, 0), Vec3::new(1, -3, 0), Vec3::new(2, 4, 0));
    assert_eq!(find_height(&t), (-3, 5));
}

#[test]
fn prism_slices_into_expected_layers() {
    let mesh = square_prism(100, 0, 10);
    let cfg = config(4, 5, 0, 10);
    let res = slicer(&mesh, &vec![0, 0, 0], &cfg).unwrap();
    // ceil(10 / 5) layers.
    assert_eq!(res.len(), 2);
    for layer in res.iter() {
        assert!(layer.len() % 3 == 0);
        assert!(layer.len() <= 12);
        assert!(layer.len() > 0);
        for triple in layer.chunks(3) {
            let horizontal = triple[0].abs().max(triple[2].abs());
            assert_eq!(horizontal, 100);
        }
    }
}

#[test]
fn ray_intersection_hits_facing_triangle() {
    let tri = Triangle::new(Vec3::new(-100, -100, -50), Vec3::new(100, -100, -50), Vec3::new(0,
        100, -50));
    let rc = RayCaster::new(Vec3::new(0, 0, 0), Vec3::new(0, 0, -65536));
    let hit = tri.ray_intersection(&rc);
    assert_eq!(hit, Some((Vec3 { x: 0, y: 0, z: -50 }, 50)));
}

#[test]
fn ray_intersection_misses_behind() {
    let tri = Triangle::new(Vec3::new(-100, -100, 50), Vec3::new(100, -100, 50), Vec3::new(0, 100,
        50));
    let rc = RayCaster::new(Vec3::new(0, 0, 0), Vec3::new(0, 0, -65536));
    assert_eq!(tri.ray_intersection(&rc), None);
}

#[test]
fn ray_rotate_quarter_turn() {
    let mut rc = RayCaster::new(Vec3::new(0, 0, 0), Vec3::new(65536, 0, 0));
    rc.ray_rotate(0, 65536, 3);
    assert_eq!(rc.direction, Vec3 { x: 0, y: 0, z: 65536 });
    assert_eq!(rc.origin, Vec3 { x: 0, y: 3, z: 0 });
    assert_eq!(rc.steps, 1);
    rc.reset_raycaster(Vec3::new(1, 2, 3), Vec3::new(0, 0, -65536));
    assert_eq!(rc.steps, 0);
    assert_eq!(rc.origin, Vec3 { x: 1, y: 2, z: 3 });
}

#[test]
fn vec3_scale_multiplies_components() {
    let v = Vec3::new(2, -3, 4);
    assert_eq!(v.scale(10), Vec3 { x: 20, y: -30, z: 40 });
}

#[test]
fn shrink_zero_factor_is_identity() {
    let layers = vec![vec![p(100, 0, 0), p(0, 5, -70)]];
    let out = adjust_for_shrink_and_offset(layers.clone(), p(0, 0, 0), 0, 25);
    assert_eq!(out, layers);
    let out2 = adjust_for_shrink_and_offset(layers.clone(), p(0, 0, 0), 40, 0);
    assert_eq!(out2, layers);
}

#[test]
fn shrink_formula_applies_radially() {
    // r = 100, nozzle half = 5, shrink 10%: adjusted_r = 105 * 90 / 100 = 94.
    let layers = vec![vec![p(100, 7, 0)]];
    let out = adjust_for_shrink_and_offset(layers, p(0, 0, 0), 10, 10);
    assert_eq!(out[0][0], p(94, 7, 0));
}

#[test]
fn shrink_keeps_axis_point() {
    let layers = vec![vec![p(0, 3, 0)]];
    let out = adjust_for_shrink_and_offset(layers, p(0, 0, 0), 10, 10);
    assert_eq!(out[0][0], p(0, 3, 0));
}

#[test]
fn providers_must_deliver() {
    let layers = vec![vec![p(1, 1, 1)]];
    let res = adjust_with_providers(layers.clone(), p(0, 0, 0), None, Some(4));
    assert_eq!(res, Err(SliceError::ProviderFailure));
    let res2 = adjust_with_providers(layers.clone(), p(0, 0, 0), Some(MaterialProfile {
        shrink_factor: 2 }), None);
    assert_eq!(res2, Err(SliceError::ProviderFailure));
    let res3 = adjust_with_providers(layers.clone(), p(0, 0, 0), Some(MaterialProfile {
        shrink_factor: 200 }), Some(4));
    assert_eq!(res3, Err(SliceError::InvalidConfiguration));
    assert!(adjust_with_providers(layers, p(0, 0, 0), Some(MaterialProfile { shrink_factor: 2 }),
        Some(4)).is_ok());
}

#[test]
fn blend_within_tolerance_is_unchanged() {
    let layers = vec![vec![p(90, 0, 0)], vec![p(100, 10, 0)]];
    let out = blend_merge(layers.clone(), 20);
    assert_eq!(out, layers);
}

#[test]
fn blend_pulls_lower_point_in() {
    // Upper radius 100, lower radius 10: gap 90 > tol 20, so the lower
    // point moves 10 from the upper point toward the lower one.
    let layers = vec![vec![p(10, 0, 0)], vec![p(100, 10, 0)]];
    let out = blend_merge(layers, 20);
    assert_eq!(out[1][0], p(100, 10, 0));
    assert_eq!(out[0][0], p(90, 0, 0));
}

#[test]
fn blend_coincident_points_unchanged() {
    // Same horizontal position but distances differ by height only: the
    // degenerate guard returns the lower point untouched.
    let layers = vec![vec![p(0, 0, 0), p(5, 0, 0)], vec![p(0, 10, 0), p(5, 10, 0)]];
    let out = blend_merge(layers.clone(), 1);
    assert_eq!(out, layers);
}

#[test]
fn blend_is_idempotent_on_its_output() {
    let layers = vec![vec![p(5, 0, 0)], vec![p(40, 5, 0)], vec![p(100, 10, 0)]];
    let once = blend_merge(layers, 8);
    let twice = blend_merge(once.clone(), 8);
    assert_eq!(once, twice);
}

#[test]
fn pull_degenerate_distance_returns_lower() {
    let out = get_point_at_distance(p(3, 10, 4), p(3, 0, 4), 7);
    assert_eq!(out, p(3, 0, 4));
}

#[test]
fn horizontal_distance_is_integer_norm() {
    assert_eq!(p(3, 99, 4).calculate_horizontal_distance(), 5);
    assert_eq!(p(0, 0, 0).calculate_horizontal_distance(), 0);
    assert_eq!(p(-3, 1, -4).calculate_horizontal_distance(), 5);
}

#[test]
fn print_time_fixed_string_for_small_models() {
    assert_eq!(calculate_print_time(&vec![], 20), "0h 0m 0s");
    assert_eq!(calculate_print_time(&vec![vec![p(1, 2, 3)]], 20), "0h 0m 0s");
}

#[test]
fn print_time_formats_hours_and_minutes() {
    // One pair at distance 120: 120 minutes at speed 1.
    let m = vec![vec![p(0, 0, 0)], vec![p(0, 120, 0)]];
    assert_eq!(calculate_print_time(&m, 1), "2h 0m");
    // ceil(120 / 7) = 18 minutes.
    assert_eq!(calculate_print_time(&m, 7), "0h 18m");
}

#[test]
fn print_time_sums_adjacent_pairs() {
    // Distances 60 and 60 across three layers: 120 minutes at speed 1.
    let m = vec![vec![p(0, 0, 0)], vec![p(0, 60, 0)], vec![p(0, 120, 0)]];
    assert_eq!(calculate_print_time(&m, 1), "2h 0m");
}

#[test]
fn decimal_rendering_is_exact() {
    assert_eq!(dec_string(0), "0");
    assert_eq!(dec_string(9), "9");
    assert_eq!(dec_string(10), "10");
    assert_eq!(dec_string(1234), "1234");
    assert_eq!(dec_string(1000000), "1000000");
}
