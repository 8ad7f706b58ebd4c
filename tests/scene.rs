use wire3d::camera::{Camera, ScreenPoint, Segment};
use wire3d::error::GeomError;
use wire3d::fixed::ONE;
use wire3d::geometry::{Geometry, Tri, CULL_BIAS};
use wire3d::transform::Transform;
use wire3d::vec3::Vec3;

fn v(x: i64, y: i64, z: i64) -> Vec3 {
    Vec3::new(x * ONE, y * ONE, z * ONE)
}

fn unit(angle: f64) -> (i64, i64) {
    ((angle.cos() * ONE as f64).round() as i64, (angle.sin() * ONE as f64).round() as i64)
}

fn cube(s: i64) -> Vec<Tri> {
    let mut verts = Vec::new();
    for i in 0..8 {
        verts.push(Vec3::new(
            if i & 4 != 0 { s } else { -s },
            if i & 2 != 0 { s } else { -s },
            if i & 1 != 0 { s } else { -s },
        ));
    }
    let mut tris = Vec::new();
    for i in 0..3 {
        let v1: usize = 1 << i;
        let v2: usize = if v1 == 4 { 1 } else { v1 << 1 };
        tris.push(Tri::new(verts[0], verts[v1], verts[v2]));
        tris.push(Tri::new(verts[v1 + v2], verts[v2], verts[v1]));
        tris.push(Tri::new(verts[7], verts[7 - v2], verts[7 - v1]));
        tris.push(Tri::new(verts[7 - (v1 + v2)], verts[7 - v1], verts[7 - v2]));
    }
    tris
}

fn apply(t: &Transform, p: Vec3) -> Vec3 {
    t.apply_to_vector(&p)
}

#[test]
fn identity_transform_keeps_points() {
    let t = Transform::new();
    for p in [v(1, 2, 3), Vec3::new(-7, 123456, -99), Vec3::zero()] {
        assert_eq!(apply(&t, p), p);
    }
}

#[test]
fn translate_moves_points() {
    let mut t = Transform::new();
    t.translate(v(10, -2, 3)).unwrap();
    assert_eq!(apply(&t, v(1, 1, 1)), v(11, -1, 4));
}

#[test]
fn translate_composes_after_rotation() {
    let mut t = Transform::new();
    t.rot_z(0, ONE).unwrap();
    t.translate(v(1, 0, 0)).unwrap();
    assert_eq!(apply(&t, v(0, 0, 0)), v(0, 1, 0));
}

#[test]
fn quarter_turns_about_each_axis() {
    let mut x = Transform::new();
    x.rot_x(0, ONE).unwrap();
    assert_eq!(apply(&x, v(0, 1, 0)), v(0, 0, 1));
    let mut y = Transform::new();
    y.rot_y(0, ONE).unwrap();
    assert_eq!(apply(&y, v(0, 0, 1)), v(1, 0, 0));
    let mut z = Transform::new();
    z.rot_z(0, ONE).unwrap();
    assert_eq!(apply(&z, v(1, 0, 0)), v(0, 1, 0));
}

#[test]
fn rotation_times_transpose_is_identity_within_rounding() {
    let (c, s) = unit(0.7);
    for axis in 0..3 {
        let mut t = Transform::new();
        match axis {
            0 => t.rot_x(c, s).unwrap(),
            1 => t.rot_y(c, s).unwrap(),
            _ => t.rot_z(c, s).unwrap(),
        }
        let r = t.mat.clone();
        let p = r.dot(&t.mat.transpose()).unwrap();
        for i in 0..4 {
            for j in 0..4 {
                let want = if i == j { ONE } else { 0 };
                let got = p.get(&vec![j, i]).unwrap();
                assert!((got - want).abs() <= 2, "axis {} ({}, {}): {}", axis, i, j, got);
            }
        }
    }
}

#[test]
fn rot_z_then_back_returns_the_point() {
    let (c, s) = unit(1.1);
    let mut t = Transform::new();
    t.rot_z(c, s).unwrap();
    t.rot_z(c, -s).unwrap();
    let p = v(3, -4, 5);
    let q = apply(&t, p);
    assert!((q.x - p.x).abs() <= 8 && (q.y - p.y).abs() <= 8 && q.z == p.z, "{:?}", q);
}

#[test]
fn set_pos_matches_a_fresh_translation() {
    let pos = v(4, -5, 6);
    let mut a = Transform::new();
    a.set_pos(pos);
    let mut b = Transform::new();
    b.translate(pos).unwrap();
    for p in [v(1, 2, 3), Vec3::new(17, -3, 99999)] {
        assert_eq!(apply(&a, p), apply(&b, p));
        assert_eq!(apply(&a, p), p.add(pos));
    }
}

#[test]
fn set_pos_keeps_orientation() {
    let mut t = Transform::new();
    t.rot_z(0, ONE).unwrap();
    t.set_pos(v(0, 0, 10));
    assert_eq!(apply(&t, v(1, 0, 0)), v(0, 1, 10));
}

#[test]
fn rotation_out_of_range_is_reported_and_leaves_transform() {
    let mut t = Transform::new();
    t.rot_z(4294967296, 0).unwrap();
    let before = t.mat.clone();
    assert_eq!(t.rot_z(4294967296, 0), Err(GeomError::OutOfRange));
    for i in 0..4 {
        for j in 0..4 {
            assert_eq!(t.mat.get(&vec![j, i]), before.get(&vec![j, i]));
        }
    }
}

#[test]
fn face_normal_follows_winding() {
    let t = Tri::new(v(0, 0, 0), v(1, 0, 0), v(0, 1, 0));
    assert_eq!(t.get_normal(), Ok(v(0, 0, -1)));
    let flat = Tri::new(v(0, 0, 0), v(1, 1, 1), v(2, 2, 2));
    assert_eq!(flat.get_normal(), Err(GeomError::DegenerateVector));
    assert_eq!(flat.should_backface_cull(v(0, 0, 1)), Err(GeomError::DegenerateVector));
}

#[test]
fn backface_rule_at_its_landmarks() {
    // Normal (0, 0, 1).
    let t = Tri::new(v(1, 0, 0), v(0, 0, 0), v(0, 1, 0));
    assert_eq!(t.get_normal(), Ok(v(0, 0, 1)));
    assert_eq!(t.should_backface_cull(v(0, 0, 1)), Ok(false));
    assert_eq!(t.should_backface_cull(v(0, 0, -1)), Ok(true));
    assert_eq!(t.should_backface_cull(Vec3::new(0, 0, CULL_BIAS)), Ok(false));
    assert_eq!(t.should_backface_cull(Vec3::new(0, 0, CULL_BIAS - 1)), Ok(true));
    assert_eq!(t.should_backface_cull(v(1, 0, 0)), Ok(true));
}

#[test]
fn geometry_collects_triangles() {
    let mut g = Geometry::new();
    let a = Tri::new(v(0, 0, 0), v(1, 0, 0), v(0, 1, 0));
    g.add_tri(a);
    g.add_tris(vec![a, a]);
    assert_eq!(g.tris.len(), 3);
    g.add_tris(Vec::new());
    assert_eq!(g.tris.len(), 3);
}

#[test]
fn world_triangles_leave_model_unchanged() {
    let mut g = Geometry::new();
    let a = Tri::new(v(0, 0, 0), v(1, 0, 0), v(0, 1, 0));
    g.add_tri(a);
    g.transform.translate(v(0, 0, 5)).unwrap();
    let w = g.apply_transform();
    assert_eq!(w[0], Tri::new(v(0, 0, 5), v(1, 0, 5), v(0, 1, 5)));
    assert_eq!(g.tris[0], a);
    assert_eq!(g.apply_transform(), w);
}

#[test]
fn camera_refuses_bad_configuration() {
    let res = ScreenPoint { x: 800, y: 600 };
    assert_eq!(Camera::with_planes(res, ONE, ONE, ONE).unwrap_err(), GeomError::ConfigurationError);
    assert_eq!(Camera::new(ScreenPoint { x: 0, y: 600 }, ONE).unwrap_err(), GeomError::ConfigurationError);
    assert_eq!(Camera::new(ScreenPoint { x: 800, y: -1 }, ONE).unwrap_err(), GeomError::ConfigurationError);
    let cam = Camera::new(res, ONE).unwrap();
    assert_eq!(cam.res(), res);
    assert_eq!(cam.focal(), ONE);
    assert_eq!(cam.near(), 6553);
    assert_eq!(cam.far(), 1000 * ONE);
}

#[test]
fn set_projection_rebuilds_or_refuses() {
    let mut cam = Camera::new(ScreenPoint { x: 800, y: 600 }, ONE).unwrap();
    let p = v(100, 100, 100);
    assert_eq!(cam.set_projection(ScreenPoint { x: 600, y: 600 }, ONE, 6553, 3 * ONE), Ok(()));
    assert_eq!(cam.point_to_ss(&p), ScreenPoint { x: 600, y: 600 });
    assert_eq!(cam.far(), 3 * ONE);
    assert_eq!(cam.set_projection(ScreenPoint { x: 800, y: 600 }, ONE, ONE, ONE), Err(GeomError::ConfigurationError));
    assert_eq!(cam.res(), ScreenPoint { x: 600, y: 600 });
    assert_eq!(cam.point_to_ss(&p), ScreenPoint { x: 600, y: 600 });
}

#[test]
fn projection_maps_axis_to_center_and_scales_by_height() {
    let cam = Camera::new(ScreenPoint { x: 800, y: 600 }, ONE).unwrap();
    assert_eq!(cam.point_to_ss(&v(0, 0, 100)), ScreenPoint { x: 300, y: 300 });
    // x scale is focal / aspect = 0.75; y scale is focal = 1.
    assert_eq!(cam.point_to_ss(&v(100, 100, 100)), ScreenPoint { x: 525, y: 600 });
    // Zero depth: the coordinates saturate by sign, and 0/0 gives 0.
    assert_eq!(cam.point_to_ss(&v(5, 5, 0)), ScreenPoint { x: i32::MAX, y: i32::MAX });
    assert_eq!(cam.point_to_ss(&v(-5, 0, 0)), ScreenPoint { x: i32::MIN, y: 0 });
    let t = Tri::new(v(0, 0, 100), v(100, 100, 100), v(1, 1, 0));
    assert_eq!(
        cam.tri_to_ss(&t),
        (ScreenPoint { x: 300, y: 300 }, ScreenPoint { x: 525, y: 600 }, ScreenPoint { x: i32::MAX, y: i32::MAX })
    );
}

#[test]
fn translating_shifts_projection_predictably() {
    let cam = Camera::new(ScreenPoint { x: 800, y: 600 }, ONE).unwrap();
    let p = v(0, 0, 100);
    let before = cam.point_to_ss(&p);
    let mut g = Geometry::new();
    g.add_tri(Tri::new(p, p, p));
    g.transform.translate(v(10, 0, 0)).unwrap();
    let moved = g.apply_transform()[0].a;
    let after = cam.point_to_ss(&moved);
    // Shift = x_scale * 10 / depth * height / 2 = 0.75 * 0.1 * 300 = 22.5 pixels.
    assert!((after.x - before.x - 22).abs() <= 1, "{:?} -> {:?}", before, after);
    assert_eq!(after.y, before.y);
}

#[test]
fn cube_around_camera_draws_only_faces_turned_along_view() {
    let cam = Camera::new(ScreenPoint { x: 800, y: 600 }, ONE).unwrap();
    let mut g = Geometry::new();
    g.add_tris(cube(ONE / 2));
    assert_eq!(g.tris.len(), 12);
    let scene = vec![g];
    let lines = cam.render(&scene).unwrap();
    assert_eq!(lines.len(), 6);
    assert_eq!(cam.render(&scene).unwrap(), lines);
}

#[test]
fn render_emits_edges_in_order() {
    let cam = Camera::new(ScreenPoint { x: 800, y: 600 }, ONE).unwrap();
    let mut g = Geometry::new();
    // Normal (0, 0, 1): along the view direction, so kept.
    g.add_tri(Tri::new(v(1, 0, 10), v(0, 0, 10), v(0, 1, 10)));
    // Normal (0, 0, -1): culled.
    g.add_tri(Tri::new(v(0, 1, 10), v(0, 0, 10), v(1, 0, 10)));
    let lines = cam.render(&vec![g.clone(), g]).unwrap();
    assert_eq!(lines.len(), 6);
    let a = cam.point_to_ss(&v(1, 0, 10));
    let b = cam.point_to_ss(&v(0, 0, 10));
    let c = cam.point_to_ss(&v(0, 1, 10));
    assert_eq!(lines[0], Segment { from: a, to: b });
    assert_eq!(lines[1], Segment { from: b, to: c });
    assert_eq!(lines[2], Segment { from: c, to: a });
    assert_eq!(lines[3..], lines[..3]);
}

#[test]
fn render_reports_world_out_of_range() {
    let cam = Camera::new(ScreenPoint { x: 800, y: 600 }, ONE).unwrap();
    let mut g = Geometry::new();
    g.add_tri(Tri::new(v(1, 0, 10), v(0, 0, 10), v(0, 1, 10)));
    g.transform.set_pos(Vec3::new(4294967296, 0, 0));
    assert_eq!(cam.render(&vec![g]).unwrap_err(), GeomError::OutOfRange);
}

#[test]
fn thin_triangle_normal_has_unit_length_and_flips_with_winding() {
    let a = Vec3::new(0, 0, ONE);
    let b = Vec3::zero();
    let c = Vec3::new(1, -1, 0);
    let n = Tri::new(a, b, c).get_normal().unwrap();
    let len_sq = (n.x as i128).pow(2) + (n.y as i128).pow(2) + (n.z as i128).pow(2);
    let one = ONE as i128;
    assert!((len_sq - one * one).abs() <= 8 * one, "{:?}", n);
    let m = Tri::new(c, b, a).get_normal().unwrap();
    assert_eq!(m, Vec3::new(-n.x, -n.y, -n.z));
}

#[test]
fn triangle_at_zero_depth_still_draws_three_edges() {
    let cam = Camera::new(ScreenPoint { x: 800, y: 600 }, ONE).unwrap();
    let mut g = Geometry::new();
    // Normal (0, 0, 1), corners in the camera's plane.
    g.add_tri(Tri::new(v(1, 0, 0), v(0, 0, 0), v(0, 1, 0)));
    let lines = cam.render(&vec![g]).unwrap();
    assert_eq!(lines.len(), 3);
    assert_eq!(lines[0].from, ScreenPoint { x: i32::MAX, y: 0 });
    assert_eq!(lines[1].from, ScreenPoint { x: 0, y: 0 });
    assert_eq!(lines[2].from, ScreenPoint { x: 0, y: i32::MAX });
}

#[test]
fn render_reports_triangle_without_area() {
    let cam = Camera::new(ScreenPoint { x: 800, y: 600 }, ONE).unwrap();
    let mut g = Geometry::new();
    g.add_tri(Tri::new(v(1, 0, 10), v(0, 0, 10), v(0, 1, 10)));
    g.add_tri(Tri::new(v(0, 0, 10), v(1, 1, 10), v(2, 2, 10)));
    assert_eq!(cam.render(&vec![g.clone()]).unwrap_err(), GeomError::DegenerateVector);
    // Range is checked over the whole scene first.
    let mut far = g.clone();
    far.transform.set_pos(Vec3::new(4294967296, 0, 0));
    assert_eq!(cam.render(&vec![g, far]).unwrap_err(), GeomError::OutOfRange);
}

#[test]
fn rotation_times_transpose_is_diagonal_for_any_pair() {
    let (c, s) = (60000, 20000);
    let k = (c * c + s * s) / ONE;
    assert_eq!(k, 61035);
    let mut t = Transform::new();
    t.rot_z(c, s).unwrap();
    let p = t.mat.dot(&t.mat.clone().transpose()).unwrap();
    for i in 0..4 {
        for j in 0..4 {
            let want = if i != j { 0 } else if i < 2 { k } else { ONE };
            assert_eq!(p.get(&vec![j, i]), Ok(want));
        }
    }
    let mut back = Transform::new();
    back.rot_z(c, s).unwrap();
    back.rot_z(c, -s).unwrap();
    let q = apply(&back, Vec3::new(3 * ONE, -5 * ONE, 7));
    assert_eq!(q, Vec3::new(3 * k, -5 * k, 7));
}
