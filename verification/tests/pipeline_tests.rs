use stlwrap::bounds::Bounds;
use stlwrap::bounds::scan_bounds;
use stlwrap::geometry::Config;
use stlwrap::geometry::Triangle;
use stlwrap::geometry::Vec3;
use stlwrap::geometry::side_len_sq;
use stlwrap::normal::tri_normal;
use stlwrap::pipeline::TriangleTrig;
use stlwrap::pipeline::VertexTrig;
use stlwrap::pipeline::mesh_angles;
use stlwrap::pipeline::wrap_mesh;
use stlwrap::subdivide::refine_mesh;
use stlwrap::wrap::TRIG_ONE;
use stlwrap::wrap::wrap_angle;
use stlwrap::wrap::wrap_vertex;
use stlwrap::wrap::wrap_xy;

// One model unit in fixed-point coordinates.
const S: i64 = 65536;

// A full turn, in the same fixed-point unit as the trigonometric values:
// round(2 * pi * 65536), nudged even so that a half turn is exact.
const FULL_SWEEP: i64 = 411774;

fn v(x: i64, y: i64, z: i64) -> Vec3 {
    Vec3 { x, y, z }
}

fn tri(a: Vec3, b: Vec3, c: Vec3) -> Triangle {
    Triangle { normal: v(0, 0, 0), a, b, c, attr: 7 }
}

fn cfg(max_len: i64) -> Config {
    Config { wrap_axis: 0, radius_axis: 1, max_len, sweep: FULL_SWEEP, depth_cap: 32 }
}

#[test]
fn subdivide_one_level_yields_four_fitting_triangles() {
    // Edges 2.0, sqrt(2), sqrt(2) against threshold 1: one midpoint split
    // yields four triangles with maximum edge 1, and recursion stops.
    let tris = vec![tri(v(0, 0, 0), v(2 * S, 0, 0), v(S, S, 0))];
    let out = refine_mesh(&tris, &cfg(S)).unwrap();
    assert_eq!(out.len(), 4);
    let limit = (S as i128) * (S as i128);
    for t in out.iter() {
        assert!(side_len_sq(&t.a, &t.b) <= limit);
        assert!(side_len_sq(&t.b, &t.c) <= limit);
        assert!(side_len_sq(&t.c, &t.a) <= limit);
        assert_eq!(t.attr, 7);
    }
}

#[test]
fn subdivide_keeps_fitting_triangle_verbatim() {
    let t = Triangle {
        normal: v(1, 2, 3),
        a: v(0, 0, 0),
        b: v(S / 2, 0, 0),
        c: v(0, S / 2, 0),
        attr: 99,
    };
    let out = refine_mesh(&vec![t], &cfg(S)).unwrap();
    assert_eq!(out.len(), 1);
    assert_eq!(out[0], t);
}

#[test]
fn subdivide_depth_cap_overflow_reports_triangle() {
    let t = tri(v(0, 0, 0), v(100 * S, 0, 0), v(0, 100 * S, 0));
    let mut c = cfg(S);
    c.depth_cap = 0;
    let err = refine_mesh(&vec![t], &c).unwrap_err();
    assert_eq!(err.triangle, t);
}

#[test]
fn subdivide_preserves_triangle_order() {
    let t1 = tri(v(0, 0, 0), v(1, 0, 0), v(0, 1, 0));
    let t2 = tri(v(10, 0, 0), v(11, 0, 0), v(10, 1, 0));
    let out = refine_mesh(&vec![t1, t2], &cfg(S)).unwrap();
    assert_eq!(out.len(), 2);
    assert_eq!(out[0], t1);
    assert_eq!(out[1], t2);
}

#[test]
fn wrap_angle_hits_zero_and_full_sweep() {
    // The extent's edges map to angle 0 and to the full sweep exactly, so
    // a full wrap closes on itself.
    let b = Bounds { min: -3 * S, max: 5 * S };
    assert_eq!(wrap_angle(-3 * S, &b, FULL_SWEEP), 0);
    assert_eq!(wrap_angle(5 * S, &b, FULL_SWEEP), FULL_SWEEP);
}

#[test]
fn wrap_angle_midpoint_is_half_sweep() {
    let b = Bounds { min: 0, max: 10 * S };
    assert_eq!(wrap_angle(5 * S, &b, FULL_SWEEP), FULL_SWEEP / 2);
}

#[test]
fn wrap_angle_degenerate_extent_maps_to_zero() {
    let b = Bounds { min: 4 * S, max: 4 * S };
    assert_eq!(wrap_angle(4 * S, &b, FULL_SWEEP), 0);
}

#[test]
fn half_turn_maps_radius_to_negative_axis() {
    // Bounds 0..10, vertex at 5: angle is half the sweep, i.e. pi. With
    // radius 3 the mapped point is (3 cos pi, 3 sin pi) = (-3, 0).
    let b = Bounds { min: 0, max: 10 * S };
    let angle = wrap_angle(5 * S, &b, FULL_SWEEP);
    assert_eq!(angle, FULL_SWEEP / 2);
    let rad = angle as f64 / 65536.0;
    let c = (rad.cos() * 65536.0).round() as i64;
    let s = (rad.sin() * 65536.0).round() as i64;
    assert_eq!(c, -TRIG_ONE);
    assert_eq!(s, 0);
    let (xp, yp) = wrap_xy(3 * S, c, s);
    assert_eq!(xp, -3 * S);
    assert_eq!(yp, 0);
}

#[test]
fn radius_is_preserved_for_any_angle() {
    // With cosine and sine taken from the real functions, the mapped
    // point's distance from the cylinder axis is the radius value, up to
    // fixed-point rounding.
    let y: i64 = 3 * S;
    let mut k: i64 = 0;
    while k <= 8 {
        let rad = (k as f64) * std::f64::consts::PI / 4.0;
        let c = (rad.cos() * 65536.0).round() as i64;
        let s = (rad.sin() * 65536.0).round() as i64;
        let (xp, yp) = wrap_xy(y, c, s);
        let dist = ((xp as f64).powi(2) + (yp as f64).powi(2)).sqrt();
        let want = y as f64;
        assert!(
            (dist - want).abs() < 8.0,
            "angle step {}: distance {} differs from radius {}",
            k,
            dist,
            want
        );
        k += 1;
    }
}

#[test]
fn wrap_vertex_places_axes() {
    // Wrap axis x, radius axis y, cos = 1, sin = 0: the x slot takes the
    // radius, the y slot takes zero, z passes through.
    let w = wrap_vertex(&v(7, 5 * S, 9), 0, 1, TRIG_ONE, 0);
    assert_eq!(w, v(5 * S, 0, 9));
}

#[test]
fn mesh_angles_per_vertex() {
    let tris = vec![tri(v(0, S, 0), v(5 * S, S, 0), v(10 * S, S, 0))];
    let b = scan_bounds(&tris, 0).unwrap();
    assert_eq!(b.min, 0);
    assert_eq!(b.max, 10 * S);
    let angles = mesh_angles(&tris, &cfg(S), &b);
    assert_eq!(angles.len(), 1);
    assert_eq!(angles[0].a, 0);
    assert_eq!(angles[0].b, FULL_SWEEP / 2);
    assert_eq!(angles[0].c, FULL_SWEEP);
}

#[test]
fn wrap_mesh_maps_vertices_and_recomputes_normal() {
    let t = Triangle {
        normal: v(123, 456, 789),  // stale; must be recomputed
        a: v(0, 2 * S, 0),
        b: v(S, 3 * S, 0),
        c: v(0, 2 * S, S),
        attr: 42,
    };
    let unit = VertexTrig { cos: TRIG_ONE, sin: 0 };
    let trig = vec![TriangleTrig { a: unit, b: unit, c: unit }];
    let out = wrap_mesh(&vec![t], &cfg(S), &trig);
    assert_eq!(out.len(), 1);
    // cos = 1, sin = 0: each vertex (x, y, z) maps to (y, 0, z).
    assert_eq!(out[0].a, v(2 * S, 0, 0));
    assert_eq!(out[0].b, v(3 * S, 0, 0));
    assert_eq!(out[0].c, v(2 * S, 0, S));
    assert_eq!(out[0].attr, 42);
    let want = tri_normal(&out[0].a, &out[0].b, &out[0].c);
    assert_eq!(out[0].normal, want);
    assert_ne!(out[0].normal, v(123, 456, 789));
}
