use stlwrap::bounds::scan_bounds;
use stlwrap::geometry::Triangle;
use stlwrap::geometry::Vec3;
use stlwrap::geometry::midpoint;
use stlwrap::geometry::side_len_sq;
use stlwrap::geometry::sides_too_long;
use stlwrap::normal::isqrt;
use stlwrap::normal::tri_normal;

// One model unit in fixed-point coordinates.
const S: i64 = 65536;

fn v(x: i64, y: i64, z: i64) -> Vec3 {
    Vec3 { x, y, z }
}

fn tri(a: Vec3, b: Vec3, c: Vec3) -> Triangle {
    Triangle { normal: v(0, 0, 0), a, b, c, attr: 0 }
}

#[test]
fn midpoint_halves_even_coordinates() {
    let m = midpoint(&v(0, 0, 0), &v(2 * S, 4 * S, -6 * S));
    assert_eq!(m, v(S, 2 * S, -3 * S));
}

#[test]
fn midpoint_rounds_down() {
    // Odd sums round toward negative infinity, on both signs.
    assert_eq!(midpoint(&v(0, 0, 0), &v(1, 1, 1)), v(0, 0, 0));
    assert_eq!(midpoint(&v(-1, -1, -1), &v(0, 0, 0)), v(-1, -1, -1));
}

#[test]
fn side_len_sq_exact() {
    let d = side_len_sq(&v(1, 2, 3), &v(4, 6, 3));
    assert_eq!(d, 9 + 16);
}

#[test]
fn sides_too_long_is_strict() {
    // All edges exactly at the threshold: not too long.
    let t = tri(v(0, 0, 0), v(5, 0, 0), v(5, 0, 0));
    assert!(!sides_too_long(&t, 5));
    // One edge one longer: too long.
    let t2 = tri(v(0, 0, 0), v(6, 0, 0), v(6, 0, 0));
    assert!(sides_too_long(&t2, 5));
}

#[test]
fn scan_bounds_empty_mesh_has_none() {
    let tris: Vec<Triangle> = Vec::new();
    assert!(scan_bounds(&tris, 0).is_none());
}

#[test]
fn scan_bounds_finds_min_and_max() {
    let tris = vec![
        tri(v(3, 100, 0), v(-7, 200, 0), v(5, 300, 0)),
        tri(v(2, -50, 0), v(9, 0, 0), v(4, 60, 0)),
    ];
    let b = scan_bounds(&tris, 0).unwrap();
    assert_eq!(b.min, -7);
    assert_eq!(b.max, 9);
    let by = scan_bounds(&tris, 1).unwrap();
    assert_eq!(by.min, -50);
    assert_eq!(by.max, 300);
}

#[test]
fn isqrt_exact_values() {
    assert_eq!(isqrt(0), 0);
    assert_eq!(isqrt(1), 1);
    assert_eq!(isqrt(3), 1);
    assert_eq!(isqrt(4), 2);
    assert_eq!(isqrt(15), 3);
    assert_eq!(isqrt(16), 4);
    assert_eq!(isqrt((1u128 << 124) - 1), (1u128 << 62) - 1);
}

#[test]
fn tri_normal_right_triangle_points_up() {
    // Right-hand rule: x cross y is +z, at full fixed-point unit length.
    let n = tri_normal(&v(0, 0, 0), &v(S, 0, 0), &v(0, S, 0));
    assert_eq!(n, v(0, 0, 65536));
}

#[test]
fn tri_normal_winding_flips_sign() {
    let n = tri_normal(&v(0, 0, 0), &v(0, S, 0), &v(S, 0, 0));
    assert_eq!(n, v(0, 0, -65536));
}

#[test]
fn tri_normal_identical_vertices_zero() {
    let n = tri_normal(&v(7, 8, 9), &v(7, 8, 9), &v(100, 50, 3));
    assert_eq!(n, v(0, 0, 0));
}

#[test]
fn tri_normal_collinear_zero() {
    let n = tri_normal(&v(0, 0, 0), &v(S, S, 0), &v(2 * S, 2 * S, 0));
    assert_eq!(n, v(0, 0, 0));
}

#[test]
fn tri_normal_unit_length_within_rounding() {
    // A slanted, non-degenerate triangle: the recomputed normal's length
    // must be one fixed-point unit, up to integer rounding.
    let n = tri_normal(&v(0, 0, 0), &v(3 * S, S, 2 * S), &v(-S, 2 * S, S));
    let len2 = (n.x as i128) * (n.x as i128) + (n.y as i128) * (n.y as i128) + (n.z as i128)
        * (n.z as i128);
    let len = (len2 as f64).sqrt();
    assert!((len - 65536.0).abs() < 4.0, "normal length {} is not unit", len);
}

#[test]
fn quad_split_children_cover_parent_area() {
    // Even coordinates make the edge midpoints exact; each child's cross
    // product is then a quarter of the parent's, so the areas add up.
    let a = v(0, 0, 0);
    let b = v(4 * S, 2 * S, 6 * S);
    let c = v(-2 * S, 8 * S, 2 * S);
    let mab = midpoint(&a, &b);
    let mbc = midpoint(&b, &c);
    let mca = midpoint(&c, &a);
    let cross_z = |p: Vec3, q: Vec3, r: Vec3| -> i128 {
        let e1x = (q.x - p.x) as i128;
        let e1y = (q.y - p.y) as i128;
        let e2x = (r.x - p.x) as i128;
        let e2y = (r.y - p.y) as i128;
        e1x * e2y - e1y * e2x
    };
    let parent = cross_z(a, b, c);
    let children = [
        cross_z(a, mab, mca),
        cross_z(b, mbc, mab),
        cross_z(c, mca, mbc),
        cross_z(mab, mbc, mca),
    ];
    for ch in children.iter() {
        assert_eq!(4 * ch, parent);
    }
    let total: i128 = children.iter().sum();
    assert_eq!(total, parent);
}

#[test]
fn quad_split_halves_every_edge() {
    // With even coordinates the midpoints are exact, and each child edge
    // carries exactly a quarter of the squared length of a parent edge.
    let a = v(0, 0, 0);
    let b = v(4 * S, 2 * S, 6 * S);
    let c = v(-2 * S, 8 * S, 2 * S);
    let mab = midpoint(&a, &b);
    let mbc = midpoint(&b, &c);
    let mca = midpoint(&c, &a);
    assert_eq!(4 * side_len_sq(&a, &mab), side_len_sq(&a, &b));
    assert_eq!(4 * side_len_sq(&mab, &mca), side_len_sq(&b, &c));
    assert_eq!(4 * side_len_sq(&mca, &a), side_len_sq(&c, &a));
    assert_eq!(4 * side_len_sq(&mab, &mbc), side_len_sq(&c, &a));
    assert_eq!(4 * side_len_sq(&mbc, &mca), side_len_sq(&a, &b));
    assert_eq!(4 * side_len_sq(&mca, &mab), side_len_sq(&b, &c));
}
