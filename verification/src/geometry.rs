//! The data model: fixed-point vectors, triangles, the transform
//! configuration, and the basic edge geometry used by subdivision.

use vstd::prelude::*;

verus! {

/// Largest coordinate magnitude the library accepts. Keeping every
/// coordinate within this bound lets every squared length and every cross
/// product below fit comfortably in `i128`.
pub const COORD_LIMIT: i64 = 536870912;

/// A point or direction in space, in fixed-point coordinates.
#[derive(Clone, Copy, PartialEq, Eq, Structural, Debug)]
pub struct Vec3 {
    pub x: i64,
    pub y: i64,
    pub z: i64,
}

/// One mesh triangle: a normal, three vertices in winding order, and an
/// opaque attribute carried through every stage unchanged.
#[derive(Clone, Copy, PartialEq, Eq, Structural, Debug)]
pub struct Triangle {
    pub normal: Vec3,
    pub a: Vec3,
    pub b: Vec3,
    pub c: Vec3,
    pub attr: u16,
}

impl Vec3 {
    /// All three coordinates within the accepted range.
    pub open spec fn in_range(self) -> bool {
        &&& -COORD_LIMIT <= self.x <= COORD_LIMIT
        &&& -COORD_LIMIT <= self.y <= COORD_LIMIT
        &&& -COORD_LIMIT <= self.z <= COORD_LIMIT
    }

    /// The coordinate selected by an axis index: 0 is x, 1 is y, 2 is z.
    pub open spec fn axis(self, axis: u8) -> i64 {
        if axis == 0 {
            self.x
        } else if axis == 1 {
            self.y
        } else {
            self.z
        }
    }

    /// Reads the coordinate selected by `axis`.
    pub fn get_axis(&self, axis: u8) -> (r: i64)
        requires
            axis < 3,
        ensures
            r == self.axis(axis),
    {
        if axis == 0 {
            self.x
        } else if axis == 1 {
            self.y
        } else {
            self.z
        }
    }

    /// Returns a copy with the coordinate selected by `axis` replaced.
    pub fn with_axis(&self, axis: u8, value: i64) -> (r: Vec3)
        requires
            axis < 3,
        ensures
            r == self.spec_with_axis(axis, value),
    {
        if axis == 0 {
            Vec3 { x: value, y: self.y, z: self.z }
        } else if axis == 1 {
            Vec3 { x: self.x, y: value, z: self.z }
        } else {
            Vec3 { x: self.x, y: self.y, z: value }
        }
    }

    /// The vector with the selected coordinate replaced.
    pub open spec fn spec_with_axis(self, axis: u8, value: i64) -> Vec3 {
        if axis == 0 {
            Vec3 { x: value, ..self }
        } else if axis == 1 {
            Vec3 { y: value, ..self }
        } else {
            Vec3 { z: value, ..self }
        }
    }
}

impl Triangle {
    /// Every vertex within the accepted coordinate range.
    pub open spec fn in_range(self) -> bool {
        self.a.in_range() && self.b.in_range() && self.c.in_range()
    }
}

/// The explicit configuration threaded through the pipeline instead of any
/// ambient state: which axis wraps into an angle, which axis becomes the
/// radius, the maximum edge length allowed after refinement, the full
/// angular sweep the wrap axis maps onto, and the hard cap on subdivision
/// depth.
#[derive(Clone, Copy, PartialEq, Eq, Structural, Debug)]
pub struct Config {
    pub wrap_axis: u8,
    pub radius_axis: u8,
    pub max_len: i64,
    pub sweep: i64,
    pub depth_cap: u32,
}

impl Config {
    /// A usable configuration: distinct in-range axes, a positive edge
    /// threshold, a non-negative sweep.
    pub open spec fn valid(self) -> bool {
        &&& self.wrap_axis < 3
        &&& self.radius_axis < 3
        &&& self.wrap_axis != self.radius_axis
        &&& self.max_len > 0
        &&& self.sweep >= 0
    }
}

/// The x component of the cross product of the edge vectors `b - a` and
/// `c - a`. The cross product vector is twice the triangle's vector area.
pub open spec fn cross_x(a: Vec3, b: Vec3, c: Vec3) -> int {
    (b.y - a.y) * (c.z - a.z) - (b.z - a.z) * (c.y - a.y)
}

/// The y component of the edge cross product.
pub open spec fn cross_y(a: Vec3, b: Vec3, c: Vec3) -> int {
    (b.z - a.z) * (c.x - a.x) - (b.x - a.x) * (c.z - a.z)
}

/// The z component of the edge cross product.
pub open spec fn cross_z(a: Vec3, b: Vec3, c: Vec3) -> int {
    (b.x - a.x) * (c.y - a.y) - (b.y - a.y) * (c.x - a.x)
}

/// The full cross product of a triangle's edge vectors, componentwise.
pub open spec fn tri_cross(t: Triangle) -> (int, int, int) {
    (cross_x(t.a, t.b, t.c), cross_y(t.a, t.b, t.c), cross_z(t.a, t.b, t.c))
}

/// Every coordinate of `v` is even, so midpoints taken from `v` are exact.
pub open spec fn even_vec(v: Vec3) -> bool {
    v.x % 2 == 0 && v.y % 2 == 0 && v.z % 2 == 0
}

/// The squared Euclidean distance between two points, as a mathematical
/// integer (never overflows in specifications).
pub open spec fn side_sq(u: Vec3, v: Vec3) -> int {
    (u.x - v.x) * (u.x - v.x) + (u.y - v.y) * (u.y - v.y) + (u.z - v.z) * (u.z - v.z)
}

/// A square grows monotonically with the magnitude of its argument.
pub proof fn lemma_square_bound(v: int, m: int)
    requires
        -m <= v <= m,
    ensures
        0 <= v * v <= m * m,
{
    assert(0 <= v * v <= m * m) by (nonlinear_arith)
        requires
            -m <= v <= m,
    ;
}

/// A product is bounded by the product of the bounds on its factors.
pub proof fn lemma_mul_bound(a: int, b: int, ma: int, mb: int)
    requires
        -ma <= a <= ma,
        -mb <= b <= mb,
        0 <= ma,
        0 <= mb,
    ensures
        -(ma * mb) <= a * b <= ma * mb,
{
    assert(-(ma * mb) <= a * b <= ma * mb) by (nonlinear_arith)
        requires
            -ma <= a <= ma,
            -mb <= b <= mb,
            0 <= ma,
            0 <= mb,
    ;
}

/// The squared distance between two in-range points, computed exactly.
///
/// Edge lengths are only ever compared against the threshold, so no
/// square root is needed: comparing squares is equivalent for
/// non-negative quantities.
pub fn side_len_sq(u: &Vec3, v: &Vec3) -> (r: i128)
    requires
        u.in_range(),
        v.in_range(),
    ensures
        r == side_sq(*u, *v),
        r >= 0,
{
    let dx: i128 = u.x as i128 - v.x as i128;
    let dy: i128 = u.y as i128 - v.y as i128;
    let dz: i128 = u.z as i128 - v.z as i128;
    proof {
        lemma_square_bound(dx as int, 2 * COORD_LIMIT as int);
        lemma_square_bound(dy as int, 2 * COORD_LIMIT as int);
        lemma_square_bound(dz as int, 2 * COORD_LIMIT as int);
    }
    dx * dx + dy * dy + dz * dz
}

/// Whether any edge of the triangle is strictly longer than `max_len`.
pub open spec fn too_long(t: Triangle, max_len: int) -> bool {
    ||| side_sq(t.a, t.b) > max_len * max_len
    ||| side_sq(t.b, t.c) > max_len * max_len
    ||| side_sq(t.c, t.a) > max_len * max_len
}

/// Tests whether some edge of `t` exceeds the threshold, by comparing
/// squared lengths.
pub fn sides_too_long(t: &Triangle, max_len: i64) -> (r: bool)
    requires
        t.in_range(),
        max_len > 0,
    ensures
        r == too_long(*t, max_len as int),
{
    proof {
        lemma_square_bound(max_len as int, i64::MAX as int);
    }
    let limit: i128 = max_len as i128 * max_len as i128;
    side_len_sq(&t.a, &t.b) > limit || side_len_sq(&t.b, &t.c) > limit || side_len_sq(
        &t.c,
        &t.a,
    ) > limit
}

/// The midpoint of a segment, each coordinate rounded down to the nearest
/// representable value.
pub open spec fn mid_coord(p: i64, q: i64) -> i64 {
    (((p + q) / 2) as i64)
}

/// The midpoint of two points, coordinatewise.
pub open spec fn spec_midpoint(u: Vec3, v: Vec3) -> Vec3 {
    Vec3 { x: mid_coord(u.x, v.x), y: mid_coord(u.y, v.y), z: mid_coord(u.z, v.z) }
}

/// The floor of the average of two coordinates; it stays within the range
/// spanned by its endpoints.
fn mid_one(p: i64, q: i64) -> (r: i64)
    requires
        -COORD_LIMIT <= p <= COORD_LIMIT,
        -COORD_LIMIT <= q <= COORD_LIMIT,
    ensures
        r == mid_coord(p, q),
        -COORD_LIMIT <= r <= COORD_LIMIT,
{
    let s: i64 = p + q;
    match s.checked_div_euclid(2) {
        Some(h) => h,
        None => 0,  // unreachable: the divisor is non-zero and no overflow is possible
    }
}

/// The midpoint of the segment between two in-range points.
pub fn midpoint(u: &Vec3, v: &Vec3) -> (r: Vec3)
    requires
        u.in_range(),
        v.in_range(),
    ensures
        r == spec_midpoint(*u, *v),
        r.in_range(),
{
    Vec3 { x: mid_one(u.x, v.x), y: mid_one(u.y, v.y), z: mid_one(u.z, v.z) }
}

} // verus!
