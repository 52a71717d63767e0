//! Recomputing triangle normals from mapped vertices.
//!
//! The cylindrical mapping is not affine, so a triangle's original normal
//! is stale after mapping; the correct normal is recomputed from the edge
//! cross product and normalized. The normal is produced in `NORMAL_ONE`
//! fixed point: a unit vector has components of magnitude up to
//! `NORMAL_ONE`. A degenerate triangle (zero-length cross product) gets
//! the zero vector by policy, never a division by zero.

use vstd::arithmetic::div_mod::lemma_div_by_self;
use vstd::arithmetic::div_mod::lemma_div_is_ordered;
use vstd::arithmetic::div_mod::lemma_div_multiples_vanish;
use vstd::prelude::*;

use crate::geometry::Vec3;
use crate::geometry::cross_x;
use crate::geometry::cross_y;
use crate::geometry::cross_z;
use crate::geometry::lemma_mul_bound;
use crate::geometry::lemma_square_bound;

verus! {

/// The fixed-point unit for normal components: a component of 1.0 is
/// represented as this value.
pub const NORMAL_ONE: i64 = 65536;

/// The largest square-root argument the search below supports.
pub const SQRT_INPUT_LIMIT: u128 = 21267647932558653966460912964485513216;

/// The bound the square-root binary search starts from; its square is
/// `SQRT_INPUT_LIMIT`.
pub const SQRT_RESULT_BOUND: u128 = 4611686018427387904;

/// The integer square root, rounded down: the unique non-negative `r` with
/// `r * r <= n < (r + 1) * (r + 1)`.
pub open spec fn sqrt_floor(n: int) -> int {
    choose|r: int| r >= 0 && #[trigger] (r * r) <= n < (r + 1) * (r + 1)
}

/// Any non-negative integer whose square is at most `n`, with the next
/// square above `n`, is the floor square root of `n`.
pub proof fn lemma_sqrt_floor_is(n: int, r: int)
    requires
        0 <= r,
        r * r <= n,
        n < (r + 1) * (r + 1),
    ensures
        sqrt_floor(n) == r,
{
    assert(r >= 0 && r * r <= n < (r + 1) * (r + 1));
    assert(exists|q: int| q >= 0 && #[trigger] (q * q) <= n < (q + 1) * (q + 1));
    let q = sqrt_floor(n);
    assert(q >= 0 && q * q <= n < (q + 1) * (q + 1));
    assert(q == r) by (nonlinear_arith)
        requires
            q >= 0,
            r >= 0,
            q * q <= n,
            n < (q + 1) * (q + 1),
            r * r <= n,
            n < (r + 1) * (r + 1),
    ;
}

/// Computes the integer square root by binary search on the result.
pub fn isqrt(n: u128) -> (r: u128)
    requires
        n < SQRT_INPUT_LIMIT,
    ensures
        r * r <= n < (r + 1) * (r + 1),
        r == sqrt_floor(n as int),
        r < SQRT_RESULT_BOUND,
{
    let mut lo: u128 = 0;
    let mut hi: u128 = SQRT_RESULT_BOUND;
    assert(SQRT_RESULT_BOUND * SQRT_RESULT_BOUND == SQRT_INPUT_LIMIT) by (nonlinear_arith);
    while lo + 1 < hi
        invariant
            lo < hi <= SQRT_RESULT_BOUND,
            lo * lo <= n,
            n < hi * hi,
        decreases hi - lo,
    {
        let mid: u128 = lo + (hi - lo) / 2;
        proof {
            lemma_mul_bound(mid as int, mid as int, hi as int, hi as int);
            lemma_square_bound(hi as int, SQRT_RESULT_BOUND as int);
            assert((SQRT_RESULT_BOUND as int * SQRT_RESULT_BOUND as int) < u128::MAX) by (nonlinear_arith);
        }
        if mid * mid <= n {
            lo = mid;
        } else {
            hi = mid;
        }
    }
    proof {
        lemma_sqrt_floor_is(n as int, lo as int);
    }
    lo
}

/// The recomputed normal of a triangle: the edge cross product scaled to
/// `NORMAL_ONE` fixed-point unit length, or the zero vector when the cross
/// product vanishes (a degenerate triangle).
pub open spec fn normal_spec(a: Vec3, b: Vec3, c: Vec3) -> Vec3 {
    let nx = cross_x(a, b, c);
    let ny = cross_y(a, b, c);
    let nz = cross_z(a, b, c);
    let l = sqrt_floor(nx * nx + ny * ny + nz * nz);
    if l == 0 {
        Vec3 { x: 0, y: 0, z: 0 }
    } else {
        Vec3 {
            x: ((nx * NORMAL_ONE) / l) as i64,
            y: ((ny * NORMAL_ONE) / l) as i64,
            z: ((nz * NORMAL_ONE) / l) as i64,
        }
    }
}

/// A component of a vector is no longer than the vector: its square is at
/// most the squared length, which the floor square root's square dominates
/// up to the next square.
proof fn lemma_component_le_len(v: int, len2: int, l: int)
    requires
        v * v <= len2,
        len2 < (l + 1) * (l + 1),
        l >= 0,
    ensures
        -l <= v <= l,
{
    assert(-l <= v <= l) by (nonlinear_arith)
        requires
            v * v <= len2,
            len2 < (l + 1) * (l + 1),
            l >= 0,
    ;
}

/// A quotient by a positive divisor stays within a symmetric bound that
/// the dividend respects as a multiple of the divisor.
proof fn lemma_div_range(p: int, l: int, m: int)
    requires
        l > 0,
        0 <= m,
        -(l * m) <= p <= l * m,
    ensures
        -m <= p / l <= m,
{
    lemma_div_multiples_vanish(m, l);
    lemma_div_multiples_vanish(-m, l);
    assert(l * -m == -(l * m)) by (nonlinear_arith);
    lemma_div_is_ordered(p, l * m, l);
    lemma_div_is_ordered(l * -m, p, l);
}

/// Divides one cross-product component by the cross product's length, in
/// `NORMAL_ONE` fixed point.
fn normal_component(v: i128, l: u128, len2: u128) -> (r: i64)
    requires
        0 < l < SQRT_RESULT_BOUND,
        v * v <= len2,
        len2 < (l + 1) * (l + 1),
    ensures
        r == ((v * NORMAL_ONE) / (l as int)) as i64,
        -NORMAL_ONE <= r <= NORMAL_ONE,
{
    proof {
        lemma_component_le_len(v as int, len2 as int, l as int);
        lemma_mul_bound(v as int, NORMAL_ONE as int, l as int, NORMAL_ONE as int);
        lemma_square_bound(l as int, SQRT_RESULT_BOUND as int);
        assert((SQRT_RESULT_BOUND as int * NORMAL_ONE as int) < i128::MAX) by (nonlinear_arith);
        lemma_div_range(v as int * NORMAL_ONE as int, l as int, NORMAL_ONE as int);
    }
    let p: i128 = v * (NORMAL_ONE as i128);
    let q: i128 = match p.checked_div_euclid(l as i128) {
        Some(h) => h,
        None => 0,  // unreachable: the divisor is positive and no overflow is possible
    };
    q as i64
}

/// Recomputes a triangle's normal from its three (mapped) vertices.
///
/// The result is exactly the cross product of the edges `b - a` and
/// `c - a`, scaled to `NORMAL_ONE` fixed-point unit length by the floor
/// square root; a degenerate triangle yields the zero vector, by policy
/// rather than by error.
#[verifier::rlimit(30)]
pub fn tri_normal(a: &Vec3, b: &Vec3, c: &Vec3) -> (r: Vec3)
    requires
        a.in_range(),
        b.in_range(),
        c.in_range(),
    ensures
        r == normal_spec(*a, *b, *c),
        cross_x(*a, *b, *c) == 0 && cross_y(*a, *b, *c) == 0 && cross_z(*a, *b, *c) == 0 ==> r
            == (Vec3 { x: 0, y: 0, z: 0 }),
        -NORMAL_ONE <= r.x <= NORMAL_ONE,
        -NORMAL_ONE <= r.y <= NORMAL_ONE,
        -NORMAL_ONE <= r.z <= NORMAL_ONE,
{
    let e1x: i128 = b.x as i128 - a.x as i128;
    let e1y: i128 = b.y as i128 - a.y as i128;
    let e1z: i128 = b.z as i128 - a.z as i128;
    let e2x: i128 = c.x as i128 - a.x as i128;
    let e2y: i128 = c.y as i128 - a.y as i128;
    let e2z: i128 = c.z as i128 - a.z as i128;
    proof {
        let d: int = 2 * crate::geometry::COORD_LIMIT as int;
        lemma_mul_bound(e1y as int, e2z as int, d, d);
        lemma_mul_bound(e1z as int, e2y as int, d, d);
        lemma_mul_bound(e1z as int, e2x as int, d, d);
        lemma_mul_bound(e1x as int, e2z as int, d, d);
        lemma_mul_bound(e1x as int, e2y as int, d, d);
        lemma_mul_bound(e1y as int, e2x as int, d, d);
    }
    let nx: i128 = e1y * e2z - e1z * e2y;
    let ny: i128 = e1z * e2x - e1x * e2z;
    let nz: i128 = e1x * e2y - e1y * e2x;
    proof {
        // Each cross component is at most 2^61 in magnitude, so each
        // square is at most 2^122 and their sum stays well inside i128.
        let lim: int = 2305843009213693952;
        assert(-lim <= nx <= lim);
        assert(-lim <= ny <= lim);
        assert(-lim <= nz <= lim);
        lemma_square_bound(nx as int, lim);
        lemma_square_bound(ny as int, lim);
        lemma_square_bound(nz as int, lim);
        assert(lim * lim == 5316911983139663491615228241121378304) by (nonlinear_arith)
            requires
                lim == 2305843009213693952,
        ;
    }
    let len2: i128 = nx * nx + ny * ny + nz * nz;
    let l: u128 = isqrt(len2 as u128);
    if l == 0 {
        proof {
            assert(len2 >= 0);
            assert(len2 as u128 == len2);
            assert((l + 1) * (l + 1) == 1) by (nonlinear_arith)
                requires
                    l == 0,
            ;
            assert(len2 < 1);
            assert(nx == 0 && ny == 0 && nz == 0) by (nonlinear_arith)
                requires
                    nx * nx + ny * ny + nz * nz < 1,
            ;
        }
        return Vec3 { x: 0, y: 0, z: 0 };
    }
    Vec3 {
        x: normal_component(nx, l, len2 as u128),
        y: normal_component(ny, l, len2 as u128),
        z: normal_component(nz, l, len2 as u128),
    }
}

/// Every non-negative integer has a floor square root.
pub proof fn lemma_sqrt_floor_exists(n: int)
    requires
        n >= 0,
    ensures
        sqrt_floor(n) >= 0,
        sqrt_floor(n) * sqrt_floor(n) <= n,
        n < (sqrt_floor(n) + 1) * (sqrt_floor(n) + 1),
    decreases n,
{
    if n == 0 {
        lemma_sqrt_floor_is(0, 0);
    } else {
        lemma_sqrt_floor_exists(n - 1);
        let r0 = sqrt_floor(n - 1);
        if n < (r0 + 1) * (r0 + 1) {
            lemma_sqrt_floor_is(n, r0);
        } else {
            let r1 = r0 + 1;
            assert(n == r1 * r1);
            assert(n < (r1 + 1) * (r1 + 1)) by (nonlinear_arith)
                requires
                    n == r1 * r1,
                    r1 >= 0,
            ;
            lemma_sqrt_floor_is(n, r1);
        }
    }
}

/// A component that carries at least a third of the squared length gets a
/// non-zero quotient when scaled to `NORMAL_ONE` and divided by the floor
/// length.
proof fn lemma_quotient_unit(v: int, l: int)
    requires
        l >= 1,
        3 * (v * v) >= l * l,
        v != 0,
    ensures
        v > 0 ==> (v * NORMAL_ONE) / l >= 1,
        v < 0 ==> (v * NORMAL_ONE) / l <= -1,
{
    let p = v * (NORMAL_ONE as int);
    if v > 0 {
        assert(p >= l) by (nonlinear_arith)
            requires
                p == v * 65536,
                l >= 1,
                3 * (v * v) >= l * l,
                v > 0,
        ;
        lemma_div_is_ordered(l, p, l);
        lemma_div_by_self(l);
    } else {
        assert(p <= -l) by (nonlinear_arith)
            requires
                p == v * 65536,
                l >= 1,
                3 * (v * v) >= l * l,
                v < 0,
        ;
        lemma_div_is_ordered(p, -l, l);
        lemma_div_multiples_vanish(-1, l);
        assert(l * -1 == -l);
    }
}

/// A triangle with a non-vanishing cross product never gets the zero
/// normal: the recomputed normal's largest component keeps at least one
/// fixed-point step of magnitude.
pub proof fn lemma_nondegenerate_normal(a: Vec3, b: Vec3, c: Vec3)
    requires
        cross_x(a, b, c) != 0 || cross_y(a, b, c) != 0 || cross_z(a, b, c) != 0,
    ensures
        normal_spec(a, b, c) != (Vec3 { x: 0, y: 0, z: 0 }),
{
    let nx = cross_x(a, b, c);
    let ny = cross_y(a, b, c);
    let nz = cross_z(a, b, c);
    let len2 = nx * nx + ny * ny + nz * nz;
    assert(len2 >= 1) by (nonlinear_arith)
        requires
            len2 == nx * nx + ny * ny + nz * nz,
            nx != 0 || ny != 0 || nz != 0,
    ;
    assert(nx * nx >= 0 && ny * ny >= 0 && nz * nz >= 0) by (nonlinear_arith);
    lemma_sqrt_floor_exists(len2);
    let l = sqrt_floor(len2);
    assert(l >= 1) by (nonlinear_arith)
        requires
            l >= 0,
            (l + 1) * (l + 1) > len2,
            len2 >= 1,
    ;
    if nx * nx >= ny * ny && nx * nx >= nz * nz {
        assert(3 * (nx * nx) >= l * l);
        assert(nx != 0) by (nonlinear_arith)
            requires
                3 * (nx * nx) >= l * l,
                l >= 1,
        ;
        lemma_quotient_unit(nx, l);
        lemma_component_le_len(nx, len2, l);
        assert(-(l * NORMAL_ONE) <= nx * NORMAL_ONE <= l * NORMAL_ONE) by (nonlinear_arith)
            requires
                -l <= nx <= l,
                l >= 1,
        ;
        lemma_div_range(nx * (NORMAL_ONE as int), l, NORMAL_ONE as int);
        assert(normal_spec(a, b, c).x != 0);
    } else if ny * ny >= nz * nz {
        assert(3 * (ny * ny) >= l * l);
        assert(ny != 0) by (nonlinear_arith)
            requires
                3 * (ny * ny) >= l * l,
                l >= 1,
        ;
        lemma_quotient_unit(ny, l);
        lemma_component_le_len(ny, len2, l);
        assert(-(l * NORMAL_ONE) <= ny * NORMAL_ONE <= l * NORMAL_ONE) by (nonlinear_arith)
            requires
                -l <= ny <= l,
                l >= 1,
        ;
        lemma_div_range(ny * (NORMAL_ONE as int), l, NORMAL_ONE as int);
        assert(normal_spec(a, b, c).y != 0);
    } else {
        assert(3 * (nz * nz) >= l * l);
        assert(nz != 0) by (nonlinear_arith)
            requires
                3 * (nz * nz) >= l * l,
                l >= 1,
        ;
        lemma_quotient_unit(nz, l);
        lemma_component_le_len(nz, len2, l);
        assert(-(l * NORMAL_ONE) <= nz * NORMAL_ONE <= l * NORMAL_ONE) by (nonlinear_arith)
            requires
                -l <= nz <= l,
                l >= 1,
        ;
        lemma_div_range(nz * (NORMAL_ONE as int), l, NORMAL_ONE as int);
        assert(normal_spec(a, b, c).z != 0);
    }
}

/// The recomputed normal is the zero vector exactly on the degenerate
/// triangles: those whose edge cross product vanishes.
pub proof fn lemma_normal_zero_iff(a: Vec3, b: Vec3, c: Vec3)
    ensures
        normal_spec(a, b, c) == (Vec3 { x: 0, y: 0, z: 0 }) <==> (cross_x(a, b, c) == 0
            && cross_y(a, b, c) == 0 && cross_z(a, b, c) == 0),
{
    if cross_x(a, b, c) == 0 && cross_y(a, b, c) == 0 && cross_z(a, b, c) == 0 {
        lemma_sqrt_floor_is(0, 0);
    } else {
        lemma_nondegenerate_normal(a, b, c);
    }
}

/// Two planar integer vectors that are parallel — a non-trivial integer
/// scaling relates them — have a vanishing determinant.
proof fn lemma_parallel_det(p: int, q: int, u1: int, u2: int, v1: int, v2: int)
    requires
        p * u1 == q * v1,
        p * u2 == q * v2,
        p != 0 || q != 0,
    ensures
        u1 * v2 - u2 * v1 == 0,
{
    assert(u1 * v2 - u2 * v1 == 0) by (nonlinear_arith)
        requires
            p * u1 == q * v1,
            p * u2 == q * v2,
            p != 0 || q != 0,
    ;
}

/// A triangle whose two edge vectors are related by a non-trivial integer
/// scaling — in particular any triangle with collinear vertices on an
/// integer-scalable line — has a zero cross product, and so recomputation
/// assigns it the zero normal.
pub proof fn lemma_degenerate_normal(a: Vec3, b: Vec3, c: Vec3, p: int, q: int)
    requires
        p * (b.x - a.x) == q * (c.x - a.x),
        p * (b.y - a.y) == q * (c.y - a.y),
        p * (b.z - a.z) == q * (c.z - a.z),
        p != 0 || q != 0,
    ensures
        cross_x(a, b, c) == 0,
        cross_y(a, b, c) == 0,
        cross_z(a, b, c) == 0,
        normal_spec(a, b, c) == (Vec3 { x: 0, y: 0, z: 0 }),
{
    lemma_parallel_det(p, q, b.y - a.y, b.z - a.z, c.y - a.y, c.z - a.z);
    lemma_parallel_det(p, q, b.z - a.z, b.x - a.x, c.z - a.z, c.x - a.x);
    lemma_parallel_det(p, q, b.x - a.x, b.y - a.y, c.x - a.x, c.y - a.y);
    lemma_sqrt_floor_is(0, 0);
}

/// A triangle with two identical vertices is degenerate: its recomputed
/// normal is the zero vector.
pub proof fn lemma_identical_vertices(a: Vec3, b: Vec3, c: Vec3)
    requires
        a == b || b == c || c == a,
    ensures
        normal_spec(a, b, c) == (Vec3 { x: 0, y: 0, z: 0 }),
{
    if a == b {
        lemma_degenerate_normal(a, b, c, 1, 0);
    } else if b == c {
        lemma_degenerate_normal(a, b, c, 1, 1);
    } else {
        lemma_degenerate_normal(a, b, c, 0, 1);
    }
}

} // verus!
