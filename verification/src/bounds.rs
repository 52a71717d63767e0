//! Scanning a mesh for the global extent of the wrap axis.

use vstd::prelude::*;

use crate::geometry::Triangle;
use crate::geometry::Vec3;

verus! {

/// The extent of the wrap axis over a whole mesh. Valid only for a
/// non-empty mesh; an empty mesh has no bounds at all, which is why the
/// scanner returns an `Option` rather than a sentinel pair.
#[derive(Clone, Copy, PartialEq, Eq, Structural, Debug)]
pub struct Bounds {
    pub min: i64,
    pub max: i64,
}

/// The vertex of `t` selected by `j`: 0 is `a`, 1 is `b`, 2 is `c`.
pub open spec fn tri_vertex(t: Triangle, j: int) -> Vec3 {
    if j == 0 {
        t.a
    } else if j == 1 {
        t.b
    } else {
        t.c
    }
}

/// `v` covers every vertex coordinate of `t` along `axis`.
pub open spec fn bounds_cover(t: Triangle, axis: u8, b: Bounds) -> bool {
    forall|j: int| 0 <= j < 3 ==> b.min <= #[trigger] tri_vertex(t, j).axis(axis) <= b.max
}

/// The smaller of two coordinates.
pub fn min_coord(a: i64, b: i64) -> (r: i64)
    ensures
        r == if a < b {
            a
        } else {
            b
        },
{
    if a < b {
        a
    } else {
        b
    }
}

/// The larger of two coordinates.
pub fn max_coord(a: i64, b: i64) -> (r: i64)
    ensures
        r == if a > b {
            a
        } else {
            b
        },
{
    if a > b {
        a
    } else {
        b
    }
}

/// Computes the minimum and maximum coordinate of the selected axis across
/// every vertex of every triangle.
///
/// Returns `None` exactly on the empty mesh; otherwise both bounds are
/// attained by some vertex, so `min <= max` and every vertex lies between
/// them.
pub fn scan_bounds(tris: &Vec<Triangle>, axis: u8) -> (r: Option<Bounds>)
    requires
        axis < 3,
    ensures
        r is Some <==> tris@.len() > 0,
        r matches Some(b) ==> {
            &&& b.min <= b.max
            &&& forall|i: int|
                0 <= i < tris@.len() ==> #[trigger] bounds_cover(tris@[i], axis, b)
            &&& exists|i: int, j: int|
                0 <= i < tris@.len() && 0 <= j < 3 && #[trigger] tri_vertex(tris@[i], j).axis(axis) == b.min
            &&& exists|i: int, j: int|
                0 <= i < tris@.len() && 0 <= j < 3 && #[trigger] tri_vertex(tris@[i], j).axis(axis) == b.max
        },
{
    if tris.len() == 0 {
        return None;
    }
    let first: i64 = tris[0].a.get_axis(axis);
    let mut lo: i64 = first;
    let mut hi: i64 = first;
    assert(tri_vertex(tris@[0], 0) == tris@[0].a);
    let mut i: usize = 0;
    while i < tris.len()
        invariant
            axis < 3,
            0 <= i <= tris@.len(),
            tris@.len() > 0,
            lo <= hi,
            forall|k: int|
                0 <= k < i ==> #[trigger] bounds_cover(tris@[k], axis, Bounds { min: lo, max: hi }),
            exists|k: int, j: int|
                0 <= k < tris@.len() && 0 <= j < 3 && #[trigger] tri_vertex(tris@[k], j).axis(axis) == lo,
            exists|k: int, j: int|
                0 <= k < tris@.len() && 0 <= j < 3 && #[trigger] tri_vertex(tris@[k], j).axis(axis) == hi,
        decreases tris@.len() - i,
    {
        let ghost lo0: i64 = lo;
        let ghost hi0: i64 = hi;
        let t = &tris[i];
        let ca: i64 = t.a.get_axis(axis);
        let cb: i64 = t.b.get_axis(axis);
        let cc: i64 = t.c.get_axis(axis);
        assert(tri_vertex(tris@[i as int], 0) == tris@[i as int].a);
        assert(tri_vertex(tris@[i as int], 1) == tris@[i as int].b);
        assert(tri_vertex(tris@[i as int], 2) == tris@[i as int].c);
        lo = min_coord(lo, min_coord(ca, min_coord(cb, cc)));
        hi = max_coord(hi, max_coord(ca, max_coord(cc, cb)));
        assert(lo == lo0 || lo == ca || lo == cb || lo == cc);
        assert(hi == hi0 || hi == ca || hi == cb || hi == cc);
        assert forall|k: int| 0 <= k < i + 1 implies #[trigger] bounds_cover(
            tris@[k],
            axis,
            Bounds { min: lo, max: hi },
        ) by {
            if k < i {
                assert(bounds_cover(tris@[k], axis, Bounds { min: lo0, max: hi0 }));
                assert forall|j: int| 0 <= j < 3 implies lo <= #[trigger] tri_vertex(
                    tris@[k],
                    j,
                ).axis(axis) <= hi by {
                    assert(lo0 <= tri_vertex(tris@[k], j).axis(axis) <= hi0);
                }
            } else {
                assert forall|j: int| 0 <= j < 3 implies lo <= #[trigger] tri_vertex(
                    tris@[k],
                    j,
                ).axis(axis) <= hi by {}
            }
        }
        i = i + 1;
    }
    Some(Bounds { min: lo, max: hi })
}

} // verus!
