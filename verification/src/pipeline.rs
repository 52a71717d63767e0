//! The mesh-level stages around the per-vertex mapping: computing every
//! vertex's angle, and rebuilding every triangle from its wrapped vertices
//! with a freshly recomputed normal.
//!
//! The caller sits between the two stages: it turns each angle into a
//! cosine and sine (a floating-point evaluation) scaled by `TRIG_ONE`, and
//! hands them back. Everything on both sides of that evaluation is
//! verified.

use vstd::prelude::*;

use crate::bounds::Bounds;
use crate::bounds::bounds_cover;
use crate::bounds::tri_vertex;
use crate::geometry::COORD_LIMIT;
use crate::geometry::Config;
use crate::geometry::Triangle;
use crate::normal::normal_spec;
use crate::normal::tri_normal;
use crate::wrap::TRIG_ONE;
use crate::wrap::angle_spec;
use crate::wrap::wrap_angle;
use crate::wrap::wrap_vertex;
use crate::wrap::wrap_vertex_spec;

verus! {

/// The three per-vertex angles of one triangle, in the sweep's fixed-point
/// unit.
#[derive(Clone, Copy, PartialEq, Eq, Structural, Debug)]
pub struct TriangleAngles {
    pub a: i64,
    pub b: i64,
    pub c: i64,
}

/// The cosine and sine of one vertex's angle, in `TRIG_ONE` fixed point.
#[derive(Clone, Copy, PartialEq, Eq, Structural, Debug)]
pub struct VertexTrig {
    pub cos: i64,
    pub sin: i64,
}

impl VertexTrig {
    /// Cosine and sine magnitudes never exceed one.
    pub open spec fn bounded(self) -> bool {
        &&& -TRIG_ONE <= self.cos <= TRIG_ONE
        &&& -TRIG_ONE <= self.sin <= TRIG_ONE
    }
}

/// The trigonometric values for the three vertices of one triangle.
#[derive(Clone, Copy, PartialEq, Eq, Structural, Debug)]
pub struct TriangleTrig {
    pub a: VertexTrig,
    pub b: VertexTrig,
    pub c: VertexTrig,
}

impl TriangleTrig {
    /// All six values within the fixed-point unit.
    pub open spec fn bounded(self) -> bool {
        self.a.bounded() && self.b.bounded() && self.c.bounded()
    }
}

/// Computes the wrap angle of every vertex of every triangle, against the
/// scanned bounds and the configured sweep.
pub fn mesh_angles(tris: &Vec<Triangle>, cfg: &Config, b: &Bounds) -> (r: Vec<TriangleAngles>)
    requires
        cfg.valid(),
        -COORD_LIMIT <= b.min <= COORD_LIMIT,
        -COORD_LIMIT <= b.max <= COORD_LIMIT,
        forall|i: int| 0 <= i < tris@.len() ==> #[trigger] bounds_cover(tris@[i], cfg.wrap_axis, *b),
    ensures
        r@.len() == tris@.len(),
        forall|i: int|
            0 <= i < tris@.len() ==> #[trigger] r@[i] == (TriangleAngles {
                a: angle_spec(tris@[i].a.axis(cfg.wrap_axis), *b, cfg.sweep) as i64,
                b: angle_spec(tris@[i].b.axis(cfg.wrap_axis), *b, cfg.sweep) as i64,
                c: angle_spec(tris@[i].c.axis(cfg.wrap_axis), *b, cfg.sweep) as i64,
            }),
{
    let mut out: Vec<TriangleAngles> = Vec::new();
    let mut i: usize = 0;
    while i < tris.len()
        invariant
            cfg.valid(),
            -COORD_LIMIT <= b.min <= COORD_LIMIT,
            -COORD_LIMIT <= b.max <= COORD_LIMIT,
            forall|k: int|
                0 <= k < tris@.len() ==> #[trigger] bounds_cover(tris@[k], cfg.wrap_axis, *b),
            0 <= i <= tris@.len(),
            out@.len() == i,
            forall|k: int|
                0 <= k < i ==> #[trigger] out@[k] == (TriangleAngles {
                    a: angle_spec(tris@[k].a.axis(cfg.wrap_axis), *b, cfg.sweep) as i64,
                    b: angle_spec(tris@[k].b.axis(cfg.wrap_axis), *b, cfg.sweep) as i64,
                    c: angle_spec(tris@[k].c.axis(cfg.wrap_axis), *b, cfg.sweep) as i64,
                }),
        decreases tris@.len() - i,
    {
        let t = &tris[i];
        proof {
            assert(bounds_cover(tris@[i as int], cfg.wrap_axis, *b));
            assert(tri_vertex(tris@[i as int], 0) == tris@[i as int].a);
            assert(tri_vertex(tris@[i as int], 1) == tris@[i as int].b);
            assert(tri_vertex(tris@[i as int], 2) == tris@[i as int].c);
        }
        let aa: i64 = wrap_angle(t.a.get_axis(cfg.wrap_axis), b, cfg.sweep);
        let ab: i64 = wrap_angle(t.b.get_axis(cfg.wrap_axis), b, cfg.sweep);
        let ac: i64 = wrap_angle(t.c.get_axis(cfg.wrap_axis), b, cfg.sweep);
        out.push(TriangleAngles { a: aa, b: ab, c: ac });
        i = i + 1;
    }
    out
}

/// One triangle after mapping: each vertex wrapped with its own
/// trigonometric values, the attribute kept, and the normal recomputed
/// from the wrapped vertices — the pre-mapping normal is stale because the
/// cylindrical transform is not affine.
pub open spec fn wrap_tri_spec(t: Triangle, cfg: Config, tr: TriangleTrig) -> Triangle {
    let va = wrap_vertex_spec(t.a, cfg.wrap_axis, cfg.radius_axis, tr.a.cos, tr.a.sin);
    let vb = wrap_vertex_spec(t.b, cfg.wrap_axis, cfg.radius_axis, tr.b.cos, tr.b.sin);
    let vc = wrap_vertex_spec(t.c, cfg.wrap_axis, cfg.radius_axis, tr.c.cos, tr.c.sin);
    Triangle { normal: normal_spec(va, vb, vc), a: va, b: vb, c: vc, attr: t.attr }
}

/// Wraps one triangle onto the cylinder and recomputes its normal.
pub fn wrap_tri(t: &Triangle, cfg: &Config, tr: &TriangleTrig) -> (r: Triangle)
    requires
        cfg.valid(),
        t.in_range(),
        tr.bounded(),
    ensures
        r == wrap_tri_spec(*t, *cfg, *tr),
        r.in_range(),
{
    let va = wrap_vertex(&t.a, cfg.wrap_axis, cfg.radius_axis, tr.a.cos, tr.a.sin);
    let vb = wrap_vertex(&t.b, cfg.wrap_axis, cfg.radius_axis, tr.b.cos, tr.b.sin);
    let vc = wrap_vertex(&t.c, cfg.wrap_axis, cfg.radius_axis, tr.c.cos, tr.c.sin);
    let n = tri_normal(&va, &vb, &vc);
    Triangle { normal: n, a: va, b: vb, c: vc, attr: t.attr }
}

/// Wraps a whole mesh onto the cylinder: every vertex mapped with its own
/// trigonometric values, every normal recomputed from the mapped vertices,
/// every attribute and the triangle order preserved.
pub fn wrap_mesh(tris: &Vec<Triangle>, cfg: &Config, trig: &Vec<TriangleTrig>) -> (r: Vec<Triangle>)
    requires
        cfg.valid(),
        trig@.len() == tris@.len(),
        forall|i: int| 0 <= i < tris@.len() ==> (#[trigger] tris@[i]).in_range(),
        forall|i: int| 0 <= i < trig@.len() ==> (#[trigger] trig@[i]).bounded(),
    ensures
        r@.len() == tris@.len(),
        forall|i: int|
            0 <= i < tris@.len() ==> #[trigger] r@[i] == wrap_tri_spec(tris@[i], *cfg, trig@[i]),
{
    let mut out: Vec<Triangle> = Vec::new();
    let mut i: usize = 0;
    while i < tris.len()
        invariant
            cfg.valid(),
            trig@.len() == tris@.len(),
            forall|k: int| 0 <= k < tris@.len() ==> (#[trigger] tris@[k]).in_range(),
            forall|k: int| 0 <= k < trig@.len() ==> (#[trigger] trig@[k]).bounded(),
            0 <= i <= tris@.len(),
            out@.len() == i,
            forall|k: int|
                0 <= k < i ==> #[trigger] out@[k] == wrap_tri_spec(tris@[k], *cfg, trig@[k]),
        decreases tris@.len() - i,
    {
        let w = wrap_tri(&tris[i], cfg, &trig[i]);
        out.push(w);
        i = i + 1;
    }
    out
}

} // verus!
