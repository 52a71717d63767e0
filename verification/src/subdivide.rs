//! Adaptive refinement: triangles whose edges exceed the configured
//! threshold are split by the midpoint quad-split until every edge fits,
//! under a hard depth cap that turns pathological geometry into an error
//! instead of unbounded recursion.

use vstd::prelude::*;

use crate::geometry::Config;
use crate::geometry::Triangle;
use crate::geometry::Vec3;
use crate::geometry::cross_x;
use crate::geometry::cross_y;
use crate::geometry::cross_z;
use crate::geometry::even_vec;
use crate::geometry::tri_cross;
use crate::geometry::midpoint;
use crate::geometry::sides_too_long;
use crate::geometry::spec_midpoint;
use crate::geometry::side_sq;
use crate::geometry::too_long;

verus! {

/// Subdivision exceeded the configured depth cap; the triangle that could
/// not be refined further is surfaced for diagnosis.
#[derive(Clone, Copy, PartialEq, Eq, Structural, Debug)]
pub struct RefineOverflow {
    pub triangle: Triangle,
}

/// The corner child of the quad-split that keeps vertex `a`.
pub open spec fn child_a(t: Triangle) -> Triangle {
    Triangle {
        normal: t.normal,
        a: t.a,
        b: spec_midpoint(t.a, t.b),
        c: spec_midpoint(t.c, t.a),
        attr: t.attr,
    }
}

/// The corner child of the quad-split that keeps vertex `b`.
pub open spec fn child_b(t: Triangle) -> Triangle {
    Triangle {
        normal: t.normal,
        a: t.b,
        b: spec_midpoint(t.b, t.c),
        c: spec_midpoint(t.a, t.b),
        attr: t.attr,
    }
}

/// The corner child of the quad-split that keeps vertex `c`.
pub open spec fn child_c(t: Triangle) -> Triangle {
    Triangle {
        normal: t.normal,
        a: t.c,
        b: spec_midpoint(t.c, t.a),
        c: spec_midpoint(t.b, t.c),
        attr: t.attr,
    }
}

/// The center child of the quad-split, made of the three edge midpoints.
pub open spec fn child_m(t: Triangle) -> Triangle {
    Triangle {
        normal: t.normal,
        a: spec_midpoint(t.a, t.b),
        b: spec_midpoint(t.b, t.c),
        c: spec_midpoint(t.c, t.a),
        attr: t.attr,
    }
}

/// What refining one triangle yields: the depth-first sequence of
/// triangles whose edges all fit the threshold, or, when `fuel` levels of
/// splitting do not suffice, the first offending triangle in depth-first
/// order.
pub open spec fn refine(t: Triangle, max_len: int, fuel: nat) -> Result<Seq<Triangle>, Triangle>
    decreases fuel,
{
    if !too_long(t, max_len) {
        Ok(seq![t])
    } else if fuel == 0 {
        Err(t)
    } else {
        match refine(child_a(t), max_len, (fuel - 1) as nat) {
            Err(e) => Err(e),
            Ok(s1) => match refine(child_b(t), max_len, (fuel - 1) as nat) {
                Err(e) => Err(e),
                Ok(s2) => match refine(child_c(t), max_len, (fuel - 1) as nat) {
                    Err(e) => Err(e),
                    Ok(s3) => match refine(child_m(t), max_len, (fuel - 1) as nat) {
                        Err(e) => Err(e),
                        Ok(s4) => Ok(s1 + s2 + s3 + s4),
                    },
                },
            },
        }
    }
}

/// Every triangle a successful refinement yields has all three edges
/// within the threshold: the terminal case of `refine` admits a triangle
/// only after the edge test has passed.
pub proof fn lemma_refined_within(t: Triangle, max_len: int, fuel: nat)
    ensures
        refine(t, max_len, fuel) matches Ok(s) ==> forall|i: int|
            0 <= i < s.len() ==> !too_long(#[trigger] s[i], max_len),
    decreases fuel,
{
    if !too_long(t, max_len) {
    } else if fuel == 0 {
    } else {
        let f1 = (fuel - 1) as nat;
        lemma_refined_within(child_a(t), max_len, f1);
        lemma_refined_within(child_b(t), max_len, f1);
        lemma_refined_within(child_c(t), max_len, f1);
        lemma_refined_within(child_m(t), max_len, f1);
        if refine(t, max_len, fuel) is Ok {
            let s = refine(t, max_len, fuel)->Ok_0;
            let s1 = refine(child_a(t), max_len, f1)->Ok_0;
            let s2 = refine(child_b(t), max_len, f1)->Ok_0;
            let s3 = refine(child_c(t), max_len, f1)->Ok_0;
            let s4 = refine(child_m(t), max_len, f1)->Ok_0;
            assert(s == s1 + s2 + s3 + s4);
            assert forall|i: int| 0 <= i < s.len() implies !too_long(#[trigger] s[i], max_len) by {
                if i < s1.len() {
                    assert(s[i] == s1[i]);
                } else if i < s1.len() + s2.len() {
                    assert(s[i] == s2[i - s1.len()]);
                } else if i < s1.len() + s2.len() + s3.len() {
                    assert(s[i] == s3[i - s1.len() - s2.len()]);
                } else {
                    assert(s[i] == s4[i - s1.len() - s2.len() - s3.len()]);
                }
            }
        }
    }
}

/// Splits one triangle until every edge fits, appending the results.
///
/// On success the appended block is exactly what `refine` describes; on
/// overflow of the depth cap the error carries the triangle `refine`
/// blames, and whatever was appended before the failure is left in place.
#[verifier::rlimit(50)]
pub fn subdivide(t: &Triangle, max_len: i64, fuel: u32, out: &mut Vec<Triangle>) -> (r: Result<
    (),
    RefineOverflow,
>)
    requires
        t.in_range(),
        max_len > 0,
        forall|i: int| 0 <= i < old(out)@.len() ==> (#[trigger] old(out)@[i]).in_range(),
    ensures
        forall|i: int| 0 <= i < final(out)@.len() ==> (#[trigger] final(out)@[i]).in_range(),
        match r {
            Ok(_) => refine(*t, max_len as int, fuel as nat) matches Ok(s) && final(out)@ == old(
                out,
            )@ + s,
            Err(e) => refine(*t, max_len as int, fuel as nat) == Err::<Seq<Triangle>, Triangle>(
                e.triangle,
            ) && old(out)@.is_prefix_of(final(out)@),
        },
    decreases fuel,
{
    if !sides_too_long(t, max_len) {
        out.push(*t);
        assert(out@ =~= old(out)@ + seq![*t]);
        return Ok(());
    }
    if fuel == 0 {
        assert(old(out)@.is_prefix_of(out@)) by {
            assert(out@.take(old(out)@.len() as int) =~= old(out)@);
        }
        return Err(RefineOverflow { triangle: *t });
    }
    let mab = midpoint(&t.a, &t.b);
    let mbc = midpoint(&t.b, &t.c);
    let mca = midpoint(&t.c, &t.a);
    let t1 = Triangle { normal: t.normal, a: t.a, b: mab, c: mca, attr: t.attr };
    let t2 = Triangle { normal: t.normal, a: t.b, b: mbc, c: mab, attr: t.attr };
    let t3 = Triangle { normal: t.normal, a: t.c, b: mca, c: mbc, attr: t.attr };
    let t4 = Triangle { normal: t.normal, a: mab, b: mbc, c: mca, attr: t.attr };
    assert(t1 == child_a(*t) && t2 == child_b(*t) && t3 == child_c(*t) && t4 == child_m(*t));
    let ghost base = out@;
    match subdivide(&t1, max_len, fuel - 1, out) {
        Err(e) => {
            assert(base.is_prefix_of(out@)) by {
                assert(out@.take(base.len() as int) =~= base);
            }
            return Err(e);
        },
        Ok(_) => {},
    }
    match subdivide(&t2, max_len, fuel - 1, out) {
        Err(e) => {
            assert(base.is_prefix_of(out@)) by {
                assert(out@.take(base.len() as int) =~= base);
            }
            return Err(e);
        },
        Ok(_) => {},
    }
    match subdivide(&t3, max_len, fuel - 1, out) {
        Err(e) => {
            assert(base.is_prefix_of(out@)) by {
                assert(out@.take(base.len() as int) =~= base);
            }
            return Err(e);
        },
        Ok(_) => {},
    }
    match subdivide(&t4, max_len, fuel - 1, out) {
        Err(e) => {
            assert(base.is_prefix_of(out@)) by {
                assert(out@.take(base.len() as int) =~= base);
            }
            return Err(e);
        },
        Ok(_) => {},
    }
    proof {
        let f1 = (fuel - 1) as nat;
        let m = max_len as int;
        let s1 = refine(child_a(*t), m, f1)->Ok_0;
        let s2 = refine(child_b(*t), m, f1)->Ok_0;
        let s3 = refine(child_c(*t), m, f1)->Ok_0;
        let s4 = refine(child_m(*t), m, f1)->Ok_0;
        assert(out@ =~= base + (s1 + s2 + s3 + s4));
    }
    Ok(())
}

/// What refining a whole mesh yields: each triangle's refinement in input
/// order, concatenated; the first failure, in input order, wins.
pub open spec fn refine_all(tris: Seq<Triangle>, max_len: int, fuel: nat) -> Result<
    Seq<Triangle>,
    Triangle,
>
    decreases tris.len(),
{
    if tris.len() == 0 {
        Ok(Seq::empty())
    } else {
        match refine_all(tris.drop_last(), max_len, fuel) {
            Err(e) => Err(e),
            Ok(p) => match refine(tris.last(), max_len, fuel) {
                Err(e) => Err(e),
                Ok(q) => Ok(p + q),
            },
        }
    }
}

/// An error on one triangle, with everything before it refinable, is the
/// error of the whole mesh.
proof fn lemma_refine_all_err(tris: Seq<Triangle>, max_len: int, fuel: nat, i: int, e: Triangle)
    requires
        0 <= i < tris.len(),
        refine_all(tris.take(i), max_len, fuel) is Ok,
        refine(tris[i], max_len, fuel) == Err::<Seq<Triangle>, Triangle>(e),
    ensures
        refine_all(tris, max_len, fuel) == Err::<Seq<Triangle>, Triangle>(e),
    decreases tris.len(),
{
    if i == tris.len() - 1 {
        assert(tris.drop_last() =~= tris.take(i));
    } else {
        assert(tris.drop_last().take(i) =~= tris.take(i));
        assert(tris.drop_last()[i] == tris[i]);
        lemma_refine_all_err(tris.drop_last(), max_len, fuel, i, e);
    }
}

/// Every triangle a successful whole-mesh refinement yields has all three
/// edges within the threshold.
pub proof fn lemma_refine_all_within(tris: Seq<Triangle>, max_len: int, fuel: nat)
    ensures
        refine_all(tris, max_len, fuel) matches Ok(s) ==> forall|i: int|
            0 <= i < s.len() ==> !too_long(#[trigger] s[i], max_len),
    decreases tris.len(),
{
    if tris.len() == 0 {
    } else {
        lemma_refine_all_within(tris.drop_last(), max_len, fuel);
        lemma_refined_within(tris.last(), max_len, fuel);
        if refine_all(tris, max_len, fuel) is Ok {
            let s = refine_all(tris, max_len, fuel)->Ok_0;
            let p = refine_all(tris.drop_last(), max_len, fuel)->Ok_0;
            let q = refine(tris.last(), max_len, fuel)->Ok_0;
            assert(s == p + q);
            assert forall|i: int| 0 <= i < s.len() implies !too_long(#[trigger] s[i], max_len) by {
                if i < p.len() {
                    assert(s[i] == p[i]);
                } else {
                    assert(s[i] == q[i - p.len()]);
                }
            }
        }
    }
}

/// Refines every triangle of a mesh in order, against the configured edge
/// threshold and depth cap.
///
/// Succeeds exactly when `refine_all` does, with exactly its triangles;
/// the error identifies the first triangle the depth cap gave up on.
pub fn refine_mesh(tris: &Vec<Triangle>, cfg: &Config) -> (r: Result<Vec<Triangle>, RefineOverflow>)
    requires
        cfg.valid(),
        forall|i: int| 0 <= i < tris@.len() ==> (#[trigger] tris@[i]).in_range(),
    ensures
        match r {
            Ok(v) => refine_all(tris@, cfg.max_len as int, cfg.depth_cap as nat) == Ok::<
                Seq<Triangle>,
                Triangle,
            >(v@) && forall|i: int| 0 <= i < v@.len() ==> (#[trigger] v@[i]).in_range(),
            Err(e) => refine_all(tris@, cfg.max_len as int, cfg.depth_cap as nat) == Err::<
                Seq<Triangle>,
                Triangle,
            >(e.triangle),
        },
{
    let mut out: Vec<Triangle> = Vec::new();
    let mut i: usize = 0;
    while i < tris.len()
        invariant
            cfg.valid(),
            0 <= i <= tris@.len(),
            forall|k: int| 0 <= k < tris@.len() ==> (#[trigger] tris@[k]).in_range(),
            forall|k: int| 0 <= k < out@.len() ==> (#[trigger] out@[k]).in_range(),
            refine_all(tris@.take(i as int), cfg.max_len as int, cfg.depth_cap as nat) == Ok::<
                Seq<Triangle>,
                Triangle,
            >(out@),
        decreases tris@.len() - i,
    {
        let ghost prev = out@;
        match subdivide(&tris[i], cfg.max_len, cfg.depth_cap, &mut out) {
            Err(e) => {
                proof {
                    lemma_refine_all_err(
                        tris@,
                        cfg.max_len as int,
                        cfg.depth_cap as nat,
                        i as int,
                        e.triangle,
                    );
                }
                return Err(e);
            },
            Ok(_) => {},
        }
        proof {
            let m = cfg.max_len as int;
            let f = cfg.depth_cap as nat;
            let step = tris@.take(i as int + 1);
            assert(step.drop_last() =~= tris@.take(i as int));
            assert(step.last() == tris@[i as int]);
            let q = refine(tris@[i as int], m, f)->Ok_0;
            assert(out@ == prev + q);
            assert(refine_all(step, m, f) == Ok::<Seq<Triangle>, Triangle>(out@));
        }
        i = i + 1;
    }
    assert(tris@.take(tris@.len() as int) =~= tris@);
    Ok(out)
}

} // verus!

// The area-preservation argument for the midpoint quad-split, stated over
// the cross products that measure (twice) each triangle's vector area.

verus! {

/// Componentwise sum of two cross-product vectors.
pub open spec fn cross_add(u: (int, int, int), v: (int, int, int)) -> (int, int, int) {
    (u.0 + v.0, u.1 + v.1, u.2 + v.2)
}

/// A cross-product vector scaled by an integer.
pub open spec fn cross_scale(k: int, v: (int, int, int)) -> (int, int, int) {
    (k * v.0, k * v.1, k * v.2)
}

/// One component of a corner child's cross product is exactly a quarter of
/// the parent's, when the two midpoints are exact.
proof fn lemma_corner_component(
    au: i64,
    av: i64,
    bu: i64,
    bv: i64,
    cu: i64,
    cv: i64,
    m1u: i64,
    m1v: i64,
    m2u: i64,
    m2v: i64,
)
    requires
        2 * m1u == au + bu,
        2 * m1v == av + bv,
        2 * m2u == cu + au,
        2 * m2v == cv + av,
    ensures
        4 * ((m1u - au) * (m2v - av) - (m1v - av) * (m2u - au)) == (bu - au) * (cv - av) - (bv - av)
            * (cu - au),
{
    assert(4 * ((m1u - au) * (m2v - av) - (m1v - av) * (m2u - au)) == (bu - au) * (cv - av) - (bv
        - av) * (cu - au)) by (nonlinear_arith)
        requires
            2 * m1u == au + bu,
            2 * m1v == av + bv,
            2 * m2u == cu + au,
            2 * m2v == cv + av,
    ;
}

/// One component of the center child's cross product is exactly a quarter
/// of the parent's, when the three midpoints are exact.
proof fn lemma_center_component(
    au: i64,
    av: i64,
    bu: i64,
    bv: i64,
    cu: i64,
    cv: i64,
    m1u: i64,
    m1v: i64,
    m2u: i64,
    m2v: i64,
    m3u: i64,
    m3v: i64,
)
    requires
        2 * m1u == au + bu,
        2 * m1v == av + bv,
        2 * m2u == bu + cu,
        2 * m2v == bv + cv,
        2 * m3u == cu + au,
        2 * m3v == cv + av,
    ensures
        4 * ((m2u - m1u) * (m3v - m1v) - (m2v - m1v) * (m3u - m1u)) == (bu - au) * (cv - av) - (bv
            - av) * (cu - au),
{
    assert(4 * ((m2u - m1u) * (m3v - m1v) - (m2v - m1v) * (m3u - m1u)) == (bu - au) * (cv - av) - (
    bv - av) * (cu - au)) by (nonlinear_arith)
        requires
            2 * m1u == au + bu,
            2 * m1v == av + bv,
            2 * m2u == bu + cu,
            2 * m2v == bv + cv,
            2 * m3u == cu + au,
            2 * m3v == cv + av,
    ;
}

/// The cross product of a triangle is unchanged by a cyclic rotation of
/// its vertices.
proof fn lemma_cross_cyclic(a: Vec3, b: Vec3, c: Vec3)
    ensures
        cross_x(b, c, a) == cross_x(a, b, c),
        cross_y(b, c, a) == cross_y(a, b, c),
        cross_z(b, c, a) == cross_z(a, b, c),
{
    assert((c.y - b.y) * (a.z - b.z) - (c.z - b.z) * (a.y - b.y) == (b.y - a.y) * (c.z - a.z) - (b.z
        - a.z) * (c.y - a.y)) by (nonlinear_arith);
    assert((c.z - b.z) * (a.x - b.x) - (c.x - b.x) * (a.z - b.z) == (b.z - a.z) * (c.x - a.x) - (b.x
        - a.x) * (c.z - a.z)) by (nonlinear_arith);
    assert((c.x - b.x) * (a.y - b.y) - (c.y - b.y) * (a.x - b.x) == (b.x - a.x) * (c.y - a.y) - (b.y
        - a.y) * (c.x - a.x)) by (nonlinear_arith);
}

/// The midpoint quad-split preserves area.
///
/// For a triangle whose coordinates are all even — so that its edge
/// midpoints are exact rather than rounded — each of the four children
/// carries exactly a quarter of the parent's cross product. The four child
/// area vectors are therefore parallel, and they sum to the parent's, so
/// the child areas (half the cross product's length each) sum exactly to
/// the parent's area.
pub proof fn lemma_quad_split_area(t: Triangle)
    requires
        even_vec(t.a),
        even_vec(t.b),
        even_vec(t.c),
    ensures
        cross_scale(4, tri_cross(child_a(t))) == tri_cross(t),
        cross_scale(4, tri_cross(child_b(t))) == tri_cross(t),
        cross_scale(4, tri_cross(child_c(t))) == tri_cross(t),
        cross_scale(4, tri_cross(child_m(t))) == tri_cross(t),
        cross_add(
            cross_add(tri_cross(child_a(t)), tri_cross(child_b(t))),
            cross_add(tri_cross(child_c(t)), tri_cross(child_m(t))),
        ) == tri_cross(t),
{
    let a = t.a;
    let b = t.b;
    let c = t.c;
    let mab = spec_midpoint(a, b);
    let mbc = spec_midpoint(b, c);
    let mca = spec_midpoint(c, a);
    assert(2 * mab.x == a.x + b.x && 2 * mab.y == a.y + b.y && 2 * mab.z == a.z + b.z);
    assert(2 * mbc.x == b.x + c.x && 2 * mbc.y == b.y + c.y && 2 * mbc.z == b.z + c.z);
    assert(2 * mca.x == c.x + a.x && 2 * mca.y == c.y + a.y && 2 * mca.z == c.z + a.z);

    // Corner child at `a`: vertices (a, mab, mca).
    lemma_corner_component(a.y, a.z, b.y, b.z, c.y, c.z, mab.y, mab.z, mca.y, mca.z);
    lemma_corner_component(a.z, a.x, b.z, b.x, c.z, c.x, mab.z, mab.x, mca.z, mca.x);
    lemma_corner_component(a.x, a.y, b.x, b.y, c.x, c.y, mab.x, mab.y, mca.x, mca.y);
    assert(cross_scale(4, tri_cross(child_a(t))) == tri_cross(t));

    // Corner child at `b`: vertices (b, mbc, mab), a corner of the rotated
    // triangle (b, c, a), whose cross product equals the original's.
    lemma_corner_component(b.y, b.z, c.y, c.z, a.y, a.z, mbc.y, mbc.z, mab.y, mab.z);
    lemma_corner_component(b.z, b.x, c.z, c.x, a.z, a.x, mbc.z, mbc.x, mab.z, mab.x);
    lemma_corner_component(b.x, b.y, c.x, c.y, a.x, a.y, mbc.x, mbc.y, mab.x, mab.y);
    lemma_cross_cyclic(a, b, c);
    assert(cross_scale(4, tri_cross(child_b(t))) == tri_cross(t));

    // Corner child at `c`: vertices (c, mca, mbc), a corner of (c, a, b).
    lemma_corner_component(c.y, c.z, a.y, a.z, b.y, b.z, mca.y, mca.z, mbc.y, mbc.z);
    lemma_corner_component(c.z, c.x, a.z, a.x, b.z, b.x, mca.z, mca.x, mbc.z, mbc.x);
    lemma_corner_component(c.x, c.y, a.x, a.y, b.x, b.y, mca.x, mca.y, mbc.x, mbc.y);
    lemma_cross_cyclic(b, c, a);
    assert(cross_scale(4, tri_cross(child_c(t))) == tri_cross(t));

    // Center child: vertices (mab, mbc, mca).
    lemma_center_component(
        a.y, a.z, b.y, b.z, c.y, c.z, mab.y, mab.z, mbc.y, mbc.z, mca.y, mca.z,
    );
    lemma_center_component(
        a.z, a.x, b.z, b.x, c.z, c.x, mab.z, mab.x, mbc.z, mbc.x, mca.z, mca.x,
    );
    lemma_center_component(
        a.x, a.y, b.x, b.y, c.x, c.y, mab.x, mab.y, mbc.x, mbc.y, mca.x, mca.y,
    );
    assert(cross_scale(4, tri_cross(child_m(t))) == tri_cross(t));
}

/// A halved difference gives a quartered square.
proof fn lemma_quarter_sq(d: int, dd: int)
    requires
        2 * d == dd,
    ensures
        4 * (d * d) == dd * dd,
{
    assert(4 * (d * d) == dd * dd) by (nonlinear_arith)
        requires
            2 * d == dd,
    ;
}

/// A segment whose endpoint differences are exactly half another segment's
/// has exactly a quarter of its squared length.
proof fn lemma_half_segment_sq(u: Vec3, v: Vec3, p: Vec3, q: Vec3)
    requires
        2 * (v.x - u.x) == q.x - p.x,
        2 * (v.y - u.y) == q.y - p.y,
        2 * (v.z - u.z) == q.z - p.z,
    ensures
        4 * side_sq(u, v) == side_sq(p, q),
{
    lemma_quarter_sq(u.x - v.x, p.x - q.x);
    lemma_quarter_sq(u.y - v.y, p.y - q.y);
    lemma_quarter_sq(u.z - v.z, p.z - q.z);
}

/// The squared distance between two points does not depend on their order.
proof fn lemma_side_sq_sym(u: Vec3, v: Vec3)
    ensures
        side_sq(u, v) == side_sq(v, u),
{
    assert((u.x - v.x) * (u.x - v.x) == (v.x - u.x) * (v.x - u.x)) by (nonlinear_arith);
    assert((u.y - v.y) * (u.y - v.y) == (v.y - u.y) * (v.y - u.y)) by (nonlinear_arith);
    assert((u.z - v.z) * (u.z - v.z) == (v.z - u.z) * (v.z - u.z)) by (nonlinear_arith);
}

/// The midpoint quad-split halves every edge: each edge of each of the
/// four children of a triangle with even coordinates — whose midpoints are
/// exact — has exactly a quarter of the squared length of one of the
/// parent's edges. The longest child edge is therefore exactly half the
/// longest parent edge, which is why the refinement strictly shrinks edges
/// at every level and reaches any positive threshold.
pub proof fn lemma_quad_split_halves_edges(t: Triangle)
    requires
        even_vec(t.a),
        even_vec(t.b),
        even_vec(t.c),
    ensures
        4 * side_sq(child_a(t).a, child_a(t).b) == side_sq(t.a, t.b),
        4 * side_sq(child_a(t).b, child_a(t).c) == side_sq(t.b, t.c),
        4 * side_sq(child_a(t).c, child_a(t).a) == side_sq(t.c, t.a),
        4 * side_sq(child_b(t).a, child_b(t).b) == side_sq(t.b, t.c),
        4 * side_sq(child_b(t).b, child_b(t).c) == side_sq(t.c, t.a),
        4 * side_sq(child_b(t).c, child_b(t).a) == side_sq(t.a, t.b),
        4 * side_sq(child_c(t).a, child_c(t).b) == side_sq(t.c, t.a),
        4 * side_sq(child_c(t).b, child_c(t).c) == side_sq(t.a, t.b),
        4 * side_sq(child_c(t).c, child_c(t).a) == side_sq(t.b, t.c),
        4 * side_sq(child_m(t).a, child_m(t).b) == side_sq(t.c, t.a),
        4 * side_sq(child_m(t).b, child_m(t).c) == side_sq(t.a, t.b),
        4 * side_sq(child_m(t).c, child_m(t).a) == side_sq(t.b, t.c),
{
    let a = t.a;
    let b = t.b;
    let c = t.c;
    let mab = spec_midpoint(a, b);
    let mbc = spec_midpoint(b, c);
    let mca = spec_midpoint(c, a);
    assert(2 * mab.x == a.x + b.x && 2 * mab.y == a.y + b.y && 2 * mab.z == a.z + b.z);
    assert(2 * mbc.x == b.x + c.x && 2 * mbc.y == b.y + c.y && 2 * mbc.z == b.z + c.z);
    assert(2 * mca.x == c.x + a.x && 2 * mca.y == c.y + a.y && 2 * mca.z == c.z + a.z);

    // Corner at `a`: (a, mab, mca).
    lemma_half_segment_sq(a, mab, a, b);
    lemma_half_segment_sq(mab, mca, b, c);
    lemma_half_segment_sq(mca, a, c, a);

    // Corner at `b`: (b, mbc, mab).
    lemma_half_segment_sq(b, mbc, b, c);
    lemma_half_segment_sq(mbc, mab, c, a);
    lemma_half_segment_sq(mab, b, a, b);

    // Corner at `c`: (c, mca, mbc).
    lemma_half_segment_sq(c, mca, c, a);
    lemma_half_segment_sq(mca, mbc, a, b);
    lemma_half_segment_sq(mbc, c, b, c);

    // Center: (mab, mbc, mca). Its edges halve the parent's edges walked
    // the other way round, so the symmetric squared length is the same.
    lemma_half_segment_sq(mab, mbc, a, c);
    lemma_half_segment_sq(mbc, mca, b, a);
    lemma_half_segment_sq(mca, mab, c, b);
    lemma_side_sq_sym(a, c);
    lemma_side_sq_sym(b, a);
    lemma_side_sq_sym(c, b);
}


} // verus!
