//! The planar-to-cylindrical vertex mapping.
//!
//! The wrap-axis coordinate is turned into an angle: the fraction of the
//! scanned wrap-axis extent it sits at, times the configured full sweep.
//! The radius-axis coordinate becomes the distance from the cylinder axis,
//! so the mapped point is `(radius * cos(angle), radius * sin(angle))`
//! with the remaining coordinate passed through unchanged. The angle and
//! the fixed-point products are computed and verified here; evaluating
//! cosine and sine themselves is the caller's, because it is a
//! floating-point affair. The caller hands the two trigonometric values
//! back in fixed-point form, scaled by `TRIG_ONE`.

use vstd::arithmetic::div_mod::lemma_div_is_ordered;
use vstd::arithmetic::div_mod::lemma_div_multiples_vanish;
use vstd::arithmetic::div_mod::lemma_div_of0;
use vstd::arithmetic::div_mod::lemma_div_pos_is_pos;
use vstd::arithmetic::div_mod::lemma_multiply_divide_le;
use vstd::arithmetic::mul::lemma_mul_inequality;
use vstd::prelude::*;

use crate::bounds::Bounds;
use crate::geometry::COORD_LIMIT;
use crate::geometry::Vec3;
use crate::geometry::lemma_mul_bound;

verus! {

/// The fixed-point unit for trigonometric values: a cosine or sine of 1.0
/// is represented as this value.
pub const TRIG_ONE: i64 = 65536;

/// The angle a wrap-axis coordinate maps to, in the same fixed-point unit
/// as `sweep`: the coordinate's position within the scanned extent, as a
/// fraction, times the full sweep. A degenerate extent (all vertices at
/// one wrap coordinate) maps everything to angle zero instead of dividing
/// by zero.
pub open spec fn angle_spec(x: i64, b: Bounds, sweep: i64) -> int {
    if b.max <= b.min {
        0
    } else {
        (x - b.min) * sweep / (b.max - b.min)
    }
}

/// Maps a wrap-axis coordinate to its angle on the cylinder.
///
/// The extent's low edge maps to angle 0 and its high edge to the full
/// sweep exactly, so a full-circle sweep closes: start and end coincide.
pub fn wrap_angle(x: i64, b: &Bounds, sweep: i64) -> (r: i64)
    requires
        b.min <= x <= b.max,
        -COORD_LIMIT <= b.min <= COORD_LIMIT,
        -COORD_LIMIT <= b.max <= COORD_LIMIT,
        sweep >= 0,
    ensures
        r == angle_spec(x, *b, sweep),
        0 <= r <= sweep,
        x == b.min ==> r == 0,
        x == b.max && b.min < b.max ==> r == sweep,
{
    if b.max <= b.min {
        return 0;
    }
    let k: i64 = x - b.min;
    let d: i64 = b.max - b.min;
    proof {
        lemma_mul_bound(k as int, sweep as int, 2 * COORD_LIMIT as int, i64::MAX as int);
    }
    let num: u128 = k as u128 * sweep as u128;
    let den: u128 = d as u128;
    let q: u128 = num / den;
    proof {
        lemma_mul_inequality(k as int, d as int, sweep as int);
        lemma_multiply_divide_le(num as int, den as int, sweep as int);
        lemma_div_pos_is_pos(num as int, den as int);
        if x == b.min {
            assert(num as int == 0) by (nonlinear_arith)
                requires
                    k as int == 0,
                    num as int == k as int * sweep as int,
            ;
            lemma_div_of0(den as int);
        }
        if x == b.max {
            lemma_div_multiples_vanish(sweep as int, den as int);
        }
    }
    q as i64
}

/// A fixed-point coordinate scaled by a fixed-point trigonometric value:
/// the radius times the cosine or sine of the angle, rounded down.
pub open spec fn scale_trig(y: i64, c: i64) -> i64 {
    ((y * c) / (TRIG_ONE as int)) as i64
}

/// Multiplies a coordinate by a fixed-point cosine or sine.
fn scale_one(y: i64, c: i64) -> (r: i64)
    requires
        -COORD_LIMIT <= y <= COORD_LIMIT,
        -TRIG_ONE <= c <= TRIG_ONE,
    ensures
        r == scale_trig(y, c),
        -COORD_LIMIT <= r <= COORD_LIMIT,
{
    proof {
        lemma_mul_bound(y as int, c as int, COORD_LIMIT as int, TRIG_ONE as int);
        lemma_div_is_ordered(
            y as int * c as int,
            COORD_LIMIT as int * TRIG_ONE as int,
            TRIG_ONE as int,
        );
        lemma_div_is_ordered(
            -(COORD_LIMIT as int * TRIG_ONE as int),
            y as int * c as int,
            TRIG_ONE as int,
        );
        lemma_div_multiples_vanish(COORD_LIMIT as int, TRIG_ONE as int);
        lemma_div_multiples_vanish(-COORD_LIMIT as int, TRIG_ONE as int);
        assert(COORD_LIMIT as int * TRIG_ONE as int == TRIG_ONE as int * COORD_LIMIT as int);
        assert(-(COORD_LIMIT as int * TRIG_ONE as int) == TRIG_ONE as int * -COORD_LIMIT as int)
            by (nonlinear_arith);
    }
    let p: i64 = y * c;
    match p.checked_div_euclid(TRIG_ONE) {
        Some(h) => h,
        None => 0,  // unreachable: the divisor is non-zero and no overflow is possible
    }
}

/// Wraps one planar point: the radius-axis value `y`, and the cosine and
/// sine of the point's angle in `TRIG_ONE` fixed point, give the two
/// mapped cartesian coordinates.
pub fn wrap_xy(y: i64, cosv: i64, sinv: i64) -> (r: (i64, i64))
    requires
        -COORD_LIMIT <= y <= COORD_LIMIT,
        -TRIG_ONE <= cosv <= TRIG_ONE,
        -TRIG_ONE <= sinv <= TRIG_ONE,
    ensures
        r.0 == scale_trig(y, cosv),
        r.1 == scale_trig(y, sinv),
        -COORD_LIMIT <= r.0 <= COORD_LIMIT,
        -COORD_LIMIT <= r.1 <= COORD_LIMIT,
{
    (scale_one(y, cosv), scale_one(y, sinv))
}

/// The wrapped vertex: the wrap-axis slot takes `radius * cos`, the
/// radius-axis slot takes `radius * sin`, and the remaining coordinate is
/// untouched, where the radius is the vertex's own radius-axis value.
pub open spec fn wrap_vertex_spec(v: Vec3, wrap_axis: u8, radius_axis: u8, cosv: i64, sinv: i64) -> Vec3 {
    let y = v.axis(radius_axis);
    v.spec_with_axis(wrap_axis, scale_trig(y, cosv)).spec_with_axis(
        radius_axis,
        scale_trig(y, sinv),
    )
}

/// Wraps one vertex onto the cylinder, given the cosine and sine of its
/// angle in `TRIG_ONE` fixed point.
pub fn wrap_vertex(v: &Vec3, wrap_axis: u8, radius_axis: u8, cosv: i64, sinv: i64) -> (r: Vec3)
    requires
        v.in_range(),
        wrap_axis < 3,
        radius_axis < 3,
        wrap_axis != radius_axis,
        -TRIG_ONE <= cosv <= TRIG_ONE,
        -TRIG_ONE <= sinv <= TRIG_ONE,
    ensures
        r == wrap_vertex_spec(*v, wrap_axis, radius_axis, cosv, sinv),
        r.in_range(),
{
    let y: i64 = v.get_axis(radius_axis);
    let (xp, yp) = wrap_xy(y, cosv, sinv);
    v.with_axis(wrap_axis, xp).with_axis(radius_axis, yp)
}

/// At the four exact quarter-turn angles — where the fixed-point cosine
/// and sine pairs are (1, 0), (0, 1), (-1, 0) and (0, -1) in `TRIG_ONE`
/// units, the only pairs at this scale whose squares sum exactly to one —
/// the wrap preserves the radius exactly: the mapped point's squared
/// distance from the cylinder axis equals the squared radius-axis value.
/// At other angles the same holds up to fixed-point rounding.
pub proof fn lemma_quarter_turn_radius(y: i64, c: i64, s: i64)
    requires
        -COORD_LIMIT <= y <= COORD_LIMIT,
        (c == TRIG_ONE && s == 0) || (c == 0 && s == TRIG_ONE) || (c == -TRIG_ONE && s == 0) || (c
            == 0 && s == -TRIG_ONE),
    ensures
        scale_trig(y, c) * scale_trig(y, c) + scale_trig(y, s) * scale_trig(y, s) == y * y,
{
    lemma_div_multiples_vanish(y as int, TRIG_ONE as int);
    lemma_div_multiples_vanish(-(y as int), TRIG_ONE as int);
    lemma_div_of0(TRIG_ONE as int);
    if c == TRIG_ONE {
        assert((y as int) * (c as int) == (TRIG_ONE as int) * (y as int)) by (nonlinear_arith)
            requires
                c as int == TRIG_ONE as int,
        ;
        assert(scale_trig(y, c) == y);
        assert(scale_trig(y, s) == 0);
    } else if s == TRIG_ONE {
        assert((y as int) * (s as int) == (TRIG_ONE as int) * (y as int)) by (nonlinear_arith)
            requires
                s as int == TRIG_ONE as int,
        ;
        assert(scale_trig(y, s) == y);
        assert(scale_trig(y, c) == 0);
    } else if c == 0 {
        assert((y as int) * (s as int) == (TRIG_ONE as int) * (-(y as int))) by (nonlinear_arith)
            requires
                s as int == -(TRIG_ONE as int),
        ;
        assert(scale_trig(y, c) == 0);
        assert(scale_trig(y, s) == -(y as int));
    } else {
        assert((y as int) * (c as int) == (TRIG_ONE as int) * (-(y as int))) by (nonlinear_arith)
            requires
                c as int == -(TRIG_ONE as int),
        ;
        assert(scale_trig(y, c) == -(y as int));
        assert(scale_trig(y, s) == 0);
    }
    assert((-(y as int)) * (-(y as int)) == (y as int) * (y as int)) by (nonlinear_arith);
}

} // verus!

