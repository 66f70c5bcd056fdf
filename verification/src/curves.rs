//! Bézier flattening by de Casteljau subdivision: a curve is split in half
//! until its control points lie within 1/16 pixel (Manhattan measure) of the
//! chord, or until sixteen levels of subdivision have been reached.

use vstd::prelude::*;
use crate::fixed::{abs_int, trunc_div, F26Dot6};

verus! {

/// Flatness tolerance: 4/64 = 1/16 pixel.
pub const FLATNESS_THRESHOLD_RAW: i32 = 4;

/// Maximum subdivision depth.
pub const MAX_DEPTH: u32 = 16;

/// A point in 26.6 coordinates.
pub type FixedPoint = (F26Dot6, F26Dot6);

/// The flatness tolerance as a fixed-point value (1/16 pixel).
pub fn flatness_threshold() -> (r: F26Dot6)
    ensures
        r.val() == FLATNESS_THRESHOLD_RAW,
{
    F26Dot6::from_raw(FLATNESS_THRESHOLD_RAW)
}

/// `a + b` fits in an `i32`.
pub open spec fn sum_fits(a: int, b: int) -> bool {
    i32::MIN <= a + b <= i32::MAX
}

/// Rust's `(a + b) / 2` on `i32`.
#[verifier::opaque]
pub open spec fn half_sum(a: int, b: int) -> int {
    trunc_div(a + b, 2)
}

/// `(a + b) / 2` with the division truncating toward zero.
fn half_sum_exec(a: i32, b: i32) -> (r: i32)
    requires
        sum_fits(a as int, b as int),
    ensures
        r == half_sum(a as int, b as int),
        (if a <= b { a } else { b }) <= r <= (if a <= b { b } else { a }),
{
    reveal(half_sum);
    let s = a + b;
    if s >= 0 {
        (s as u32 / 2) as i32
    } else {
        let m: u32 = (-(s as i64)) as u32;
        -((m / 2) as i32)
    }
}

/// Distance term `|c - (a + b) / 2|` of the flatness measure, in 1/64 units.
pub open spec fn dev(a: int, c: int, b: int) -> int {
    abs_int(c - half_sum(a, b))
}

/// The deviation term can be computed without overflow.
pub open spec fn dev_fits(a: int, c: int, b: int) -> bool {
    &&& sum_fits(a, b)
    &&& i32::MIN < c - half_sum(a, b) <= i32::MAX
}

fn dev_exec(a: i32, c: i32, b: i32) -> (r: i32)
    requires
        dev_fits(a as int, c as int, b as int),
    ensures
        r == dev(a as int, c as int, b as int),
        r >= 0,
{
    let m = half_sum_exec(a, b);
    let d = c - m;
    if d < 0 {
        -d
    } else {
        d
    }
}

/// Manhattan distance of the quadratic's control point from the chord midpoint.
pub open spec fn quad_flatness(x0: int, y0: int, x1: int, y1: int, x2: int, y2: int) -> int {
    dev(x0, x1, x2) + dev(y0, y1, y2)
}

/// The quadratic flatness measure can be computed without overflow.
pub open spec fn quad_flatness_fits(x0: int, y0: int, x1: int, y1: int, x2: int, y2: int) -> bool {
    &&& dev_fits(x0, x1, x2)
    &&& dev_fits(y0, y1, y2)
    &&& dev(x0, x1, x2) + dev(y0, y1, y2) <= i32::MAX
}

/// How far a quadratic Bézier strays from its chord: the Manhattan distance
/// between the control point and the midpoint of the endpoints.
pub fn compute_quadratic_flatness(
    x0: F26Dot6,
    y0: F26Dot6,
    x1: F26Dot6,
    y1: F26Dot6,
    x2: F26Dot6,
    y2: F26Dot6,
) -> (r: F26Dot6)
    requires
        quad_flatness_fits(x0.val(), y0.val(), x1.val(), y1.val(), x2.val(), y2.val()),
    ensures
        r.val() == quad_flatness(x0.val(), y0.val(), x1.val(), y1.val(), x2.val(), y2.val()),
{
    let dx = dev_exec(x0.raw(), x1.raw(), x2.raw());
    let dy = dev_exec(y0.raw(), y1.raw(), y2.raw());
    F26Dot6::from_raw(dx + dy)
}

/// Flatness of a cubic: the larger Manhattan distance of its two control
/// points from the chord midpoint.
pub open spec fn cubic_flatness(
    x0: int,
    y0: int,
    x1: int,
    y1: int,
    x2: int,
    y2: int,
    x3: int,
    y3: int,
) -> int {
    let d1 = dev(x0, x1, x3) + dev(y0, y1, y3);
    let d2 = dev(x0, x2, x3) + dev(y0, y2, y3);
    if d1 >= d2 {
        d1
    } else {
        d2
    }
}

/// The cubic flatness measure can be computed without overflow.
pub open spec fn cubic_flatness_fits(
    x0: int,
    y0: int,
    x1: int,
    y1: int,
    x2: int,
    y2: int,
    x3: int,
    y3: int,
) -> bool {
    &&& dev_fits(x0, x1, x3)
    &&& dev_fits(y0, y1, y3)
    &&& dev_fits(x0, x2, x3)
    &&& dev_fits(y0, y2, y3)
    &&& dev(x0, x1, x3) + dev(y0, y1, y3) <= i32::MAX
    &&& dev(x0, x2, x3) + dev(y0, y2, y3) <= i32::MAX
}

/// How far a cubic Bézier strays from its chord.
pub fn compute_cubic_flatness(
    x0: F26Dot6,
    y0: F26Dot6,
    x1: F26Dot6,
    y1: F26Dot6,
    x2: F26Dot6,
    y2: F26Dot6,
    x3: F26Dot6,
    y3: F26Dot6,
) -> (r: F26Dot6)
    requires
        cubic_flatness_fits(
            x0.val(),
            y0.val(),
            x1.val(),
            y1.val(),
            x2.val(),
            y2.val(),
            x3.val(),
            y3.val(),
        ),
    ensures
        r.val() == cubic_flatness(
            x0.val(),
            y0.val(),
            x1.val(),
            y1.val(),
            x2.val(),
            y2.val(),
            x3.val(),
            y3.val(),
        ),
{
    let dx1 = dev_exec(x0.raw(), x1.raw(), x3.raw());
    let dy1 = dev_exec(y0.raw(), y1.raw(), y3.raw());
    let dx2 = dev_exec(x0.raw(), x2.raw(), x3.raw());
    let dy2 = dev_exec(y0.raw(), y2.raw(), y3.raw());
    let dist1 = dx1 + dy1;
    let dist2 = dx2 + dy2;
    F26Dot6::from_raw(if dist1 >= dist2 { dist1 } else { dist2 })
}

/// The point with the given raw coordinates.
pub open spec fn fpt(x: int, y: int) -> FixedPoint {
    (F26Dot6(x as i32), F26Dot6(y as i32))
}

/// Subdividing the quadratic `(x0,y0) (x1,y1) (x2,y2)` from `depth` on never
/// overflows: every flatness measure and midpoint sum that the subdivision
/// computes fits in an `i32`.
pub open spec fn quad_safe(x0: int, y0: int, x1: int, y1: int, x2: int, y2: int, depth: int) -> bool
    decreases 16 - depth,
{
    if depth >= 16 {
        true
    } else {
        &&& quad_flatness_fits(x0, y0, x1, y1, x2, y2)
        &&& (quad_flatness(x0, y0, x1, y1, x2, y2) <= FLATNESS_THRESHOLD_RAW || {
            let m01x = half_sum(x0, x1);
            let m01y = half_sum(y0, y1);
            let m12x = half_sum(x1, x2);
            let m12y = half_sum(y1, y2);
            let mx = half_sum(m01x, m12x);
            let my = half_sum(m01y, m12y);
            &&& sum_fits(x0, x1)
            &&& sum_fits(y0, y1)
            &&& sum_fits(x1, x2)
            &&& sum_fits(y1, y2)
            &&& sum_fits(m01x, m12x)
            &&& sum_fits(m01y, m12y)
            &&& quad_safe(x0, y0, m01x, m01y, mx, my, depth + 1)
            &&& quad_safe(mx, my, m12x, m12y, x2, y2, depth + 1)
        })
    }
}

/// The line endpoints that flattening the quadratic from `depth` on emits, in order.
pub open spec fn quad_points(x0: int, y0: int, x1: int, y1: int, x2: int, y2: int, depth: int) -> Seq<
    FixedPoint,
>
    decreases 16 - depth,
{
    if depth >= 16 || quad_flatness(x0, y0, x1, y1, x2, y2) <= FLATNESS_THRESHOLD_RAW {
        seq![fpt(x2, y2)]
    } else {
        let m01x = half_sum(x0, x1);
        let m01y = half_sum(y0, y1);
        let m12x = half_sum(x1, x2);
        let m12y = half_sum(y1, y2);
        let mx = half_sum(m01x, m12x);
        let my = half_sum(m01y, m12y);
        quad_points(x0, y0, m01x, m01y, mx, my, depth + 1) + quad_points(
            mx,
            my,
            m12x,
            m12y,
            x2,
            y2,
            depth + 1,
        )
    }
}

/// Flatten a quadratic Bézier into line endpoints, appended to `output`.
///
/// The start point is not emitted; the last point emitted is the end point.
pub fn subdivide_quadratic(
    x0: F26Dot6,
    y0: F26Dot6,
    x1: F26Dot6,
    y1: F26Dot6,
    x2: F26Dot6,
    y2: F26Dot6,
    output: &mut Vec<FixedPoint>,
    depth: u32,
)
    requires
        quad_safe(x0.val(), y0.val(), x1.val(), y1.val(), x2.val(), y2.val(), depth as int),
    ensures
        final(output)@ == old(output)@ + quad_points(
            x0.val(),
            y0.val(),
            x1.val(),
            y1.val(),
            x2.val(),
            y2.val(),
            depth as int,
        ),
    decreases 16 - depth,
{
    if depth >= MAX_DEPTH {
        output.push((x2, y2));
        return;
    }
    let flatness = compute_quadratic_flatness(x0, y0, x1, y1, x2, y2);
    if flatness.raw() <= FLATNESS_THRESHOLD_RAW {
        output.push((x2, y2));
        return;
    }
    let m01_x = F26Dot6::from_raw(half_sum_exec(x0.raw(), x1.raw()));
    let m01_y = F26Dot6::from_raw(half_sum_exec(y0.raw(), y1.raw()));
    let m12_x = F26Dot6::from_raw(half_sum_exec(x1.raw(), x2.raw()));
    let m12_y = F26Dot6::from_raw(half_sum_exec(y1.raw(), y2.raw()));
    let m012_x = F26Dot6::from_raw(half_sum_exec(m01_x.raw(), m12_x.raw()));
    let m012_y = F26Dot6::from_raw(half_sum_exec(m01_y.raw(), m12_y.raw()));
    subdivide_quadratic(x0, y0, m01_x, m01_y, m012_x, m012_y, output, depth + 1);
    subdivide_quadratic(m012_x, m012_y, m12_x, m12_y, x2, y2, output, depth + 1);
}

/// Subdividing the cubic from `depth` on never overflows.
pub open spec fn cubic_safe(
    x0: int,
    y0: int,
    x1: int,
    y1: int,
    x2: int,
    y2: int,
    x3: int,
    y3: int,
    depth: int,
) -> bool
    decreases 16 - depth,
{
    if depth >= 16 {
        true
    } else {
        &&& cubic_flatness_fits(x0, y0, x1, y1, x2, y2, x3, y3)
        &&& (cubic_flatness(x0, y0, x1, y1, x2, y2, x3, y3) <= FLATNESS_THRESHOLD_RAW || {
            let m01x = half_sum(x0, x1);
            let m01y = half_sum(y0, y1);
            let m12x = half_sum(x1, x2);
            let m12y = half_sum(y1, y2);
            let m23x = half_sum(x2, x3);
            let m23y = half_sum(y2, y3);
            let m012x = half_sum(m01x, m12x);
            let m012y = half_sum(m01y, m12y);
            let m123x = half_sum(m12x, m23x);
            let m123y = half_sum(m12y, m23y);
            let mx = half_sum(m012x, m123x);
            let my = half_sum(m012y, m123y);
            &&& sum_fits(x0, x1)
            &&& sum_fits(y0, y1)
            &&& sum_fits(x1, x2)
            &&& sum_fits(y1, y2)
            &&& sum_fits(x2, x3)
            &&& sum_fits(y2, y3)
            &&& sum_fits(m01x, m12x)
            &&& sum_fits(m01y, m12y)
            &&& sum_fits(m12x, m23x)
            &&& sum_fits(m12y, m23y)
            &&& sum_fits(m012x, m123x)
            &&& sum_fits(m012y, m123y)
            &&& cubic_safe(x0, y0, m01x, m01y, m012x, m012y, mx, my, depth + 1)
            &&& cubic_safe(mx, my, m123x, m123y, m23x, m23y, x3, y3, depth + 1)
        })
    }
}

/// The line endpoints that flattening the cubic from `depth` on emits, in order.
pub open spec fn cubic_points(
    x0: int,
    y0: int,
    x1: int,
    y1: int,
    x2: int,
    y2: int,
    x3: int,
    y3: int,
    depth: int,
) -> Seq<FixedPoint>
    decreases 16 - depth,
{
    if depth >= 16 || cubic_flatness(x0, y0, x1, y1, x2, y2, x3, y3) <= FLATNESS_THRESHOLD_RAW {
        seq![fpt(x3, y3)]
    } else {
        let m01x = half_sum(x0, x1);
        let m01y = half_sum(y0, y1);
        let m12x = half_sum(x1, x2);
        let m12y = half_sum(y1, y2);
        let m23x = half_sum(x2, x3);
        let m23y = half_sum(y2, y3);
        let m012x = half_sum(m01x, m12x);
        let m012y = half_sum(m01y, m12y);
        let m123x = half_sum(m12x, m23x);
        let m123y = half_sum(m12y, m23y);
        let mx = half_sum(m012x, m123x);
        let my = half_sum(m012y, m123y);
        cubic_points(x0, y0, m01x, m01y, m012x, m012y, mx, my, depth + 1) + cubic_points(
            mx,
            my,
            m123x,
            m123y,
            m23x,
            m23y,
            x3,
            y3,
            depth + 1,
        )
    }
}

/// Flatten a cubic Bézier into line endpoints, appended to `output`.
///
/// The start point is not emitted; the last point emitted is the end point.
pub fn subdivide_cubic(
    x0: F26Dot6,
    y0: F26Dot6,
    x1: F26Dot6,
    y1: F26Dot6,
    x2: F26Dot6,
    y2: F26Dot6,
    x3: F26Dot6,
    y3: F26Dot6,
    output: &mut Vec<FixedPoint>,
    depth: u32,
)
    requires
        cubic_safe(
            x0.val(),
            y0.val(),
            x1.val(),
            y1.val(),
            x2.val(),
            y2.val(),
            x3.val(),
            y3.val(),
            depth as int,
        ),
    ensures
        final(output)@ == old(output)@ + cubic_points(
            x0.val(),
            y0.val(),
            x1.val(),
            y1.val(),
            x2.val(),
            y2.val(),
            x3.val(),
            y3.val(),
            depth as int,
        ),
    decreases 16 - depth,
{
    if depth >= MAX_DEPTH {
        output.push((x3, y3));
        return;
    }
    let flatness = compute_cubic_flatness(x0, y0, x1, y1, x2, y2, x3, y3);
    if flatness.raw() <= FLATNESS_THRESHOLD_RAW {
        output.push((x3, y3));
        return;
    }
    let m01_x = F26Dot6::from_raw(half_sum_exec(x0.raw(), x1.raw()));
    let m01_y = F26Dot6::from_raw(half_sum_exec(y0.raw(), y1.raw()));
    let m12_x = F26Dot6::from_raw(half_sum_exec(x1.raw(), x2.raw()));
    let m12_y = F26Dot6::from_raw(half_sum_exec(y1.raw(), y2.raw()));
    let m23_x = F26Dot6::from_raw(half_sum_exec(x2.raw(), x3.raw()));
    let m23_y = F26Dot6::from_raw(half_sum_exec(y2.raw(), y3.raw()));
    let m012_x = F26Dot6::from_raw(half_sum_exec(m01_x.raw(), m12_x.raw()));
    let m012_y = F26Dot6::from_raw(half_sum_exec(m01_y.raw(), m12_y.raw()));
    let m123_x = F26Dot6::from_raw(half_sum_exec(m12_x.raw(), m23_x.raw()));
    let m123_y = F26Dot6::from_raw(half_sum_exec(m12_y.raw(), m23_y.raw()));
    let m0123_x = F26Dot6::from_raw(half_sum_exec(m012_x.raw(), m123_x.raw()));
    let m0123_y = F26Dot6::from_raw(half_sum_exec(m012_y.raw(), m123_y.raw()));
    subdivide_cubic(x0, y0, m01_x, m01_y, m012_x, m012_y, m0123_x, m0123_y, output, depth + 1);
    subdivide_cubic(m0123_x, m0123_y, m123_x, m123_y, m23_x, m23_y, x3, y3, output, depth + 1);
}

/// Rust's `(a + b) / 2` does not depend on the order of `a` and `b`.
proof fn lemma_half_sum_symmetric(a: int, b: int)
    ensures
        half_sum(a, b) == half_sum(b, a),
{
    reveal(half_sum);
    assert(a + b == b + a);
}

/// Flattening a cubic does not depend on its direction: the polyline
/// through the start point and the points emitted for the cubic
/// `p0 p1 p2 p3`, read backwards, is the polyline for the reversed cubic
/// `p3 p2 p1 p0`.  So every split keeps its meaning: the second half of a
/// split of `p0 p1 p2 p3` is, backwards, the first half of the split of
/// `p3 p2 p1 p0`.
pub proof fn lemma_cubic_flattening_reverses(
    x0: int,
    y0: int,
    x1: int,
    y1: int,
    x2: int,
    y2: int,
    x3: int,
    y3: int,
    depth: int,
)
    ensures
        (seq![fpt(x0, y0)] + cubic_points(x0, y0, x1, y1, x2, y2, x3, y3, depth)).reverse() == seq![
            fpt(x3, y3),
        ] + cubic_points(x3, y3, x2, y2, x1, y1, x0, y0, depth),
    decreases 16 - depth,
{
    lemma_half_sum_symmetric(x0, x3);
    lemma_half_sum_symmetric(y0, y3);
    assert(cubic_flatness(x3, y3, x2, y2, x1, y1, x0, y0) == cubic_flatness(
        x0,
        y0,
        x1,
        y1,
        x2,
        y2,
        x3,
        y3,
    ));
    if depth >= 16 || cubic_flatness(x0, y0, x1, y1, x2, y2, x3, y3) <= FLATNESS_THRESHOLD_RAW {
        assert((seq![fpt(x0, y0)] + seq![fpt(x3, y3)]).reverse() =~= seq![fpt(x3, y3)] + seq![
            fpt(x0, y0),
        ]);
    } else {
        let m01x = half_sum(x0, x1);
        let m01y = half_sum(y0, y1);
        let m12x = half_sum(x1, x2);
        let m12y = half_sum(y1, y2);
        let m23x = half_sum(x2, x3);
        let m23y = half_sum(y2, y3);
        let m012x = half_sum(m01x, m12x);
        let m012y = half_sum(m01y, m12y);
        let m123x = half_sum(m12x, m23x);
        let m123y = half_sum(m12y, m23y);
        let mx = half_sum(m012x, m123x);
        let my = half_sum(m012y, m123y);
        lemma_half_sum_symmetric(x0, x1);
        lemma_half_sum_symmetric(y0, y1);
        lemma_half_sum_symmetric(x1, x2);
        lemma_half_sum_symmetric(y1, y2);
        lemma_half_sum_symmetric(x2, x3);
        lemma_half_sum_symmetric(y2, y3);
        lemma_half_sum_symmetric(m01x, m12x);
        lemma_half_sum_symmetric(m01y, m12y);
        lemma_half_sum_symmetric(m12x, m23x);
        lemma_half_sum_symmetric(m12y, m23y);
        lemma_half_sum_symmetric(m012x, m123x);
        lemma_half_sum_symmetric(m012y, m123y);
        let first = cubic_points(x0, y0, m01x, m01y, m012x, m012y, mx, my, depth + 1);
        let second = cubic_points(mx, my, m123x, m123y, m23x, m23y, x3, y3, depth + 1);
        let ra = cubic_points(x3, y3, m23x, m23y, m123x, m123y, mx, my, depth + 1);
        let rb = cubic_points(mx, my, m012x, m012y, m01x, m01y, x0, y0, depth + 1);
        assert(cubic_points(x0, y0, x1, y1, x2, y2, x3, y3, depth) == first + second);
        assert(cubic_points(x3, y3, x2, y2, x1, y1, x0, y0, depth) == ra + rb);
        lemma_cubic_flattening_reverses(x0, y0, m01x, m01y, m012x, m012y, mx, my, depth + 1);
        lemma_cubic_flattening_reverses(mx, my, m123x, m123y, m23x, m23y, x3, y3, depth + 1);
        // ([p0] + first).reverse() == [m] + rb and ([m] + second).reverse() == [p3] + ra.
        let pa = seq![fpt(x0, y0)] + first;
        let pb = seq![fpt(mx, my)] + second;
        assert((seq![fpt(x0, y0)] + (first + second)).reverse() =~= second.reverse() + pa.reverse());
        assert(pb.reverse() =~= second.reverse() + seq![fpt(mx, my)]);
        assert(pa.reverse() == seq![fpt(mx, my)] + rb);
        assert(pb.reverse() == seq![fpt(x3, y3)] + ra);
        assert(second.reverse() + pa.reverse() =~= (second.reverse() + seq![fpt(mx, my)]) + rb);
        assert(second.reverse() + seq![fpt(mx, my)] == seq![fpt(x3, y3)] + ra);
        assert((seq![fpt(x3, y3)] + ra) + rb =~= seq![fpt(x3, y3)] + (ra + rb));
    }
}

/// Rust's `(a + b) / 2` is within half a unit of the exact midpoint.
proof fn lemma_half_sum_near(a: int, b: int)
    ensures
        -1 <= 2 * half_sum(a, b) - (a + b) <= 1,
{
    reveal(half_sum);
    let s = a + b;
    if s >= 0 {
        assert(half_sum(a, b) == s / 2);
        assert(0 <= s - 2 * (s / 2) <= 1);
    } else {
        assert(half_sum(a, b) == -((-s) / 2));
        assert(0 <= (-s) - 2 * ((-s) / 2) <= 1);
    }
}

/// `a1 a2 m` and `m b1 b2` are, up to the rounding of integer halving, the
/// coordinates of the inner control points and the shared end point of the
/// two halves, at t = 1/2, of a cubic whose coordinates are `c0 c1 c2 c3`:
/// `(c0 + c1) / 2`, `(c0 + 2 c1 + c2) / 4`, `(c0 + 3 c1 + 3 c2 + c3) / 8`
/// (the curve's own point at t = 1/2), `(c1 + 2 c2 + c3) / 4` and
/// `(c2 + c3) / 2`.
pub open spec fn near_half_split(
    c0: int,
    c1: int,
    c2: int,
    c3: int,
    a1: int,
    a2: int,
    m: int,
    b1: int,
    b2: int,
) -> bool {
    &&& -1 <= 2 * a1 - (c0 + c1) <= 1
    &&& -4 <= 4 * a2 - (c0 + 2 * c1 + c2) <= 4
    &&& -12 <= 8 * m - (c0 + 3 * c1 + 3 * c2 + c3) <= 12
    &&& -4 <= 4 * b1 - (c1 + 2 * c2 + c3) <= 4
    &&& -1 <= 2 * b2 - (c2 + c3) <= 1
}

/// Flattening follows de Casteljau subdivision at t = 1/2: a cubic that is
/// not yet flat, below the depth limit, is flattened as the curve restricted
/// to [0, 1/2] (control points `p0 a1 a2 m`) followed by the curve restricted
/// to [1/2, 1] (control points `m b1 b2 p3`), each one level deeper, where
/// those control points are the exact ones up to the rounding of integer
/// halving; a flat cubic, or one at the depth limit, gives its end point.
pub proof fn lemma_cubic_flattening_splits_at_half(
    x0: int,
    y0: int,
    x1: int,
    y1: int,
    x2: int,
    y2: int,
    x3: int,
    y3: int,
    depth: int,
)
    ensures
        (depth >= 16 || cubic_flatness(x0, y0, x1, y1, x2, y2, x3, y3) <= FLATNESS_THRESHOLD_RAW)
            ==> cubic_points(x0, y0, x1, y1, x2, y2, x3, y3, depth) == seq![fpt(x3, y3)],
        !(depth >= 16 || cubic_flatness(x0, y0, x1, y1, x2, y2, x3, y3) <= FLATNESS_THRESHOLD_RAW)
            ==> exists|
                a1x: int,
                a1y: int,
                a2x: int,
                a2y: int,
                mx: int,
                my: int,
                b1x: int,
                b1y: int,
                b2x: int,
                b2y: int,
            |
                #[trigger] near_half_split(x0, x1, x2, x3, a1x, a2x, mx, b1x, b2x)
                    && #[trigger] near_half_split(y0, y1, y2, y3, a1y, a2y, my, b1y, b2y)
                    && cubic_points(x0, y0, x1, y1, x2, y2, x3, y3, depth) == cubic_points(
                    x0,
                    y0,
                    a1x,
                    a1y,
                    a2x,
                    a2y,
                    mx,
                    my,
                    depth + 1,
                ) + cubic_points(mx, my, b1x, b1y, b2x, b2y, x3, y3, depth + 1),
{
    if !(depth >= 16 || cubic_flatness(x0, y0, x1, y1, x2, y2, x3, y3) <= FLATNESS_THRESHOLD_RAW) {
        let p01x = half_sum(x0, x1);
        let p01y = half_sum(y0, y1);
        let p12x = half_sum(x1, x2);
        let p12y = half_sum(y1, y2);
        let p23x = half_sum(x2, x3);
        let p23y = half_sum(y2, y3);
        let p012x = half_sum(p01x, p12x);
        let p012y = half_sum(p01y, p12y);
        let p123x = half_sum(p12x, p23x);
        let p123y = half_sum(p12y, p23y);
        let pmx = half_sum(p012x, p123x);
        let pmy = half_sum(p012y, p123y);
        lemma_half_sum_near(x0, x1);
        lemma_half_sum_near(y0, y1);
        lemma_half_sum_near(x1, x2);
        lemma_half_sum_near(y1, y2);
        lemma_half_sum_near(x2, x3);
        lemma_half_sum_near(y2, y3);
        lemma_half_sum_near(p01x, p12x);
        lemma_half_sum_near(p01y, p12y);
        lemma_half_sum_near(p12x, p23x);
        lemma_half_sum_near(p12y, p23y);
        lemma_half_sum_near(p012x, p123x);
        lemma_half_sum_near(p012y, p123y);
        assert(near_half_split(x0, x1, x2, x3, p01x, p012x, pmx, p123x, p23x));
        assert(near_half_split(y0, y1, y2, y3, p01y, p012y, pmy, p123y, p23y));
        assert(cubic_points(x0, y0, x1, y1, x2, y2, x3, y3, depth) == cubic_points(
            x0,
            y0,
            p01x,
            p01y,
            p012x,
            p012y,
            pmx,
            pmy,
            depth + 1,
        ) + cubic_points(pmx, pmy, p123x, p123y, p23x, p23y, x3, y3, depth + 1));
    }
}

/// A coordinate small enough that flattening can never overflow:
/// at most 2^28 units of 1/64 pixel from the origin (4,194,304 pixels).
pub open spec fn coord_bounded(v: int) -> bool {
    -0x1000_0000 <= v <= 0x1000_0000
}

proof fn lemma_half_sum_between(a: int, b: int)
    ensures
        (if a <= b { a } else { b }) <= half_sum(a, b) <= (if a <= b { b } else { a }),
{
    reveal(half_sum);
    let s = a + b;
    if s >= 0 {
        assert(abs_int(s) / 2 <= s);
    } else {
        assert(abs_int(s) / 2 <= -s);
    }
}

/// Law: flattening a quadratic whose coordinates are all bounded never
/// overflows, whatever the starting depth.
#[verifier::rlimit(40)]
pub proof fn lemma_bounded_quad_is_safe(
    x0: int,
    y0: int,
    x1: int,
    y1: int,
    x2: int,
    y2: int,
    depth: int,
)
    requires
        coord_bounded(x0),
        coord_bounded(y0),
        coord_bounded(x1),
        coord_bounded(y1),
        coord_bounded(x2),
        coord_bounded(y2),
    ensures
        quad_safe(x0, y0, x1, y1, x2, y2, depth),
    decreases 16 - depth,
{
    if depth < 16 {
        lemma_half_sum_between(x0, x2);
        lemma_half_sum_between(y0, y2);
        lemma_half_sum_between(x0, x1);
        lemma_half_sum_between(y0, y1);
        lemma_half_sum_between(x1, x2);
        lemma_half_sum_between(y1, y2);
        let m01x = half_sum(x0, x1);
        let m01y = half_sum(y0, y1);
        let m12x = half_sum(x1, x2);
        let m12y = half_sum(y1, y2);
        lemma_half_sum_between(m01x, m12x);
        lemma_half_sum_between(m01y, m12y);
        let mx = half_sum(m01x, m12x);
        let my = half_sum(m01y, m12y);
        lemma_bounded_quad_is_safe(x0, y0, m01x, m01y, mx, my, depth + 1);
        lemma_bounded_quad_is_safe(mx, my, m12x, m12y, x2, y2, depth + 1);
    }
}

/// Law: flattening a cubic whose coordinates are all bounded never overflows.
#[verifier::rlimit(40)]
pub proof fn lemma_bounded_cubic_is_safe(
    x0: int,
    y0: int,
    x1: int,
    y1: int,
    x2: int,
    y2: int,
    x3: int,
    y3: int,
    depth: int,
)
    requires
        coord_bounded(x0),
        coord_bounded(y0),
        coord_bounded(x1),
        coord_bounded(y1),
        coord_bounded(x2),
        coord_bounded(y2),
        coord_bounded(x3),
        coord_bounded(y3),
    ensures
        cubic_safe(x0, y0, x1, y1, x2, y2, x3, y3, depth),
    decreases 16 - depth,
{
    if depth < 16 {
        lemma_half_sum_between(x0, x3);
        lemma_half_sum_between(y0, y3);
        lemma_half_sum_between(x0, x1);
        lemma_half_sum_between(y0, y1);
        lemma_half_sum_between(x1, x2);
        lemma_half_sum_between(y1, y2);
        lemma_half_sum_between(x2, x3);
        lemma_half_sum_between(y2, y3);
        let m01x = half_sum(x0, x1);
        let m01y = half_sum(y0, y1);
        let m12x = half_sum(x1, x2);
        let m12y = half_sum(y1, y2);
        let m23x = half_sum(x2, x3);
        let m23y = half_sum(y2, y3);
        lemma_half_sum_between(m01x, m12x);
        lemma_half_sum_between(m01y, m12y);
        lemma_half_sum_between(m12x, m23x);
        lemma_half_sum_between(m12y, m23y);
        let m012x = half_sum(m01x, m12x);
        let m012y = half_sum(m01y, m12y);
        let m123x = half_sum(m12x, m23x);
        let m123y = half_sum(m12y, m23y);
        lemma_half_sum_between(m012x, m123x);
        lemma_half_sum_between(m012y, m123y);
        let mx = half_sum(m012x, m123x);
        let my = half_sum(m012y, m123y);
        lemma_bounded_cubic_is_safe(x0, y0, m01x, m01y, m012x, m012y, mx, my, depth + 1);
        lemma_bounded_cubic_is_safe(mx, my, m123x, m123y, m23x, m23y, x3, y3, depth + 1);
    }
}

/// Both coordinates of `p` lie in `[xlo, xhi] × [ylo, yhi]`.
pub open spec fn point_within(p: FixedPoint, xlo: int, xhi: int, ylo: int, yhi: int) -> bool {
    &&& xlo <= p.0.val() <= xhi
    &&& ylo <= p.1.val() <= yhi
}

/// The box `[xlo, xhi] × [ylo, yhi]` lies in the `i32` range.
pub open spec fn box_in_i32(xlo: int, xhi: int, ylo: int, yhi: int) -> bool {
    &&& i32::MIN <= xlo
    &&& xhi <= i32::MAX
    &&& i32::MIN <= ylo
    &&& yhi <= i32::MAX
}

/// Law: every point that flattening a quadratic emits lies in any box that
/// holds its three control points.
pub proof fn lemma_quad_points_within(
    x0: int,
    y0: int,
    x1: int,
    y1: int,
    x2: int,
    y2: int,
    depth: int,
    xlo: int,
    xhi: int,
    ylo: int,
    yhi: int,
)
    requires
        box_in_i32(xlo, xhi, ylo, yhi),
        xlo <= x0 <= xhi,
        xlo <= x1 <= xhi,
        xlo <= x2 <= xhi,
        ylo <= y0 <= yhi,
        ylo <= y1 <= yhi,
        ylo <= y2 <= yhi,
    ensures
        forall|i: int|
            0 <= i < quad_points(x0, y0, x1, y1, x2, y2, depth).len() ==> point_within(
                #[trigger] quad_points(x0, y0, x1, y1, x2, y2, depth)[i],
                xlo,
                xhi,
                ylo,
                yhi,
            ),
    decreases 16 - depth,
{
    if !(depth >= 16 || quad_flatness(x0, y0, x1, y1, x2, y2) <= FLATNESS_THRESHOLD_RAW) {
        lemma_half_sum_between(x0, x1);
        lemma_half_sum_between(y0, y1);
        lemma_half_sum_between(x1, x2);
        lemma_half_sum_between(y1, y2);
        let m01x = half_sum(x0, x1);
        let m01y = half_sum(y0, y1);
        let m12x = half_sum(x1, x2);
        let m12y = half_sum(y1, y2);
        lemma_half_sum_between(m01x, m12x);
        lemma_half_sum_between(m01y, m12y);
        let mx = half_sum(m01x, m12x);
        let my = half_sum(m01y, m12y);
        lemma_quad_points_within(x0, y0, m01x, m01y, mx, my, depth + 1, xlo, xhi, ylo, yhi);
        lemma_quad_points_within(mx, my, m12x, m12y, x2, y2, depth + 1, xlo, xhi, ylo, yhi);
        let a = quad_points(x0, y0, m01x, m01y, mx, my, depth + 1);
        let b = quad_points(mx, my, m12x, m12y, x2, y2, depth + 1);
        assert forall|i: int| 0 <= i < (a + b).len() implies point_within(
            #[trigger] (a + b)[i],
            xlo,
            xhi,
            ylo,
            yhi,
        ) by {
            if i < a.len() {
                assert((a + b)[i] == a[i]);
            } else {
                assert((a + b)[i] == b[i - a.len()]);
            }
        }
    }
}

/// Law: every point that flattening a cubic emits lies in any box that holds
/// its four control points.
#[verifier::rlimit(40)]
pub proof fn lemma_cubic_points_within(
    x0: int,
    y0: int,
    x1: int,
    y1: int,
    x2: int,
    y2: int,
    x3: int,
    y3: int,
    depth: int,
    xlo: int,
    xhi: int,
    ylo: int,
    yhi: int,
)
    requires
        box_in_i32(xlo, xhi, ylo, yhi),
        xlo <= x0 <= xhi,
        xlo <= x1 <= xhi,
        xlo <= x2 <= xhi,
        xlo <= x3 <= xhi,
        ylo <= y0 <= yhi,
        ylo <= y1 <= yhi,
        ylo <= y2 <= yhi,
        ylo <= y3 <= yhi,
    ensures
        forall|i: int|
            0 <= i < cubic_points(x0, y0, x1, y1, x2, y2, x3, y3, depth).len() ==> point_within(
                #[trigger] cubic_points(x0, y0, x1, y1, x2, y2, x3, y3, depth)[i],
                xlo,
                xhi,
                ylo,
                yhi,
            ),
    decreases 16 - depth,
{
    if !(depth >= 16 || cubic_flatness(x0, y0, x1, y1, x2, y2, x3, y3) <= FLATNESS_THRESHOLD_RAW) {
        lemma_half_sum_between(x0, x1);
        lemma_half_sum_between(y0, y1);
        lemma_half_sum_between(x1, x2);
        lemma_half_sum_between(y1, y2);
        lemma_half_sum_between(x2, x3);
        lemma_half_sum_between(y2, y3);
        let m01x = half_sum(x0, x1);
        let m01y = half_sum(y0, y1);
        let m12x = half_sum(x1, x2);
        let m12y = half_sum(y1, y2);
        let m23x = half_sum(x2, x3);
        let m23y = half_sum(y2, y3);
        lemma_half_sum_between(m01x, m12x);
        lemma_half_sum_between(m01y, m12y);
        lemma_half_sum_between(m12x, m23x);
        lemma_half_sum_between(m12y, m23y);
        let m012x = half_sum(m01x, m12x);
        let m012y = half_sum(m01y, m12y);
        let m123x = half_sum(m12x, m23x);
        let m123y = half_sum(m12y, m23y);
        lemma_half_sum_between(m012x, m123x);
        lemma_half_sum_between(m012y, m123y);
        let mx = half_sum(m012x, m123x);
        let my = half_sum(m012y, m123y);
        lemma_cubic_points_within(x0, y0, m01x, m01y, m012x, m012y, mx, my, depth + 1, xlo, xhi, ylo, yhi);
        lemma_cubic_points_within(mx, my, m123x, m123y, m23x, m23y, x3, y3, depth + 1, xlo, xhi, ylo, yhi);
        let a = cubic_points(x0, y0, m01x, m01y, m012x, m012y, mx, my, depth + 1);
        let b = cubic_points(mx, my, m123x, m123y, m23x, m23y, x3, y3, depth + 1);
        assert forall|i: int| 0 <= i < (a + b).len() implies point_within(
            #[trigger] (a + b)[i],
            xlo,
            xhi,
            ylo,
            yhi,
        ) by {
            if i < a.len() {
                assert((a + b)[i] == a[i]);
            } else {
                assert((a + b)[i] == b[i - a.len()]);
            }
        }
    }
}

/// Law: flattening a quadratic emits at least one point and at most
/// 2^(16 - depth), and the last point emitted is the curve's end point.
pub proof fn lemma_quad_points_end_at_endpoint(
    x0: int,
    y0: int,
    x1: int,
    y1: int,
    x2: int,
    y2: int,
    depth: int,
)
    requires
        0 <= depth <= 16,
    ensures
        quad_points(x0, y0, x1, y1, x2, y2, depth).len() >= 1,
        quad_points(x0, y0, x1, y1, x2, y2, depth).len() <= vstd::arithmetic::power2::pow2(
            (16 - depth) as nat,
        ),
        quad_points(x0, y0, x1, y1, x2, y2, depth).last() == fpt(x2, y2),
    decreases 16 - depth,
{
    vstd::arithmetic::power2::lemma_pow2_pos((16 - depth) as nat);
    if !(depth >= 16 || quad_flatness(x0, y0, x1, y1, x2, y2) <= FLATNESS_THRESHOLD_RAW) {
        let m01x = half_sum(x0, x1);
        let m01y = half_sum(y0, y1);
        let m12x = half_sum(x1, x2);
        let m12y = half_sum(y1, y2);
        let mx = half_sum(m01x, m12x);
        let my = half_sum(m01y, m12y);
        lemma_quad_points_end_at_endpoint(x0, y0, m01x, m01y, mx, my, depth + 1);
        lemma_quad_points_end_at_endpoint(mx, my, m12x, m12y, x2, y2, depth + 1);
        vstd::arithmetic::power2::lemma_pow2_unfold((16 - depth) as nat);
    }
}

/// Law: flattening a cubic emits at least one point and at most
/// 2^(16 - depth), and the last point emitted is the curve's end point.
#[verifier::rlimit(40)]
pub proof fn lemma_cubic_points_end_at_endpoint(
    x0: int,
    y0: int,
    x1: int,
    y1: int,
    x2: int,
    y2: int,
    x3: int,
    y3: int,
    depth: int,
)
    requires
        0 <= depth <= 16,
    ensures
        cubic_points(x0, y0, x1, y1, x2, y2, x3, y3, depth).len() >= 1,
        cubic_points(x0, y0, x1, y1, x2, y2, x3, y3, depth).len() <= vstd::arithmetic::power2::pow2(
            (16 - depth) as nat,
        ),
        cubic_points(x0, y0, x1, y1, x2, y2, x3, y3, depth).last() == fpt(x3, y3),
    decreases 16 - depth,
{
    vstd::arithmetic::power2::lemma_pow2_pos((16 - depth) as nat);
    if !(depth >= 16 || cubic_flatness(x0, y0, x1, y1, x2, y2, x3, y3) <= FLATNESS_THRESHOLD_RAW) {
        let m01x = half_sum(x0, x1);
        let m01y = half_sum(y0, y1);
        let m12x = half_sum(x1, x2);
        let m12y = half_sum(y1, y2);
        let m23x = half_sum(x2, x3);
        let m23y = half_sum(y2, y3);
        let m012x = half_sum(m01x, m12x);
        let m012y = half_sum(m01y, m12y);
        let m123x = half_sum(m12x, m23x);
        let m123y = half_sum(m12y, m23y);
        let mx = half_sum(m012x, m123x);
        let my = half_sum(m012y, m123y);
        lemma_cubic_points_end_at_endpoint(x0, y0, m01x, m01y, m012x, m012y, mx, my, depth + 1);
        lemma_cubic_points_end_at_endpoint(mx, my, m123x, m123y, m23x, m23y, x3, y3, depth + 1);
        vstd::arithmetic::power2::lemma_pow2_unfold((16 - depth) as nat);
    }
}

} // verus!
