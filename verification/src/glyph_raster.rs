//! Rasterization of one glyph outline into an anti-aliased coverage bitmap:
//! the outline's pixel bounds give the bitmap, the outline is scaled by the
//! oversampling factor and flipped into it, scan converted, and averaged
//! down.

use vstd::prelude::*;
use crate::bitmap::GlyphBitmap;
use crate::curves::FixedPoint;
use crate::edge::Edge;
use crate::fixed::{ceil64, floor64, F26Dot6};
use crate::grayscale::{alpha_map, render_grayscale, GrayscaleLevel};
use crate::outline_bounds::{
    box_ok, command_in_box, in_box, lemma_path_in_box, lemma_scan_fits, path_in_box, state_ok,
};
use crate::scan_converter::{
    mono_image, path_effect, table_edge_total, DropoutMode, FillRule, OutlineState, PathCommand,
    ScanConverter,
};

verus! {

/// Largest side of a glyph bitmap at the oversampled resolution.
pub const MAX_GLYPH_SIDE: u32 = 4096;

/// Raw bounds of a set of points: min X, min Y, max X, max Y.
pub type Bounds = (int, int, int, int);

/// `b` grown to hold `p`.
pub open spec fn add_point(b: Option<Bounds>, p: FixedPoint) -> Option<Bounds> {
    let x = p.0.val();
    let y = p.1.val();
    match b {
        None => Some((x, y, x, y)),
        Some((a, c, d, e)) => Some(
            (
                if x < a {
                    x
                } else {
                    a
                },
                if y < c {
                    y
                } else {
                    c
                },
                if x > d {
                    x
                } else {
                    d
                },
                if y > e {
                    y
                } else {
                    e
                },
            ),
        ),
    }
}

/// `b` grown to hold every point of the command (control points included).
pub open spec fn add_command(b: Option<Bounds>, c: PathCommand) -> Option<Bounds> {
    match c {
        PathCommand::MoveTo(x, y) => add_point(b, (x, y)),
        PathCommand::LineTo(x, y) => add_point(b, (x, y)),
        PathCommand::QuadTo(x1, y1, x2, y2) => add_point(add_point(b, (x1, y1)), (x2, y2)),
        PathCommand::CubicTo(x1, y1, x2, y2, x3, y3) => add_point(
            add_point(add_point(b, (x1, y1)), (x2, y2)),
            (x3, y3),
        ),
        PathCommand::Close => b,
    }
}

/// Bounds of the points of the first `n` commands, if they have any.
pub open spec fn outline_bounds_spec(cmds: Seq<PathCommand>, n: int) -> Option<Bounds>
    decreases n,
{
    if n <= 0 {
        None
    } else {
        add_command(outline_bounds_spec(cmds, n - 1), cmds[n - 1])
    }
}

/// Whole-pixel box of raw bounds: floor of the minima, ceiling of the maxima.
pub open spec fn pixel_box(b: Bounds) -> Bounds {
    (floor64(b.0), floor64(b.1), ceil64(b.2), ceil64(b.3))
}

/// A side of the oversampled bitmap: the span times the factor, at least 1.
pub open spec fn side(span: int, oversample: int) -> int {
    if span * oversample >= 1 {
        span * oversample
    } else {
        1
    }
}

/// The supported oversampling factors.
pub open spec fn oversample_ok(oversample: int) -> bool {
    oversample == 2 || oversample == 4 || oversample == 8
}

/// The anti-aliasing level of an oversampling factor.
pub open spec fn level_of(oversample: int) -> GrayscaleLevel {
    if oversample == 2 {
        GrayscaleLevel::Level2x2
    } else if oversample == 8 {
        GrayscaleLevel::Level8x8
    } else {
        GrayscaleLevel::Level4x4
    }
}

/// A point scaled by the factor, moved so the pixel box starts at 0 and
/// flipped so Y grows downward.
pub open spec fn transform_point(p: FixedPoint, os: int, x_min: int, y_max: int) -> FixedPoint {
    (
        F26Dot6((p.0.val() * os - x_min * 64 * os) as i32),
        F26Dot6((y_max * 64 * os - p.1.val() * os) as i32),
    )
}

/// A command with every point transformed.
pub open spec fn transform_command(c: PathCommand, os: int, x_min: int, y_max: int) -> PathCommand {
    match c {
        PathCommand::MoveTo(x, y) => {
            let p = transform_point((x, y), os, x_min, y_max);
            PathCommand::MoveTo(p.0, p.1)
        },
        PathCommand::LineTo(x, y) => {
            let p = transform_point((x, y), os, x_min, y_max);
            PathCommand::LineTo(p.0, p.1)
        },
        PathCommand::QuadTo(x1, y1, x2, y2) => {
            let p = transform_point((x1, y1), os, x_min, y_max);
            let q = transform_point((x2, y2), os, x_min, y_max);
            PathCommand::QuadTo(p.0, p.1, q.0, q.1)
        },
        PathCommand::CubicTo(x1, y1, x2, y2, x3, y3) => {
            let p = transform_point((x1, y1), os, x_min, y_max);
            let q = transform_point((x2, y2), os, x_min, y_max);
            let r = transform_point((x3, y3), os, x_min, y_max);
            PathCommand::CubicTo(p.0, p.1, q.0, q.1, r.0, r.1)
        },
        PathCommand::Close => PathCommand::Close,
    }
}

/// The outline with every command transformed.
pub open spec fn transform_outline(cmds: Seq<PathCommand>, os: int, x_min: int, y_max: int) -> Seq<
    PathCommand,
> {
    Seq::new(cmds.len(), |i: int| transform_command(cmds[i], os, x_min, y_max))
}

/// The outline state of a fresh scan converter with `h` rows.
pub open spec fn fresh_state(h: int) -> OutlineState {
    (Seq::new(h as nat, |i: int| Seq::<Edge>::empty()), (F26Dot6(0), F26Dot6(0)), (F26Dot6(0), F26Dot6(0)))
}

/// Why a glyph could not be rasterized.
#[derive(Debug, Clone, Copy, PartialEq, Eq, Structural)]
pub enum GlyphRasterError {
    /// The oversampled bitmap would exceed 4096 pixels on a side.
    BitmapTooLarge { width: u32, height: u32 },
    /// The outline has too many edges to count windings in an `i32`.
    TooManyEdges,
    /// The oversampling factor is not 2, 4 or 8.
    UnsupportedOversample { oversample: u8 },
}

/// A point lies inside raw bounds.
pub open spec fn within_bounds(p: FixedPoint, b: Bounds) -> bool {
    b.0 <= p.0.val() <= b.2 && b.1 <= p.1.val() <= b.3
}

/// Every point of the command lies inside the bounds.
pub open spec fn command_within(c: PathCommand, b: Bounds) -> bool {
    match c {
        PathCommand::MoveTo(x, y) => within_bounds((x, y), b),
        PathCommand::LineTo(x, y) => within_bounds((x, y), b),
        PathCommand::QuadTo(x1, y1, x2, y2) => within_bounds((x1, y1), b) && within_bounds((x2, y2), b),
        PathCommand::CubicTo(x1, y1, x2, y2, x3, y3) => within_bounds((x1, y1), b) && within_bounds(
            (x2, y2),
            b,
        ) && within_bounds((x3, y3), b),
        PathCommand::Close => true,
    }
}

/// Bounds that hold `inner` still hold it after growing.
proof fn lemma_add_point_grows(b: Option<Bounds>, p: FixedPoint, q: FixedPoint)
    requires
        b matches Some(bb) && within_bounds(q, bb),
    ensures
        add_point(b, p) matches Some(nb) && within_bounds(q, nb) && within_bounds(p, nb),
{
}

/// The bounds of a prefix hold every point of that prefix.
proof fn lemma_bounds_hold(cmds: Seq<PathCommand>, n: int)
    requires
        0 <= n <= cmds.len(),
    ensures
        forall|i: int|
            0 <= i < n ==> (outline_bounds_spec(cmds, n) matches Some(b) && command_within(
                #[trigger] cmds[i],
                b,
            )) || (cmds[i] == PathCommand::Close),
        outline_bounds_spec(cmds, n) matches Some(b) ==> b.0 <= b.2 && b.1 <= b.3,
    decreases n,
{
    if n > 0 {
        lemma_bounds_hold(cmds, n - 1);
        let b0 = outline_bounds_spec(cmds, n - 1);
        let c = cmds[n - 1];
        let b1 = outline_bounds_spec(cmds, n);
        assert forall|i: int| 0 <= i < n implies (outline_bounds_spec(cmds, n) matches Some(b)
            && command_within(#[trigger] cmds[i], b)) || (cmds[i] == PathCommand::Close) by {
            if cmds[i] != PathCommand::Close {
                if i < n - 1 {
                    let bb = b0->Some_0;
                    assert(command_within(cmds[i], bb));
                    match c {
                        PathCommand::MoveTo(x, y) => {},
                        PathCommand::LineTo(x, y) => {},
                        PathCommand::QuadTo(x1, y1, x2, y2) => {},
                        PathCommand::CubicTo(x1, y1, x2, y2, x3, y3) => {},
                        PathCommand::Close => {},
                    }
                    let nb = b1->Some_0;
                    match cmds[i] {
                        PathCommand::MoveTo(x, y) => {},
                        PathCommand::LineTo(x, y) => {},
                        PathCommand::QuadTo(x1, y1, x2, y2) => {},
                        PathCommand::CubicTo(x1, y1, x2, y2, x3, y3) => {},
                        PathCommand::Close => {},
                    }
                } else {
                    match c {
                        PathCommand::MoveTo(x, y) => {},
                        PathCommand::LineTo(x, y) => {},
                        PathCommand::QuadTo(x1, y1, x2, y2) => {},
                        PathCommand::CubicTo(x1, y1, x2, y2, x3, y3) => {},
                        PathCommand::Close => {},
                    }
                }
            }
        }
    }
}

/// `floor64(v) * 64 <= v <= ceil64(v) * 64`, and both are close to `v`.
proof fn lemma_floor_ceil64(v: int)
    ensures
        floor64(v) * 64 <= v < floor64(v) * 64 + 64,
        ceil64(v) * 64 - 64 < v <= ceil64(v) * 64,
{
    let q = v / 64;
    let r = v % 64;
    assert(v == 64 * q + r && 0 <= r < 64) by (nonlinear_arith)
        requires
            q == v / 64,
            r == v % 64,
    ;
    let m = (-v) / 64;
    let rm = (-v) % 64;
    assert(-v == 64 * m + rm && 0 <= rm < 64) by (nonlinear_arith)
        requires
            m == (-v) / 64,
            rm == (-v) % 64,
    ;
}

/// A point within the bounds lands in the oversampled box after the
/// transform.
proof fn lemma_transform_point(p: FixedPoint, b: Bounds, os: int)
    requires
        oversample_ok(os),
        within_bounds(p, b),
        pixel_box(b).2 > pixel_box(b).0,
        pixel_box(b).3 > pixel_box(b).1,
        (pixel_box(b).2 - pixel_box(b).0) * os <= 4096,
        (pixel_box(b).3 - pixel_box(b).1) * os <= 4096,
    ensures
        in_box(
            transform_point(p, os, pixel_box(b).0, pixel_box(b).3),
            (pixel_box(b).2 - pixel_box(b).0) * os * 64,
            (pixel_box(b).3 - pixel_box(b).1) * os * 64,
        ),
        0 <= p.0.val() * os - pixel_box(b).0 * 64 * os <= 4096 * 64,
        0 <= pixel_box(b).3 * 64 * os - p.1.val() * os <= 4096 * 64,
{
    let (x0, y0, x1, y1) = pixel_box(b);
    lemma_floor_ceil64(b.0);
    lemma_floor_ceil64(b.1);
    lemma_floor_ceil64(b.2);
    lemma_floor_ceil64(b.3);
    let px = p.0.val();
    let py = p.1.val();
    assert(0 <= px - x0 * 64 <= (x1 - x0) * 64);
    assert(0 <= y1 * 64 - py <= (y1 - y0) * 64);
    assert(0 <= px * os - x0 * 64 * os <= (x1 - x0) * os * 64) by (nonlinear_arith)
        requires
            0 <= px - x0 * 64 <= (x1 - x0) * 64,
            os > 0,
    ;
    assert(0 <= y1 * 64 * os - py * os <= (y1 - y0) * os * 64) by (nonlinear_arith)
        requires
            0 <= y1 * 64 - py <= (y1 - y0) * 64,
            os > 0,
    ;
    assert((x1 - x0) * os * 64 <= 4096 * 64);
    assert((y1 - y0) * os * 64 <= 4096 * 64);
}

/// Law: the transformed outline lies in the oversampled box, so it can be
/// drawn and scanned without overflow.
proof fn lemma_transform_in_box(cmds: Seq<PathCommand>, b: Bounds, os: int)
    requires
        oversample_ok(os),
        outline_bounds_spec(cmds, cmds.len() as int) == Some(b),
        pixel_box(b).2 > pixel_box(b).0,
        pixel_box(b).3 > pixel_box(b).1,
        (pixel_box(b).2 - pixel_box(b).0) * os <= 4096,
        (pixel_box(b).3 - pixel_box(b).1) * os <= 4096,
    ensures
        path_in_box(
            transform_outline(cmds, os, pixel_box(b).0, pixel_box(b).3),
            (pixel_box(b).2 - pixel_box(b).0) * os * 64,
            (pixel_box(b).3 - pixel_box(b).1) * os * 64,
        ),
{
    let (x0, y0, x1, y1) = pixel_box(b);
    let bw = (x1 - x0) * os * 64;
    let bh = (y1 - y0) * os * 64;
    let t = transform_outline(cmds, os, x0, y1);
    lemma_bounds_hold(cmds, cmds.len() as int);
    assert forall|i: int| 0 <= i < t.len() implies command_in_box(#[trigger] t[i], bw, bh) by {
        let c = cmds[i];
        match c {
            PathCommand::MoveTo(x, y) => {
                lemma_transform_point((x, y), b, os);
            },
            PathCommand::LineTo(x, y) => {
                lemma_transform_point((x, y), b, os);
            },
            PathCommand::QuadTo(x1_, y1_, x2_, y2_) => {
                lemma_transform_point((x1_, y1_), b, os);
                lemma_transform_point((x2_, y2_), b, os);
            },
            PathCommand::CubicTo(x1_, y1_, x2_, y2_, x3_, y3_) => {
                lemma_transform_point((x1_, y1_), b, os);
                lemma_transform_point((x2_, y2_), b, os);
                lemma_transform_point((x3_, y3_), b, os);
            },
            PathCommand::Close => {},
        }
    }
}

/// `transform_point` as code, for a point within the bounds.
fn transform_point_exec(x: F26Dot6, y: F26Dot6, os: i64, x0: i64, y1: i64, Ghost(b): Ghost<Bounds>) -> (r:
    (F26Dot6, F26Dot6))
    requires
        oversample_ok(os as int),
        within_bounds((x, y), b),
        x0 == pixel_box(b).0,
        y1 == pixel_box(b).3,
        pixel_box(b).2 > pixel_box(b).0,
        pixel_box(b).3 > pixel_box(b).1,
        (pixel_box(b).2 - pixel_box(b).0) * os <= 4096,
        (pixel_box(b).3 - pixel_box(b).1) * os <= 4096,
        -0x200_0000 <= x0 <= 0x200_0000,
        -0x200_0000 <= y1 <= 0x200_0000,
    ensures
        r == transform_point((x, y), os as int, x0 as int, y1 as int),
{
    proof {
        lemma_transform_point((x, y), b, os as int);
        assert(-0x8000_0000 * 8 <= x.val() * os <= 0x8000_0000 * 8) by (nonlinear_arith)
            requires
                i32::MIN <= x.val() <= i32::MAX,
                2 <= os <= 8,
        ;
        assert(-0x8000_0000 * 8 <= y.val() * os <= 0x8000_0000 * 8) by (nonlinear_arith)
            requires
                i32::MIN <= y.val() <= i32::MAX,
                2 <= os <= 8,
        ;
        assert(-0x200_0000 * 64 * 8 <= x0 * 64 * os <= 0x200_0000 * 64 * 8) by (nonlinear_arith)
            requires
                -0x200_0000 <= x0 <= 0x200_0000,
                2 <= os <= 8,
        ;
        assert(-0x200_0000 * 64 * 8 <= y1 * 64 * os <= 0x200_0000 * 64 * 8) by (nonlinear_arith)
            requires
                -0x200_0000 <= y1 <= 0x200_0000,
                2 <= os <= 8,
        ;
    }
    let tx: i64 = x.raw() as i64 * os - x0 * 64 * os;
    let ty: i64 = y1 * 64 * os - y.raw() as i64 * os;
    (F26Dot6::from_raw(tx as i32), F26Dot6::from_raw(ty as i32))
}

/// `transform_outline` as code, for an outline within its bounds.
fn transform_outline_exec(outline: &Vec<PathCommand>, os: i64, x0: i64, y1: i64, Ghost(b): Ghost<Bounds>) -> (r:
    Vec<PathCommand>)
    requires
        oversample_ok(os as int),
        outline_bounds_spec(outline@, outline@.len() as int) == Some(b),
        x0 == pixel_box(b).0,
        y1 == pixel_box(b).3,
        pixel_box(b).2 > pixel_box(b).0,
        pixel_box(b).3 > pixel_box(b).1,
        (pixel_box(b).2 - pixel_box(b).0) * os <= 4096,
        (pixel_box(b).3 - pixel_box(b).1) * os <= 4096,
        -0x200_0000 <= x0 <= 0x200_0000,
        -0x200_0000 <= y1 <= 0x200_0000,
    ensures
        r@ == transform_outline(outline@, os as int, x0 as int, y1 as int),
{
    let ghost cmds0 = outline@;
    let ghost tcmds = transform_outline(cmds0, os as int, x0 as int, y1 as int);
    proof {
        lemma_bounds_hold(cmds0, cmds0.len() as int);
    }
    let mut transformed: Vec<PathCommand> = Vec::with_capacity(outline.len());
    let mut i: usize = 0;
    while i < outline.len()
        invariant
            0 <= i <= outline@.len(),
            cmds0 == outline@,
            transformed@ == tcmds.subrange(0, i as int),
            tcmds == transform_outline(cmds0, os as int, x0 as int, y1 as int),
            oversample_ok(os as int),
            x0 == pixel_box(b).0,
            y1 == pixel_box(b).3,
            pixel_box(b).2 > pixel_box(b).0,
            pixel_box(b).3 > pixel_box(b).1,
            (pixel_box(b).2 - pixel_box(b).0) * os <= 4096,
            (pixel_box(b).3 - pixel_box(b).1) * os <= 4096,
            forall|k: int|
                0 <= k < cmds0.len() ==> (outline_bounds_spec(cmds0, cmds0.len() as int) matches Some(
                    bb,
                ) && command_within(#[trigger] cmds0[k], bb)) || (cmds0[k] == PathCommand::Close),
            outline_bounds_spec(cmds0, cmds0.len() as int) == Some(b),
            -0x200_0000 <= x0 <= 0x200_0000,
            -0x200_0000 <= y1 <= 0x200_0000,
        decreases outline@.len() - i,
    {
        let c = outline[i];
        proof {
            assert(command_within(c, b) || c == PathCommand::Close);
        }
        let t = match c {
            PathCommand::MoveTo(x, y) => {
                let p = transform_point_exec(x, y, os, x0, y1, Ghost(b));
                PathCommand::MoveTo(p.0, p.1)
            },
            PathCommand::LineTo(x, y) => {
                let p = transform_point_exec(x, y, os, x0, y1, Ghost(b));
                PathCommand::LineTo(p.0, p.1)
            },
            PathCommand::QuadTo(xa, ya, xb, yb) => {
                let p = transform_point_exec(xa, ya, os, x0, y1, Ghost(b));
                let q = transform_point_exec(xb, yb, os, x0, y1, Ghost(b));
                PathCommand::QuadTo(p.0, p.1, q.0, q.1)
            },
            PathCommand::CubicTo(xa, ya, xb, yb, xc, yc) => {
                let p = transform_point_exec(xa, ya, os, x0, y1, Ghost(b));
                let q = transform_point_exec(xb, yb, os, x0, y1, Ghost(b));
                let u = transform_point_exec(xc, yc, os, x0, y1, Ghost(b));
                PathCommand::CubicTo(p.0, p.1, q.0, q.1, u.0, u.1)
            },
            PathCommand::Close => PathCommand::Close,
        };
        transformed.push(t);
        proof {
            assert(t == tcmds[i as int]);
            assert(transformed@ =~= tcmds.subrange(0, i as int + 1));
        }
        i = i + 1;
    }
    assert(transformed@ =~= tcmds);
    transformed
}

/// `ceil64(v)` as code.
fn ceil_px(v: i32) -> (r: i64)
    ensures
        r == ceil64(v as int),
{
    let w: i64 = v as i64 + 63;
    proof {
        assert((w >> 6u64) == w / 64) by (bit_vector);
        lemma_floor_ceil64(v as int);
        lemma_floor_ceil64(w as int);
        let c = ceil64(v as int);
        let f = w / 64;
        assert(f * 64 <= v + 63 < f * 64 + 64);
        assert(c * 64 - 64 < v <= c * 64);
        assert(c == f);
    }
    w >> 6u64
}

/// `add_point` on raw `i32` bounds.
fn add_point_exec(b: Option<(i32, i32, i32, i32)>, x: F26Dot6, y: F26Dot6) -> (r: Option<(i32, i32, i32, i32)>)
    ensures
        r matches Some(rb) && add_point(
            match b {
                Some(bb) => Some((bb.0 as int, bb.1 as int, bb.2 as int, bb.3 as int)),
                None => None,
            },
            (x, y),
        ) == Some((rb.0 as int, rb.1 as int, rb.2 as int, rb.3 as int)),
{
    let px = x.raw();
    let py = y.raw();
    match b {
        None => Some((px, py, px, py)),
        Some((a, c, d, e)) => Some(
            (
                if px < a {
                    px
                } else {
                    a
                },
                if py < c {
                    py
                } else {
                    c
                },
                if px > d {
                    px
                } else {
                    d
                },
                if py > e {
                    py
                } else {
                    e
                },
            ),
        ),
    }
}

/// Raw bounds as mathematical integers.
pub open spec fn as_bounds(b: Option<(i32, i32, i32, i32)>) -> Option<Bounds> {
    match b {
        Some(bb) => Some((bb.0 as int, bb.1 as int, bb.2 as int, bb.3 as int)),
        None => None,
    }
}

fn outline_raw_bounds(outline: &Vec<PathCommand>) -> (r: Option<(i32, i32, i32, i32)>)
    ensures
        as_bounds(r) == outline_bounds_spec(outline@, outline@.len() as int),
{
    let mut b: Option<(i32, i32, i32, i32)> = None;
    let mut i: usize = 0;
    while i < outline.len()
        invariant
            0 <= i <= outline@.len(),
            as_bounds(b) == outline_bounds_spec(outline@, i as int),
        decreases outline@.len() - i,
    {
        b = match outline[i] {
            PathCommand::MoveTo(x, y) => add_point_exec(b, x, y),
            PathCommand::LineTo(x, y) => add_point_exec(b, x, y),
            PathCommand::QuadTo(x1, y1, x2, y2) => add_point_exec(add_point_exec(b, x1, y1), x2, y2),
            PathCommand::CubicTo(x1, y1, x2, y2, x3, y3) => add_point_exec(
                add_point_exec(add_point_exec(b, x1, y1), x2, y2),
                x3,
                y3,
            ),
            PathCommand::Close => b,
        };
        i = i + 1;
    }
    b
}

/// The whole-pixel box of the outline's points (control points included):
/// floor of the minima and ceiling of the maxima, `(x_min, y_min, x_max,
/// y_max)`, or `None` for an outline without points.
pub fn outline_pixel_box(outline: &Vec<PathCommand>) -> (r: Option<(i64, i64, i64, i64)>)
    ensures
        match outline_bounds_spec(outline@, outline@.len() as int) {
            Some(b) => r == Some(
                (
                    pixel_box(b).0 as i64,
                    pixel_box(b).1 as i64,
                    pixel_box(b).2 as i64,
                    pixel_box(b).3 as i64,
                ),
            ),
            None => r is None,
        },
{
    match outline_raw_bounds(outline) {
        None => None,
        Some((a, c, d, e)) => {
            let x0 = F26Dot6::from_raw(a).to_int() as i64;
            let y0 = F26Dot6::from_raw(c).to_int() as i64;
            let x1 = ceil_px(d);
            let y1 = ceil_px(e);
            Some((x0, y0, x1, y1))
        },
    }
}

/// The rasterizer would compute a zero-width or zero-height result and
/// then fail on the mismatched bitmap: the outline's points span no whole
/// pixel in one direction while the bitmap would fit.
pub open spec fn degenerate(cmds: Seq<PathCommand>, os: int) -> bool {
    match outline_bounds_spec(cmds, cmds.len() as int) {
        Some(b) => {
            let (x0, y0, x1, y1) = pixel_box(b);
            &&& side(x1 - x0, os) <= 4096
            &&& side(y1 - y0, os) <= 4096
            &&& (x1 == x0 || y1 == y0)
        },
        None => false,
    }
}

/// Scan convert an outline lying in the `width × height` oversampled box
/// and average it down by the oversampling factor.
fn scan_oversampled(
    transformed: &Vec<PathCommand>,
    width: i64,
    height: i64,
    oversample: u8,
    fill_rule: FillRule,
    dropout_mode: DropoutMode,
) -> (r: Result<Vec<u8>, GlyphRasterError>)
    requires
        oversample_ok(oversample as int),
        1 <= width <= 4096,
        1 <= height <= 4096,
        (width as int) % (oversample as int) == 0,
        (height as int) % (oversample as int) == 0,
        path_in_box(transformed@, width * 64, height * 64),
    ensures
        ({
            let table = path_effect(fresh_state(height as int), height as int, transformed@).0;
            if table_edge_total(table, height as int) >= 0x7fff_ffff {
                r == Err::<Vec<u8>, GlyphRasterError>(GlyphRasterError::TooManyEdges)
            } else {
                r matches Ok(data) && data@ == alpha_map(
                    mono_image(Seq::<Edge>::empty(), table, fill_rule, width as int, height as int),
                    (width as int) / (oversample as int),
                    (height as int) / (oversample as int),
                    oversample as int,
                )
            }
        }),
{
    let os = oversample as i64;
    let mut sc = ScanConverter::new(width as usize, height as usize);
    sc.set_fill_rule(fill_rule);
    sc.set_dropout_mode(dropout_mode);
    proof {
        assert(sc.outline() =~= fresh_state(height as int));
        assert(box_ok(width * 64, height * 64, height as int));
        lemma_path_in_box(fresh_state(height as int), height as int, transformed@, width * 64, height * 64);
    }
    sc.apply_path(transformed);
    if !sc.edge_count_fits() {
        return Err(GlyphRasterError::TooManyEdges);
    }
    proof {
        lemma_scan_fits(sc.table(), height as int);
    }
    let level = if oversample == 2 {
        GrayscaleLevel::Level2x2
    } else if oversample == 8 {
        GrayscaleLevel::Level8x8
    } else {
        GrayscaleLevel::Level4x4
    };
    let out_w = (width / os) as usize;
    let out_h = (height / os) as usize;
    proof {
        assert(out_w * (os as int) == width) by (nonlinear_arith)
            requires
                width % os == 0,
                out_w == width / os,
                os > 0,
        ;
        assert(out_h * (os as int) == height) by (nonlinear_arith)
            requires
                height % os == 0,
                out_h == height / os,
                os > 0,
        ;
        assert(width * height <= 4096 * 4096) by (nonlinear_arith)
            requires
                1 <= width <= 4096,
                1 <= height <= 4096,
        ;
    }
    Ok(render_grayscale(&mut sc, out_w, out_h, level))
}

/// The coverage bitmap (as width, height, left, top and bytes) that
/// rasterizing the outline at the oversampling factor gives, or `None` when
/// the bitmap would be too large or the outline has too many edges.
pub open spec fn rasterized(cmds: Seq<PathCommand>, os: int, rule: FillRule) -> Option<
    (u32, u32, i32, i32, Seq<u8>),
> {
    match outline_bounds_spec(cmds, cmds.len() as int) {
        None => Some((0u32, 0u32, 0i32, 0i32, Seq::<u8>::empty())),
        Some(b) => {
            let (x0, y0, x1, y1) = pixel_box(b);
            let w = side(x1 - x0, os);
            let h = side(y1 - y0, os);
            let table = path_effect(fresh_state(h), h, transform_outline(cmds, os, x0, y1)).0;
            if w > 4096 || h > 4096 || table_edge_total(table, h) >= 0x7fff_ffff {
                None
            } else {
                Some(
                    (
                        (w / os) as u32,
                        (h / os) as u32,
                        x0 as i32,
                        y1 as i32,
                        alpha_map(mono_image(Seq::<Edge>::empty(), table, rule, w, h), w / os, h / os, os),
                    ),
                )
            }
        },
    }
}

/// Why rasterizing fails, where it does.
pub open spec fn raster_error(cmds: Seq<PathCommand>, os: int) -> GlyphRasterError {
    match outline_bounds_spec(cmds, cmds.len() as int) {
        Some(b) => {
            let (x0, y0, x1, y1) = pixel_box(b);
            let w = side(x1 - x0, os);
            let h = side(y1 - y0, os);
            if w > 4096 || h > 4096 {
                GlyphRasterError::BitmapTooLarge { width: w as u32, height: h as u32 }
            } else {
                GlyphRasterError::TooManyEdges
            }
        },
        None => GlyphRasterError::TooManyEdges,
    }
}

/// Rasterize a glyph outline given in 26.6 pixel coordinates with Y up.
///
/// The bitmap covers the outline's whole-pixel box; the outline is drawn at
/// `oversample` times that resolution (Y flipped, box moved to the origin),
/// scan converted with the given fill rule, and averaged down, so each
/// coverage byte is the share of covered samples.  An outline without points
/// gives an empty bitmap.  The result's `left` is the box's left edge and
/// `top` its top edge above the baseline.
pub fn rasterize_glyph_outline(
    outline: &Vec<PathCommand>,
    oversample: u8,
    fill_rule: FillRule,
    dropout_mode: DropoutMode,
) -> (r: Result<GlyphBitmap, GlyphRasterError>)
    requires
        oversample_ok(oversample as int),
        !degenerate(outline@, oversample as int),
    ensures
        match rasterized(outline@, oversample as int, fill_rule) {
            Some(v) => r matches Ok(g) && g@ == v,
            None => r is Err,
        },
        r matches Err(e) ==> e == raster_error(outline@, oversample as int),
{
    let ghost cmds0 = outline@;
    let bounds = outline_raw_bounds(outline);
    let (a, c, d, e) = match bounds {
        None => {
            return Ok(GlyphBitmap { width: 0, height: 0, left: 0, top: 0, data: Vec::new() });
        },
        Some(bb) => bb,
    };
    let ghost b: Bounds = (a as int, c as int, d as int, e as int);
    let x0: i64 = F26Dot6::from_raw(a).to_int() as i64;
    let y0: i64 = F26Dot6::from_raw(c).to_int() as i64;
    let x1: i64 = ceil_px(d);
    let y1: i64 = ceil_px(e);
    let os = oversample as i64;
    proof {
        lemma_bounds_hold(cmds0, cmds0.len() as int);
        lemma_floor_ceil64(a as int);
        lemma_floor_ceil64(c as int);
        lemma_floor_ceil64(d as int);
        lemma_floor_ceil64(e as int);
        assert(0 <= x1 - x0 <= 0x400_0001);
        assert(0 <= y1 - y0 <= 0x400_0001);
        assert(-0x200_0000 <= x0 <= 0x200_0000);
        assert(-0x200_0000 <= y1 <= 0x200_0000);
        assert(0 <= (x1 - x0) * os <= 0x400_0001 * 8) by (nonlinear_arith)
            requires
                0 <= x1 - x0 <= 0x400_0001,
                2 <= os <= 8,
        ;
        assert(0 <= (y1 - y0) * os <= 0x400_0001 * 8) by (nonlinear_arith)
            requires
                0 <= y1 - y0 <= 0x400_0001,
                2 <= os <= 8,
        ;
        assert(pixel_box(b) == (x0 as int, y0 as int, x1 as int, y1 as int));
        assert(outline_bounds_spec(cmds0, cmds0.len() as int) == Some(b));
    }
    let sw: i64 = (x1 - x0) * os;
    let sh: i64 = (y1 - y0) * os;
    let width: i64 = if sw >= 1 {
        sw
    } else {
        1
    };
    let height: i64 = if sh >= 1 {
        sh
    } else {
        1
    };
    proof {
        assert(side(x1 - x0, os as int) == width);
        assert(side(y1 - y0, os as int) == height);
    }
    if width > 4096 || height > 4096 {
        return Err(GlyphRasterError::BitmapTooLarge { width: width as u32, height: height as u32 });
    }
    proof {
        assert(!degenerate(cmds0, os as int));
        assert(x1 > x0 && y1 > y0);
        assert((x1 - x0) * os >= 1) by (nonlinear_arith)
            requires
                x1 - x0 >= 1,
                os >= 2,
        ;
        assert((y1 - y0) * os >= 1) by (nonlinear_arith)
            requires
                y1 - y0 >= 1,
                os >= 2,
        ;
        assert(width == (x1 - x0) * os);
        assert(height == (y1 - y0) * os);
        assert(width % os == 0) by (nonlinear_arith)
            requires
                width == (x1 - x0) * os,
                os > 0,
        ;
        assert(height % os == 0) by (nonlinear_arith)
            requires
                height == (y1 - y0) * os,
                os > 0,
        ;
        assert(width / os == x1 - x0) by (nonlinear_arith)
            requires
                width == (x1 - x0) * os,
                os > 0,
        ;
        assert(height / os == y1 - y0) by (nonlinear_arith)
            requires
                height == (y1 - y0) * os,
                os > 0,
        ;
        lemma_transform_in_box(cmds0, b, os as int);
    }
    // Scale, move the box to the origin and flip Y.
    let transformed = transform_outline_exec(outline, os, x0, y1, Ghost(b));
    let data = scan_oversampled(&transformed, width, height, oversample, fill_rule, dropout_mode)?;
    let out_w = (width / os) as usize;
    let out_h = (height / os) as usize;
    proof {
        assert(out_w == x1 - x0);
        assert(out_h == y1 - y0);
    }
    Ok(GlyphBitmap {
        width: out_w as u32,
        height: out_h as u32,
        left: x0 as i32,
        top: y1 as i32,
        data,
    })
}

/// The bitmap of an outline whose whole-pixel box has no area: as wide and
/// tall as the box (one side 0), placed at the box's left and top, with no
/// pixels.
pub open spec fn flat_bitmap(cmds: Seq<PathCommand>) -> (u32, u32, i32, i32, Seq<u8>) {
    match outline_bounds_spec(cmds, cmds.len() as int) {
        Some(b) => {
            let (x0, y0, x1, y1) = pixel_box(b);
            ((x1 - x0) as u32, (y1 - y0) as u32, x0 as i32, y1 as i32, Seq::<u8>::empty())
        },
        None => (0u32, 0u32, 0i32, 0i32, Seq::<u8>::empty()),
    }
}

/// Render a glyph outline given in 26.6 pixel coordinates with Y up, at
/// `oversample` times the resolution: factors other than 2, 4 and 8 are
/// refused; an outline whose whole-pixel box has no area (but fits the
/// size limit) gives a bitmap of that box with no pixels; any other
/// outline is rasterized as `rasterize_glyph_outline` does.
pub fn render_glyph_outline(
    outline: &Vec<PathCommand>,
    oversample: u8,
    fill_rule: FillRule,
    dropout_mode: DropoutMode,
) -> (r: Result<GlyphBitmap, GlyphRasterError>)
    ensures
        !oversample_ok(oversample as int) ==> r == Err::<GlyphBitmap, GlyphRasterError>(
            GlyphRasterError::UnsupportedOversample { oversample },
        ),
        oversample_ok(oversample as int) && degenerate(outline@, oversample as int) ==> (r matches Ok(
            g,
        ) && g@ == flat_bitmap(outline@)),
        oversample_ok(oversample as int) && !degenerate(outline@, oversample as int) ==> match rasterized(
            outline@,
            oversample as int,
            fill_rule,
        ) {
            Some(v) => r matches Ok(g) && g@ == v,
            None => r == Err::<GlyphBitmap, GlyphRasterError>(
                raster_error(outline@, oversample as int),
            ),
        },
{
    if !(oversample == 2 || oversample == 4 || oversample == 8) {
        return Err(GlyphRasterError::UnsupportedOversample { oversample });
    }
    let ghost cmds0 = outline@;
    match outline_raw_bounds(outline) {
        None => {},
        Some((a, c, d, e)) => {
            let ghost b: Bounds = (a as int, c as int, d as int, e as int);
            let x0: i64 = F26Dot6::from_raw(a).to_int() as i64;
            let y0: i64 = F26Dot6::from_raw(c).to_int() as i64;
            let x1: i64 = ceil_px(d);
            let y1: i64 = ceil_px(e);
            let os = oversample as i64;
            proof {
                lemma_bounds_hold(cmds0, cmds0.len() as int);
                lemma_floor_ceil64(a as int);
                lemma_floor_ceil64(c as int);
                lemma_floor_ceil64(d as int);
                lemma_floor_ceil64(e as int);
                assert(0 <= x1 - x0 <= 0x400_0001);
                assert(0 <= y1 - y0 <= 0x400_0001);
                assert(-0x200_0000 <= x0 <= 0x200_0000);
                assert(-0x200_0000 <= y1 <= 0x200_0000);
                assert(0 <= (x1 - x0) * os <= 0x400_0001 * 8) by (nonlinear_arith)
                    requires
                        0 <= x1 - x0 <= 0x400_0001,
                        2 <= os <= 8,
                ;
                assert(0 <= (y1 - y0) * os <= 0x400_0001 * 8) by (nonlinear_arith)
                    requires
                        0 <= y1 - y0 <= 0x400_0001,
                        2 <= os <= 8,
                ;
                assert(pixel_box(b) == (x0 as int, y0 as int, x1 as int, y1 as int));
                assert(outline_bounds_spec(cmds0, cmds0.len() as int) == Some(b));
            }
            let sw: i64 = (x1 - x0) * os;
            let sh: i64 = (y1 - y0) * os;
            let width: i64 = if sw >= 1 {
                sw
            } else {
                1
            };
            let height: i64 = if sh >= 1 {
                sh
            } else {
                1
            };
            if width <= 4096 && height <= 4096 && (x1 == x0 || y1 == y0) {
                return Ok(
                    GlyphBitmap {
                        width: (x1 - x0) as u32,
                        height: (y1 - y0) as u32,
                        left: x0 as i32,
                        top: y1 as i32,
                        data: Vec::new(),
                    },
                );
            }
        },
    }
    rasterize_glyph_outline(outline, oversample, fill_rule, dropout_mode)
}

/// The points of a command, in the order the command passes them.
pub open spec fn command_points(c: PathCommand) -> Seq<FixedPoint> {
    match c {
        PathCommand::MoveTo(x, y) => seq![(x, y)],
        PathCommand::LineTo(x, y) => seq![(x, y)],
        PathCommand::QuadTo(x1, y1, x2, y2) => seq![(x1, y1), (x2, y2)],
        PathCommand::CubicTo(x1, y1, x2, y2, x3, y3) => seq![(x1, y1), (x2, y2), (x3, y3)],
        PathCommand::Close => Seq::empty(),
    }
}

/// The kind of a command: move, line, quadratic, cubic or close.
pub open spec fn command_kind(c: PathCommand) -> int {
    match c {
        PathCommand::MoveTo(..) => 0,
        PathCommand::LineTo(..) => 1,
        PathCommand::QuadTo(..) => 2,
        PathCommand::CubicTo(..) => 3,
        PathCommand::Close => 4,
    }
}

/// The outline handed to the scan converter is the glyph's outline under
/// the scale-and-flip map: command `i` keeps its kind, and its points
/// (control points and end point alike) are the original command's points,
/// each mapped in place and in the same order.
pub proof fn lemma_transform_maps_points_in_place(
    cmds: Seq<PathCommand>,
    os: int,
    x_min: int,
    y_max: int,
    i: int,
)
    requires
        0 <= i < cmds.len(),
    ensures
        transform_outline(cmds, os, x_min, y_max).len() == cmds.len(),
        command_kind(transform_outline(cmds, os, x_min, y_max)[i]) == command_kind(cmds[i]),
        command_points(transform_outline(cmds, os, x_min, y_max)[i]).len() == command_points(
            cmds[i],
        ).len(),
        forall|k: int|
            0 <= k < command_points(cmds[i]).len() ==> #[trigger] command_points(
                transform_outline(cmds, os, x_min, y_max)[i],
            )[k] == transform_point(command_points(cmds[i])[k], os, x_min, y_max),
{
    let c = cmds[i];
    let t = transform_outline(cmds, os, x_min, y_max)[i];
    assert(t == transform_command(c, os, x_min, y_max));
    match c {
        PathCommand::QuadTo(x1, y1, x2, y2) => {
            assert(command_points(t) =~= seq![
                transform_point((x1, y1), os, x_min, y_max),
                transform_point((x2, y2), os, x_min, y_max),
            ]);
        },
        PathCommand::CubicTo(x1, y1, x2, y2, x3, y3) => {
            assert(command_points(t) =~= seq![
                transform_point((x1, y1), os, x_min, y_max),
                transform_point((x2, y2), os, x_min, y_max),
                transform_point((x3, y3), os, x_min, y_max),
            ]);
        },
        PathCommand::MoveTo(x, y) => {
            assert(command_points(t) =~= seq![transform_point((x, y), os, x_min, y_max)]);
        },
        PathCommand::LineTo(x, y) => {
            assert(command_points(t) =~= seq![transform_point((x, y), os, x_min, y_max)]);
        },
        PathCommand::Close => {},
    }
}

} // verus!
