//! Outlines confined to a small box can be scan converted without overflow.
//!
//! When every point of an outline lies in `[0, bw] × [0, bh]` (26.6 units,
//! at most 4096 pixels each way) and the scan converter is `bh / 64` rows
//! tall, every command can be applied and every scanline can be processed:
//! each edge's X stays far inside the `i32` range for all the scanlines it
//! is stepped through.

use vstd::prelude::*;
use crate::curves::{
    coord_bounded, cubic_points, lemma_bounded_cubic_is_safe, lemma_bounded_quad_is_safe,
    lemma_cubic_points_within, lemma_quad_points_within, point_within, quad_points, FixedPoint,
};
use crate::edge::{
    active_at, all_step_ok, edge_new_safe, edge_spec, first_row, first_x, last_row, orient, slope,
    stable_sort_by_x, step_each, Edge,
};
use crate::fixed::{ceil64, floor64, trunc_div, F26Dot6};
use crate::scan_converter::{
    carried_into, clamp, command_effect, command_safe, path_effect, path_safe, polyline_safe,
    prev_point, row_edges, table_edge_total, scan_fits, table_add_line, table_add_polyline, OutlineState,
    PathCommand,
};

verus! {

/// The largest side of the box, in 26.6 units: 4096 pixels.
pub open spec fn max_extent() -> int {
    0x4_0000
}

/// The point lies in `[0, bw] × [0, bh]`.
pub open spec fn in_box(p: FixedPoint, bw: int, bh: int) -> bool {
    point_within(p, 0, bw, 0, bh)
}

/// Every point of the command lies in the box.
pub open spec fn command_in_box(c: PathCommand, bw: int, bh: int) -> bool {
    match c {
        PathCommand::MoveTo(x, y) => in_box((x, y), bw, bh),
        PathCommand::LineTo(x, y) => in_box((x, y), bw, bh),
        PathCommand::QuadTo(x1, y1, x2, y2) => in_box((x1, y1), bw, bh) && in_box((x2, y2), bw, bh),
        PathCommand::CubicTo(x1, y1, x2, y2, x3, y3) => in_box((x1, y1), bw, bh) && in_box(
            (x2, y2),
            bw,
            bh,
        ) && in_box((x3, y3), bw, bh),
        PathCommand::Close => true,
    }
}

/// Every point of every command lies in the box.
pub open spec fn path_in_box(cmds: Seq<PathCommand>, bw: int, bh: int) -> bool {
    forall|i: int| 0 <= i < cmds.len() ==> command_in_box(#[trigger] cmds[i], bw, bh)
}

/// `b + j * s`.
pub open spec fn affine(b: int, j: int, s: int) -> int {
    b + j * s
}

/// The edge's X after `j` steps.
pub open spec fn stepped_x(e: Edge, j: int) -> int {
    e.x.val() + j * e.x_increment.val()
}

/// Entering the scan at row `y`, the edge's X stays within ±2^30 for every
/// step up to one past its last row.
pub open spec fn edge_budget(e: Edge, y: int) -> bool {
    forall|j: int| 0 <= j <= e.y_max + 1 - y ==> -0x4000_0000 <= #[trigger] stepped_x(e, j) <= 0x4000_0000
}

/// Every edge of the table has its budget from its own row on.
pub open spec fn table_budget(t: Seq<Seq<Edge>>) -> bool {
    forall|r: int, k: int|
        0 <= r < t.len() && 0 <= k < t[r].len() ==> edge_budget(#[trigger] t[r][k], r)
}

/// The outline state has a table of `h` rows within budget and its pen and
/// contour start in the box.
pub open spec fn state_ok(st: OutlineState, h: int, bw: int, bh: int) -> bool {
    &&& st.0.len() == h
    &&& table_budget(st.0)
    &&& in_box(st.1, bw, bh)
    &&& in_box(st.2, bw, bh)
}

/// The box fits the scan converter: at most 4096 pixels each way and exactly
/// `h` rows tall.
pub open spec fn box_ok(bw: int, bh: int, h: int) -> bool {
    &&& 0 <= bw <= max_extent()
    &&& 0 < h
    &&& bh == 64 * h
    &&& bh <= max_extent()
}

/// Arithmetic of one edge inside the box: the slope and the first X are
/// small, and stepping from the row of the upper end keeps X within ±2^30.
proof fn lemma_edge_arith(xs: int, ys: int, xe: int, ye: int)
    requires
        0 <= xs <= max_extent(),
        0 <= xe <= max_extent(),
        0 <= ys < ye <= max_extent(),
    ensures
        ({
            let s = trunc_div((xe - xs) * 64, ye - ys);
            let fr = ceil64(ys);
            let f = floor64((fr * 64 - ys) * s);
            &&& -0x100_0000 <= s <= 0x100_0000
            &&& -0x100_0001 <= f <= 0x100_0001
            &&& 0 <= floor64(ys)
            &&& forall|j: int|
                0 <= j <= ceil64(ye) - floor64(ys) ==> -0x2000_0000 <= #[trigger] affine(xs + f, j, s)
                    <= 0x2000_0000
        }),
{
    let dx = xe - xs;
    let dy = ye - ys;
    let a = if dx < 0 {
        -dx
    } else {
        dx
    };
    let q = (64 * a) / dy;
    let rq = (64 * a) % dy;
    assert(64 * a == dy * q + rq && 0 <= rq < dy) by (nonlinear_arith)
        requires
            dy > 0,
            a >= 0,
            q == (64 * a) / dy,
            rq == (64 * a) % dy,
    ;
    assert(0 <= q <= 64 * a) by (nonlinear_arith)
        requires
            64 * a == dy * q + rq,
            0 <= rq < dy,
            dy >= 1,
            a >= 0,
    ;
    let s = trunc_div(dx * 64, dy);
    assert(s == q || s == -q) by {
        if dx < 0 {
            assert(crate::fixed::abs_int(dx * 64) == 64 * a);
        } else {
            assert(crate::fixed::abs_int(dx * 64) == 64 * a);
        }
    }
    // The first row is the ceiling of the upper Y.
    let m = (-ys) / 64;
    let rm = (-ys) % 64;
    assert(-ys == 64 * m + rm && 0 <= rm < 64) by (nonlinear_arith)
        requires
            m == (-ys) / 64,
            rm == (-ys) % 64,
    ;
    let fr = ceil64(ys);
    assert(fr == -m);
    let frac = fr * 64 - ys;
    assert(frac == rm);
    let v = frac * s;
    assert(-63 * q <= v <= 63 * q) by (nonlinear_arith)
        requires
            v == frac * s,
            0 <= frac < 64,
            s == q || s == -q,
            q >= 0,
    ;
    let f = floor64(v);
    let rv = v % 64;
    assert(v == 64 * f + rv && 0 <= rv < 64) by (nonlinear_arith)
        requires
            f == v / 64,
            rv == v % 64,
    ;
    assert(-q - 1 <= f <= q) by (nonlinear_arith)
        requires
            v == 64 * f + rv,
            0 <= rv < 64,
            -63 * q <= v <= 63 * q,
            q >= 0,
    ;
    // Rows from the one holding the upper end to one past the last row.
    let fy = floor64(ys);
    let ry = ys % 64;
    assert(ys == 64 * fy + ry && 0 <= ry < 64) by (nonlinear_arith)
        requires
            fy == ys / 64,
            ry == ys % 64,
    ;
    let me = (-ye) / 64;
    let rme = (-ye) % 64;
    assert(-ye == 64 * me + rme && 0 <= rme < 64) by (nonlinear_arith)
        requires
            me == (-ye) / 64,
            rme == (-ye) % 64,
    ;
    assert(ceil64(ye) == -me);
    assert(fy >= 0);
    assert(64 * (ceil64(ye) - fy) <= dy + 126);
    assert forall|j: int| 0 <= j <= ceil64(ye) - floor64(ys) implies -0x2000_0000 <= #[trigger] affine(
        xs + f,
        j,
        s,
    ) <= 0x2000_0000 by {
        assert(64 * j <= dy + 126);
        assert(j * q <= 127 * a) by (nonlinear_arith)
            requires
                64 * j <= dy + 126,
                0 <= j,
                64 * a == dy * q + rq,
                0 <= rq,
                0 <= q <= 64 * a,
                dy >= 1,
                a >= 0,
        ;
        assert(-(j * q) <= j * s <= j * q) by (nonlinear_arith)
            requires
                s == q || s == -q,
                j >= 0,
                q >= 0,
        ;
    }
}

/// Floor division by 64 is monotone.
proof fn lemma_floor64_monotone(a: int, b: int)
    requires
        a <= b,
    ensures
        floor64(a) <= floor64(b),
{
    assert(a / 64 <= b / 64) by (nonlinear_arith)
        requires
            a <= b,
    ;
}

/// Adding a segment between two points of the box keeps the table within
/// budget: the segment's edge (if any) goes to the row of its upper end.
pub proof fn lemma_line_in_box(t: Seq<Seq<Edge>>, h: int, p: FixedPoint, q: FixedPoint, bw: int, bh: int)
    requires
        box_ok(bw, bh, h),
        t.len() == h,
        table_budget(t),
        in_box(p, bw, bh),
        in_box(q, bw, bh),
    ensures
        edge_new_safe(p.0.val(), p.1.val(), q.0.val(), q.1.val()),
        table_add_line(t, h, p.0.val(), p.1.val(), q.0.val(), q.1.val()).len() == h,
        table_budget(table_add_line(t, h, p.0.val(), p.1.val(), q.0.val(), q.1.val())),
{
    let x1 = p.0.val();
    let y1 = p.1.val();
    let x2 = q.0.val();
    let y2 = q.1.val();
    if y2 - y1 != 0 {
        let (xs, ys, xe, ye, d) = orient(x1, y1, x2, y2);
        lemma_edge_arith(xs, ys, xe, ye);
        let s = trunc_div((xe - xs) * 64, ye - ys);
        assert(slope(x1, y1, x2, y2) == s);
        let fr = ceil64(ys);
        let f = floor64((fr * 64 - ys) * s);
        assert(first_x(x1, y1, x2, y2) == xs + f);
        match edge_spec(x1, y1, x2, y2) {
            Some(e) => {
                lemma_floor64_monotone(ys, ye);
                lemma_floor64_monotone(ys, 64 * h - 1);
                assert(floor64(64 * h - 1) == h - 1) by (nonlinear_arith)
                    requires
                        h > 0,
                ;
                let ymin = if floor64(y1) <= floor64(y2) {
                    floor64(y1)
                } else {
                    floor64(y2)
                };
                assert(ymin == floor64(ys));
                let row = clamp(ymin, 0, h - 1);
                assert(row == floor64(ys));
                let t2 = table_add_line(t, h, x1, y1, x2, y2);
                assert(t2 == t.update(row, t[row].push(e)));
                assert(e.x.val() == xs + f);
                assert(e.x_increment.val() == s);
                assert(e.y_max == ceil64(ye) - 1);
                assert(edge_budget(e, row)) by {
                    assert forall|j: int| 0 <= j <= e.y_max + 1 - row implies -0x4000_0000
                        <= #[trigger] stepped_x(e, j) <= 0x4000_0000 by {
                        assert(stepped_x(e, j) == affine(xs + f, j, s));
                    }
                }
                assert forall|r: int, k: int| 0 <= r < t2.len() && 0 <= k < t2[r].len() implies edge_budget(
                    #[trigger] t2[r][k],
                    r,
                ) by {
                    if r == row {
                        if k < t[r].len() {
                            assert(t2[r][k] == t[r][k]);
                        } else {
                            assert(t2[r][k] == e);
                        }
                    } else {
                        assert(t2[r] == t[r]);
                    }
                }
            },
            None => {},
        }
    }
}

/// Adding a polyline whose points all lie in the box keeps the table within
/// budget, and none of its segments overflows.
pub proof fn lemma_polyline_in_box(
    t: Seq<Seq<Edge>>,
    h: int,
    start: FixedPoint,
    pts: Seq<FixedPoint>,
    bw: int,
    bh: int,
)
    requires
        box_ok(bw, bh, h),
        t.len() == h,
        table_budget(t),
        in_box(start, bw, bh),
        forall|i: int| 0 <= i < pts.len() ==> in_box(#[trigger] pts[i], bw, bh),
    ensures
        polyline_safe(start, pts),
        table_add_polyline(t, h, start, pts).len() == h,
        table_budget(table_add_polyline(t, h, start, pts)),
    decreases pts.len(),
{
    if pts.len() > 0 {
        let init = pts.drop_last();
        lemma_polyline_in_box(t, h, start, init, bw, bh);
        let t1 = table_add_polyline(t, h, start, init);
        let n = pts.len() - 1;
        let p = prev_point(start, pts, n);
        let q = pts.last();
        assert(in_box(p, bw, bh)) by {
            if n > 0 {
                assert(p == pts[n - 1]);
            }
        }
        assert(in_box(q, bw, bh)) by {
            assert(q == pts[n]);
        }
        lemma_line_in_box(t1, h, p, q, bw, bh);
        assert forall|i: int| 0 <= i < pts.len() implies edge_new_safe(
            (#[trigger] prev_point(start, pts, i)).0.val(),
            prev_point(start, pts, i).1.val(),
            pts[i].0.val(),
            pts[i].1.val(),
        ) by {
            if i < n {
                assert(pts[i] == init[i]);
                assert(prev_point(start, pts, i) == prev_point(start, init, i));
            } else {
                assert(pts[i] == q);
            }
        }
    }
}

/// Every control point within the box keeps a single command safe and the
/// state within budget.
pub proof fn lemma_command_in_box(st: OutlineState, h: int, c: PathCommand, bw: int, bh: int)
    requires
        box_ok(bw, bh, h),
        state_ok(st, h, bw, bh),
        command_in_box(c, bw, bh),
    ensures
        command_safe(st, h, c),
        state_ok(command_effect(st, h, c), h, bw, bh),
{
    let (t, cur, start) = st;
    match c {
        PathCommand::MoveTo(x, y) => {},
        PathCommand::LineTo(x, y) => {
            lemma_line_in_box(t, h, cur, (x, y), bw, bh);
        },
        PathCommand::QuadTo(x1, y1, x2, y2) => {
            let (a, b) = cur;
            lemma_bounded_quad_is_safe(a.val(), b.val(), x1.val(), y1.val(), x2.val(), y2.val(), 0);
            lemma_quad_points_within(
                a.val(),
                b.val(),
                x1.val(),
                y1.val(),
                x2.val(),
                y2.val(),
                0,
                0,
                bw,
                0,
                bh,
            );
            let pts = quad_points(a.val(), b.val(), x1.val(), y1.val(), x2.val(), y2.val(), 0);
            assert forall|i: int| 0 <= i < pts.len() implies in_box(#[trigger] pts[i], bw, bh) by {
                assert(point_within(pts[i], 0, bw, 0, bh));
            }
            lemma_polyline_in_box(t, h, cur, pts, bw, bh);
        },
        PathCommand::CubicTo(x1, y1, x2, y2, x3, y3) => {
            let (a, b) = cur;
            lemma_bounded_cubic_is_safe(
                a.val(),
                b.val(),
                x1.val(),
                y1.val(),
                x2.val(),
                y2.val(),
                x3.val(),
                y3.val(),
                0,
            );
            lemma_cubic_points_within(
                a.val(),
                b.val(),
                x1.val(),
                y1.val(),
                x2.val(),
                y2.val(),
                x3.val(),
                y3.val(),
                0,
                0,
                bw,
                0,
                bh,
            );
            let pts = cubic_points(
                a.val(),
                b.val(),
                x1.val(),
                y1.val(),
                x2.val(),
                y2.val(),
                x3.val(),
                y3.val(),
                0,
            );
            assert forall|i: int| 0 <= i < pts.len() implies in_box(#[trigger] pts[i], bw, bh) by {
                assert(point_within(pts[i], 0, bw, 0, bh));
            }
            lemma_polyline_in_box(t, h, cur, pts, bw, bh);
        },
        PathCommand::Close => {
            if cur != start {
                lemma_line_in_box(t, h, cur, start, bw, bh);
            }
        },
    }
}

/// The state after the first `n` commands is within budget.
proof fn lemma_prefix_in_box(st: OutlineState, h: int, cmds: Seq<PathCommand>, n: int, bw: int, bh: int)
    requires
        box_ok(bw, bh, h),
        state_ok(st, h, bw, bh),
        path_in_box(cmds, bw, bh),
        0 <= n <= cmds.len(),
    ensures
        state_ok(path_effect(st, h, cmds.subrange(0, n)), h, bw, bh),
    decreases n,
{
    if n > 0 {
        lemma_prefix_in_box(st, h, cmds, n - 1, bw, bh);
        let pre = cmds.subrange(0, n);
        assert(pre.drop_last() == cmds.subrange(0, n - 1));
        assert(pre.last() == cmds[n - 1]);
        lemma_command_in_box(path_effect(st, h, cmds.subrange(0, n - 1)), h, cmds[n - 1], bw, bh);
    }
}

/// Law: an outline whose points all lie in the box can be drawn on a scan
/// converter of `h` rows without overflow, and its edge table stays within
/// budget.
pub proof fn lemma_path_in_box(st: OutlineState, h: int, cmds: Seq<PathCommand>, bw: int, bh: int)
    requires
        box_ok(bw, bh, h),
        state_ok(st, h, bw, bh),
        path_in_box(cmds, bw, bh),
    ensures
        path_safe(st, h, cmds),
        state_ok(path_effect(st, h, cmds), h, bw, bh),
{
    assert forall|i: int| 0 <= i < cmds.len() implies command_safe(
        path_effect(st, h, cmds.subrange(0, i)),
        h,
        #[trigger] cmds[i],
    ) by {
        lemma_prefix_in_box(st, h, cmds, i, bw, bh);
        lemma_command_in_box(path_effect(st, h, cmds.subrange(0, i)), h, cmds[i], bw, bh);
    }
    lemma_prefix_in_box(st, h, cmds, cmds.len() as int, bw, bh);
    assert(cmds.subrange(0, cmds.len() as int) == cmds);
}

/// An edge of a row's crossing list comes from the carried list or the
/// table row, and is active at that row.
proof fn lemma_row_edge_origin(c: Seq<Edge>, t: Seq<Seq<Edge>>, y: int, e: Edge)
    requires
        0 <= y < t.len(),
        row_edges(c, t, y).contains(e),
    ensures
        c.contains(e) || t[y].contains(e),
        y <= e.y_max,
{
    broadcast use vstd::seq_lib::group_to_multiset_ensures;

    let s = c + t[y];
    let f = active_at(s, y);
    crate::edge::lemma_stable_sort_sorted_permutation(f);
    assert(stable_sort_by_x(f).to_multiset().count(e) > 0);
    assert(f.contains(e));
    s.lemma_filter_contains_rev(|x: Edge| y <= x.y_max, e);
    assert(s.contains(e));
    let k = choose|k: int| 0 <= k < s.len() && s[k] == e;
    if k < c.len() {
        assert(s[k] == c[k]);
    } else {
        assert(s[k] == t[y][k - c.len()]);
    }
    s.filter_lemma(|x: Edge| y <= x.y_max);
    let i = choose|i: int| 0 <= i < f.len() && f[i] == e;
    assert(y <= f[i].y_max);
}

/// The carried list at row `y` is within budget and no longer than the
/// table's first `y` rows.
proof fn lemma_carried_budget(t: Seq<Seq<Edge>>, y: int)
    requires
        table_budget(t),
        0 <= y <= t.len(),
    ensures
        forall|k: int|
            0 <= k < carried_into(Seq::empty(), t, y).len() ==> edge_budget(
                #[trigger] carried_into(Seq::empty(), t, y)[k],
                y,
            ),
        carried_into(Seq::empty(), t, y).len() <= table_edge_total(t, y),
    decreases y,
{
    if y > 0 {
        lemma_carried_budget(t, y - 1);
        let c = carried_into(Seq::empty(), t, y - 1);
        let s = c + t[y - 1];
        let f = active_at(s, y - 1);
        let es = row_edges(c, t, y - 1);
        crate::edge::lemma_stable_sort_sorted_permutation(f);
        s.filter_lemma(|x: Edge| (y - 1) <= x.y_max);
        let nc = carried_into(Seq::empty(), t, y);
        assert(nc == step_each(es));
        assert forall|k: int| 0 <= k < nc.len() implies edge_budget(#[trigger] nc[k], y) by {
            let e = es[k];
            assert(es.contains(e));
            lemma_row_edge_origin(c, t, y - 1, e);
            assert(edge_budget(e, y - 1)) by {
                if c.contains(e) {
                    let i = choose|i: int| 0 <= i < c.len() && c[i] == e;
                } else {
                    let row = t[y - 1];
                    let i = choose|i: int| 0 <= i < row.len() && row[i] == e;
                    assert(edge_budget(t[y - 1][i], y - 1));
                }
            }
            assert(nc[k] == e.stepped());
            assert forall|j: int| 0 <= j <= nc[k].y_max + 1 - y implies -0x4000_0000 <= #[trigger] stepped_x(
                nc[k],
                j,
            ) <= 0x4000_0000 by {
                assert(-0x4000_0000 <= stepped_x(e, j + 1) <= 0x4000_0000);
                assert(-0x4000_0000 <= stepped_x(e, 1) <= 0x4000_0000);
                assert(nc[k].x.val() == e.x.val() + e.x_increment.val());
                assert(stepped_x(nc[k], j) == stepped_x(e, j + 1)) by (nonlinear_arith)
                    requires
                        stepped_x(nc[k], j) == nc[k].x.val() + j * nc[k].x_increment.val(),
                        stepped_x(e, j + 1) == e.x.val() + (j + 1) * e.x_increment.val(),
                        nc[k].x.val() == e.x.val() + e.x_increment.val(),
                        nc[k].x_increment.val() == e.x_increment.val(),
                ;
            }
        }
    }
}

/// Law: a table within budget with fewer than 2^31 - 1 edges is scanned
/// from an empty active list without overflow.
pub proof fn lemma_scan_fits(t: Seq<Seq<Edge>>, h: int)
    requires
        t.len() == h,
        table_budget(t),
        table_edge_total(t, h) < 0x7fff_ffff,
    ensures
        scan_fits(Seq::empty(), t, h),
{
    assert forall|y: int| 0 <= y < h implies {
        let es = #[trigger] row_edges(carried_into(Seq::empty(), t, y), t, y);
        &&& es.len() < 0x7fff_ffff
        &&& all_step_ok(es)
    } by {
        lemma_carried_budget(t, y);
        let c = carried_into(Seq::empty(), t, y);
        let s = c + t[y];
        let f = active_at(s, y);
        let es = row_edges(c, t, y);
        crate::edge::lemma_stable_sort_sorted_permutation(f);
        s.filter_lemma(|x: Edge| y <= x.y_max);
        crate::scan_converter::lemma_edge_total_monotone(t, y + 1, h);
        assert(es.len() <= table_edge_total(t, y + 1));
        assert forall|i: int| 0 <= i < es.len() implies #[trigger] es[i].step_ok() by {
            let e = es[i];
            assert(es.contains(e));
            lemma_row_edge_origin(c, t, y, e);
            assert(edge_budget(e, y)) by {
                if c.contains(e) {
                    let k = choose|k: int| 0 <= k < c.len() && c[k] == e;
                } else {
                    let row = t[y];
                    let k = choose|k: int| 0 <= k < row.len() && row[k] == e;
                    assert(edge_budget(t[y][k], y));
                }
            }
            assert(-0x4000_0000 <= stepped_x(e, 1) <= 0x4000_0000);
        }
    }
}

} // verus!
