//! Scanline conversion of outlines to monochrome bitmaps, with an edge table
//! (one edge list per scanline) and an active edge list.

use vstd::prelude::*;
use crate::curves::{
    cubic_points, cubic_safe, quad_points, quad_safe, subdivide_cubic, subdivide_quadratic,
    FixedPoint,
};
use crate::edge::{
    active_at, all_step_ok, edge_new_safe, edge_spec, stable_sort_by_x, step_each, Edge,
    EdgeList,
};
use crate::fixed::{floor64, F26Dot6};

verus! {

/// Which parts of a path count as inside.
#[derive(Debug, Copy, Clone, PartialEq, Eq, Structural)]
pub enum FillRule {
    /// Non-zero winding: inside where the signed crossing count is not zero.
    NonZeroWinding,
    /// Even-odd: inside after an odd number of crossings.
    EvenOdd,
}

/// How thin strokes are kept from vanishing.
#[derive(Debug, Copy, Clone, PartialEq, Eq, Structural)]
pub enum DropoutMode {
    /// No dropout control.
    Off,
    /// Simple dropout control.
    Simple,
    /// Smart dropout control.
    Smart,
}

/// `v` clamped to `[lo, hi]` as `v.max(lo).min(hi)` computes it.
pub open spec fn clamp(v: int, lo: int, hi: int) -> int {
    let a = if v >= lo {
        v
    } else {
        lo
    };
    if a <= hi {
        a
    } else {
        hi
    }
}

/// The edge table after adding the segment `(x1, y1)`–`(x2, y2)`: its edge,
/// if any, goes to the row of the smaller integer Y clamped to the bitmap.
pub open spec fn table_add_line(table: Seq<Seq<Edge>>, h: int, x1: int, y1: int, x2: int, y2: int) -> Seq<
    Seq<Edge>,
> {
    match edge_spec(x1, y1, x2, y2) {
        None => table,
        Some(e) => {
            let ymin = if floor64(y1) <= floor64(y2) {
                floor64(y1)
            } else {
                floor64(y2)
            };
            let row = clamp(ymin, 0, h - 1);
            if 0 <= row < table.len() {
                table.update(row, table[row].push(e))
            } else {
                table
            }
        },
    }
}

/// The point before `pts[i]` on the polyline that starts at `start`.
pub open spec fn prev_point(start: FixedPoint, pts: Seq<FixedPoint>, i: int) -> FixedPoint {
    if i == 0 {
        start
    } else {
        pts[i - 1]
    }
}

/// Every segment of the polyline from `start` through `pts` can be turned into
/// an edge without overflow.
pub open spec fn polyline_safe(start: FixedPoint, pts: Seq<FixedPoint>) -> bool {
    forall|i: int|
        0 <= i < pts.len() ==> edge_new_safe(
            (#[trigger] prev_point(start, pts, i)).0.val(),
            prev_point(start, pts, i).1.val(),
            pts[i].0.val(),
            pts[i].1.val(),
        )
}

/// The edge table after adding each segment of the polyline from `start`
/// through `pts`, in order.
pub open spec fn table_add_polyline(
    table: Seq<Seq<Edge>>,
    h: int,
    start: FixedPoint,
    pts: Seq<FixedPoint>,
) -> Seq<Seq<Edge>>
    decreases pts.len(),
{
    if pts.len() == 0 {
        table
    } else {
        let p = prev_point(start, pts, pts.len() - 1);
        let q = pts.last();
        table_add_line(
            table_add_polyline(table, h, start, pts.drop_last()),
            h,
            p.0.val(),
            p.1.val(),
            q.0.val(),
            q.1.val(),
        )
    }
}

/// A row of `w` pixels with `[clamp(a), clamp(b))` set to 1.
pub open spec fn fill_range(row: Seq<u8>, w: int, a: int, b: int) -> Seq<u8> {
    let xs = clamp(a, 0, w);
    let xe = clamp(b, 0, w);
    Seq::new(row.len(), |x: int| if xs <= x < xe { 1u8 } else { row[x] })
}

/// `w` zero bytes.
pub open spec fn zeros(w: int) -> Seq<u8> {
    Seq::new(w as nat, |x: int| 0u8)
}

/// Non-zero winding fill of one scanline after visiting the first `k` of the
/// X-ordered crossing edges: `(winding, span start, row)`.  A span opens
/// where the winding leaves zero and is filled where it returns to zero.
pub open spec fn nonzero_run(edges: Seq<Edge>, w: int, k: int) -> (int, Option<int>, Seq<u8>)
    decreases k,
{
    if k <= 0 {
        (0, None, zeros(w))
    } else {
        let (wd, st, row) = nonzero_run(edges, w, k - 1);
        let e = edges[k - 1];
        let x = floor64(e.x.val());
        let nw = wd + e.direction;
        if wd == 0 && nw != 0 {
            (nw, Some(x), row)
        } else if wd != 0 && nw == 0 {
            match st {
                Some(s) => (nw, None, fill_range(row, w, s, x)),
                None => (nw, st, row),
            }
        } else {
            (nw, st, row)
        }
    }
}

/// Even-odd fill of one scanline after visiting the first `k` crossing edges:
/// `(inside, span start, row)`.  Crossings pair up into spans.
pub open spec fn even_odd_run(edges: Seq<Edge>, w: int, k: int) -> (bool, int, Seq<u8>)
    decreases k,
{
    if k <= 0 {
        (false, 0, zeros(w))
    } else {
        let (inside, st, row) = even_odd_run(edges, w, k - 1);
        let x = floor64(edges[k - 1].x.val());
        if inside {
            (false, st, fill_range(row, w, st, x))
        } else {
            (true, x, row)
        }
    }
}

/// The pixels of one scanline of width `w`, given its crossing edges in X order.
pub open spec fn row_pixels(edges: Seq<Edge>, rule: FillRule, w: int) -> Seq<u8> {
    match rule {
        FillRule::NonZeroWinding => nonzero_run(edges, w, edges.len() as int).2,
        FillRule::EvenOdd => even_odd_run(edges, w, edges.len() as int).2,
    }
}

/// The crossing edges of scanline `y` in X order, given the active list
/// carried into that scanline: the carried edges and that row's table edges,
/// those still active, stably sorted by X.
pub open spec fn row_edges(carried: Seq<Edge>, table: Seq<Seq<Edge>>, y: int) -> Seq<Edge> {
    stable_sort_by_x(active_at(carried + table[y], y))
}

/// The active list carried into scanline `y` when scanning starts from
/// `active` at scanline 0: each scanline's crossing edges, advanced one step.
pub open spec fn carried_into(active: Seq<Edge>, table: Seq<Seq<Edge>>, y: int) -> Seq<Edge>
    decreases y,
{
    if y <= 0 {
        active
    } else {
        step_each(row_edges(carried_into(active, table, y - 1), table, y - 1))
    }
}

/// Scanning rows `0..h` from `active` never overflows: each scanline has
/// fewer than 2^31 crossing edges and each can be advanced a step.
pub open spec fn scan_fits(active: Seq<Edge>, table: Seq<Seq<Edge>>, h: int) -> bool {
    forall|y: int|
        0 <= y < h ==> {
            let es = #[trigger] row_edges(carried_into(active, table, y), table, y);
            &&& es.len() < 0x7fff_ffff
            &&& all_step_ok(es)
        }
}

/// The pixels of scanline `y` when rendering starts from the active list
/// `active` and the edge table `table`.
pub open spec fn scan_row(active: Seq<Edge>, table: Seq<Seq<Edge>>, rule: FillRule, w: int, y: int) -> Seq<
    u8,
> {
    row_pixels(row_edges(carried_into(active, table, y), table, y), rule, w)
}

proof fn lemma_row_index(y: int, x: int, w: int, h: int)
    requires
        0 <= y < h,
        0 <= x < w,
    ensures
        0 <= y * w <= y * w + x < y * w + w <= w * h,
{
    assert(y * w + w <= w * h) by (nonlinear_arith)
        requires
            0 <= y < h,
            0 <= x < w,
    ;
    assert(0 <= y * w) by (nonlinear_arith)
        requires
            0 <= y,
            0 <= w,
    ;
}

proof fn lemma_row_bound(y: int, w: int, h: int)
    requires
        0 <= y < h,
        0 <= w,
    ensures
        0 <= y * w,
        y * w + w <= w * h,
{
    assert(y * w + w <= w * h) by (nonlinear_arith)
        requires
            0 <= y < h,
            0 <= w,
    ;
    assert(0 <= y * w) by (nonlinear_arith)
        requires
            0 <= y,
            0 <= w,
    ;
}

/// Row-major indices of distinct cells differ.
pub proof fn lemma_index_unique(y1: int, x1: int, y2: int, x2: int, w: int)
    requires
        0 <= x1 < w,
        0 <= x2 < w,
        0 <= y1,
        0 <= y2,
        y1 * w + x1 == y2 * w + x2,
    ensures
        y1 == y2,
        x1 == x2,
{
    lemma_rows_disjoint(y1, x1, y2, x2, w);
}

proof fn lemma_rows_disjoint(y1: int, x1: int, y2: int, x2: int, w: int)
    requires
        0 <= x1 < w,
        0 <= x2 < w,
        0 <= y1,
        0 <= y2,
        y1 * w + x1 == y2 * w + x2,
    ensures
        y1 == y2,
        x1 == x2,
{
    if y1 < y2 {
        assert(y1 * w + w <= y2 * w) by (nonlinear_arith)
            requires
                y1 < y2,
                0 <= w,
        ;
    } else if y2 < y1 {
        assert(y2 * w + w <= y1 * w) by (nonlinear_arith)
            requires
                y2 < y1,
                0 <= w,
        ;
    }
}

/// The pixel at column `x` of row `y` is bit `y * w + x`.
pub open spec fn pixel(bm: Seq<u8>, w: int, y: int, x: int) -> u8 {
    bm[y * w + x]
}

/// The whole monochrome image, row-major, that scanning produces.
pub open spec fn mono_image(active: Seq<Edge>, table: Seq<Seq<Edge>>, rule: FillRule, w: int, h: int) -> Seq<
    u8,
> {
    Seq::new((w * h) as nat, |i: int| scan_row(active, table, rule, w, i / w)[i % w])
}

/// Row `y` of a bitmap of width `w`.
pub open spec fn row_of(bm: Seq<u8>, w: int, y: int) -> Seq<u8> {
    bm.subrange(y * w, y * w + w)
}

/// The edge winds by exactly one, up or down.
pub open spec fn unit_direction(e: Edge) -> bool {
    e.direction == 1 || e.direction == -1
}

proof fn lemma_units_preserved(s: Seq<Edge>, y: int)
    requires
        forall|k: int| 0 <= k < s.len() ==> unit_direction(#[trigger] s[k]),
    ensures
        forall|k: int|
            0 <= k < stable_sort_by_x(active_at(s, y)).len() ==> unit_direction(
                #[trigger] stable_sort_by_x(active_at(s, y))[k],
            ),
        forall|k: int|
            0 <= k < step_each(stable_sort_by_x(active_at(s, y))).len() ==> unit_direction(
                #[trigger] step_each(stable_sort_by_x(active_at(s, y)))[k],
            ),
{
    broadcast use vstd::seq_lib::group_to_multiset_ensures;

    let f = active_at(s, y);
    let t = stable_sort_by_x(f);
    crate::edge::lemma_stable_sort_sorted_permutation(f);
    assert forall|k: int| 0 <= k < f.len() implies unit_direction(#[trigger] f[k]) by {
        assert(f.contains(f[k]));
        s.lemma_filter_contains_rev(|e: Edge| y <= e.y_max, f[k]);
    }
    assert forall|k: int| 0 <= k < t.len() implies unit_direction(#[trigger] t[k]) by {
        assert(t.contains(t[k]));
        assert(t.to_multiset().count(t[k]) > 0);
        assert(f.contains(t[k]));
    }
}

/// Two converters agree on everything but fill rule and dropout mode.
pub open spec fn same_outline(a: ScanConverter, b: ScanConverter) -> bool {
    &&& a.wf() == b.wf()
    &&& a.table() == b.table()
    &&& a.active() == b.active()
    &&& a.cur() == b.cur()
    &&& a.start() == b.start()
    &&& a.w() == b.w()
    &&& a.h() == b.h()
}

/// One drawing command of an outline, in 26.6 coordinates.
#[derive(Debug, Copy, Clone, PartialEq, Eq, Structural)]
pub enum PathCommand {
    /// Start a new contour at a point.
    MoveTo(F26Dot6, F26Dot6),
    /// Line to a point.
    LineTo(F26Dot6, F26Dot6),
    /// Quadratic Bézier: control point, then end point.
    QuadTo(F26Dot6, F26Dot6, F26Dot6, F26Dot6),
    /// Cubic Bézier: two control points, then end point.
    CubicTo(F26Dot6, F26Dot6, F26Dot6, F26Dot6, F26Dot6, F26Dot6),
    /// Close the contour with a line back to its start.
    Close,
}

/// The outline state a command acts on: edge table, pen and contour start.
pub type OutlineState = (Seq<Seq<Edge>>, FixedPoint, FixedPoint);

/// The command can be applied to the state without overflow.
pub open spec fn command_safe(st: OutlineState, h: int, c: PathCommand) -> bool {
    let (t, cur, start) = st;
    match c {
        PathCommand::MoveTo(x, y) => true,
        PathCommand::LineTo(x, y) => edge_new_safe(cur.0.val(), cur.1.val(), x.val(), y.val()),
        PathCommand::QuadTo(x1, y1, x2, y2) => {
            &&& quad_safe(cur.0.val(), cur.1.val(), x1.val(), y1.val(), x2.val(), y2.val(), 0)
            &&& polyline_safe(
                cur,
                quad_points(cur.0.val(), cur.1.val(), x1.val(), y1.val(), x2.val(), y2.val(), 0),
            )
        },
        PathCommand::CubicTo(x1, y1, x2, y2, x3, y3) => {
            &&& cubic_safe(
                cur.0.val(),
                cur.1.val(),
                x1.val(),
                y1.val(),
                x2.val(),
                y2.val(),
                x3.val(),
                y3.val(),
                0,
            )
            &&& polyline_safe(
                cur,
                cubic_points(
                    cur.0.val(),
                    cur.1.val(),
                    x1.val(),
                    y1.val(),
                    x2.val(),
                    y2.val(),
                    x3.val(),
                    y3.val(),
                    0,
                ),
            )
        },
        PathCommand::Close => cur != start ==> edge_new_safe(
            cur.0.val(),
            cur.1.val(),
            start.0.val(),
            start.1.val(),
        ),
    }
}

/// The state after applying one command.
pub open spec fn command_effect(st: OutlineState, h: int, c: PathCommand) -> OutlineState {
    let (t, cur, start) = st;
    match c {
        PathCommand::MoveTo(x, y) => (t, (x, y), (x, y)),
        PathCommand::LineTo(x, y) => (
            table_add_line(t, h, cur.0.val(), cur.1.val(), x.val(), y.val()),
            (x, y),
            start,
        ),
        PathCommand::QuadTo(x1, y1, x2, y2) => (
            table_add_polyline(
                t,
                h,
                cur,
                quad_points(cur.0.val(), cur.1.val(), x1.val(), y1.val(), x2.val(), y2.val(), 0),
            ),
            (x2, y2),
            start,
        ),
        PathCommand::CubicTo(x1, y1, x2, y2, x3, y3) => (
            table_add_polyline(
                t,
                h,
                cur,
                cubic_points(
                    cur.0.val(),
                    cur.1.val(),
                    x1.val(),
                    y1.val(),
                    x2.val(),
                    y2.val(),
                    x3.val(),
                    y3.val(),
                    0,
                ),
            ),
            (x3, y3),
            start,
        ),
        PathCommand::Close => (
            if cur != start {
                table_add_line(t, h, cur.0.val(), cur.1.val(), start.0.val(), start.1.val())
            } else {
                t
            },
            start,
            start,
        ),
    }
}

/// The state after applying `cmds` in order.
pub open spec fn path_effect(st: OutlineState, h: int, cmds: Seq<PathCommand>) -> OutlineState
    decreases cmds.len(),
{
    if cmds.len() == 0 {
        st
    } else {
        command_effect(path_effect(st, h, cmds.drop_last()), h, cmds.last())
    }
}

/// Every command of `cmds` can be applied, in order, without overflow.
pub open spec fn path_safe(st: OutlineState, h: int, cmds: Seq<PathCommand>) -> bool {
    forall|i: int|
        0 <= i < cmds.len() ==> command_safe(
            path_effect(st, h, cmds.subrange(0, i)),
            h,
            #[trigger] cmds[i],
        )
}

/// Converts outlines (lines and flattened curves) to bitmaps one scanline at a time.
#[derive(Debug)]
pub struct ScanConverter {
    edge_table: Vec<EdgeList>,
    active_edges: EdgeList,
    current_x: F26Dot6,
    current_y: F26Dot6,
    contour_start_x: F26Dot6,
    contour_start_y: F26Dot6,
    fill_rule: FillRule,
    dropout_mode: DropoutMode,
    width: usize,
    height: usize,
}

impl ScanConverter {
    /// The edge table, one edge sequence per scanline.
    pub closed spec fn table(self) -> Seq<Seq<Edge>> {
        Seq::new(self.edge_table@.len(), |i: int| self.edge_table@[i]@)
    }

    /// The active edge list.
    pub closed spec fn active(self) -> Seq<Edge> {
        self.active_edges@
    }

    /// The current pen position.
    pub closed spec fn cur(self) -> FixedPoint {
        (self.current_x, self.current_y)
    }

    /// The start of the current contour.
    pub closed spec fn start(self) -> FixedPoint {
        (self.contour_start_x, self.contour_start_y)
    }

    /// The fill rule.
    pub closed spec fn rule(self) -> FillRule {
        self.fill_rule
    }

    /// The dropout mode.
    pub closed spec fn dropout(self) -> DropoutMode {
        self.dropout_mode
    }

    /// Bitmap width in pixels.
    pub closed spec fn w(self) -> int {
        self.width as int
    }

    /// Bitmap height in pixels.
    pub closed spec fn h(self) -> int {
        self.height as int
    }

    /// Well-formed: one edge list per scanline, and dimensions that fit in an `i32`.
    pub closed spec fn wf(self) -> bool {
        &&& self.edge_table@.len() == self.height
        &&& forall|r: int, k: int|
            0 <= r < self.edge_table@.len() && 0 <= k < self.edge_table@[r]@.len() ==> unit_direction(
                #[trigger] self.edge_table@[r]@[k],
            )
        &&& forall|k: int| 0 <= k < self.active_edges@.len() ==> unit_direction(
            #[trigger] self.active_edges@[k],
        )
        &&& self.height <= i32::MAX
        &&& self.width <= i32::MAX
    }

    /// Law: a well-formed converter has one table row per scanline.
    pub proof fn lemma_wf(self)
        requires
            self.wf(),
        ensures
            self.table().len() == self.h(),
            0 <= self.h() <= i32::MAX,
            0 <= self.w() <= i32::MAX,
    {
    }

    /// A converter for a `width` × `height` bitmap: empty edge table, no
    /// active edges, pen at the origin, non-zero winding, no dropout control.
    pub fn new(width: usize, height: usize) -> (r: ScanConverter)
        requires
            width <= i32::MAX,
            height <= i32::MAX,
        ensures
            r.wf(),
            r.w() == width,
            r.h() == height,
            r.table() == Seq::new(height as nat, |i: int| Seq::<Edge>::empty()),
            r.active() == Seq::<Edge>::empty(),
            r.cur() == (F26Dot6(0), F26Dot6(0)),
            r.start() == (F26Dot6(0), F26Dot6(0)),
            r.rule() == FillRule::NonZeroWinding,
            r.dropout() == DropoutMode::Off,
    {
        let mut edge_table: Vec<EdgeList> = Vec::with_capacity(height);
        let mut i: usize = 0;
        while i < height
            invariant
                0 <= i <= height,
                edge_table@.len() == i,
                forall|k: int| 0 <= k < i ==> (#[trigger] edge_table@[k])@ == Seq::<Edge>::empty(),
            decreases height - i,
        {
            edge_table.push(EdgeList::with_capacity(16));
            i = i + 1;
        }
        let r = ScanConverter {
            edge_table,
            active_edges: EdgeList::with_capacity(32),
            current_x: F26Dot6::zero(),
            current_y: F26Dot6::zero(),
            contour_start_x: F26Dot6::zero(),
            contour_start_y: F26Dot6::zero(),
            fill_rule: FillRule::NonZeroWinding,
            dropout_mode: DropoutMode::Off,
            width,
            height,
        };
        proof {
            assert(r.table() =~= Seq::new(height as nat, |i: int| Seq::<Edge>::empty()));
        }
        r
    }

    /// Set the fill rule.
    pub fn set_fill_rule(&mut self, rule: FillRule)
        ensures
            same_outline(*old(self), *final(self)),
            final(self).rule() == rule,
            final(self).dropout() == old(self).dropout(),
    {
        self.fill_rule = rule;
        proof {
            assert(self.edge_table@ == old(self).edge_table@);
            assert(self.active_edges@ == old(self).active_edges@);
        }
    }

    /// Set the dropout mode.
    pub fn set_dropout_mode(&mut self, mode: DropoutMode)
        ensures
            same_outline(*old(self), *final(self)),
            final(self).dropout() == mode,
            final(self).rule() == old(self).rule(),
    {
        self.dropout_mode = mode;
        proof {
            assert(self.edge_table@ == old(self).edge_table@);
            assert(self.active_edges@ == old(self).active_edges@);
        }
    }

    /// The fill rule.
    pub fn fill_rule(&self) -> (r: FillRule)
        ensures
            r == self.rule(),
    {
        self.fill_rule
    }

    /// The dropout mode.
    pub fn dropout_mode(&self) -> (r: DropoutMode)
        ensures
            r == self.dropout(),
    {
        self.dropout_mode
    }

    /// Bitmap width in pixels.
    pub fn width(&self) -> (r: usize)
        ensures
            r == self.w(),
    {
        self.width
    }

    /// Bitmap height in pixels.
    pub fn height(&self) -> (r: usize)
        ensures
            r == self.h(),
    {
        self.height
    }

    /// Current pen X.
    pub fn current_x(&self) -> (r: F26Dot6)
        ensures
            r == self.cur().0,
    {
        self.current_x
    }

    /// Current pen Y.
    pub fn current_y(&self) -> (r: F26Dot6)
        ensures
            r == self.cur().1,
    {
        self.current_y
    }

    /// X of the current contour's start.
    pub fn contour_start_x(&self) -> (r: F26Dot6)
        ensures
            r == self.start().0,
    {
        self.contour_start_x
    }

    /// Y of the current contour's start.
    pub fn contour_start_y(&self) -> (r: F26Dot6)
        ensures
            r == self.start().1,
    {
        self.contour_start_y
    }

    /// Clear the edge table and the active list and move the pen and the
    /// contour start back to the origin; keeps size, fill rule and dropout mode.
    pub fn reset(&mut self)
        requires
            old(self).wf(),
        ensures
            final(self).wf(),
            final(self).table() == Seq::new(old(self).h() as nat, |i: int| Seq::<Edge>::empty()),
            final(self).active() == Seq::<Edge>::empty(),
            final(self).cur() == (F26Dot6(0), F26Dot6(0)),
            final(self).start() == (F26Dot6(0), F26Dot6(0)),
            final(self).rule() == old(self).rule(),
            final(self).dropout() == old(self).dropout(),
            final(self).w() == old(self).w(),
            final(self).h() == old(self).h(),
    {
        let n = self.edge_table.len();
        let mut i: usize = 0;
        while i < n
            invariant
                n == self.edge_table@.len(),
                n == self.height,
                self.height <= i32::MAX,
                self.width <= i32::MAX,
                self.fill_rule == old(self).fill_rule,
                self.dropout_mode == old(self).dropout_mode,
                self.width == old(self).width,
                self.height == old(self).height,
                0 <= i <= n,
                forall|k: int| 0 <= k < i ==> (#[trigger] self.edge_table@[k])@ == Seq::<Edge>::empty(),
            decreases n - i,
        {
            let mut list = EdgeList::new();
            std::mem::swap(&mut list, &mut self.edge_table[i]);
            list.clear();
            self.edge_table.set(i, list);
            i = i + 1;
        }
        self.active_edges.clear();
        self.current_x = F26Dot6::zero();
        self.current_y = F26Dot6::zero();
        self.contour_start_x = F26Dot6::zero();
        self.contour_start_y = F26Dot6::zero();
        proof {
            assert(self.table() =~= Seq::new(old(self).h() as nat, |i: int| Seq::<Edge>::empty()));
        }
    }

    /// Start a new contour at `(x, y)`.
    pub fn move_to(&mut self, x: F26Dot6, y: F26Dot6)
        ensures
            final(self).wf() == old(self).wf(),
            final(self).cur() == (x, y),
            final(self).rule() == old(self).rule(),
            final(self).dropout() == old(self).dropout(),
            final(self).w() == old(self).w(),
            final(self).h() == old(self).h(),
            final(self).start() == (x, y),
            final(self).table() == old(self).table(),
            final(self).active() == old(self).active(),
    {
        self.current_x = x;
        self.current_y = y;
        self.contour_start_x = x;
        self.contour_start_y = y;
        proof {
            assert(self.edge_table@ == old(self).edge_table@);
            assert(self.active_edges@ == old(self).active_edges@);
        }
    }

    /// The outline state: edge table, pen and contour start.
    pub open spec fn outline(self) -> OutlineState {
        (self.table(), self.cur(), self.start())
    }

    /// Apply the drawing commands in order.
    pub fn apply_path(&mut self, cmds: &Vec<PathCommand>)
        requires
            old(self).wf(),
            path_safe(old(self).outline(), old(self).h(), cmds@),
        ensures
            final(self).wf(),
            final(self).outline() == path_effect(old(self).outline(), old(self).h(), cmds@),
            final(self).active() == old(self).active(),
            final(self).rule() == old(self).rule(),
            final(self).dropout() == old(self).dropout(),
            final(self).w() == old(self).w(),
            final(self).h() == old(self).h(),
    {
        let ghost st0 = self.outline();
        let ghost h = self.h();
        let mut i: usize = 0;
        while i < cmds.len()
            invariant
                self.wf(),
                0 <= i <= cmds@.len(),
                h == self.h(),
                path_safe(st0, h, cmds@),
                self.outline() == path_effect(st0, h, cmds@.subrange(0, i as int)),
                self.active() == old(self).active(),
                self.rule() == old(self).rule(),
                self.dropout() == old(self).dropout(),
                self.w() == old(self).w(),
            decreases cmds@.len() - i,
        {
            let c = cmds[i];
            proof {
                assert(command_safe(path_effect(st0, h, cmds@.subrange(0, i as int)), h, cmds@[i as int]));
                let sub = cmds@.subrange(0, i as int + 1);
                assert(sub.drop_last() == cmds@.subrange(0, i as int));
                assert(sub.last() == c);
            }
            match c {
                PathCommand::MoveTo(x, y) => self.move_to(x, y),
                PathCommand::LineTo(x, y) => self.line_to(x, y),
                PathCommand::QuadTo(x1, y1, x2, y2) => self.quadratic_to(x1, y1, x2, y2),
                PathCommand::CubicTo(x1, y1, x2, y2, x3, y3) => self.cubic_to(x1, y1, x2, y2, x3, y3),
                PathCommand::Close => self.close(),
            }
            i = i + 1;
        }
        proof {
            assert(cmds@.subrange(0, cmds@.len() as int) == cmds@);
        }
    }

    /// Set pixels `[clamp(x1), clamp(x2))` of row `y` to 1.
    fn fill_span(&self, x1: i32, x2: i32, y: i32, bitmap: &mut Vec<u8>)
        requires
            self.wf(),
            0 <= y < self.h(),
            old(bitmap)@.len() == self.w() * self.h(),
        ensures
            final(bitmap)@.len() == old(bitmap)@.len(),
            forall|i: int|
                0 <= i < old(bitmap)@.len() && !(y * self.w() <= i < y * self.w() + self.w())
                    ==> #[trigger] final(bitmap)@[i] == old(bitmap)@[i],
            row_of(final(bitmap)@, self.w(), y as int) == fill_range(
                row_of(old(bitmap)@, self.w(), y as int),
                self.w(),
                x1 as int,
                x2 as int,
            ),
    {
        let w = self.width;
        proof {
            lemma_row_bound(y as int, w as int, self.h());
        }
        let _n = bitmap.len();
        let wi = w as i32;
        let a = if x1 >= 0 { x1 } else { 0 };
        let x_start = (if a <= wi { a } else { wi }) as usize;
        let b = if x2 >= 0 { x2 } else { 0 };
        let x_end = (if b <= wi { b } else { wi }) as usize;
        let row_offset = y as usize * w;
        let ghost old_bm = bitmap@;
        let ghost target = fill_range(row_of(old_bm, w as int, y as int), w as int, x1 as int, x2 as int);
        let mut x = x_start;
        while x < x_end
            invariant
                x_start <= x <= w,
                x_end <= w,
                x <= x_end || x == x_start,
                row_offset == y * w,
                row_offset + w <= old_bm.len(),
                old_bm.len() <= usize::MAX,
                bitmap@.len() == old_bm.len(),
                forall|i: int|
                    0 <= i < old_bm.len() && !(row_offset <= i < row_offset + x && x_start
                        <= i - row_offset) ==> #[trigger] bitmap@[i] == old_bm[i],
                forall|i: int| row_offset + x_start <= i < row_offset + x ==> #[trigger] bitmap@[i] == 1u8,
            decreases x_end - x,
        {
            bitmap.set(row_offset + x, 1u8);
            x = x + 1;
        }
        proof {
            assert(row_of(bitmap@, w as int, y as int) =~= target);
        }
    }

    /// Fill row `y` from the active list (ordered by X) by the non-zero winding rule.
    fn fill_nonzero_winding(&self, y: i32, bitmap: &mut Vec<u8>)
        requires
            self.wf(),
            0 <= y < self.h(),
            old(bitmap)@.len() == self.w() * self.h(),
            row_of(old(bitmap)@, self.w(), y as int) == zeros(self.w()),
            self.active().len() < 0x7fff_ffff,
        ensures
            final(bitmap)@.len() == old(bitmap)@.len(),
            forall|i: int|
                0 <= i < old(bitmap)@.len() && !(y * self.w() <= i < y * self.w() + self.w())
                    ==> #[trigger] final(bitmap)@[i] == old(bitmap)@[i],
            row_of(final(bitmap)@, self.w(), y as int) == nonzero_run(
                self.active(),
                self.w(),
                self.active().len() as int,
            ).2,
    {
        let ghost old_bm = bitmap@;
        let ghost edges = self.active();
        let ghost w = self.w();
        let es = self.active_edges.as_slice();
        let mut winding: i32 = 0;
        let mut fill_start: Option<i32> = None;
        let mut i: usize = 0;
        while i < es.len()
            invariant
                self.wf(),
                0 <= y < self.h(),
                es@ == edges,
                edges == self.active(),
                w == self.w(),
                edges.len() < 0x7fff_ffff,
                0 <= i <= edges.len(),
                -(i as int) <= winding <= i,
                bitmap@.len() == old_bm.len(),
                old_bm.len() == w * self.h(),
                forall|k: int|
                    0 <= k < old_bm.len() && !(y * w <= k < y * w + w) ==> #[trigger] bitmap@[k]
                        == old_bm[k],
                winding == nonzero_run(edges, w, i as int).0,
                fill_start.is_some() == nonzero_run(edges, w, i as int).1.is_some(),
                fill_start.is_some() ==> fill_start.unwrap() == nonzero_run(edges, w, i as int).1.unwrap(),
                row_of(bitmap@, w, y as int) == nonzero_run(edges, w, i as int).2,
            decreases edges.len() - i,
        {
            let edge = es[i];
            proof {
                assert(unit_direction(edges[i as int]));
            }
            let x = edge.x.to_int();
            let old_winding = winding;
            winding = winding + edge.direction as i32;
            if old_winding == 0 && winding != 0 {
                fill_start = Some(x);
            } else if old_winding != 0 && winding == 0 {
                if let Some(start) = fill_start {
                    let ghost before = bitmap@;
                    self.fill_span(start, x, y, bitmap);
                    proof {
                        assert forall|k: int|
                            0 <= k < old_bm.len() && !(y * w <= k < y * w + w) implies #[trigger] bitmap@[k]
                            == old_bm[k] by {
                            assert(bitmap@[k] == before[k]);
                        }
                    }
                    fill_start = None;
                }
            }
            i = i + 1;
        }
        proof {
            assert(row_of(old_bm, w, y as int) == zeros(w));
        }
    }

    /// Fill row `y` from the active list (ordered by X) by the even-odd rule.
    fn fill_even_odd(&self, y: i32, bitmap: &mut Vec<u8>)
        requires
            self.wf(),
            0 <= y < self.h(),
            old(bitmap)@.len() == self.w() * self.h(),
            row_of(old(bitmap)@, self.w(), y as int) == zeros(self.w()),
        ensures
            final(bitmap)@.len() == old(bitmap)@.len(),
            forall|i: int|
                0 <= i < old(bitmap)@.len() && !(y * self.w() <= i < y * self.w() + self.w())
                    ==> #[trigger] final(bitmap)@[i] == old(bitmap)@[i],
            row_of(final(bitmap)@, self.w(), y as int) == even_odd_run(
                self.active(),
                self.w(),
                self.active().len() as int,
            ).2,
    {
        let ghost old_bm = bitmap@;
        let ghost edges = self.active();
        let ghost w = self.w();
        let es = self.active_edges.as_slice();
        let mut inside = false;
        let mut fill_start: i32 = 0;
        let mut i: usize = 0;
        while i < es.len()
            invariant
                self.wf(),
                0 <= y < self.h(),
                es@ == edges,
                edges == self.active(),
                w == self.w(),
                0 <= i <= edges.len(),
                bitmap@.len() == old_bm.len(),
                old_bm.len() == w * self.h(),
                forall|k: int|
                    0 <= k < old_bm.len() && !(y * w <= k < y * w + w) ==> #[trigger] bitmap@[k]
                        == old_bm[k],
                inside == even_odd_run(edges, w, i as int).0,
                fill_start == even_odd_run(edges, w, i as int).1,
                row_of(bitmap@, w, y as int) == even_odd_run(edges, w, i as int).2,
            decreases edges.len() - i,
        {
            let edge = es[i];
            let x = edge.x.to_int();
            if inside {
                let ghost before = bitmap@;
                self.fill_span(fill_start, x, y, bitmap);
                proof {
                    assert forall|k: int|
                        0 <= k < old_bm.len() && !(y * w <= k < y * w + w) implies #[trigger] bitmap@[k]
                        == old_bm[k] by {
                        assert(bitmap@[k] == before[k]);
                    }
                }
                inside = false;
            } else {
                fill_start = x;
                inside = true;
            }
            i = i + 1;
        }
    }

    /// Process scanline `y`: activate its table row, drop finished edges,
    /// order by X, fill the row, and advance the active edges.
    fn scan_line_mono(&mut self, y: i32, bitmap: &mut Vec<u8>)
        requires
            old(self).wf(),
            0 <= y < old(self).h(),
            old(bitmap)@.len() == old(self).w() * old(self).h(),
            row_of(old(bitmap)@, old(self).w(), y as int) == zeros(old(self).w()),
            row_edges(old(self).active(), old(self).table(), y as int).len() < 0x7fff_ffff,
            all_step_ok(row_edges(old(self).active(), old(self).table(), y as int)),
        ensures
            final(self).wf(),
            final(self).table() == old(self).table(),
            final(self).active() == step_each(
                row_edges(old(self).active(), old(self).table(), y as int),
            ),
            final(self).cur() == old(self).cur(),
            final(self).start() == old(self).start(),
            final(self).rule() == old(self).rule(),
            final(self).dropout() == old(self).dropout(),
            final(self).w() == old(self).w(),
            final(self).h() == old(self).h(),
            final(bitmap)@.len() == old(bitmap)@.len(),
            forall|i: int|
                0 <= i < old(bitmap)@.len() && !(y * old(self).w() <= i < y * old(self).w()
                    + old(self).w()) ==> #[trigger] final(bitmap)@[i] == old(bitmap)@[i],
            row_of(final(bitmap)@, old(self).w(), y as int) == row_pixels(
                row_edges(old(self).active(), old(self).table(), y as int),
                old(self).rule(),
                old(self).w(),
            ),
    {
        let ghost a0 = self.active();
        let ghost t0 = self.table();
        let yu = y as usize;
        let mut list = EdgeList::new();
        std::mem::swap(&mut list, &mut self.active_edges);
        list.extend(&self.edge_table[yu]);
        proof {
            assert(self.edge_table@[y as int]@ == t0[y as int]);
            assert forall|k: int| 0 <= k < list@.len() implies unit_direction(#[trigger] list@[k]) by {
                if k < a0.len() {
                    assert(list@[k] == a0[k]);
                } else {
                    assert(list@[k] == self.edge_table@[y as int]@[k - a0.len()]);
                }
            }
            lemma_units_preserved(list@, y as int);
        }
        list.remove_inactive(y);
        list.sort_by_x();
        self.active_edges = list;
        match self.fill_rule {
            FillRule::NonZeroWinding => self.fill_nonzero_winding(y, bitmap),
            FillRule::EvenOdd => self.fill_even_odd(y, bitmap),
        }
        self.active_edges.step_all();
    }

    /// Render the outline into a monochrome bitmap of `width * height` bytes,
    /// row by row from the top: 1 for covered pixels, 0 elsewhere.
    pub fn render_mono(&mut self, bitmap: &mut Vec<u8>)
        requires
            old(self).wf(),
            old(bitmap)@.len() == old(self).w() * old(self).h(),
            scan_fits(old(self).active(), old(self).table(), old(self).h()),
        ensures
            final(self).wf(),
            final(self).table() == old(self).table(),
            final(self).active() == carried_into(old(self).active(), old(self).table(), old(self).h()),
            final(self).cur() == old(self).cur(),
            final(self).start() == old(self).start(),
            final(self).rule() == old(self).rule(),
            final(self).dropout() == old(self).dropout(),
            final(self).w() == old(self).w(),
            final(self).h() == old(self).h(),
            final(bitmap)@.len() == old(bitmap)@.len(),
            forall|y: int, x: int|
                0 <= y < old(self).h() && 0 <= x < old(self).w() ==> #[trigger] pixel(
                    final(bitmap)@,
                    old(self).w(),
                    y,
                    x,
                ) == scan_row(old(self).active(), old(self).table(), old(self).rule(), old(self).w(), y)[x],
            final(bitmap)@ == mono_image(
                old(self).active(),
                old(self).table(),
                old(self).rule(),
                old(self).w(),
                old(self).h(),
            ),
    {
        let ghost a0 = self.active();
        let ghost t0 = self.table();
        let ghost w = self.w();
        let ghost h = self.h();
        let n = bitmap.len();
        let mut i: usize = 0;
        while i < n
            invariant
                n == bitmap@.len(),
                0 <= i <= n,
                forall|k: int| 0 <= k < i ==> #[trigger] bitmap@[k] == 0u8,
            decreases n - i,
        {
            bitmap.set(i, 0u8);
            i = i + 1;
        }
        let height = self.height;
        let mut y: usize = 0;
        while y < height
            invariant
                self.wf(),
                height == h,
                w == self.w(),
                h == self.h(),
                0 <= y <= h,
                h <= i32::MAX,
                bitmap@.len() == w * h,
                scan_fits(a0, t0, h),
                self.table() == t0,
                self.active() == carried_into(a0, t0, y as int),
                self.cur() == old(self).cur(),
                self.start() == old(self).start(),
                self.rule() == old(self).rule(),
                self.dropout() == old(self).dropout(),
                forall|k: int| y * w <= k < w * h ==> #[trigger] bitmap@[k] == 0u8,
                forall|yy: int, x: int|
                    0 <= yy < y && 0 <= x < w ==> #[trigger] pixel(bitmap@, w, yy, x) == scan_row(
                        a0,
                        t0,
                        self.rule(),
                        w,
                        yy,
                    )[x],
            decreases h - y,
        {
            let ghost before = bitmap@;
            let ghost pre_active = self.active();
            let ghost rule = self.rule();
            proof {
                lemma_row_bound(y as int, w, h);
                assert(row_of(bitmap@, w, y as int) =~= zeros(w));
                let es = row_edges(carried_into(a0, t0, y as int), t0, y as int);
                assert(es.len() < 0x7fff_ffff && all_step_ok(es));
            }
            self.scan_line_mono(y as i32, bitmap);
            proof {
                lemma_row_bound(y as int, w, h);
                assert forall|k: int| (y + 1) * w <= k < w * h implies #[trigger] bitmap@[k] == 0u8 by {
                    assert((y + 1) * w == y * w + w) by (nonlinear_arith);
                    assert(bitmap@[k] == before[k]);
                }
                assert forall|yy: int, x: int|
                    0 <= yy < y + 1 && 0 <= x < w implies #[trigger] pixel(bitmap@, w, yy, x)
                    == scan_row(a0, t0, self.rule(), w, yy)[x] by {
                    lemma_row_index(yy, x, w, h);
                    if yy < y {
                        assert(yy * w + w <= y * w) by (nonlinear_arith)
                            requires yy < y, 0 <= w;
                        assert(bitmap@[yy * w + x] == before[yy * w + x]);
                        assert(pixel(before, w, yy, x) == scan_row(a0, t0, rule, w, yy)[x]);
                    } else {
                        assert(row_of(bitmap@, w, y as int)[x] == bitmap@[y * w + x]);
                        assert(row_of(bitmap@, w, y as int) == row_pixels(
                            row_edges(pre_active, t0, y as int),
                            rule,
                            w,
                        ));
                        assert(scan_row(a0, t0, rule, w, yy) == row_pixels(
                            row_edges(pre_active, t0, y as int),
                            rule,
                            w,
                        ));
                    }
                }
            }
            y = y + 1;
        }
        proof {
            let img = mono_image(a0, t0, old(self).rule(), w, h);
            assert forall|i: int| 0 <= i < w * h implies #[trigger] bitmap@[i] == img[i] by {
                vstd::arithmetic::div_mod::lemma_fundamental_div_mod(i, w);
                let yy = i / w;
                let x = i % w;
                assert(0 <= yy < h) by (nonlinear_arith)
                    requires 0 <= i < w * h, w > 0, yy == i / w, i == w * yy + x, 0 <= x < w;
                assert(i == yy * w + x) by (nonlinear_arith)
                    requires i == w * yy + x;
                assert(pixel(bitmap@, w, yy, x) == scan_row(a0, t0, old(self).rule(), w, yy)[x]);
            }
            assert(bitmap@ =~= img);
        }
    }

    /// Add the segment's edge, if any, to the table row of its smaller integer Y.
    fn add_line(&mut self, x1: F26Dot6, y1: F26Dot6, x2: F26Dot6, y2: F26Dot6)
        requires
            old(self).wf(),
            edge_new_safe(x1.val(), y1.val(), x2.val(), y2.val()),
        ensures
            final(self).wf(),
            final(self).table() == table_add_line(
                old(self).table(),
                old(self).h(),
                x1.val(),
                y1.val(),
                x2.val(),
                y2.val(),
            ),
            *final(self) == (ScanConverter { edge_table: final(self).edge_table, ..*old(self) }),
    {
        if let Some(edge) = Edge::new(x1, y1, x2, y2) {
            let a = y1.to_int();
            let b = y2.to_int();
            let y_min = if a <= b { a } else { b };
            let lo = if y_min >= 0 { y_min } else { 0 };
            let hi = self.height as i32 - 1;
            let row = if lo <= hi { lo } else { hi };
            if row >= 0 && (row as usize) < self.edge_table.len() {
                let r = row as usize;
                let mut list = EdgeList::new();
                std::mem::swap(&mut list, &mut self.edge_table[r]);
                list.push(edge);
                self.edge_table.set(r, list);
                proof {
                    assert(self.table() =~= old(self).table().update(
                        r as int,
                        old(self).table()[r as int].push(edge),
                    ));
                }
            }
        }
    }

    /// Add a line from the pen to `(x, y)` and move the pen there.
    pub fn line_to(&mut self, x: F26Dot6, y: F26Dot6)
        requires
            old(self).wf(),
            edge_new_safe(old(self).cur().0.val(), old(self).cur().1.val(), x.val(), y.val()),
        ensures
            final(self).wf(),
            final(self).table() == table_add_line(
                old(self).table(),
                old(self).h(),
                old(self).cur().0.val(),
                old(self).cur().1.val(),
                x.val(),
                y.val(),
            ),
            final(self).cur() == (x, y),
            final(self).start() == old(self).start(),
            final(self).active() == old(self).active(),
            final(self).rule() == old(self).rule(),
            final(self).dropout() == old(self).dropout(),
            final(self).w() == old(self).w(),
            final(self).h() == old(self).h(),
    {
        self.add_line(self.current_x, self.current_y, x, y);
        self.current_x = x;
        self.current_y = y;
    }

    /// Add the polyline from the pen through `pts` and leave the pen at its end.
    fn add_polyline(&mut self, pts: &Vec<FixedPoint>)
        requires
            old(self).wf(),
            polyline_safe(old(self).cur(), pts@),
        ensures
            final(self).wf(),
            final(self).table() == table_add_polyline(
                old(self).table(),
                old(self).h(),
                old(self).cur(),
                pts@,
            ),
            pts@.len() > 0 ==> final(self).cur() == pts@.last(),
            pts@.len() == 0 ==> final(self).cur() == old(self).cur(),
            final(self).start() == old(self).start(),
            final(self).active() == old(self).active(),
            final(self).rule() == old(self).rule(),
            final(self).dropout() == old(self).dropout(),
            final(self).w() == old(self).w(),
            final(self).h() == old(self).h(),
    {
        let ghost start = self.cur();
        let mut i: usize = 0;
        while i < pts.len()
            invariant
                self.wf(),
                0 <= i <= pts@.len(),
                polyline_safe(start, pts@),
                start == old(self).cur(),
                self.cur() == prev_point(start, pts@, i as int),
                self.table() == table_add_polyline(
                    old(self).table(),
                    old(self).h(),
                    start,
                    pts@.subrange(0, i as int),
                ),
                self.start() == old(self).start(),
                self.active() == old(self).active(),
                self.rule() == old(self).rule(),
                self.dropout() == old(self).dropout(),
                self.w() == old(self).w(),
                self.h() == old(self).h(),
            decreases pts@.len() - i,
        {
            let (x, y) = pts[i];
            proof {
                assert(edge_new_safe(
                    prev_point(start, pts@, i as int).0.val(),
                    prev_point(start, pts@, i as int).1.val(),
                    pts@[i as int].0.val(),
                    pts@[i as int].1.val(),
                ));
                let sub = pts@.subrange(0, i as int + 1);
                assert(sub.drop_last() == pts@.subrange(0, i as int));
                assert(sub.last() == pts@[i as int]);
                assert(prev_point(start, sub, i as int) == prev_point(start, pts@, i as int));
            }
            self.add_line(self.current_x, self.current_y, x, y);
            self.current_x = x;
            self.current_y = y;
            i = i + 1;
        }
        proof {
            assert(pts@.subrange(0, pts@.len() as int) == pts@);
        }
    }

    /// Add a quadratic Bézier from the pen, flattened into lines, and move the
    /// pen to its end point.
    pub fn quadratic_to(&mut self, x1: F26Dot6, y1: F26Dot6, x2: F26Dot6, y2: F26Dot6)
        requires
            old(self).wf(),
            quad_safe(
                old(self).cur().0.val(),
                old(self).cur().1.val(),
                x1.val(),
                y1.val(),
                x2.val(),
                y2.val(),
                0,
            ),
            polyline_safe(
                old(self).cur(),
                quad_points(
                    old(self).cur().0.val(),
                    old(self).cur().1.val(),
                    x1.val(),
                    y1.val(),
                    x2.val(),
                    y2.val(),
                    0,
                ),
            ),
        ensures
            final(self).wf(),
            final(self).table() == table_add_polyline(
                old(self).table(),
                old(self).h(),
                old(self).cur(),
                quad_points(
                    old(self).cur().0.val(),
                    old(self).cur().1.val(),
                    x1.val(),
                    y1.val(),
                    x2.val(),
                    y2.val(),
                    0,
                ),
            ),
            final(self).cur() == (x2, y2),
            final(self).start() == old(self).start(),
            final(self).active() == old(self).active(),
            final(self).rule() == old(self).rule(),
            final(self).dropout() == old(self).dropout(),
            final(self).w() == old(self).w(),
            final(self).h() == old(self).h(),
    {
        let mut pts: Vec<FixedPoint> = Vec::new();
        subdivide_quadratic(self.current_x, self.current_y, x1, y1, x2, y2, &mut pts, 0);
        proof {
            crate::curves::lemma_quad_points_end_at_endpoint(
                self.current_x.val(),
                self.current_y.val(),
                x1.val(),
                y1.val(),
                x2.val(),
                y2.val(),
                0,
            );
            assert(pts@ =~= quad_points(
                self.current_x.val(),
                self.current_y.val(),
                x1.val(),
                y1.val(),
                x2.val(),
                y2.val(),
                0,
            ));
        }
        self.add_polyline(&pts);
    }

    /// Add a cubic Bézier from the pen, flattened into lines, and move the pen
    /// to its end point.
    pub fn cubic_to(
        &mut self,
        x1: F26Dot6,
        y1: F26Dot6,
        x2: F26Dot6,
        y2: F26Dot6,
        x3: F26Dot6,
        y3: F26Dot6,
    )
        requires
            old(self).wf(),
            cubic_safe(
                old(self).cur().0.val(),
                old(self).cur().1.val(),
                x1.val(),
                y1.val(),
                x2.val(),
                y2.val(),
                x3.val(),
                y3.val(),
                0,
            ),
            polyline_safe(
                old(self).cur(),
                cubic_points(
                    old(self).cur().0.val(),
                    old(self).cur().1.val(),
                    x1.val(),
                    y1.val(),
                    x2.val(),
                    y2.val(),
                    x3.val(),
                    y3.val(),
                    0,
                ),
            ),
        ensures
            final(self).wf(),
            final(self).table() == table_add_polyline(
                old(self).table(),
                old(self).h(),
                old(self).cur(),
                cubic_points(
                    old(self).cur().0.val(),
                    old(self).cur().1.val(),
                    x1.val(),
                    y1.val(),
                    x2.val(),
                    y2.val(),
                    x3.val(),
                    y3.val(),
                    0,
                ),
            ),
            final(self).cur() == (x3, y3),
            final(self).start() == old(self).start(),
            final(self).active() == old(self).active(),
            final(self).rule() == old(self).rule(),
            final(self).dropout() == old(self).dropout(),
            final(self).w() == old(self).w(),
            final(self).h() == old(self).h(),
    {
        let mut pts: Vec<FixedPoint> = Vec::new();
        subdivide_cubic(self.current_x, self.current_y, x1, y1, x2, y2, x3, y3, &mut pts, 0);
        proof {
            crate::curves::lemma_cubic_points_end_at_endpoint(
                self.current_x.val(),
                self.current_y.val(),
                x1.val(),
                y1.val(),
                x2.val(),
                y2.val(),
                x3.val(),
                y3.val(),
                0,
            );
            assert(pts@ =~= cubic_points(
                self.current_x.val(),
                self.current_y.val(),
                x1.val(),
                y1.val(),
                x2.val(),
                y2.val(),
                x3.val(),
                y3.val(),
                0,
            ));
        }
        self.add_polyline(&pts);
    }

    /// Close the contour: add a line back to its start unless the pen is
    /// already there, and move the pen to the start.
    pub fn close(&mut self)
        requires
            old(self).wf(),
            old(self).cur() != old(self).start() ==> edge_new_safe(
                old(self).cur().0.val(),
                old(self).cur().1.val(),
                old(self).start().0.val(),
                old(self).start().1.val(),
            ),
        ensures
            final(self).wf(),
            final(self).table() == (if old(self).cur() != old(self).start() {
                table_add_line(
                    old(self).table(),
                    old(self).h(),
                    old(self).cur().0.val(),
                    old(self).cur().1.val(),
                    old(self).start().0.val(),
                    old(self).start().1.val(),
                )
            } else {
                old(self).table()
            }),
            final(self).cur() == old(self).start(),
            final(self).start() == old(self).start(),
            final(self).outline() == command_effect(old(self).outline(), old(self).h(), PathCommand::Close),
            final(self).active() == old(self).active(),
            final(self).rule() == old(self).rule(),
            final(self).dropout() == old(self).dropout(),
            final(self).w() == old(self).w(),
            final(self).h() == old(self).h(),
    {
        if self.current_x != self.contour_start_x || self.current_y != self.contour_start_y {
            self.add_line(self.current_x, self.current_y, self.contour_start_x, self.contour_start_y);
        }
        self.current_x = self.contour_start_x;
        self.current_y = self.contour_start_y;
    }
}

/// Closing a contour twice is closing it once: after the first close the
/// pen is at the contour's start, so the second adds no edge, needs no
/// overflow guard, and leaves the state as it is.
pub proof fn lemma_close_twice(st: OutlineState, h: int)
    ensures
        command_safe(command_effect(st, h, PathCommand::Close), h, PathCommand::Close),
        command_effect(command_effect(st, h, PathCommand::Close), h, PathCommand::Close)
            == command_effect(st, h, PathCommand::Close),
{
}

/// The number of edges in the first `n` rows of an edge table.
pub open spec fn table_edge_total(t: Seq<Seq<Edge>>, n: int) -> int
    decreases n,
{
    if n <= 0 {
        0
    } else {
        table_edge_total(t, n - 1) + t[n - 1].len()
    }
}

/// `table_edge_total` grows with the number of rows.
pub proof fn lemma_edge_total_monotone(t: Seq<Seq<Edge>>, a: int, b: int)
    requires
        0 <= a <= b,
    ensures
        table_edge_total(t, a) <= table_edge_total(t, b),
    decreases b - a,
{
    if a < b {
        lemma_edge_total_monotone(t, a, b - 1);
    }
}

/// The summed winding directions of the first `k` edges of a scanline.
pub open spec fn winding_before(edges: Seq<Edge>, k: int) -> int
    decreases k,
{
    if k <= 0 {
        0
    } else {
        winding_before(edges, k - 1) + edges[k - 1].direction
    }
}

/// The pixel column at which an edge crosses the scanline.
pub open spec fn crossing_col(e: Edge) -> int {
    floor64(e.x.val())
}

/// Column `x` lies from the crossing of edge `i` up to that of edge `i + 1`,
/// the winding after edge `i` is not zero, and edge `j`, one of the first
/// `n` and later than `i`, brings the winding back to zero.
pub open spec fn winding_span_piece(edges: Seq<Edge>, n: int, i: int, j: int, x: int) -> bool {
    &&& 0 <= i < j < n
    &&& winding_before(edges, i + 1) != 0
    &&& winding_before(edges, j + 1) == 0
    &&& crossing_col(edges[i]) <= x < crossing_col(edges[i + 1])
}

/// Column `x` is inside a stretch of the scanline where the running winding
/// over the first `n` edges (in X order) is not zero, and that stretch ends
/// where the winding returns to zero.
pub open spec fn nonzero_covers(edges: Seq<Edge>, n: int, x: int) -> bool {
    exists|i: int, j: int| #[trigger] winding_span_piece(edges, n, i, j, x)
}

/// The winding has been non-zero after each edge from `a` on, up to the
/// first `k`, and was zero before edge `a`.
spec fn open_from(edges: Seq<Edge>, k: int, a: int) -> bool {
    &&& 0 <= a < k
    &&& winding_before(edges, a) == 0
    &&& forall|t: int| a < t <= k ==> #[trigger] winding_before(edges, t) != 0
}

/// In X order, a column from the crossing of edge `a` up to that of edge `b`
/// lies between the crossings of two consecutive edges in between.
proof fn lemma_col_between(edges: Seq<Edge>, a: int, b: int, x: int) -> (i: int)
    requires
        crate::edge::sorted_by_x(edges),
        0 <= a < b < edges.len(),
        crossing_col(edges[a]) <= x < crossing_col(edges[b]),
    ensures
        a <= i < b,
        crossing_col(edges[i]) <= x < crossing_col(edges[i + 1]),
    decreases b - a,
{
    if crossing_col(edges[a + 1]) <= x {
        lemma_col_between(edges, a + 1, b, x)
    } else {
        a
    }
}

/// Crossing columns do not decrease along X-ordered edges.
proof fn lemma_col_ordered(edges: Seq<Edge>, i: int, j: int)
    requires
        crate::edge::sorted_by_x(edges),
        0 <= i <= j < edges.len(),
    ensures
        crossing_col(edges[i]) <= crossing_col(edges[j]),
{
    assert(edges[i].x.val() <= edges[j].x.val());
    vstd::arithmetic::div_mod::lemma_div_is_ordered(edges[i].x.val(), edges[j].x.val(), 64);
}

/// What the non-zero winding run holds after the first `k` edges: the
/// winding so far, an open span exactly while the winding is not zero
/// (started at the column of the edge `a` that left zero), and each column
/// set exactly when it is covered by a finished non-zero stretch.
proof fn lemma_nonzero_run_state(edges: Seq<Edge>, w: int, k: int) -> (a: int)
    requires
        crate::edge::sorted_by_x(edges),
        0 <= k <= edges.len(),
        w >= 0,
    ensures
        nonzero_run(edges, w, k).0 == winding_before(edges, k),
        nonzero_run(edges, w, k).2.len() == w,
        winding_before(edges, k) == 0 ==> nonzero_run(edges, w, k).1 is None,
        winding_before(edges, k) != 0 ==> open_from(edges, k, a) && nonzero_run(edges, w, k).1
            == Some(crossing_col(edges[a])),
        forall|x: int|
            0 <= x < w ==> #[trigger] nonzero_run(edges, w, k).2[x] == (if nonzero_covers(
                edges,
                k,
                x,
            ) {
                1u8
            } else {
                0u8
            }),
    decreases k,
{
    if k == 0 {
        assert forall|x: int| 0 <= x < w implies #[trigger] nonzero_run(edges, w, k).2[x] == 0u8
            && !nonzero_covers(edges, k, x) by {
            if nonzero_covers(edges, k, x) {
                let (i, j) = choose|i: int, j: int| #[trigger] winding_span_piece(edges, k, i, j, x);
                assert(winding_span_piece(edges, k, i, j, x));
            }
        }
        0
    } else {
        let pa = lemma_nonzero_run_state(edges, w, k - 1);
        let (wd, st, row) = nonzero_run(edges, w, k - 1);
        let wk = winding_before(edges, k);
        let wp = winding_before(edges, k - 1);
        assert(wk == wp + edges[k - 1].direction);
        let res = nonzero_run(edges, w, k);
        // A finished stretch found among the first `k - 1` edges is still one among the first `k`.
        assert forall|x: int| nonzero_covers(edges, k - 1, x) implies nonzero_covers(edges, k, x) by {
            let (i, j) = choose|i: int, j: int| #[trigger] winding_span_piece(edges, k - 1, i, j, x);
            assert(winding_span_piece(edges, k, i, j, x));
        }
        if wk != 0 {
            // No stretch closes at edge `k - 1`.
            assert forall|x: int| nonzero_covers(edges, k, x) implies nonzero_covers(edges, k - 1, x) by {
                let (i, j) = choose|i: int, j: int| #[trigger] winding_span_piece(edges, k, i, j, x);
                assert(j != k - 1);
                assert(winding_span_piece(edges, k - 1, i, j, x));
            }
            assert(res.2 == row);
            if wp == 0 {
                assert(open_from(edges, k, k - 1));
                k - 1
            } else {
                assert(open_from(edges, k, pa));
                pa
            }
        } else if wp != 0 {
            // The stretch opened at edge `pa` closes at edge `k - 1`.
            let s = crossing_col(edges[pa]);
            let e = crossing_col(edges[k - 1]);
            assert(st == Some(s));
            assert(res.2 == fill_range(row, w, s, e));
            assert forall|x: int| 0 <= x < w implies #[trigger] res.2[x] == (if nonzero_covers(
                edges,
                k,
                x,
            ) {
                1u8
            } else {
                0u8
            }) by {
                assert(row[x] == (if nonzero_covers(edges, k - 1, x) {
                    1u8
                } else {
                    0u8
                }));
                if s <= x < e {
                    let i = lemma_col_between(edges, pa, k - 1, x);
                    assert(winding_before(edges, i + 1) != 0);
                    assert(winding_span_piece(edges, k, i, k - 1, x));
                    assert(res.2[x] == 1u8);
                } else if nonzero_covers(edges, k, x) {
                    let (i, j) = choose|i: int, j: int| #[trigger] winding_span_piece(edges, k, i, j, x);
                    if j == k - 1 {
                        if i >= pa {
                            lemma_col_ordered(edges, pa, i);
                            lemma_col_ordered(edges, i + 1, k - 1);
                            assert(false);
                        } else {
                            assert(i + 1 != pa);
                            assert(winding_span_piece(edges, k - 1, i, pa - 1, x));
                        }
                    } else {
                        assert(winding_span_piece(edges, k - 1, i, j, x));
                    }
                    assert(res.2[x] == 1u8);
                } else {
                    assert(res.2[x] == row[x]);
                }
            }
            0
        } else {
            // The winding stays at zero: nothing opens or closes.
            assert forall|x: int| nonzero_covers(edges, k, x) implies nonzero_covers(edges, k - 1, x) by {
                let (i, j) = choose|i: int, j: int| #[trigger] winding_span_piece(edges, k, i, j, x);
                if j == k - 1 {
                    assert(i != k - 2);
                    assert(winding_span_piece(edges, k - 1, i, k - 2, x));
                } else {
                    assert(winding_span_piece(edges, k - 1, i, j, x));
                }
            }
            assert(res.2 == row);
            0
        }
    }
}

/// The non-zero winding rule fills exactly where the winding is non-zero:
/// with the crossing edges of a scanline in X order, a pixel is set when it
/// lies from the crossing column of one edge up to that of the next, the
/// summed directions of the edges up to the first of them are not zero, and
/// a later edge brings that sum back to zero; every other pixel stays clear.
/// So a span opens only where the winding leaves zero and extends until the
/// winding returns to zero, whatever it does in between.
pub proof fn lemma_nonzero_fill_is_nonzero_winding(edges: Seq<Edge>, w: int)
    requires
        crate::edge::sorted_by_x(edges),
        w >= 0,
    ensures
        nonzero_run(edges, w, edges.len() as int).2.len() == w,
        forall|x: int|
            0 <= x < w ==> #[trigger] nonzero_run(edges, w, edges.len() as int).2[x] == (
            if nonzero_covers(edges, edges.len() as int, x) {
                1u8
            } else {
                0u8
            }),
{
    lemma_nonzero_run_state(edges, w, edges.len() as int);
}

/// Every scanline that non-zero winding rendering produces is filled exactly
/// where the winding of that scanline's crossing edges, taken in X order, is
/// non-zero (in the sense of `lemma_nonzero_fill_is_nonzero_winding`).
pub proof fn lemma_nonzero_scan_row(active: Seq<Edge>, table: Seq<Seq<Edge>>, w: int, y: int)
    requires
        w >= 0,
    ensures
        forall|x: int|
            0 <= x < w ==> #[trigger] scan_row(active, table, FillRule::NonZeroWinding, w, y)[x] == (
            if nonzero_covers(
                row_edges(carried_into(active, table, y), table, y),
                row_edges(carried_into(active, table, y), table, y).len() as int,
                x,
            ) {
                1u8
            } else {
                0u8
            }),
{
    let carried = carried_into(active, table, y);
    crate::edge::lemma_stable_sort_sorted_permutation(active_at(carried + table[y], y));
    lemma_nonzero_fill_is_nonzero_winding(row_edges(carried, table, y), w);
}

impl ScanConverter {
    /// Whether the edge table holds fewer than 2^31 - 1 edges, few enough
    /// for the winding count of a scanline.
    pub fn edge_count_fits(&self) -> (r: bool)
        requires
            self.wf(),
        ensures
            r == (table_edge_total(self.table(), self.h()) < 0x7fff_ffff),
    {
        let ghost t = self.table();
        let n = self.edge_table.len();
        let mut total: u64 = 0;
        let mut r: usize = 0;
        while r < n
            invariant
                n == self.edge_table@.len(),
                n == t.len(),
                n == self.h(),
                t == self.table(),
                0 <= r <= n,
                total == table_edge_total(t, r as int),
                total < 0x7fff_ffff,
            decreases n - r,
        {
            let len = self.edge_table[r].len();
            proof {
                assert(t[r as int] == self.edge_table@[r as int]@);
            }
            if len as u64 >= 0x7fff_ffff - total {
                proof {
                    lemma_edge_total_monotone(t, r + 1, n as int);
                }
                return false;
            }
            total = total + len as u64;
            r = r + 1;
        }
        true
    }
}

} // verus!
