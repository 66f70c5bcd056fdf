//! Edges of a glyph outline prepared for scanline rasterization, and the
//! edge lists of the edge table and the active edge list.

use vstd::prelude::*;
use crate::fixed::{ceil64, floor64, trunc_div, F26Dot6};

verus! {

/// One outline segment, oriented top to bottom, with its X position at the
/// current scanline and its X step per scanline.
#[derive(Debug, Clone, Copy, PartialEq, Eq, Structural)]
pub struct Edge {
    /// X position at the current scanline.
    pub x: F26Dot6,
    /// X change per scanline (dx/dy).
    pub x_increment: F26Dot6,
    /// Winding direction: +1 when the outline runs downward in bitmap
    /// coordinates (y1 < y2), -1 otherwise.
    pub direction: i8,
    /// Last scanline the edge covers (inclusive).
    pub y_max: i32,
    /// First scanline the edge covers (inclusive).
    pub y_min: i32,
}

/// `v` fits in an `i32`.
pub open spec fn fits_i32(v: int) -> bool {
    i32::MIN <= v <= i32::MAX
}

/// `F26Dot6::ceil` can be applied to a value with raw representation `v`.
pub open spec fn ceil_ok(v: int) -> bool {
    v % 64 == 0 || v <= i32::MAX - 63
}

/// The oriented endpoints `(x_start, y_start, x_end, y_end, direction)` of the
/// segment from `(x1, y1)` to `(x2, y2)`: the end with the smaller Y first.
pub open spec fn orient(x1: int, y1: int, x2: int, y2: int) -> (int, int, int, int, i8) {
    if y2 - y1 > 0 {
        (x1, y1, x2, y2, 1i8)
    } else {
        (x2, y2, x1, y1, -1i8)
    }
}

/// Slope in 26.6: `(dx << 6) / dy`, truncated toward zero and to 32 bits.
pub open spec fn slope(x1: int, y1: int, x2: int, y2: int) -> int {
    let (xs, ys, xe, ye, d) = orient(x1, y1, x2, y2);
    trunc_div((xe - xs) * 64, ye - ys) as i32 as int
}

/// First scanline covered: the ceiling of the upper Y.
pub open spec fn first_row(x1: int, y1: int, x2: int, y2: int) -> int {
    let (xs, ys, xe, ye, d) = orient(x1, y1, x2, y2);
    ceil64(ys)
}

/// Last scanline covered: one less than the ceiling of the lower Y.
pub open spec fn last_row(x1: int, y1: int, x2: int, y2: int) -> int {
    let (xs, ys, xe, ye, d) = orient(x1, y1, x2, y2);
    ceil64(ye) - 1
}

/// The X position at the first scanline: the upper X plus the distance from
/// the upper Y down to the first scanline times the slope (`mul` in 26.6).
pub open spec fn first_x(x1: int, y1: int, x2: int, y2: int) -> int {
    let (xs, ys, xe, ye, d) = orient(x1, y1, x2, y2);
    xs + floor64((first_row(x1, y1, x2, y2) * 64 - ys) * slope(x1, y1, x2, y2)) as i32 as int
}

/// Building the edge from `(x1, y1)` to `(x2, y2)` never overflows.
pub open spec fn edge_new_safe(x1: int, y1: int, x2: int, y2: int) -> bool {
    let (xs, ys, xe, ye, d) = orient(x1, y1, x2, y2);
    &&& fits_i32(y2 - y1)
    &&& (y2 - y1 != 0 ==> {
        &&& fits_i32(ye - ys)
        &&& fits_i32(xe - xs)
        &&& ceil_ok(ys)
        &&& ceil_ok(ye)
        &&& (first_row(x1, y1, x2, y2) <= last_row(x1, y1, x2, y2) ==> fits_i32(
            first_x(x1, y1, x2, y2),
        ))
    })
}

/// The edge from `(x1, y1)` to `(x2, y2)`: none for a horizontal segment or
/// for one that crosses no scanline (scanlines are the integer Y values in
/// `[ceil(y_start), ceil(y_end))`).
pub open spec fn edge_spec(x1: int, y1: int, x2: int, y2: int) -> Option<Edge> {
    let (xs, ys, xe, ye, d) = orient(x1, y1, x2, y2);
    if y2 - y1 == 0 || first_row(x1, y1, x2, y2) > last_row(x1, y1, x2, y2) {
        None
    } else {
        Some(
            Edge {
                x: F26Dot6(first_x(x1, y1, x2, y2) as i32),
                x_increment: F26Dot6(slope(x1, y1, x2, y2) as i32),
                direction: d,
                y_max: last_row(x1, y1, x2, y2) as i32,
                y_min: first_row(x1, y1, x2, y2) as i32,
            },
        )
    }
}

impl Edge {
    /// Advancing this edge one scanline does not overflow.
    pub open spec fn step_ok(self) -> bool {
        fits_i32(self.x.val() + self.x_increment.val())
    }

    /// This edge advanced one scanline.
    pub open spec fn stepped(self) -> Edge {
        Edge { x: F26Dot6((self.x.val() + self.x_increment.val()) as i32), ..self }
    }

    /// Build an edge from two points; `None` when the segment is horizontal
    /// or crosses no scanline.
    pub fn new(x1: F26Dot6, y1: F26Dot6, x2: F26Dot6, y2: F26Dot6) -> (r: Option<Edge>)
        requires
            edge_new_safe(x1.val(), y1.val(), x2.val(), y2.val()),
        ensures
            r == edge_spec(x1.val(), y1.val(), x2.val(), y2.val()),
    {
        let dy = y2 - y1;
        if dy.raw() == 0 {
            return None;
        }
        let (x_start, y_start, x_end, y_end, direction) = if dy.raw() > 0 {
            (x1, y1, x2, y2, 1i8)
        } else {
            (x2, y2, x1, y1, -1i8)
        };
        let dy_abs = y_end - y_start;
        let dx = x_end - x_start;
        let x_increment = dx.div(dy_abs);
        let y_min = y_start.ceil().to_int();
        let y_max = y_end.ceil().to_int() - 1;
        if y_min > y_max {
            return None;
        }
        proof {
            assert(y_start.val() <= i32::MAX - 63 || y_start.val() % 64 == 0);
            assert(-0x200_0000 <= y_min < 0x200_0000);
        }
        let delta_y = F26Dot6::from_int(y_min) - y_start;
        let x = x_start + delta_y.mul(x_increment);
        Some(Edge { x, x_increment, direction, y_max, y_min })
    }

    /// Advance to the next scanline: `x += x_increment`.
    pub fn step(&mut self)
        requires
            old(self).step_ok(),
        ensures
            *final(self) == old(self).stepped(),
    {
        self.x = self.x + self.x_increment;
    }

    /// Whether the edge still covers scanline `y`: `y <= y_max`.
    pub fn is_active(&self, y: i32) -> (r: bool)
        ensures
            r == (y <= self.y_max),
    {
        y <= self.y_max
    }
}

/// Edges ordered by X as the stable insertion sort orders them: `e` placed
/// after every element of `s` whose X is not greater than its own, scanning
/// from the back.
pub open spec fn insert_after_le(s: Seq<Edge>, e: Edge) -> Seq<Edge>
    decreases s.len(),
{
    if s.len() == 0 {
        seq![e]
    } else if s.last().x.val() > e.x.val() {
        insert_after_le(s.drop_last(), e).push(s.last())
    } else {
        s.push(e)
    }
}

/// The stable sort of `s` by X: equal X values keep their relative order.
pub open spec fn stable_sort_by_x(s: Seq<Edge>) -> Seq<Edge>
    decreases s.len(),
{
    if s.len() == 0 {
        s
    } else {
        insert_after_le(stable_sort_by_x(s.drop_last()), s.last())
    }
}

/// `s` is ordered by non-decreasing X.
pub open spec fn sorted_by_x(s: Seq<Edge>) -> bool {
    forall|i: int, j: int| 0 <= i <= j < s.len() ==> s[i].x.val() <= s[j].x.val()
}

/// The edges of `s` still active at scanline `y`, in order.
pub open spec fn active_at(s: Seq<Edge>, y: int) -> Seq<Edge> {
    s.filter(|e: Edge| y <= e.y_max)
}

/// Every edge of `s` can be advanced one scanline without overflow.
pub open spec fn all_step_ok(s: Seq<Edge>) -> bool {
    forall|i: int| 0 <= i < s.len() ==> #[trigger] s[i].step_ok()
}

/// Every edge of `s` advanced one scanline.
pub open spec fn step_each(s: Seq<Edge>) -> Seq<Edge> {
    s.map_values(|e: Edge| e.stepped())
}

proof fn lemma_insert_after_le_sorted(s: Seq<Edge>, e: Edge)
    requires
        sorted_by_x(s),
    ensures
        sorted_by_x(insert_after_le(s, e)),
        insert_after_le(s, e).to_multiset() == s.to_multiset().insert(e),
        insert_after_le(s, e).len() == s.len() + 1,
        forall|i: int|
            0 <= i < insert_after_le(s, e).len() ==> (#[trigger] insert_after_le(s, e)[i] == e
                || s.contains(insert_after_le(s, e)[i])),
    decreases s.len(),
{
    broadcast use vstd::seq_lib::group_to_multiset_ensures;

    if s.len() == 0 {
        assert(insert_after_le(s, e) == seq![e]);
        assert(seq![e] == Seq::<Edge>::empty().push(e));
    } else if s.last().x.val() > e.x.val() {
        let t = s.drop_last();
        assert(sorted_by_x(t));
        lemma_insert_after_le_sorted(t, e);
        let u = insert_after_le(t, e);
        assert(s == t.push(s.last()));
        assert forall|i: int| 0 <= i < u.len() implies u[i].x.val() <= s.last().x.val() by {
            if u[i] != e {
                assert(t.contains(u[i]));
                let k = choose|k: int| 0 <= k < t.len() && t[k] == u[i];
                assert(s[k] == t[k]);
            }
        }
        assert forall|i: int, j: int|
            0 <= i <= j < u.push(s.last()).len() implies u.push(s.last())[i].x.val() <= u.push(
            s.last(),
        )[j].x.val() by {
            if j == u.len() {
                if i < u.len() {
                    assert(u.push(s.last())[i] == u[i]);
                }
            } else {
                assert(u.push(s.last())[i] == u[i]);
                assert(u.push(s.last())[j] == u[j]);
            }
        }
        assert forall|i: int|
            0 <= i < u.push(s.last()).len() implies (#[trigger] u.push(s.last())[i] == e
            || s.contains(u.push(s.last())[i])) by {
            if i < u.len() {
                assert(u.push(s.last())[i] == u[i]);
                if u[i] != e {
                    assert(t.contains(u[i]));
                    let k = choose|k: int| 0 <= k < t.len() && t[k] == u[i];
                    assert(s[k] == t[k]);
                }
            } else {
                assert(s[s.len() - 1] == s.last());
            }
        }
        assert(s.to_multiset() == t.to_multiset().insert(s.last()));
    } else {
        assert forall|i: int, j: int|
            0 <= i <= j < s.push(e).len() implies s.push(e)[i].x.val() <= s.push(e)[j].x.val() by {
            if j == s.len() {
                if i < s.len() {
                    assert(s.push(e)[i] == s[i]);
                    assert(s[i].x.val() <= s[s.len() - 1].x.val());
                }
            } else {
                assert(s.push(e)[i] == s[i]);
                assert(s.push(e)[j] == s[j]);
            }
        }
        assert forall|i: int| 0 <= i < s.push(e).len() implies (#[trigger] s.push(e)[i] == e
            || s.contains(s.push(e)[i])) by {
            if i < s.len() {
                assert(s.push(e)[i] == s[i]);
            }
        }
    }
}

/// Law: sorting by X yields a list ordered by X that holds exactly the same
/// edges.
pub proof fn lemma_stable_sort_sorted_permutation(s: Seq<Edge>)
    ensures
        sorted_by_x(stable_sort_by_x(s)),
        stable_sort_by_x(s).to_multiset() == s.to_multiset(),
        stable_sort_by_x(s).len() == s.len(),
    decreases s.len(),
{
    broadcast use vstd::seq_lib::group_to_multiset_ensures;

    if s.len() > 0 {
        lemma_stable_sort_sorted_permutation(s.drop_last());
        lemma_insert_after_le_sorted(stable_sort_by_x(s.drop_last()), s.last());
        assert(s == s.drop_last().push(s.last()));
    }
}

/// A list of edges: one row of the edge table, or the active edge list.
#[derive(Debug, Clone)]
pub struct EdgeList {
    edges: Vec<Edge>,
}

impl View for EdgeList {
    type V = Seq<Edge>;

    closed spec fn view(&self) -> Seq<Edge> {
        self.edges@
    }
}

/// The number of elements a vector can hold without reallocating.
#[verifier::external_body]
fn vec_capacity(v: &Vec<Edge>) -> (r: usize)
    ensures
        r >= v.len(),
{
    v.capacity()
}

impl EdgeList {
    /// An empty list.
    pub fn new() -> (r: EdgeList)
        ensures
            r@ == Seq::<Edge>::empty(),
    {
        EdgeList { edges: Vec::new() }
    }

    /// An empty list with room for `capacity` edges.
    pub fn with_capacity(capacity: usize) -> (r: EdgeList)
        ensures
            r@ == Seq::<Edge>::empty(),
    {
        EdgeList { edges: Vec::with_capacity(capacity) }
    }

    /// The number of edges the list can hold without reallocating.
    pub fn capacity(&self) -> (r: usize)
        ensures
            r >= self@.len(),
    {
        vec_capacity(&self.edges)
    }

    /// Insert `edge` at a position found by binary search on X: every edge
    /// before it has X no greater, every edge after it X no smaller, when the
    /// list was ordered by X.
    pub fn insert_sorted(&mut self, edge: Edge)
        ensures
            exists|pos: int|
                0 <= pos <= old(self)@.len() && final(self)@ == old(self)@.insert(pos, edge) && (
                sorted_by_x(old(self)@) ==> (forall|i: int|
                    0 <= i < pos ==> old(self)@[i].x.val() <= edge.x.val()) && (forall|i: int|
                    pos <= i < old(self)@.len() ==> old(self)@[i].x.val() >= edge.x.val())),
            sorted_by_x(old(self)@) ==> sorted_by_x(final(self)@),
    {
        let ghost s = self.edges@;
        let mut lo: usize = 0;
        let mut hi: usize = self.edges.len();
        while lo < hi
            invariant
                self.edges@ == s,
                0 <= lo <= hi <= s.len(),
                sorted_by_x(s) ==> forall|i: int| 0 <= i < lo ==> s[i].x.val() < edge.x.val(),
                sorted_by_x(s) ==> forall|i: int| hi <= i < s.len() ==> s[i].x.val() >= edge.x.val(),
            decreases hi - lo,
        {
            let mid = lo + (hi - lo) / 2;
            if self.edges[mid].x.raw() < edge.x.raw() {
                lo = mid + 1;
            } else {
                hi = mid;
            }
        }
        self.edges.insert(lo, edge);
        proof {
            let pos = lo as int;
            assert(self.edges@ == s.insert(pos, edge));
            assert(0 <= pos <= s.len() && self.edges@ == s.insert(pos, edge) && (sorted_by_x(s) ==> (
            forall|i: int| 0 <= i < pos ==> s[i].x.val() <= edge.x.val()) && (forall|i: int|
                pos <= i < s.len() ==> s[i].x.val() >= edge.x.val())));
            assert(old(self)@ == s);
            assert(exists|q: int|
                0 <= q <= old(self)@.len() && self@ == old(self)@.insert(q, edge) && (sorted_by_x(
                    old(self)@,
                ) ==> (forall|i: int| 0 <= i < q ==> old(self)@[i].x.val() <= edge.x.val()) && (
                forall|i: int| q <= i < old(self)@.len() ==> old(self)@[i].x.val() >= edge.x.val())));
            if sorted_by_x(s) {
                assert forall|i: int, j: int|
                    0 <= i <= j < self.edges@.len() implies self.edges@[i].x.val()
                    <= self.edges@[j].x.val() by {
                    if i < pos && j > pos {
                        assert(self.edges@[i] == s[i]);
                        assert(self.edges@[j] == s[j - 1]);
                    }
                }
            }
        }
    }

    /// Stable sort by X.
    pub fn sort_by_x(&mut self)
        ensures
            final(self)@ == stable_sort_by_x(old(self)@),
    {
        let ghost s = self.edges@;
        let mut sorted: Vec<Edge> = Vec::with_capacity(self.edges.len());
        let mut i: usize = 0;
        while i < self.edges.len()
            invariant
                self.edges@ == s,
                0 <= i <= s.len(),
                sorted@ == stable_sort_by_x(s.subrange(0, i as int)),
            decreases s.len() - i,
        {
            let e = self.edges[i];
            let ghost r = sorted@;
            let mut p: usize = sorted.len();
            proof {
                assert(r.subrange(0, r.len() as int) == r);
                assert(r.subrange(r.len() as int, r.len() as int) == Seq::<Edge>::empty());
                assert(insert_after_le(r, e) + Seq::<Edge>::empty() == insert_after_le(r, e));
            }
            while p > 0 && sorted[p - 1].x.raw() > e.x.raw()
                invariant
                    sorted@ == r,
                    0 <= p <= r.len(),
                    insert_after_le(r, e) == insert_after_le(r.subrange(0, p as int), e) + r.subrange(
                        p as int,
                        r.len() as int,
                    ),
                decreases p,
            {
                proof {
                    let a = r.subrange(0, p as int);
                    assert(a.drop_last() == r.subrange(0, p as int - 1));
                    assert(a.last() == r[p as int - 1]);
                    assert(r.subrange(p as int - 1, r.len() as int) == seq![r[p as int - 1]]
                        + r.subrange(p as int, r.len() as int));
                    assert(insert_after_le(a, e) == insert_after_le(r.subrange(0, p as int - 1), e).push(
                        r[p as int - 1],
                    ));
                    assert(insert_after_le(r.subrange(0, p as int - 1), e).push(r[p as int - 1])
                        + r.subrange(p as int, r.len() as int) == insert_after_le(
                        r.subrange(0, p as int - 1),
                        e,
                    ) + r.subrange(p as int - 1, r.len() as int));
                }
                p = p - 1;
            }
            proof {
                let a = r.subrange(0, p as int);
                if p > 0 {
                    assert(a.last() == r[p as int - 1]);
                }
                assert(insert_after_le(a, e) == a.push(e));
                assert(r.insert(p as int, e) == a.push(e) + r.subrange(p as int, r.len() as int));
                assert(s.subrange(0, i as int + 1).drop_last() == s.subrange(0, i as int));
                assert(s.subrange(0, i as int + 1).last() == e);
            }
            sorted.insert(p, e);
            i = i + 1;
        }
        proof {
            assert(s.subrange(0, s.len() as int) == s);
        }
        self.edges = sorted;
    }

    /// Drop the edges that no longer cover scanline `y` (those with `y > y_max`).
    pub fn remove_inactive(&mut self, y: i32)
        ensures
            final(self)@ == active_at(old(self)@, y as int),
    {
        let ghost s = self.edges@;
        let mut kept: Vec<Edge> = Vec::new();
        let mut i: usize = 0;
        while i < self.edges.len()
            invariant
                self.edges@ == s,
                0 <= i <= s.len(),
                kept@ == active_at(s.subrange(0, i as int), y as int),
            decreases s.len() - i,
        {
            let e = self.edges[i];
            proof {
                assert(s.subrange(0, i as int + 1).drop_last() == s.subrange(0, i as int));
                assert(s.subrange(0, i as int + 1).last() == e);
                reveal(Seq::filter);
            }
            if e.is_active(y) {
                kept.push(e);
            }
            i = i + 1;
        }
        proof {
            assert(s.subrange(0, s.len() as int) == s);
        }
        self.edges = kept;
    }

    /// Advance every edge one scanline.
    pub fn step_all(&mut self)
        requires
            all_step_ok(old(self)@),
        ensures
            final(self)@ == step_each(old(self)@),
    {
        let ghost s = self.edges@;
        let n = self.edges.len();
        let mut i: usize = 0;
        while i < n
            invariant
                n == s.len(),
                self.edges@.len() == n,
                all_step_ok(s),
                0 <= i <= n,
                forall|k: int| 0 <= k < i ==> self.edges@[k] == s[k].stepped(),
                forall|k: int| i <= k < n ==> self.edges@[k] == s[k],
            decreases n - i,
        {
            let mut e = self.edges[i];
            proof {
                assert(s[i as int].step_ok());
            }
            e.step();
            self.edges.set(i, e);
            i = i + 1;
        }
        proof {
            assert(self.edges@ =~= step_each(s));
        }
    }

    /// Remove every edge.
    pub fn clear(&mut self)
        ensures
            final(self)@ == Seq::<Edge>::empty(),
    {
        self.edges.clear();
    }

    /// The number of edges.
    pub fn len(&self) -> (r: usize)
        ensures
            r == self@.len(),
    {
        self.edges.len()
    }

    /// Whether the list holds no edge.
    pub fn is_empty(&self) -> (r: bool)
        ensures
            r == (self@.len() == 0),
    {
        self.edges.len() == 0
    }

    /// The edges in order.
    pub fn as_slice(&self) -> (r: &[Edge])
        ensures
            r@ == self@,
    {
        self.edges.as_slice()
    }

    /// The edges in order, for in-place modification.
    pub fn as_mut_slice(&mut self) -> (r: &mut [Edge])
        ensures
            r@ == old(self)@,
            final(self)@ == final(r)@,
    {
        self.edges.as_mut_slice()
    }

    /// The edges in order, each to be modified in place; iterating the
    /// slice yields them one by one, and what is written to them is what
    /// the list holds afterwards.
    pub fn iter_mut(&mut self) -> (r: &mut [Edge])
        ensures
            r@ == old(self)@,
            final(self)@ == final(r)@,
    {
        self.edges.as_mut_slice()
    }

    /// Append an edge at the end, without sorting.
    pub fn push(&mut self, edge: Edge)
        ensures
            final(self)@ == old(self)@.push(edge),
    {
        self.edges.push(edge);
    }

    /// Append the edges of `other`, in order.
    pub fn extend(&mut self, other: &EdgeList)
        ensures
            final(self)@ == old(self)@ + other@,
    {
        let ghost s = self.edges@;
        let mut i: usize = 0;
        while i < other.edges.len()
            invariant
                0 <= i <= other@.len(),
                self.edges@ == s + other@.subrange(0, i as int),
            decreases other@.len() - i,
        {
            self.edges.push(other.edges[i]);
            proof {
                assert(other@.subrange(0, i as int + 1) == other@.subrange(0, i as int).push(
                    other@[i as int],
                ));
            }
            i = i + 1;
        }
        proof {
            assert(other@.subrange(0, other@.len() as int) == other@);
        }
    }

    /// An iterator over the edges in order.
    pub fn iter(&self) -> (r: std::slice::Iter<'_, Edge>)
        ensures
            vstd::std_specs::slice::into_iter_elts(r) == self@,
    {
        let sl = self.edges.as_slice();
        let it = sl.iter();
        proof {
            broadcast use vstd::std_specs::slice::axiom_spec_slice_iter;
            assert(vstd::std_specs::slice::into_iter_elts(it) =~= self@);
        }
        it
    }
}

} // verus!
