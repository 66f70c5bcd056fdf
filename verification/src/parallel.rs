//! Splitting a run for rendering on several threads: the renderer's thread
//! setting, and the horizontal bands of 64 pixel rows that glyphs are
//! grouped into by their vertical position.

use vstd::prelude::*;
use crate::opixa_renderer::OpixaRenderer;
use crate::orge_renderer::OrgeRenderer;
use crate::types::PositionedGlyph;

verus! {

/// Rows in one band.
pub const REGION_HEIGHT: u32 = 64;

/// Renders the glyphs of a run on several threads.
#[derive(Debug, Clone, Copy, PartialEq, Eq, Structural)]
pub struct ParallelRenderer {
    /// Threads to use; 0 leaves the choice to the thread pool.
    pub thread_count: usize,
}

impl ParallelRenderer {
    /// A renderer that lets the thread pool choose the number of threads.
    pub fn new() -> (r: ParallelRenderer)
        ensures
            r.thread_count == 0,
    {
        ParallelRenderer { thread_count: 0 }
    }

    /// A renderer that uses `thread_count` threads.
    pub fn with_threads(thread_count: usize) -> (r: ParallelRenderer)
        ensures
            r.thread_count == thread_count,
    {
        ParallelRenderer { thread_count }
    }
}

impl OrgeRenderer {
    /// A parallel renderer for this backend.
    pub fn with_parallel_rendering(&self) -> (r: ParallelRenderer)
        ensures
            r.thread_count == 0,
    {
        ParallelRenderer::new()
    }
}

impl OpixaRenderer {
    /// A parallel renderer for this backend.
    pub fn with_parallel_rendering(&self) -> (r: ParallelRenderer)
        ensures
            r.thread_count == 0,
    {
        ParallelRenderer::new()
    }
}

/// The number of bands of a canvas `height` rows tall (at least one).
pub open spec fn region_count(height: int) -> int {
    if height / 64 > 1 {
        height / 64
    } else {
        1
    }
}

/// The whole pixel row of a 26.6 vertical position, negative positions
/// counting as row 0.
pub open spec fn row_of(y: int) -> int {
    if y <= 0 {
        0
    } else {
        y / 64
    }
}

/// The band of a glyph at vertical position `y` among `n` bands: the band
/// of its row, the last band for rows below the canvas.
pub open spec fn region_of(y: int, n: int) -> int {
    if row_of(y) / 64 < n - 1 {
        row_of(y) / 64
    } else {
        n - 1
    }
}

/// The positions among the first `k` glyphs whose band is `j`, in order.
pub open spec fn members(glyphs: Seq<PositionedGlyph>, n: int, j: int, k: int) -> Seq<usize>
    decreases k,
{
    if k <= 0 {
        Seq::empty()
    } else if region_of(glyphs[k - 1].y.val(), n) == j {
        members(glyphs, n, j, k - 1).push((k - 1) as usize)
    } else {
        members(glyphs, n, j, k - 1)
    }
}

/// The number of bands for a canvas `height` rows tall.
pub fn region_count_exec(height: u32) -> (r: u32)
    ensures
        r == region_count(height as int),
{
    let q = height / REGION_HEIGHT;
    if q > 1 {
        q
    } else {
        1
    }
}

/// The band of a glyph among `n` bands.
fn region_index(g: &PositionedGlyph, n: u32) -> (r: u32)
    requires
        n >= 1,
    ensures
        r == region_of(g.y.val(), n as int),
{
    let y = g.y.raw();
    let row: u32 = if y <= 0 {
        0
    } else {
        (y / 64) as u32
    };
    let band = row / REGION_HEIGHT;
    if band < n - 1 {
        band
    } else {
        n - 1
    }
}

/// Group the glyphs of a run into the bands of a canvas `height` rows
/// tall: for each band, the positions of its glyphs in run order.
pub fn assign_regions(glyphs: &Vec<PositionedGlyph>, height: u32) -> (r: Vec<Vec<usize>>)
    ensures
        r@.len() == region_count(height as int),
        forall|j: int|
            0 <= j < r@.len() ==> #[trigger] r@[j]@ == members(
                glyphs@,
                region_count(height as int),
                j,
                glyphs@.len() as int,
            ),
{
    let n = region_count_exec(height);
    let mut regions: Vec<Vec<usize>> = Vec::new();
    let mut j: u32 = 0;
    while j < n
        invariant
            n == region_count(height as int),
            n >= 1,
            0 <= j <= n,
            regions@.len() == j,
            forall|a: int|
                0 <= a < j ==> #[trigger] regions@[a]@ == members(
                    glyphs@,
                    n as int,
                    a,
                    glyphs@.len() as int,
                ),
        decreases n - j,
    {
        let mut band: Vec<usize> = Vec::new();
        let mut i: usize = 0;
        while i < glyphs.len()
            invariant
                n >= 1,
                0 <= i <= glyphs@.len(),
                band@ == members(glyphs@, n as int, j as int, i as int),
            decreases glyphs@.len() - i,
        {
            if region_index(&glyphs[i], n) == j {
                band.push(i);
            }
            i = i + 1;
        }
        regions.push(band);
        j = j + 1;
    }
    regions
}

} // verus!
