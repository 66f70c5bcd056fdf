//! The opixa renderer: refuses requests that deny outline glyph sources,
//! sizes the canvas from the run's advance and the vertical extent of the
//! rendered glyphs and font metrics, paints the background, and composites
//! the glyphs.  It can keep a cache of rasterized glyphs.

use vstd::prelude::*;
use crate::bitmap::GlyphBitmap;
use crate::canvas::{
    blank_canvas, ceil_div, ceil_div_exec, new_canvas, place_glyph, placed, sat_u32, sat_u32_exec,
    trunc_div_exec,
};
use crate::fixed::trunc_div;
use crate::glyph_cache::{after_insert, lookup, GlyphCache, GlyphCacheKey, GlyphCacheStats};
use crate::glyph_raster::{degenerate, rasterize_glyph_outline, rasterized};
use crate::scan_converter::{DropoutMode, FillRule, PathCommand};
use crate::orge_renderer::{pen_x, run_width, text_width};
use crate::text::str_eq;
use crate::types::{
    effective_order_spec, BitmapData, BitmapFormat, Color, FontMetrics, GlyphSource,
    PositionedGlyph, RenderError, RenderParams, ShapingResult,
};

verus! {

/// Largest canvas width.
pub const MAX_BITMAP_WIDTH: u32 = 16384;

/// Largest canvas height.
pub const MAX_BITMAP_HEIGHT: u32 = 16384;

/// Largest number of canvas pixels.
pub const MAX_BITMAP_PIXELS: u64 = 268435456;

/// Oversampling factor of the glyph rasterizer.
pub const OVERSAMPLE: u8 = 4;

/// Default capacity of the glyph cache.
pub const DEFAULT_CACHE_CAPACITY: usize = 1000;

/// An outline source: TrueType, CFF or CFF2 outlines.
pub open spec fn is_outline_source(s: GlyphSource) -> bool {
    s == GlyphSource::Glyf || s == GlyphSource::Cff || s == GlyphSource::Cff2
}

/// Some source of the order is an outline source.
pub open spec fn allows_outline(order: Seq<GlyphSource>) -> bool {
    exists|i: int| 0 <= i < order.len() && is_outline_source(#[trigger] order[i])
}

/// The glyph has a non-empty bitmap to draw.
pub open spec fn rendered(bm: Option<GlyphBitmap>) -> bool {
    bm matches Some(b) && b.width > 0 && b.height > 0
}

/// Whether one of the first `n` glyphs is drawn.
pub open spec fn any_rendered(bitmaps: Seq<Option<GlyphBitmap>>, n: int) -> bool {
    exists|i: int| 0 <= i < n && rendered(#[trigger] bitmaps[i])
}

/// Highest glyph top (26.6, Y up) among the first `n` drawn glyphs, at least 0.
pub open spec fn max_top(glyphs: Seq<PositionedGlyph>, bitmaps: Seq<Option<GlyphBitmap>>, n: int) -> int
    decreases n,
{
    if n <= 0 {
        0
    } else {
        let m = max_top(glyphs, bitmaps, n - 1);
        match bitmaps[n - 1] {
            Some(b) => if rendered(bitmaps[n - 1]) {
                let t = glyphs[n - 1].y.val() + 64 * b.top;
                if t > m {
                    t
                } else {
                    m
                }
            } else {
                m
            },
            None => m,
        }
    }
}

/// Lowest glyph bottom (26.6, Y up) among the first `n` drawn glyphs, at most 0.
pub open spec fn min_bottom(glyphs: Seq<PositionedGlyph>, bitmaps: Seq<Option<GlyphBitmap>>, n: int) -> int
    decreases n,
{
    if n <= 0 {
        0
    } else {
        let m = min_bottom(glyphs, bitmaps, n - 1);
        match bitmaps[n - 1] {
            Some(b) => if rendered(bitmaps[n - 1]) {
                let t = glyphs[n - 1].y.val() + 64 * (b.top - b.height);
                if t < m {
                    t
                } else {
                    m
                }
            } else {
                m
            },
            None => m,
        }
    }
}

/// The metrics are used when they have units per em and a non-zero ascender
/// or descender.
pub open spec fn metrics_used(metrics: Option<FontMetrics>) -> bool {
    metrics matches Some(m) && m.units_per_em > 0 && (m.ascender != 0 || m.descender != 0)
}

/// The scale of the layout arithmetic: units per em when the metrics are
/// used, else 1.  Vertical values are kept in 1/64 pixel times this scale.
pub open spec fn layout_scale(metrics: Option<FontMetrics>) -> int {
    match metrics {
        Some(m) => if metrics_used(metrics) {
            m.units_per_em as int
        } else {
            1
        },
        None => 1,
    }
}

/// Font ascent for the run's size, scaled: `max(ascender, 0) * size`.
pub open spec fn scaled_ascent(metrics: Option<FontMetrics>, advance_height: int) -> int {
    match metrics {
        Some(m) => if metrics_used(metrics) {
            (if m.ascender > 0 {
                m.ascender as int
            } else {
                0
            }) * advance_height
        } else {
            0
        },
        None => 0,
    }
}

/// Font descent for the run's size, scaled: `|descender| * size`.
pub open spec fn scaled_descent(metrics: Option<FontMetrics>, advance_height: int) -> int {
    match metrics {
        Some(m) => if metrics_used(metrics) {
            (if m.descender < 0 {
                -(m.descender as int)
            } else {
                m.descender as int
            }) * advance_height
        } else {
            0
        },
        None => 0,
    }
}

/// Extent above the baseline, scaled: the highest glyph top or the ascent.
pub open spec fn top_extent(
    glyphs: Seq<PositionedGlyph>,
    bitmaps: Seq<Option<GlyphBitmap>>,
    metrics: Option<FontMetrics>,
    advance_height: int,
) -> int {
    let t = max_top(glyphs, bitmaps, glyphs.len() as int) * layout_scale(metrics);
    let a = scaled_ascent(metrics, advance_height);
    if t >= a {
        t
    } else {
        a
    }
}

/// Extent below the baseline, scaled: the lowest glyph bottom or the descent.
pub open spec fn bottom_extent(
    glyphs: Seq<PositionedGlyph>,
    bitmaps: Seq<Option<GlyphBitmap>>,
    metrics: Option<FontMetrics>,
    advance_height: int,
) -> int {
    let b = -min_bottom(glyphs, bitmaps, glyphs.len() as int) * layout_scale(metrics);
    let d = scaled_descent(metrics, advance_height);
    if b >= d {
        b
    } else {
        d
    }
}

/// Canvas height of the opixa renderer: 16 pixels when no glyph is drawn,
/// otherwise top plus bottom extent; plus padding on both sides, rounded up.
pub open spec fn opixa_height(
    glyphs: Seq<PositionedGlyph>,
    bitmaps: Seq<Option<GlyphBitmap>>,
    metrics: Option<FontMetrics>,
    advance_height: int,
    padding: int,
) -> int {
    let u = layout_scale(metrics);
    let content = if any_rendered(bitmaps, glyphs.len() as int) {
        top_extent(glyphs, bitmaps, metrics, advance_height) + bottom_extent(
            glyphs,
            bitmaps,
            metrics,
            advance_height,
        )
    } else {
        1024 * u
    };
    sat_u32(ceil_div(content + 128 * padding * u, 64 * u))
}

/// Pen Y in whole pixels: padding, plus the top extent when a glyph is
/// drawn, plus glyph Y, truncated toward zero.
pub open spec fn opixa_pen_y(
    g: PositionedGlyph,
    glyphs: Seq<PositionedGlyph>,
    bitmaps: Seq<Option<GlyphBitmap>>,
    metrics: Option<FontMetrics>,
    advance_height: int,
    padding: int,
) -> int {
    let u = layout_scale(metrics);
    let baseline = if any_rendered(bitmaps, glyphs.len() as int) {
        64 * padding * u + top_extent(glyphs, bitmaps, metrics, advance_height)
    } else {
        64 * padding * u
    };
    trunc_div(baseline + g.y.val() * u, 64 * u)
}

/// The canvas after compositing the drawn glyphs among the first `n`.
pub open spec fn opixa_paint(
    canvas: Seq<u8>,
    cw: int,
    glyphs: Seq<PositionedGlyph>,
    bitmaps: Seq<Option<GlyphBitmap>>,
    metrics: Option<FontMetrics>,
    advance_height: int,
    padding: int,
    color: Color,
    n: int,
) -> Seq<u8>
    decreases n,
{
    if n <= 0 {
        canvas
    } else {
        let c = opixa_paint(canvas, cw, glyphs, bitmaps, metrics, advance_height, padding, color, n - 1);
        match bitmaps[n - 1] {
            Some(b) => if rendered(bitmaps[n - 1]) {
                placed(
                    c,
                    cw,
                    b,
                    pen_x(glyphs[n - 1], padding),
                    opixa_pen_y(glyphs[n - 1], glyphs, bitmaps, metrics, advance_height, padding),
                    color,
                )
            } else {
                c
            },
            None => c,
        }
    }
}

/// Renders shaped text from outline glyph bitmaps, with an optional cache of
/// rasterized glyphs.
pub struct OpixaRenderer {
    max_width: u32,
    max_height: u32,
    max_pixels: u64,
    cache: Option<GlyphCache>,
}

/// Whether any source of `order` is an outline source.
pub(crate) fn has_outline_source(order: &Vec<GlyphSource>) -> (r: bool)
    ensures
        r == allows_outline(order@),
{
    let mut i: usize = 0;
    while i < order.len()
        invariant
            0 <= i <= order@.len(),
            forall|j: int| 0 <= j < i ==> !is_outline_source(#[trigger] order@[j]),
        decreases order@.len() - i,
    {
        let s = order[i];
        if s == GlyphSource::Glyf || s == GlyphSource::Cff || s == GlyphSource::Cff2 {
            assert(is_outline_source(order@[i as int]));
            return true;
        }
        i = i + 1;
    }
    false
}

impl OpixaRenderer {
    /// The renderer's canvas limits: width, height and pixel count.
    pub closed spec fn limits(&self) -> (int, int, int) {
        (self.max_width as int, self.max_height as int, self.max_pixels as int)
    }

    /// The glyph cache, if the renderer has one.
    pub closed spec fn glyph_cache(&self) -> Option<GlyphCache> {
        self.cache
    }

    /// The limits are the defaults and the cache, if any, is well formed.
    pub open spec fn wf(&self) -> bool {
        &&& self.limits() == (
            MAX_BITMAP_WIDTH as int,
            MAX_BITMAP_HEIGHT as int,
            MAX_BITMAP_PIXELS as int,
        )
        &&& (self.glyph_cache() matches Some(c) ==> c.wf())
    }

    /// A renderer without a glyph cache.
    pub fn new() -> (r: OpixaRenderer)
        ensures
            r.wf(),
            r.glyph_cache() is None,
    {
        OpixaRenderer {
            max_width: MAX_BITMAP_WIDTH,
            max_height: MAX_BITMAP_HEIGHT,
            max_pixels: MAX_BITMAP_PIXELS,
            cache: None,
        }
    }

    /// A renderer with a glyph cache of the default capacity (1000).
    pub fn with_cache() -> (r: OpixaRenderer)
        ensures
            r.wf(),
            r.glyph_cache() matches Some(c) && c@.len() == 0 && c.cap() == DEFAULT_CACHE_CAPACITY,
    {
        OpixaRenderer::with_cache_capacity(DEFAULT_CACHE_CAPACITY)
    }

    /// A renderer with an empty glyph cache of the given capacity.
    pub fn with_cache_capacity(capacity: usize) -> (r: OpixaRenderer)
        ensures
            r.wf(),
            r.glyph_cache() matches Some(c) && c@.len() == 0 && c.cap() == capacity
                && c.hit_count() == 0 && c.miss_count() == 0,
    {
        OpixaRenderer {
            max_width: MAX_BITMAP_WIDTH,
            max_height: MAX_BITMAP_HEIGHT,
            max_pixels: MAX_BITMAP_PIXELS,
            cache: Some(GlyphCache::new(capacity)),
        }
    }

    /// The cache's counters, if the renderer has a cache.
    pub fn cache_stats(&self) -> (r: Option<GlyphCacheStats>)
        ensures
            match self.glyph_cache() {
                Some(c) => r matches Some(s) && s.size == c@.len() && s.capacity == c.cap()
                    && s.hits == c.hit_count() && s.misses == c.miss_count(),
                None => r is None,
            },
    {
        match &self.cache {
            Some(c) => Some(c.stats()),
            None => None,
        }
    }

    /// Empty the glyph cache, if any.
    pub fn clear_cache(&mut self)
        requires
            old(self).wf(),
        ensures
            final(self).wf(),
            final(self).limits() == old(self).limits(),
            match (old(self).glyph_cache(), final(self).glyph_cache()) {
                (Some(a), Some(b)) => b@.len() == 0 && b.cap() == a.cap() && b.hit_count()
                    == a.hit_count() && b.miss_count() == a.miss_count(),
                (None, None) => true,
                _ => false,
            },
    {
        match &mut self.cache {
            Some(c) => c.clear(),
            None => {},
        }
    }

    /// The coverage bitmap of one glyph: the cached one when the cache holds
    /// `key`, else the outline rasterized with non-zero winding at 4×
    /// oversampling, which a cache then stores under `key`.  `None` when the
    /// outline cannot be rasterized.
    pub fn glyph_bitmap(&mut self, key: GlyphCacheKey, outline: &Vec<PathCommand>) -> (r: Option<
        GlyphBitmap,
    >)
        requires
            old(self).wf(),
            !degenerate(outline@, OVERSAMPLE as int),
            old(self).glyph_cache() matches Some(c) ==> c.hit_count() < u64::MAX && c.miss_count()
                < u64::MAX,
        ensures
            final(self).wf(),
            final(self).limits() == old(self).limits(),
            match old(self).glyph_cache() {
                None => {
                    &&& final(self).glyph_cache() is None
                    &&& match rasterized(outline@, OVERSAMPLE as int, FillRule::NonZeroWinding) {
                        Some(v) => r matches Some(g) && g@ == v,
                        None => r is None,
                    }
                },
                Some(c) => {
                    &&& final(self).glyph_cache() matches Some(c2)
                    &&& c2.cap() == c.cap()
                    &&& match lookup(c@, key) {
                        Some(v) => {
                            &&& r matches Some(g) && g@ == v
                            &&& c2@ == c@
                            &&& c2.hit_count() == c.hit_count() + 1
                            &&& c2.miss_count() == c.miss_count()
                        },
                        None => {
                            &&& c2.hit_count() == c.hit_count()
                            &&& c2.miss_count() == c.miss_count() + 1
                            &&& match rasterized(
                                outline@,
                                OVERSAMPLE as int,
                                FillRule::NonZeroWinding,
                            ) {
                                Some(v) => r matches Some(g) && g@ == v && c2@ == after_insert(
                                    c@,
                                    c.cap() as int,
                                    key,
                                    v,
                                ),
                                None => r is None && c2@ == c@,
                            }
                        },
                    }
                },
            },
    {
        match &mut self.cache {
            Some(cache) => {
                match cache.get(&key) {
                    Some(b) => Some(b),
                    None => {
                        match rasterize_glyph_outline(
                            outline,
                            OVERSAMPLE,
                            FillRule::NonZeroWinding,
                            DropoutMode::Off,
                        ) {
                            Ok(b) => {
                                let copy = b.duplicate();
                                cache.insert(key, copy);
                                Some(b)
                            },
                            Err(_) => None,
                        }
                    },
                }
            },
            None => {
                match rasterize_glyph_outline(
                    outline,
                    OVERSAMPLE,
                    FillRule::NonZeroWinding,
                    DropoutMode::Off,
                ) {
                    Ok(b) => Some(b),
                    Err(_) => None,
                }
            },
        }
    }

    /// The renderer's name.
    pub fn name(&self) -> (r: &'static str)
        ensures
            r@ == "opixa"@,
    {
        "opixa"
    }

    /// Raster formats only: "bitmap", "rgba", "rgb" and "gray".
    pub fn supports_format(&self, format: &str) -> (r: bool)
        ensures
            r == (format@ == "bitmap"@ || format@ == "rgba"@ || format@ == "rgb"@ || format@
                == "gray"@),
    {
        str_eq(format, "bitmap") || str_eq(format, "rgba") || str_eq(format, "rgb") || str_eq(
            format,
            "gray",
        )
    }

    /// Render a shaped run.  `bitmaps[i]` is the rasterized coverage of
    /// `shaped.glyphs[i]` (`None` when it could not be rasterized) and
    /// `metrics` the font's vertical metrics, if known.
    ///
    /// A request whose glyph sources leave out every outline source is
    /// refused.  The canvas is as wide as the run's advance plus padding and
    /// as tall as the drawn glyphs and the font's ascent and descent reach,
    /// plus padding; a canvas with a zero side, a side over the limits, or
    /// more pixels than the limit is refused.  The background is painted and
    /// each drawn glyph composited in the foreground color.
    pub fn render(
        &self,
        shaped: &ShapingResult,
        bitmaps: &Vec<Option<GlyphBitmap>>,
        metrics: Option<FontMetrics>,
        params: &RenderParams,
    ) -> (r: Result<BitmapData, RenderError>)
        requires
            self.wf(),
            bitmaps@.len() == shaped.glyphs@.len(),
        ensures
            ({
                let glyphs = shaped.glyphs@;
                let ah = shaped.advance_height.val();
                let pad = params.padding as int;
                let w = text_width(glyphs.len() == 0, shaped.advance_width.val(), pad);
                let h = opixa_height(glyphs, bitmaps@, metrics, ah, pad);
                if !allows_outline(
                    effective_order_spec(params.glyph_sources.prefer@, params.glyph_sources.deny@),
                ) {
                    r matches Err(RenderError::BackendError(msg)) && msg@
                        == "opixa renderer requires outline glyph sources"@
                } else if w == 0 || h == 0 {
                    r == Err::<BitmapData, RenderError>(
                        RenderError::ZeroDimensions { width: w as u32, height: h as u32 },
                    )
                } else if w > MAX_BITMAP_WIDTH || h > MAX_BITMAP_HEIGHT {
                    r == Err::<BitmapData, RenderError>(
                        RenderError::DimensionsTooLarge {
                            width: w as u32,
                            height: h as u32,
                            max_width: MAX_BITMAP_WIDTH,
                            max_height: MAX_BITMAP_HEIGHT,
                        },
                    )
                } else if w * h > MAX_BITMAP_PIXELS {
                    r == Err::<BitmapData, RenderError>(
                        RenderError::TotalPixelsTooLarge {
                            width: w as u32,
                            height: h as u32,
                            total: (w * h) as u64,
                            max: MAX_BITMAP_PIXELS,
                        },
                    )
                } else {
                    &&& r matches Ok(bd)
                    &&& bd.width == w
                    &&& bd.height == h
                    &&& bd.format == BitmapFormat::Rgba8
                    &&& bd.data@ == opixa_paint(
                        blank_canvas(w * h * 4, params.background),
                        w,
                        glyphs,
                        bitmaps@,
                        metrics,
                        ah,
                        pad,
                        params.foreground,
                        glyphs.len() as int,
                    )
                }
            }),
    {
        let order = params.glyph_sources.effective_order();
        if !has_outline_source(&order) {
            return Err(
                RenderError::BackendError(
                    String::from_str("opixa renderer requires outline glyph sources"),
                ),
            );
        }
        let n = shaped.glyphs.len();
        let ghost glyphs = shaped.glyphs@;
        let ghost bms = bitmaps@;
        // Vertical extent of the glyphs that are drawn.
        let mut max_y: i128 = 0;
        let mut min_y: i128 = 0;
        let mut any: bool = false;
        let mut i: usize = 0;
        while i < n
            invariant
                n == glyphs.len(),
                n == bms.len(),
                glyphs == shaped.glyphs@,
                bms == bitmaps@,
                0 <= i <= n,
                max_y == max_top(glyphs, bms, i as int),
                min_y == min_bottom(glyphs, bms, i as int),
                0 <= max_y <= 0x1_0000_0000_0000,
                -0x1_0000_0000_0000 <= min_y <= 0,
                any == any_rendered(bms, i as int),
            decreases n - i,
        {
            match &bitmaps[i] {
                Some(b) => {
                    if b.width > 0 && b.height > 0 {
                        let gy = shaped.glyphs[i].y.raw() as i128;
                        let t = gy + 64 * b.top as i128;
                        let bot = gy + 64 * (b.top as i128 - b.height as i128);
                        if t > max_y {
                            max_y = t;
                        }
                        if bot < min_y {
                            min_y = bot;
                        }
                        any = true;
                        proof {
                            assert(rendered(bms[i as int]));
                        }
                    }
                },
                None => {},
            }
            proof {
                if !rendered(bms[i as int]) {
                    assert(any_rendered(bms, i + 1) == any_rendered(bms, i as int)) by {
                        if any_rendered(bms, i + 1) {
                            let j = choose|j: int| 0 <= j < i + 1 && rendered(#[trigger] bms[j]);
                            assert(j < i);
                        }
                    }
                }
            }
            i = i + 1;
        }
        let ah = shaped.advance_height.raw() as i128;
        let pad = params.padding as i128;
        // Font metrics, used when they carry units per em and some extent.
        let (u, asc_s, desc_s): (i128, i128, i128) = match metrics {
            Some(m) => {
                if m.units_per_em > 0 && (m.ascender != 0 || m.descender != 0) {
                    let a: i128 = if m.ascender > 0 {
                        m.ascender as i128
                    } else {
                        0
                    };
                    let d: i128 = if m.descender < 0 {
                        -(m.descender as i128)
                    } else {
                        m.descender as i128
                    };
                    proof {
                        assert(-0x8000_0000_0000 <= a * ah <= 0x8000_0000_0000) by (nonlinear_arith)
                            requires
                                0 <= a <= 0x8000,
                                -0x8000_0000 <= ah <= 0x8000_0000,
                        ;
                        assert(-0x8000_0000_0000 <= d * ah <= 0x8000_0000_0000) by (nonlinear_arith)
                            requires
                                0 <= d <= 0x8000,
                                -0x8000_0000 <= ah <= 0x8000_0000,
                        ;
                    }
                    (m.units_per_em as i128, a * ah, d * ah)
                } else {
                    (1, 0, 0)
                }
            },
            None => (1, 0, 0),
        };
        proof {
            assert(1 <= u <= 65535);
            assert(0 <= max_y * u <= 0x1_0000_0000_0000 * 65535) by (nonlinear_arith)
                requires
                    0 <= max_y <= 0x1_0000_0000_0000,
                    1 <= u <= 65535,
            ;
            assert(0 <= (-min_y) * u <= 0x1_0000_0000_0000 * 65535) by (nonlinear_arith)
                requires
                    0 <= -min_y <= 0x1_0000_0000_0000,
                    1 <= u <= 65535,
            ;
            assert(0 <= pad * u <= 0x1_0000_0000 * 65535) by (nonlinear_arith)
                requires
                    0 <= pad <= 0x1_0000_0000,
                    1 <= u <= 65535,
            ;
        }
        let t_s = max_y * u;
        let top: i128 = if t_s >= asc_s {
            t_s
        } else {
            asc_s
        };
        let b_s = (-min_y) * u;
        let bottom: i128 = if b_s >= desc_s {
            b_s
        } else {
            desc_s
        };
        let content: i128 = if any {
            top + bottom
        } else {
            1024 * u
        };
        let width = run_width(shaped, params.padding);
        proof {
            assert(0 <= 128 * (pad * u) <= 128 * (0x1_0000_0000 * 65535));
            assert(128 * pad * u == 128 * (pad * u)) by (nonlinear_arith);
        }
        let height = sat_u32_exec(ceil_div_exec(content + 128 * pad * u, 64 * u));
        if width == 0 || height == 0 {
            return Err(RenderError::ZeroDimensions { width, height });
        }
        if width > self.max_width || height > self.max_height {
            return Err(
                RenderError::DimensionsTooLarge {
                    width,
                    height,
                    max_width: self.max_width,
                    max_height: self.max_height,
                },
            );
        }
        proof {
            assert(width * height <= 16384 * 16384) by (nonlinear_arith)
                requires
                    width <= 16384,
                    height <= 16384,
            ;
        }
        let total: u64 = width as u64 * height as u64;
        if total > self.max_pixels {
            return Err(
                RenderError::TotalPixelsTooLarge {
                    width,
                    height,
                    total,
                    max: self.max_pixels,
                },
            );
        }
        proof {
            assert(width * height * 4 <= u32::MAX) by (nonlinear_arith)
                requires
                    width * height <= 268435456,
            ;
            assert(width * 4 <= width * height * 4) by (nonlinear_arith)
                requires
                    height >= 1,
                    width >= 0,
            ;
        }
        let len: u32 = width * height * 4;
        let mut canvas = new_canvas(len as usize, params.background);
        proof {
            assert(64 * pad * u == 64 * (pad * u)) by (nonlinear_arith);
        }
        let baseline: i128 = if any {
            64 * pad * u + top
        } else {
            64 * pad * u
        };
        let ghost cw = width as int;
        let mut k: usize = 0;
        while k < n
            invariant
                n == glyphs.len(),
                n == bms.len(),
                glyphs == shaped.glyphs@,
                bms == bitmaps@,
                0 <= k <= n,
                width > 0,
                width * 4 <= u32::MAX,
                cw == width,
                pad == params.padding,
                1 <= u <= 65535,
                u == layout_scale(metrics),
                -0x1_0000_0000_0000_0000_0000 <= baseline <= 0x1_0000_0000_0000_0000_0000,
                baseline == (if any_rendered(bms, n as int) {
                    64 * params.padding * layout_scale(metrics) + top_extent(
                        glyphs,
                        bms,
                        metrics,
                        shaped.advance_height.val(),
                    )
                } else {
                    64 * params.padding * layout_scale(metrics)
                }),
                canvas@.len() == len,
                len <= u32::MAX,
                canvas@ == opixa_paint(
                    blank_canvas(len as int, params.background),
                    cw,
                    glyphs,
                    bms,
                    metrics,
                    shaped.advance_height.val(),
                    params.padding as int,
                    params.foreground,
                    k as int,
                ),
            decreases n - k,
        {
            match &bitmaps[k] {
                Some(b) => {
                    if b.width > 0 && b.height > 0 {
                        let g = shaped.glyphs[k];
                        let x = trunc_div_exec(g.x.raw() as i128 + 64 * pad, 64);
                        proof {
                            assert(-0x8000_0000 * 65535 <= g.y.val() * u <= 0x8000_0000 * 65535) by (nonlinear_arith)
                                requires
                                    -0x8000_0000 <= g.y.val() <= 0x8000_0000,
                                    1 <= u <= 65535,
                            ;
                        }
                        let y = trunc_div_exec(baseline + g.y.raw() as i128 * u, 64 * u);
                        place_glyph(&mut canvas, width, b, x, y, params.foreground);
                    }
                },
                None => {},
            }
            k = k + 1;
        }
        Ok(BitmapData { width, height, format: BitmapFormat::Rgba8, data: canvas })
    }
}

impl Default for OpixaRenderer {
    /// Same as `new`.
    fn default() -> (r: OpixaRenderer)
        ensures
            r.wf(),
            r.glyph_cache() is None,
    {
        OpixaRenderer::new()
    }
}

} // verus!
