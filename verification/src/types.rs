//! Values that pass between shaping, rendering and export: colors, glyph
//! positions in 26.6 pixels, render parameters, bitmaps and render errors.

use vstd::prelude::*;
use crate::fixed::F26Dot6;

verus! {

/// An 8-bit-per-channel RGBA color (not premultiplied).
#[derive(Debug, Clone, Copy, PartialEq, Eq, Structural)]
pub struct Color {
    pub r: u8,
    pub g: u8,
    pub b: u8,
    pub a: u8,
}

impl Color {
    /// Opaque black.
    pub open spec fn black_spec() -> Color {
        Color { r: 0, g: 0, b: 0, a: 255 }
    }

    /// A color from its four channels.
    pub fn rgba(r: u8, g: u8, b: u8, a: u8) -> (c: Color)
        ensures
            c == (Color { r, g, b, a }),
    {
        Color { r, g, b, a }
    }

    /// Opaque white.
    pub fn white() -> (c: Color)
        ensures
            c == (Color { r: 255, g: 255, b: 255, a: 255 }),
    {
        Color { r: 255, g: 255, b: 255, a: 255 }
    }

    /// Opaque black, the default text color.
    pub fn black() -> (c: Color)
        ensures
            c == (Color { r: 0, g: 0, b: 0, a: 255 }),
    {
        Color { r: 0, g: 0, b: 0, a: 255 }
    }
}

/// One glyph placed by the shaper, with its pen position and advance in
/// 26.6 pixels.
#[derive(Debug, Clone, Copy, PartialEq, Eq, Structural)]
pub struct PositionedGlyph {
    pub id: u32,
    pub x: F26Dot6,
    pub y: F26Dot6,
    pub advance: F26Dot6,
    pub cluster: u32,
}

/// Writing direction of a shaped run.
#[derive(Debug, Clone, Copy, PartialEq, Eq, Structural)]
pub enum Direction {
    LeftToRight,
    RightToLeft,
    TopToBottom,
    BottomToTop,
}

/// The shaper's output: positioned glyphs and the run's advance, in 26.6
/// pixels (`advance_height` is the font size the run was shaped at).
#[derive(Debug, Clone)]
pub struct ShapingResult {
    pub glyphs: Vec<PositionedGlyph>,
    pub advance_width: F26Dot6,
    pub advance_height: F26Dot6,
    pub direction: Direction,
}

/// Where a glyph's picture can come from.
#[derive(Debug, Clone, Copy, PartialEq, Eq, Structural)]
pub enum GlyphSource {
    Glyf,
    Cff,
    Cff2,
    Colr0,
    Colr1,
    Svg,
    Sbix,
    Cbdt,
    Ebdt,
}

/// The glyph sources a renderer may use, in order of preference, and those
/// it must not use.
#[derive(Debug, Clone)]
pub struct GlyphSourcePreference {
    pub prefer: Vec<GlyphSource>,
    pub deny: Vec<GlyphSource>,
}

/// The order used when no source is preferred: outlines first, then color
/// tables, then bitmaps.
pub open spec fn default_source_order() -> Seq<GlyphSource> {
    seq![
        GlyphSource::Glyf,
        GlyphSource::Cff,
        GlyphSource::Cff2,
        GlyphSource::Colr1,
        GlyphSource::Colr0,
        GlyphSource::Svg,
        GlyphSource::Sbix,
        GlyphSource::Cbdt,
        GlyphSource::Ebdt,
    ]
}

/// The first `n` sources of `base` reduced to their first occurrences, with
/// denied sources left out.
pub open spec fn effective_prefix(base: Seq<GlyphSource>, deny: Seq<GlyphSource>, n: int) -> Seq<
    GlyphSource,
>
    decreases n,
{
    if n <= 0 {
        Seq::empty()
    } else {
        let r = effective_prefix(base, deny, n - 1);
        let s = base[n - 1];
        if r.contains(s) || deny.contains(s) {
            r
        } else {
            r.push(s)
        }
    }
}

/// The sources to try, in order: the preferred ones (or the default order
/// when none is preferred), each once, without the denied ones.
pub open spec fn effective_order_spec(prefer: Seq<GlyphSource>, deny: Seq<GlyphSource>) -> Seq<
    GlyphSource,
> {
    let base = if prefer.len() == 0 {
        default_source_order()
    } else {
        prefer
    };
    effective_prefix(base, deny, base.len() as int)
}

/// Whether `v` holds `s`.
fn contains_source(v: &Vec<GlyphSource>, s: GlyphSource) -> (r: bool)
    ensures
        r == v@.contains(s),
{
    let mut i: usize = 0;
    while i < v.len()
        invariant
            0 <= i <= v@.len(),
            forall|j: int| 0 <= j < i ==> v@[j] != s,
        decreases v@.len() - i,
    {
        if v[i] == s {
            assert(v@[i as int] == s);
            return true;
        }
        i = i + 1;
    }
    false
}

fn default_sources() -> (r: Vec<GlyphSource>)
    ensures
        r@ == default_source_order(),
{
    let r = vec![
        GlyphSource::Glyf,
        GlyphSource::Cff,
        GlyphSource::Cff2,
        GlyphSource::Colr1,
        GlyphSource::Colr0,
        GlyphSource::Svg,
        GlyphSource::Sbix,
        GlyphSource::Cbdt,
        GlyphSource::Ebdt,
    ];
    assert(r@ =~= default_source_order());
    r
}

impl GlyphSourcePreference {
    /// A preference from its preferred and denied sources.
    pub fn from_parts(prefer: Vec<GlyphSource>, deny: Vec<GlyphSource>) -> (r: GlyphSourcePreference)
        ensures
            r.prefer@ == prefer@,
            r.deny@ == deny@,
    {
        GlyphSourcePreference { prefer, deny }
    }

    /// The sources to try, in order (see `effective_order_spec`).
    pub fn effective_order(&self) -> (r: Vec<GlyphSource>)
        ensures
            r@ == effective_order_spec(self.prefer@, self.deny@),
    {
        let base = if self.prefer.len() == 0 {
            default_sources()
        } else {
            self.prefer.clone()
        };
        proof {
            if self.prefer@.len() != 0 {
                assert(base@ =~= self.prefer@);
            }
        }
        let mut r: Vec<GlyphSource> = Vec::new();
        let mut i: usize = 0;
        while i < base.len()
            invariant
                0 <= i <= base@.len(),
                r@ == effective_prefix(base@, self.deny@, i as int),
            decreases base@.len() - i,
        {
            let s = base[i];
            if !contains_source(&r, s) && !contains_source(&self.deny, s) {
                r.push(s);
            }
            i = i + 1;
        }
        r
    }
}

impl Default for GlyphSourcePreference {
    /// No preference and nothing denied: the default order.
    fn default() -> (r: GlyphSourcePreference)
        ensures
            r.prefer@.len() == 0,
            r.deny@.len() == 0,
    {
        GlyphSourcePreference { prefer: Vec::new(), deny: Vec::new() }
    }
}

/// Parameters of one rendering.
#[derive(Debug, Clone)]
pub struct RenderParams {
    /// Text color.
    pub foreground: Color,
    /// Canvas color, or a transparent canvas.
    pub background: Option<Color>,
    /// Empty pixels around the text on every side.
    pub padding: u32,
    /// Whether edges are anti-aliased.
    pub antialias: bool,
    /// Which glyph sources may be used.
    pub glyph_sources: GlyphSourcePreference,
}

impl Default for RenderParams {
    /// Black text on a transparent canvas, no padding, anti-aliased, with
    /// the default glyph-source order.
    fn default() -> (r: RenderParams)
        ensures
            r.foreground == Color::black_spec(),
            r.background is None,
            r.padding == 0,
            r.antialias,
            r.glyph_sources.prefer@.len() == 0,
            r.glyph_sources.deny@.len() == 0,
    {
        RenderParams {
            foreground: Color::black(),
            background: None,
            padding: 0,
            antialias: true,
            glyph_sources: GlyphSourcePreference { prefer: Vec::new(), deny: Vec::new() },
        }
    }
}

/// Vertical metrics of a font, in font units.
#[derive(Debug, Default, Clone, Copy, PartialEq, Eq, Structural)]
pub struct FontMetrics {
    /// Font units per em.
    pub units_per_em: u16,
    /// Ascender (above the baseline, positive).
    pub ascender: i16,
    /// Descender (below the baseline, usually negative).
    pub descender: i16,
    /// Extra gap between lines.
    pub line_gap: i16,
}

/// What a backend can produce.
#[derive(Debug, Default, Clone, Copy, PartialEq, Eq, Structural)]
pub struct BackendFeatures {
    /// One bit per pixel.
    pub monochrome: bool,
    /// Anti-aliased coverage.
    pub grayscale: bool,
    /// Per-channel coverage for LCD screens.
    pub subpixel: bool,
    /// Color glyphs.
    pub color_emoji: bool,
}

/// Layout of the bytes of a bitmap.
#[derive(Debug, Clone, Copy, PartialEq, Eq, Structural)]
pub enum BitmapFormat {
    Rgba8,
    Rgb8,
    Gray8,
    Gray1,
}

/// A rendered bitmap.
#[derive(Debug, Clone)]
pub struct BitmapData {
    pub width: u32,
    pub height: u32,
    pub format: BitmapFormat,
    pub data: Vec<u8>,
}

/// Why a rendering failed.
#[derive(Debug, Clone, PartialEq, Eq)]
pub enum RenderError {
    /// A canvas dimension is zero.
    ZeroDimensions { width: u32, height: u32 },
    /// The canvas exceeds the renderer's size limit.
    DimensionsTooLarge { width: u32, height: u32, max_width: u32, max_height: u32 },
    /// The canvas has more pixels than the renderer allows.
    TotalPixelsTooLarge { width: u32, height: u32, total: u64, max: u64 },
    /// The dimensions are unusable.
    InvalidDimensions { width: u32, height: u32 },
    /// The backend cannot serve the request.
    BackendError(String),
}

} // verus!
