//! The skia renderer's layout and compositing: glyph bitmaps (coverage masks
//! or premultiplied color) are placed by their bearings on a canvas as tall
//! as the glyphs reach, blended "over" in premultiplied RGBA, and the canvas
//! is converted back to straight alpha.

use vstd::prelude::*;
use vstd::arithmetic::div_mod::lemma_fundamental_div_mod_converse;
use crate::canvas::{ceil_div, ceil_div_exec, sat_u32, sat_u32_exec, trunc_div_exec};
use crate::fixed::{abs_int, trunc_div};
use crate::shaping::eq_ignore_ascii_case;
use crate::skia_canvas::{
    composite_skia_glyph, new_premul_canvas, premul_canvas, skia_placed, unpremultiplied,
    unpremultiply,
};
use crate::text::ascii_lower;
use crate::types::{
    effective_order_spec, BitmapData, BitmapFormat, Color, GlyphSource, GlyphSourcePreference,
    PositionedGlyph, RenderError, RenderParams, ShapingResult,
};
use crate::opixa_renderer::{allows_outline, has_outline_source, is_outline_source};

verus! {

/// Pixels of a rendered glyph.
#[derive(Debug, Clone, PartialEq, Eq)]
pub enum SkiaGlyphData {
    /// One coverage byte per pixel (outline glyphs).
    Mask(Vec<u8>),
    /// Premultiplied RGBA, four bytes per pixel (color glyphs).
    RgbaPremul(Vec<u8>),
}

/// A rendered glyph with its bearings: `bearing_x` from the pen to the left
/// edge, `bearing_y` from the baseline up to the top edge.
#[derive(Debug, Clone, PartialEq, Eq)]
pub struct SkiaGlyph {
    pub width: u32,
    pub height: u32,
    pub data: SkiaGlyphData,
    pub bearing_x: i32,
    pub bearing_y: i32,
}

/// A color, bitmap or SVG source.
pub open spec fn is_color_source(s: GlyphSource) -> bool {
    s == GlyphSource::Colr0 || s == GlyphSource::Colr1 || s == GlyphSource::Svg || s
        == GlyphSource::Sbix || s == GlyphSource::Cbdt || s == GlyphSource::Ebdt
}

/// Some source of the order is a color source.
pub open spec fn allows_color(order: Seq<GlyphSource>) -> bool {
    exists|i: int| 0 <= i < order.len() && is_color_source(#[trigger] order[i])
}

/// Whether the preference lets any color, bitmap or SVG source be used.
pub fn allows_color_sources(pref: &GlyphSourcePreference) -> (r: bool)
    ensures
        r == allows_color(effective_order_spec(pref.prefer@, pref.deny@)),
{
    let order = pref.effective_order();
    let mut i: usize = 0;
    while i < order.len()
        invariant
            order@ == effective_order_spec(pref.prefer@, pref.deny@),
            0 <= i <= order@.len(),
            forall|j: int| 0 <= j < i ==> !is_color_source(#[trigger] order@[j]),
        decreases order@.len() - i,
    {
        let s = order[i];
        if s == GlyphSource::Colr0 || s == GlyphSource::Colr1 || s == GlyphSource::Svg || s
            == GlyphSource::Sbix || s == GlyphSource::Cbdt || s == GlyphSource::Ebdt {
            assert(is_color_source(order@[i as int]));
            return true;
        }
        i = i + 1;
    }
    false
}

/// Whether every pixel of a premultiplied RGBA buffer has alpha 0.
pub fn is_fully_transparent(data: &[u8]) -> (r: bool)
    ensures
        r == (forall|p: int| 0 <= p < data@.len() / 4 ==> #[trigger] data@[4 * p + 3] == 0),
{
    let len = data.len();
    let n = len / 4;
    let mut p: usize = 0;
    while p < n
        invariant
            len == data@.len(),
            n == len / 4,
            0 <= p <= n,
            forall|q: int| 0 <= q < p ==> #[trigger] data@[4 * q + 3] == 0,
        decreases n - p,
    {
        assert(4 * p + 3 < len) by (nonlinear_arith)
            requires
                p < n,
                n == len / 4,
        ;
        let idx = 4 * p + 3;
        if data[idx] != 0 {
            return false;
        }
        p = p + 1;
    }
    true
}

/// The row of an RGBA image of `width` pixels that byte `i` of the flipped
/// image comes from: rows in reverse order.
pub open spec fn flipped(data: Seq<u8>, width: int, height: int, i: int) -> u8 {
    let rb = width * 4;
    let y = i / rb;
    let x = i % rb;
    if y < height {
        data[(height - 1 - y) * rb + x]
    } else {
        data[i]
    }
}

/// Reverse the order of the rows of an RGBA image in place.
pub fn flip_vertical_rgba(data: &mut Vec<u8>, width: u32, height: u32)
    requires
        width * 4 <= u32::MAX,
        old(data)@.len() == width * height * 4,
        width > 0,
    ensures
        final(data)@.len() == old(data)@.len(),
        forall|i: int|
            0 <= i < old(data)@.len() ==> final(data)@[i] == flipped(
                old(data)@,
                width as int,
                height as int,
                i,
            ),
{
    let ghost d0 = data@;
    let ghost h = height as int;
    let rb: usize = (width * 4) as usize;
    let ghost rbi = rb as int;
    proof {
        assert(rbi * h == width * height * 4) by (nonlinear_arith)
            requires
                rbi == width * 4,
                h == height,
        ;
    }
    let total = data.len();
    let mut y: u32 = 0;
    while y < height / 2
        invariant
            total == d0.len(),
            rbi == rb,
            rbi == width * 4,
            rb > 0,
            h == height,
            d0.len() == rbi * h,
            data@.len() == d0.len(),
            0 <= y <= height / 2,
            forall|i: int|
                0 <= i < d0.len() ==> data@[i] == if (i / rbi < y || h - y <= i / rbi) {
                    flipped(d0, width as int, h, i)
                } else {
                    d0[i]
                },
        decreases height / 2 - y,
    {
        proof {
            assert(y * rbi + rbi <= (h - 1 - y) * rbi) by (nonlinear_arith)
                requires
                    y < h / 2,
                    rbi > 0,
                    y >= 0,
            ;
            assert((h - 1 - y) * rbi + rbi <= rbi * h) by (nonlinear_arith)
                requires
                    rbi > 0,
                    y >= 0,
            ;
            assert(y * rbi >= 0) by (nonlinear_arith)
                requires
                    rbi > 0,
                    y >= 0,
            ;
        }
        let top = y as usize * rb;
        let bottom = (height - 1 - y) as usize * rb;
        let mut x: usize = 0;
        while x < rb
            invariant
                total == d0.len(),
                rbi == rb,
                rbi == width * 4,
                rb > 0,
                h == height,
                d0.len() == rbi * h,
                data@.len() == d0.len(),
                0 <= y < height / 2,
                top == y * rbi,
                bottom == (h - 1 - y) * rbi,
                top + rbi <= bottom,
                bottom + rbi <= d0.len(),
                0 <= x <= rb,
                forall|i: int|
                    0 <= i < d0.len() ==> data@[i] == if (i / rbi < y || h - y <= i / rbi) || (
                    top <= i < top + x) || (bottom <= i < bottom + x) {
                        flipped(d0, width as int, h, i)
                    } else {
                        d0[i]
                    },
            decreases rb - x,
        {
            let ghost before = data@;
            let ti = top + x;
            let bi = bottom + x;
            proof {
                lemma_row_of(ti as int, y as int, x as int, rbi);
                lemma_row_of(bi as int, h - 1 - y, x as int, rbi);
                assert(y < h - y);
                assert(before[ti as int] == d0[ti as int]);
                assert(before[bi as int] == d0[bi as int]);
                assert(flipped(d0, width as int, h, ti as int) == d0[bi as int]);
                assert(flipped(d0, width as int, h, bi as int) == d0[ti as int]);
            }
            let a = data[ti];
            let b = data[bi];
            data.set(ti, b);
            data.set(bi, a);
            proof {
                assert forall|i: int| 0 <= i < d0.len() implies data@[i] == if (i / rbi < y || h - y
                    <= i / rbi) || (top <= i < top + x + 1) || (bottom <= i < bottom + x + 1) {
                    flipped(d0, width as int, h, i)
                } else {
                    d0[i]
                } by {
                    if i == ti {
                    } else if i == bi {
                    } else {
                        assert(data@[i] == before[i]);
                        if top <= i < top + rbi {
                            lemma_row_of(i, y as int, i - top, rbi);
                        } else if bottom <= i < bottom + rbi {
                            lemma_row_of(i, h - 1 - y, i - bottom, rbi);
                        }
                    }
                }
            }
            x = x + 1;
        }
        proof {
            assert forall|i: int| 0 <= i < d0.len() implies data@[i] == if (i / rbi < y + 1 || h - (y
                + 1) <= i / rbi) {
                flipped(d0, width as int, h, i)
            } else {
                d0[i]
            } by {
                let r = i / rbi;
                let c = i % rbi;
                assert(i == r * rbi + c && 0 <= c < rbi) by (nonlinear_arith)
                    requires
                        rbi > 0,
                        r == i / rbi,
                        c == i % rbi,
                ;
                if r == y {
                    assert(top <= i < top + rbi) by (nonlinear_arith)
                        requires
                            i == r * rbi + c,
                            0 <= c < rbi,
                            r == y,
                            top == y * rbi,
                    ;
                } else if r == h - 1 - y {
                    assert(bottom <= i < bottom + rbi) by (nonlinear_arith)
                        requires
                            i == r * rbi + c,
                            0 <= c < rbi,
                            r == h - 1 - y,
                            bottom == (h - 1 - y) * rbi,
                    ;
                } else {
                    assert(!(top <= i < top + rbi)) by {
                        if top <= i < top + rbi {
                            lemma_row_of(i, y as int, i - top, rbi);
                        }
                    }
                    assert(!(bottom <= i < bottom + rbi)) by {
                        if bottom <= i < bottom + rbi {
                            lemma_row_of(i, h - 1 - y, i - bottom, rbi);
                        }
                    }
                }
            }
        }
        y = y + 1;
    }
    proof {
        assert forall|i: int| 0 <= i < d0.len() implies data@[i] == flipped(d0, width as int, h, i) by {
            let r = i / rbi;
            assert(0 <= r < h) by (nonlinear_arith)
                requires
                    0 <= i < rbi * h,
                    rbi > 0,
                    r == i / rbi,
            ;
            if !(r < height / 2 || h - height / 2 <= r) {
                // The middle row of an odd height stays where it is.
                assert(r == h - 1 - r);
                let c = i % rbi;
                assert(i == r * rbi + c) by (nonlinear_arith)
                    requires
                        rbi > 0,
                        r == i / rbi,
                        c == i % rbi,
                ;
            }
        }
    }
}

/// A value below 2^53 in magnitude, divided by 64 toward zero, lies
/// below 2^47 in magnitude.
proof fn lemma_trunc_div_64(a: int)
    requires
        -0x20_0000_0000_0000 <= a <= 0x20_0000_0000_0000,
    ensures
        -0x8000_0000_0000 <= trunc_div(a, 64) <= 0x8000_0000_0000,
{
    let m = abs_int(a);
    assert(0 <= m / 64 <= 0x8000_0000_0000) by (nonlinear_arith)
        requires
            0 <= m <= 0x20_0000_0000_0000,
    ;
}

/// Byte `top + x` of a buffer with rows of `rb` bytes lies in row `row`,
/// column `x`.
proof fn lemma_row_of(i: int, row: int, x: int, rb: int)
    requires
        rb > 0,
        0 <= x < rb,
        row >= 0,
        i == row * rb + x,
    ensures
        i / rb == row,
        i % rb == x,
{
    lemma_fundamental_div_mod_converse(i, rb, row, x);
}

/// Top of a rendered glyph above the baseline, in 26.6 pixels.
pub open spec fn glyph_top(g: PositionedGlyph, s: SkiaGlyph) -> int {
    g.y.val() + 64 * s.bearing_y
}

/// Bottom of a rendered glyph relative to the baseline, in 26.6 pixels.
pub open spec fn glyph_bottom(g: PositionedGlyph, s: SkiaGlyph) -> int {
    g.y.val() + 64 * (s.bearing_y - s.height)
}

/// Highest glyph top among the first `n` rendered glyphs, at least 0.
pub open spec fn skia_max_top(
    glyphs: Seq<PositionedGlyph>,
    results: Seq<Result<SkiaGlyph, String>>,
    n: int,
) -> int
    decreases n,
{
    if n <= 0 {
        0
    } else {
        let m = skia_max_top(glyphs, results, n - 1);
        match results[n - 1] {
            Ok(s) => if glyph_top(glyphs[n - 1], s) > m {
                glyph_top(glyphs[n - 1], s)
            } else {
                m
            },
            Err(_) => m,
        }
    }
}

/// Lowest glyph bottom among the first `n` rendered glyphs, at most 0.
pub open spec fn skia_min_bottom(
    glyphs: Seq<PositionedGlyph>,
    results: Seq<Result<SkiaGlyph, String>>,
    n: int,
) -> int
    decreases n,
{
    if n <= 0 {
        0
    } else {
        let m = skia_min_bottom(glyphs, results, n - 1);
        match results[n - 1] {
            Ok(s) => if glyph_bottom(glyphs[n - 1], s) < m {
                glyph_bottom(glyphs[n - 1], s)
            } else {
                m
            },
            Err(_) => m,
        }
    }
}

/// Some glyph among the first `n` was rendered.
pub open spec fn any_ok(results: Seq<Result<SkiaGlyph, String>>, n: int) -> bool {
    exists|i: int| 0 <= i < n && (#[trigger] results[i]) is Ok
}

/// The message of the last glyph among the first `n` that failed.
pub open spec fn last_error(results: Seq<Result<SkiaGlyph, String>>, n: int) -> Option<Seq<char>>
    decreases n,
{
    if n <= 0 {
        None
    } else {
        match results[n - 1] {
            Err(e) => Some(e@),
            Ok(_) => last_error(results, n - 1),
        }
    }
}

/// Canvas width: the run's advance plus padding on both sides, rounded up.
pub open spec fn skia_width(advance_width: int, padding: int) -> int {
    sat_u32(ceil_div(advance_width + 128 * padding, 64))
}

/// Canvas height: from the highest glyph top to the lowest glyph bottom (16
/// pixels when no glyph was rendered), plus padding on both sides, rounded up.
pub open spec fn skia_height(
    glyphs: Seq<PositionedGlyph>,
    results: Seq<Result<SkiaGlyph, String>>,
    padding: int,
) -> int {
    let n = glyphs.len() as int;
    let content = if any_ok(results, n) {
        skia_max_top(glyphs, results, n) - skia_min_bottom(glyphs, results, n)
    } else {
        1024
    };
    sat_u32(ceil_div(content + 128 * padding, 64))
}

/// Canvas position of a glyph's top-left pixel: the pen (glyph position
/// plus padding, the baseline `top` 26.6 pixels below the padding),
/// truncated toward zero, moved by the bearings.
pub open spec fn skia_origin(g: PositionedGlyph, s: SkiaGlyph, padding: int, top: int) -> (int, int) {
    (
        trunc_div(g.x.val() + 64 * padding, 64) + s.bearing_x,
        trunc_div(64 * padding + top + g.y.val(), 64) - s.bearing_y,
    )
}

/// The canvas after compositing the rendered glyphs among the first `n`.
pub open spec fn skia_paint(
    canvas: Seq<u8>,
    cw: int,
    glyphs: Seq<PositionedGlyph>,
    results: Seq<Result<SkiaGlyph, String>>,
    fg: Color,
    padding: int,
    top: int,
    n: int,
) -> Seq<u8>
    decreases n,
{
    if n <= 0 {
        canvas
    } else {
        let c = skia_paint(canvas, cw, glyphs, results, fg, padding, top, n - 1);
        match results[n - 1] {
            Ok(s) => {
                let o = skia_origin(glyphs[n - 1], s, padding, top);
                skia_placed(c, cw, s, fg, o.0, o.1)
            },
            Err(_) => c,
        }
    }
}

/// The vertical extent of the rendered glyphs (highest top, lowest bottom),
/// whether any glyph was rendered, and the message of the last failure.
fn vertical_extent(shaped: &ShapingResult, glyphs: &Vec<Result<SkiaGlyph, String>>) -> (r: (
    i128,
    i128,
    bool,
    Option<String>,
))
    requires
        glyphs@.len() == shaped.glyphs@.len(),
    ensures
        r.0 == skia_max_top(shaped.glyphs@, glyphs@, glyphs@.len() as int),
        r.1 == skia_min_bottom(shaped.glyphs@, glyphs@, glyphs@.len() as int),
        0 <= r.0 <= 0x10_0000_0000_0000,
        -0x10_0000_0000_0000 <= r.1 <= 0,
        r.2 == any_ok(glyphs@, glyphs@.len() as int),
        match last_error(glyphs@, glyphs@.len() as int) {
            Some(m) => r.3 matches Some(e) && e@ == m,
            None => r.3 is None,
        },
{
    let n = glyphs.len();
    let ghost gs = shaped.glyphs@;
    let ghost rs = glyphs@;
    let mut max_y: i128 = 0;
    let mut min_y: i128 = 0;
    let mut any: bool = false;
    let mut last: Option<String> = None;
    let mut i: usize = 0;
    while i < n
        invariant
            n == rs.len(),
            n == gs.len(),
            gs == shaped.glyphs@,
            rs == glyphs@,
            0 <= i <= n,
            max_y == skia_max_top(gs, rs, i as int),
            min_y == skia_min_bottom(gs, rs, i as int),
            0 <= max_y <= 0x10_0000_0000_0000,
            -0x10_0000_0000_0000 <= min_y <= 0,
            any == any_ok(rs, i as int),
            match last_error(rs, i as int) {
                Some(m) => last matches Some(e) && e@ == m,
                None => last is None,
            },
        decreases n - i,
    {
        match &glyphs[i] {
            Ok(s) => {
                let gy = shaped.glyphs[i].y.raw() as i128;
                let t = gy + 64 * s.bearing_y as i128;
                let b = gy + 64 * (s.bearing_y as i128 - s.height as i128);
                if t > max_y {
                    max_y = t;
                }
                if b < min_y {
                    min_y = b;
                }
                any = true;
                proof {
                    assert(rs[i as int] is Ok);
                }
            },
            Err(e) => {
                last = Some(e.clone());
                proof {
                    assert(!(rs[i as int] is Ok));
                    assert(any_ok(rs, i + 1) == any_ok(rs, i as int)) by {
                        if any_ok(rs, i + 1) {
                            let j = choose|j: int| 0 <= j < i + 1 && (#[trigger] rs[j]) is Ok;
                            assert(j < i);
                        }
                    }
                }
            },
        }
        i = i + 1;
    }
    (max_y, min_y, any, last)
}

/// Renders shaped text with glyphs rasterized by tiny-skia or a color-glyph
/// renderer, compositing in premultiplied alpha.
pub struct SkiaRenderer {
    /// Largest canvas side, in pixels.
    pub max_size: u32,
}

impl SkiaRenderer {
    /// A renderer with the default size limit of 65535 pixels per side.
    pub fn new() -> (r: SkiaRenderer)
        ensures
            r.max_size == 65535,
    {
        SkiaRenderer { max_size: 65535 }
    }

    /// The renderer's name.
    pub fn name(&self) -> (r: &'static str)
        ensures
            r@ == "skia"@,
    {
        "skia"
    }

    /// "bitmap", "rgba", "svg" and "vector", in any ASCII case.
    pub fn supports_format(&self, format: &str) -> (r: bool)
        ensures
            r == (ascii_lower(format@) == "bitmap"@ || ascii_lower(format@) == "rgba"@
                || ascii_lower(format@) == "svg"@ || ascii_lower(format@) == "vector"@),
    {
        eq_ignore_ascii_case(format, "bitmap") || eq_ignore_ascii_case(format, "rgba")
            || eq_ignore_ascii_case(format, "svg") || eq_ignore_ascii_case(format, "vector")
    }

    /// The canvas size for a shaped run whose glyphs were rendered into
    /// `glyphs` (one result per shaped glyph): `(width, height)`.
    pub fn canvas_size(
        &self,
        shaped: &ShapingResult,
        glyphs: &Vec<Result<SkiaGlyph, String>>,
        params: &RenderParams,
    ) -> (r: (u32, u32))
        requires
            glyphs@.len() == shaped.glyphs@.len(),
        ensures
            r.0 == skia_width(shaped.advance_width.val(), params.padding as int),
            r.1 == skia_height(shaped.glyphs@, glyphs@, params.padding as int),
    {
        let (max_y, min_y, any, _last) = vertical_extent(shaped, glyphs);
        let pad = params.padding as i128;
        let aw = shaped.advance_width.raw() as i128;
        let width = sat_u32_exec(ceil_div_exec(aw + 128 * pad, 64));
        let content: i128 = if any {
            max_y - min_y
        } else {
            1024
        };
        let height = sat_u32_exec(ceil_div_exec(content + 128 * pad, 64));
        (width, height)
    }

    /// Render a shaped run.  `glyphs[i]` is the rendering of
    /// `shaped.glyphs[i]`: its bitmap, or the message of its failure.
    ///
    /// A request whose glyph sources allow neither outline nor color sources
    /// is refused; so is a non-empty run of which no glyph was rendered,
    /// with the last failure's message.  The canvas is as wide as the run's
    /// advance and as tall as the rendered glyphs reach, plus padding on
    /// every side; a canvas with a zero side or a side over `max_size` is
    /// refused.  The premultiplied background is laid down, each rendered
    /// glyph is composited "over" it, and the result is returned in
    /// straight alpha.  Glyph pixels without data are skipped.
    pub fn render(
        &self,
        shaped: &ShapingResult,
        glyphs: &Vec<Result<SkiaGlyph, String>>,
        params: &RenderParams,
    ) -> (r: Result<BitmapData, RenderError>)
        requires
            glyphs@.len() == shaped.glyphs@.len(),
            ({
                let w = skia_width(shaped.advance_width.val(), params.padding as int);
                let h = skia_height(shaped.glyphs@, glyphs@, params.padding as int);
                0 < w <= self.max_size && 0 < h <= self.max_size ==> w * h * 4 <= u32::MAX
            }),
        ensures
            ({
                let gs = shaped.glyphs@;
                let n = gs.len() as int;
                let order = effective_order_spec(
                    params.glyph_sources.prefer@,
                    params.glyph_sources.deny@,
                );
                let pad = params.padding as int;
                let w = skia_width(shaped.advance_width.val(), pad);
                let h = skia_height(gs, glyphs@, pad);
                if !allows_outline(order) && !allows_color(order) {
                    r matches Err(RenderError::BackendError(msg)) && msg@
                        == "skia renderer requires outline or color glyph sources"@
                } else if n > 0 && !any_ok(glyphs@, n) {
                    r matches Err(RenderError::BackendError(msg)) && last_error(glyphs@, n) == Some(
                        msg@,
                    )
                } else if w == 0 || h == 0 {
                    r == Err::<BitmapData, RenderError>(
                        RenderError::ZeroDimensions { width: w as u32, height: h as u32 },
                    )
                } else if w > self.max_size || h > self.max_size {
                    r == Err::<BitmapData, RenderError>(
                        RenderError::DimensionsTooLarge {
                            width: w as u32,
                            height: h as u32,
                            max_width: self.max_size,
                            max_height: self.max_size,
                        },
                    )
                } else {
                    let painted = skia_paint(
                        premul_canvas(w * h * 4, params.background),
                        w,
                        gs,
                        glyphs@,
                        params.foreground,
                        pad,
                        skia_max_top(gs, glyphs@, n),
                        n,
                    );
                    &&& r matches Ok(bd)
                    &&& bd.width == w
                    &&& bd.height == h
                    &&& bd.format == BitmapFormat::Rgba8
                    &&& bd.data@ == Seq::new(painted.len(), |i: int| unpremultiplied(painted, i))
                }
            }),
    {
        let order = params.glyph_sources.effective_order();
        let outline = has_outline_source(&order);
        let color = allows_color_sources(&params.glyph_sources);
        if !outline && !color {
            return Err(
                RenderError::BackendError(
                    String::from_str("skia renderer requires outline or color glyph sources"),
                ),
            );
        }
        let n = glyphs.len();
        let ghost gs = shaped.glyphs@;
        let ghost rs = glyphs@;
        let (max_y, min_y, any, last) = vertical_extent(shaped, glyphs);
        if n > 0 && !any {
            proof {
                assert(rs[n - 1] is Err);
            }
            match last {
                Some(e) => {
                    return Err(RenderError::BackendError(e));
                },
                None => {
                    return Err(RenderError::BackendError(String::from_str("no glyphs rendered")));
                },
            }
        }
        let (width, height) = self.canvas_size(shaped, glyphs, params);
        if width == 0 || height == 0 {
            return Err(RenderError::ZeroDimensions { width, height });
        }
        if width > self.max_size || height > self.max_size {
            return Err(
                RenderError::DimensionsTooLarge {
                    width,
                    height,
                    max_width: self.max_size,
                    max_height: self.max_size,
                },
            );
        }
        let len: usize = (width * height * 4) as usize;
        let ghost base = premul_canvas(len as int, params.background);
        let mut canvas = new_premul_canvas(len, params.background);
        let pad = params.padding as i128;
        let fg = params.foreground;
        let mut i: usize = 0;
        while i < n
            invariant
                n == rs.len(),
                n == gs.len(),
                gs == shaped.glyphs@,
                rs == glyphs@,
                0 <= i <= n,
                0 < width,
                0 < height,
                len == width * height * 4,
                pad == params.padding,
                fg == params.foreground,
                0 <= max_y <= 0x10_0000_0000_0000,
                max_y == skia_max_top(gs, rs, n as int),
                canvas@ == skia_paint(base, width as int, gs, rs, fg, pad as int, max_y as int, i as int),
                canvas@.len() == len,
            decreases n - i,
        {
            match &glyphs[i] {
                Ok(s) => {
                    let g = shaped.glyphs[i];
                    let gx = g.x.raw() as i128;
                    let gy = g.y.raw() as i128;
                    let ox = trunc_div_exec(gx + 64 * pad, 64) + s.bearing_x as i128;
                    let oy = trunc_div_exec(64 * pad + max_y + gy, 64) - s.bearing_y as i128;
                    proof {
                        assert(-0x1_0000_0000_0000 <= ox <= 0x1_0000_0000_0000) by {
                            lemma_trunc_div_64(gx + 64 * pad);
                        }
                        assert(-0x1_0000_0000_0000 <= oy <= 0x1_0000_0000_0000) by {
                            lemma_trunc_div_64(64 * pad + max_y + gy);
                        }
                    }
                    composite_skia_glyph(&mut canvas, width, height, s, fg, ox, oy);
                },
                Err(_) => {},
            }
            i = i + 1;
        }
        unpremultiply(&mut canvas);
        Ok(BitmapData { width, height, format: BitmapFormat::Rgba8, data: canvas })
    }
}

impl Default for SkiaRenderer {
    fn default() -> (r: SkiaRenderer)
        ensures
            r.max_size == 65535,
    {
        SkiaRenderer::new()
    }
}

/// Fills glyph outlines with tiny-skia, one coverage byte per pixel.
#[derive(Debug, Clone, Copy, PartialEq, Eq, Structural)]
pub struct TinySkiaRenderer {}

impl TinySkiaRenderer {
    /// The renderer.
    pub fn new() -> (r: TinySkiaRenderer)
        ensures
            r == (TinySkiaRenderer {  }),
    {
        TinySkiaRenderer {  }
    }
}

impl Default for TinySkiaRenderer {
    /// Same as `new`.
    fn default() -> (r: TinySkiaRenderer)
        ensures
            r == (TinySkiaRenderer {  }),
    {
        TinySkiaRenderer::new()
    }
}

} // verus!
