//! The orge renderer: lays shaped glyphs out on an RGBA canvas sized from the
//! run's advance, paints the background, and composites each glyph's
//! rasterized coverage in the text color.

use vstd::prelude::*;
use crate::bitmap::GlyphBitmap;
use crate::canvas::{
    blank_canvas, ceil_div, ceil_div_exec, new_canvas, place_glyph, placed, sat_u32, sat_u32_exec,
    trunc_div_exec,
};
use crate::fixed::trunc_div;
use crate::text::str_eq;
use crate::types::{
    BitmapData, BitmapFormat, Color, PositionedGlyph, RenderError, RenderParams, ShapingResult,
};

verus! {

/// Canvas width in pixels: one pixel for an empty run without advance,
/// otherwise the advance plus padding on both sides rounded up, at least one.
pub open spec fn text_width(glyphs_empty: bool, advance_width: int, padding: int) -> int {
    if glyphs_empty && advance_width == 0 {
        1
    } else {
        let w = sat_u32(ceil_div(advance_width + 128 * padding, 64));
        if w < 1 {
            1
        } else {
            w
        }
    }
}

/// Canvas height of the orge renderer: 16 pixels for an empty run, otherwise
/// 1.2 times the font size; plus padding on both sides, rounded up.
pub open spec fn orge_height(glyphs_empty: bool, advance_height: int, padding: int) -> int {
    if glyphs_empty {
        sat_u32(16 + 2 * padding)
    } else {
        sat_u32(ceil_div(6 * advance_height + 640 * padding, 320))
    }
}

/// Pen X in whole pixels: glyph X plus padding, truncated toward zero.
pub open spec fn pen_x(g: PositionedGlyph, padding: int) -> int {
    trunc_div(g.x.val() + 64 * padding, 64)
}

/// Pen Y of the orge renderer in whole pixels: padding plus 3/4 of the font
/// size (the baseline) plus glyph Y, truncated toward zero.
pub open spec fn orge_pen_y(g: PositionedGlyph, padding: int, advance_height: int) -> int {
    trunc_div(4 * g.y.val() + 256 * padding + 3 * advance_height, 256)
}

/// The canvas after compositing the first `n` glyphs that have a bitmap.
pub open spec fn orge_paint(
    canvas: Seq<u8>,
    cw: int,
    glyphs: Seq<PositionedGlyph>,
    bitmaps: Seq<Option<GlyphBitmap>>,
    padding: int,
    advance_height: int,
    color: Color,
    n: int,
) -> Seq<u8>
    decreases n,
{
    if n <= 0 {
        canvas
    } else {
        let c = orge_paint(canvas, cw, glyphs, bitmaps, padding, advance_height, color, n - 1);
        match bitmaps[n - 1] {
            Some(b) => placed(
                c,
                cw,
                b,
                pen_x(glyphs[n - 1], padding),
                orge_pen_y(glyphs[n - 1], padding, advance_height),
                color,
            ),
            None => c,
        }
    }
}

/// Renders shaped text into an RGBA bitmap from per-glyph coverage bitmaps.
#[derive(Debug, Clone, Copy)]
pub struct OrgeRenderer {
    max_size: u32,
}

/// Canvas width of a run rendered with `padding`.
pub fn run_width(shaped: &ShapingResult, padding: u32) -> (r: u32)
    ensures
        r == text_width(shaped.glyphs@.len() == 0, shaped.advance_width.val(), padding as int),
{
    if shaped.glyphs.len() == 0 && shaped.advance_width.raw() == 0 {
        1
    } else {
        let w = sat_u32_exec(
            ceil_div_exec(shaped.advance_width.raw() as i128 + 128 * padding as i128, 64),
        );
        if w < 1 {
            1
        } else {
            w
        }
    }
}

impl OrgeRenderer {
    /// The largest width or height the renderer accepts.
    pub closed spec fn max_size_spec(&self) -> int {
        self.max_size as int
    }

    /// A renderer that accepts canvases up to 65535 pixels on each side.
    pub fn new() -> (r: OrgeRenderer)
        ensures
            r.max_size_spec() == 65535,
    {
        OrgeRenderer { max_size: 65535 }
    }

    /// The renderer's name.
    pub fn name(&self) -> (r: &'static str)
        ensures
            r@ == "orge"@,
    {
        "orge"
    }

    /// Raster formats only: "bitmap", "rgba", "rgb" and "gray".
    pub fn supports_format(&self, format: &str) -> (r: bool)
        ensures
            r == (format@ == "bitmap"@ || format@ == "rgba"@ || format@ == "rgb"@ || format@
                == "gray"@),
    {
        str_eq(format, "bitmap") || str_eq(format, "rgba") || str_eq(format, "rgb") || str_eq(
            format,
            "gray",
        )
    }

    /// Width and height of the canvas the renderer would allocate.
    pub fn canvas_size(&self, shaped: &ShapingResult, params: &RenderParams) -> (r: (u32, u32))
        ensures
            r.0 == text_width(
                shaped.glyphs@.len() == 0,
                shaped.advance_width.val(),
                params.padding as int,
            ),
            r.1 == orge_height(
                shaped.glyphs@.len() == 0,
                shaped.advance_height.val(),
                params.padding as int,
            ),
    {
        let width = run_width(shaped, params.padding);
        let pad = params.padding as i128;
        let height = if shaped.glyphs.len() == 0 {
            sat_u32_exec(16 + 2 * pad)
        } else {
            sat_u32_exec(ceil_div_exec(6 * shaped.advance_height.raw() as i128 + 640 * pad, 320))
        };
        (width, height)
    }

    /// Render a shaped run.  `bitmaps[i]` is the rasterized coverage of
    /// `shaped.glyphs[i]`, or `None` when that glyph could not be rasterized
    /// (it is skipped).  The canvas is `canvas_size` pixels, filled with the
    /// background; each glyph is composited in the foreground color with its
    /// pen at `(pen_x, orge_pen_y)`.  A canvas with a zero side or a side over
    /// the maximum size is refused.
    pub fn render(
        &self,
        shaped: &ShapingResult,
        bitmaps: &Vec<Option<GlyphBitmap>>,
        params: &RenderParams,
    ) -> (r: Result<BitmapData, RenderError>)
        requires
            bitmaps@.len() == shaped.glyphs@.len(),
            ({
                let w = text_width(
                    shaped.glyphs@.len() == 0,
                    shaped.advance_width.val(),
                    params.padding as int,
                );
                let h = orge_height(
                    shaped.glyphs@.len() == 0,
                    shaped.advance_height.val(),
                    params.padding as int,
                );
                w <= self.max_size_spec() && h <= self.max_size_spec() ==> w * h * 4 <= u32::MAX
            }),
        ensures
            ({
                let w = text_width(
                    shaped.glyphs@.len() == 0,
                    shaped.advance_width.val(),
                    params.padding as int,
                );
                let h = orge_height(
                    shaped.glyphs@.len() == 0,
                    shaped.advance_height.val(),
                    params.padding as int,
                );
                if w == 0 || h == 0 || w > self.max_size_spec() || h > self.max_size_spec() {
                    r == Err::<BitmapData, RenderError>(
                        RenderError::InvalidDimensions { width: w as u32, height: h as u32 },
                    )
                } else {
                    &&& r matches Ok(bd)
                    &&& bd.width == w
                    &&& bd.height == h
                    &&& bd.format == BitmapFormat::Rgba8
                    &&& bd.data@ == orge_paint(
                        blank_canvas(w * h * 4, params.background),
                        w,
                        shaped.glyphs@,
                        bitmaps@,
                        params.padding as int,
                        shaped.advance_height.val(),
                        params.foreground,
                        shaped.glyphs@.len() as int,
                    )
                }
            }),
    {
        let (width, height) = self.canvas_size(shaped, params);
        if width == 0 || height == 0 {
            return Err(RenderError::InvalidDimensions { width, height });
        }
        if width > self.max_size || height > self.max_size {
            return Err(RenderError::InvalidDimensions { width, height });
        }
        proof {
            assert(width * 4 <= width * height * 4) by (nonlinear_arith)
                requires
                    height >= 1,
                    width >= 0,
            ;
        }
        let len: u32 = width * height * 4;
        let mut canvas = new_canvas(len as usize, params.background);
        let pad = params.padding as i128;
        let ah = shaped.advance_height.raw() as i128;
        let n = shaped.glyphs.len();
        let ghost cw = width as int;
        let mut i: usize = 0;
        while i < n
            invariant
                n == shaped.glyphs@.len(),
                n == bitmaps@.len(),
                0 <= i <= n,
                width > 0,
                width * 4 <= u32::MAX,
                cw == width,
                pad == params.padding,
                ah == shaped.advance_height.val(),
                canvas@.len() == len,
                len <= u32::MAX,
                canvas@ == orge_paint(
                    blank_canvas(len as int, params.background),
                    cw,
                    shaped.glyphs@,
                    bitmaps@,
                    params.padding as int,
                    shaped.advance_height.val(),
                    params.foreground,
                    i as int,
                ),
            decreases n - i,
        {
            match &bitmaps[i] {
                Some(b) => {
                    let g = shaped.glyphs[i];
                    let x = trunc_div_exec(g.x.raw() as i128 + 64 * pad, 64);
                    let y = trunc_div_exec(4 * g.y.raw() as i128 + 256 * pad + 3 * ah, 256);
                    place_glyph(&mut canvas, width, b, x, y, params.foreground);
                },
                None => {},
            }
            i = i + 1;
        }
        Ok(BitmapData { width, height, format: BitmapFormat::Rgba8, data: canvas })
    }
}

impl Default for OrgeRenderer {
    /// Same as `new`.
    fn default() -> (r: OrgeRenderer)
        ensures
            r.max_size_spec() == 65535,
    {
        OrgeRenderer::new()
    }
}

/// Where the orge renderer puts a glyph vertically, over the glyph's own Y
/// offset (raw 26.6): with `v = padding·256 + 3·advance_height + 4·y`, the
/// pen row is the whole part of `v / 256` pixels, i.e. of padding + ¾ of
/// the font size + the glyph's Y, truncated toward zero.  Moving a glyph
/// down by `d` whole pixels (its Y raised by `64·d`) never moves it up, and
/// moves it exactly `d` rows down where the position is not negative.
pub proof fn lemma_orge_pen_follows_glyph_y(
    g1: PositionedGlyph,
    g2: PositionedGlyph,
    padding: int,
    advance_height: int,
    d: int,
)
    requires
        d >= 0,
        g2.y.val() == g1.y.val() + 64 * d,
    ensures
        4 * g1.y.val() + 256 * padding + 3 * advance_height >= 0 ==> {
            let v = 4 * g1.y.val() + 256 * padding + 3 * advance_height;
            &&& 256 * orge_pen_y(g1, padding, advance_height) <= v
            &&& v < 256 * orge_pen_y(g1, padding, advance_height) + 256
            &&& orge_pen_y(g2, padding, advance_height) == orge_pen_y(g1, padding, advance_height) + d
        },
        orge_pen_y(g1, padding, advance_height) <= orge_pen_y(g2, padding, advance_height),
{
    let v1 = 4 * g1.y.val() + 256 * padding + 3 * advance_height;
    let v2 = 4 * g2.y.val() + 256 * padding + 3 * advance_height;
    assert(v2 == v1 + 256 * d);
    if v1 >= 0 {
        assert(orge_pen_y(g1, padding, advance_height) == v1 / 256);
        assert(orge_pen_y(g2, padding, advance_height) == v2 / 256);
        assert((v1 + 256 * d) / 256 == v1 / 256 + d) by (nonlinear_arith)
            requires
                v1 >= 0,
                d >= 0,
        ;
        assert(256 * (v1 / 256) <= v1 < 256 * (v1 / 256) + 256) by (nonlinear_arith)
            requires
                v1 >= 0,
        ;
    } else if v2 >= 0 {
        assert(orge_pen_y(g1, padding, advance_height) == -((-v1) / 256));
        assert(orge_pen_y(g2, padding, advance_height) == v2 / 256);
        assert(-((-v1) / 256) <= 0) by (nonlinear_arith)
            requires
                v1 < 0,
        ;
        assert(v2 / 256 >= 0) by (nonlinear_arith)
            requires
                v2 >= 0,
        ;
    } else {
        assert(orge_pen_y(g1, padding, advance_height) == -((-v1) / 256));
        assert(orge_pen_y(g2, padding, advance_height) == -((-v2) / 256));
        assert((-v2) / 256 <= (-v1) / 256) by (nonlinear_arith)
            requires
                0 < -v2 <= -v1,
        ;
    }
}

} // verus!
