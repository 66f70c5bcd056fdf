//! The platform renderers' own logic: their names and formats, the canvas
//! the CoreGraphics renderer allocates, the font-signature check and axis
//! tags of the CoreText renderer, and the platform renderer choice.

use vstd::prelude::*;
use crate::canvas::{ceil_div, ceil_div_exec, sat_u32, sat_u32_exec};
use crate::text::str_eq;
use vstd::string::StringSliceAdditionalSpecFns;
use crate::types::{BitmapData, BitmapFormat, PositionedGlyph, RenderError, RenderParams, ShapingResult};

verus! {

/// Renders through macOS CoreGraphics.
#[derive(Debug, Clone, Copy, PartialEq, Eq, Structural)]
pub struct CoreGraphicsRenderer {}

/// The smallest glyph X, in 26.6 units times 5, over the first `n` glyphs.
pub open spec fn cg_min_x(gs: Seq<PositionedGlyph>, n: int) -> int
    decreases n,
{
    if n <= 1 {
        5 * gs[0].x.val()
    } else {
        let m = cg_min_x(gs, n - 1);
        let v = 5 * gs[n - 1].x.val();
        if v < m {
            v
        } else {
            m
        }
    }
}

/// The largest glyph end (X plus advance), times 5, over the first `n` glyphs.
pub open spec fn cg_max_x(gs: Seq<PositionedGlyph>, n: int) -> int
    decreases n,
{
    if n <= 1 {
        5 * (gs[0].x.val() + gs[0].advance.val())
    } else {
        let m = cg_max_x(gs, n - 1);
        let v = 5 * (gs[n - 1].x.val() + gs[n - 1].advance.val());
        if v > m {
            v
        } else {
            m
        }
    }
}

/// The smallest glyph Y minus 4/5 of the size, times 5.
pub open spec fn cg_min_y(gs: Seq<PositionedGlyph>, ah: int, n: int) -> int
    decreases n,
{
    if n <= 1 {
        5 * gs[0].y.val() - 4 * ah
    } else {
        let m = cg_min_y(gs, ah, n - 1);
        let v = 5 * gs[n - 1].y.val() - 4 * ah;
        if v < m {
            v
        } else {
            m
        }
    }
}

/// The largest glyph Y plus 1/5 of the size, times 5.
pub open spec fn cg_max_y(gs: Seq<PositionedGlyph>, ah: int, n: int) -> int
    decreases n,
{
    if n <= 1 {
        5 * gs[0].y.val() + ah
    } else {
        let m = cg_max_y(gs, ah, n - 1);
        let v = 5 * gs[n - 1].y.val() + ah;
        if v > m {
            v
        } else {
            m
        }
    }
}

/// One side of the CoreGraphics canvas from its extent (26.6 units times 5):
/// at least one pixel of content, plus padding on both sides, rounded up.
pub open spec fn cg_side(extent5: int, padding: int) -> int {
    let e = if extent5 >= 320 {
        extent5
    } else {
        320
    };
    sat_u32(ceil_div(e + 640 * padding, 320))
}

/// The CoreGraphics canvas: the glyphs' horizontal extent (pen X to end of
/// advance) and vertical extent (4/5 of the size above each glyph's Y,
/// 1/5 below), each at least one pixel, plus padding.  An empty run counts
/// as one pixel each way.
pub open spec fn cg_dimensions(shaped: ShapingResult, padding: int) -> (int, int) {
    let gs = shaped.glyphs@;
    let n = gs.len() as int;
    let ah = shaped.advance_height.val();
    if n == 0 {
        (cg_side(320, padding), cg_side(320, padding))
    } else {
        (
            cg_side(cg_max_x(gs, n) - cg_min_x(gs, n), padding),
            cg_side(cg_max_y(gs, ah, n) - cg_min_y(gs, ah, n), padding),
        )
    }
}

/// What the CoreGraphics renderer does with a run: an empty run gives a
/// single transparent-black pixel; otherwise text is drawn on a canvas of
/// the given size.
#[derive(Debug, Clone)]
pub enum CgRenderPlan {
    Done(BitmapData),
    Draw { width: u32, height: u32 },
}

fn min_i64(a: i64, b: i64) -> (r: i64)
    ensures
        r == (if b < a {
            b
        } else {
            a
        }),
{
    if b < a {
        b
    } else {
        a
    }
}

fn max_i64(a: i64, b: i64) -> (r: i64)
    ensures
        r == (if b > a {
            b
        } else {
            a
        }),
{
    if b > a {
        b
    } else {
        a
    }
}

fn cg_side_exec(extent5: i64, padding: u32) -> (r: u32)
    requires
        -0x10_0000_0000_0000 <= extent5 <= 0x10_0000_0000_0000,
    ensures
        r == cg_side(extent5 as int, padding as int),
{
    let e: i64 = if extent5 >= 320 {
        extent5
    } else {
        320
    };
    sat_u32_exec(ceil_div_exec(e as i128 + 640 * padding as i128, 320))
}

impl CoreGraphicsRenderer {
    /// A CoreGraphics renderer.
    pub fn new() -> (r: CoreGraphicsRenderer) {
        CoreGraphicsRenderer {  }
    }

    /// The renderer's name.
    pub fn name(&self) -> (r: &'static str)
        ensures
            r@ == "coregraphics"@,
    {
        "coregraphics"
    }

    /// Only "bitmap" and "rgba".
    pub fn supports_format(&self, format: &str) -> (r: bool)
        ensures
            r == (format@ == "bitmap"@ || format@ == "rgba"@),
    {
        str_eq(format, "bitmap") || str_eq(format, "rgba")
    }

    /// The output for empty text, which is rendered without the platform:
    /// one transparent pixel.  `None` for any other text, which the
    /// platform draws.
    pub fn empty_text_output(&self, text: &str) -> (r: Option<BitmapData>)
        ensures
            text@.len() == 0 ==> (r matches Some(bd) && bd.width == 1 && bd.height == 1 && bd.format
                == BitmapFormat::Rgba8 && bd.data@ == seq![0u8, 0u8, 0u8, 0u8]),
            text@.len() != 0 ==> r is None,
    {
        if text.is_empty() {
            let data = vec![0u8, 0u8, 0u8, 0u8];
            assert(data@ =~= seq![0u8, 0u8, 0u8, 0u8]);
            Some(BitmapData { width: 1, height: 1, format: BitmapFormat::Rgba8, data })
        } else {
            None
        }
    }

    /// Width and height of the canvas (see `cg_dimensions`).
    pub fn calculate_dimensions(shaped: &ShapingResult, params: &RenderParams) -> (r: (u32, u32))
        ensures
            r.0 == cg_dimensions(*shaped, params.padding as int).0,
            r.1 == cg_dimensions(*shaped, params.padding as int).1,
    {
        let n = shaped.glyphs.len();
        if n == 0 {
            let s = cg_side_exec(320, params.padding);
            return (s, s);
        }
        let ghost gs = shaped.glyphs@;
        let ah = shaped.advance_height.raw() as i64;
        let g0 = shaped.glyphs[0];
        let mut min_x: i64 = 5 * g0.x.raw() as i64;
        let mut max_x: i64 = 5 * (g0.x.raw() as i64 + g0.advance.raw() as i64);
        let mut min_y: i64 = 5 * g0.y.raw() as i64 - 4 * ah;
        let mut max_y: i64 = 5 * g0.y.raw() as i64 + ah;
        let mut i: usize = 1;
        while i < n
            invariant
                n == gs.len(),
                gs == shaped.glyphs@,
                ah == shaped.advance_height.val(),
                1 <= i <= n,
                min_x == cg_min_x(gs, i as int),
                max_x == cg_max_x(gs, i as int),
                min_y == cg_min_y(gs, ah as int, i as int),
                max_y == cg_max_y(gs, ah as int, i as int),
                -0x20_0000_0000 <= min_x <= 0x20_0000_0000,
                -0x20_0000_0000 <= max_x <= 0x20_0000_0000,
                -0x20_0000_0000 <= min_y <= 0x20_0000_0000,
                -0x20_0000_0000 <= max_y <= 0x20_0000_0000,
            decreases n - i,
        {
            let g = shaped.glyphs[i];
            min_x = min_i64(min_x, 5 * g.x.raw() as i64);
            max_x = max_i64(max_x, 5 * (g.x.raw() as i64 + g.advance.raw() as i64));
            min_y = min_i64(min_y, 5 * g.y.raw() as i64 - 4 * ah);
            max_y = max_i64(max_y, 5 * g.y.raw() as i64 + ah);
            i = i + 1;
        }
        (cg_side_exec(max_x - min_x, params.padding), cg_side_exec(max_y - min_y, params.padding))
    }

    /// The first step of rendering: an empty run is answered at once with
    /// one transparent pixel `[0, 0, 0, 0]`; any other run is drawn by the platform on
    /// a canvas of `calculate_dimensions`.
    pub fn plan(&self, shaped: &ShapingResult, params: &RenderParams) -> (r: CgRenderPlan)
        ensures
            shaped.glyphs@.len() == 0 ==> (r matches CgRenderPlan::Done(bd) && bd.width == 1
                && bd.height == 1 && bd.format == BitmapFormat::Rgba8 && bd.data@ == seq![
                0u8,
                0u8,
                0u8,
                0u8,
            ]),
            shaped.glyphs@.len() != 0 ==> r == (CgRenderPlan::Draw {
                width: cg_dimensions(*shaped, params.padding as int).0 as u32,
                height: cg_dimensions(*shaped, params.padding as int).1 as u32,
            }),
    {
        if shaped.glyphs.len() == 0 {
            let data = vec![0u8, 0u8, 0u8, 0u8];
            assert(data@ =~= seq![0u8, 0u8, 0u8, 0u8]);
            return CgRenderPlan::Done(
                BitmapData { width: 1, height: 1, format: BitmapFormat::Rgba8, data },
            );
        }
        let (width, height) = CoreGraphicsRenderer::calculate_dimensions(shaped, params);
        CgRenderPlan::Draw { width, height }
    }
}

impl Default for CoreGraphicsRenderer {
    /// Same as `new`.
    fn default() -> (r: CoreGraphicsRenderer) {
        CoreGraphicsRenderer::new()
    }
}

/// Renders whole strings through macOS CoreText.
#[derive(Debug, Clone, Copy, PartialEq, Eq, Structural)]
pub struct CoreTextLinraRenderer {}

/// The signatures of the font formats CoreText accepts: TrueType, OpenType
/// with CFF ("OTTO"), Mac TrueType ("true"), collections ("ttcf"), WOFF and
/// WOFF2.
pub open spec fn known_signature(sig: Seq<u8>) -> bool {
    ||| sig == seq![0x00u8, 0x01u8, 0x00u8, 0x00u8]
    ||| sig == seq![0x4fu8, 0x54u8, 0x54u8, 0x4fu8]
    ||| sig == seq![0x74u8, 0x72u8, 0x75u8, 0x65u8]
    ||| sig == seq![0x74u8, 0x74u8, 0x63u8, 0x66u8]
    ||| sig == seq![0x77u8, 0x4fu8, 0x46u8, 0x46u8]
    ||| sig == seq![0x77u8, 0x4fu8, 0x46u8, 0x32u8]
}

/// The lower-case hex digit of a value below 16.
pub open spec fn hex_digit(v: int) -> char {
    if v < 10 {
        ((v + 0x30) as u8) as char
    } else {
        ((v - 10 + 0x61) as u8) as char
    }
}

/// Two lower-case hex digits of a byte.
pub open spec fn hex_byte(b: u8) -> Seq<char> {
    seq![hex_digit(b as int / 16), hex_digit(b as int % 16)]
}

fn push_hex_digit(s: String, v: u8) -> (r: String)
    requires
        v < 16,
    ensures
        r@ == s@.push(hex_digit(v as int)),
{
    let digits = "0123456789abcdef";
    proof {
        reveal_strlit("0123456789abcdef");
        assert(digits@[v as int] == hex_digit(v as int));
    }
    let d = digits.substring_char(v as usize, v as usize + 1);
    let r = s.concat(d);
    assert(r@ =~= s@.push(hex_digit(v as int)));
    r
}

fn push_hex(s: String, b: u8) -> (r: String)
    ensures
        r@ == s@ + hex_byte(b),
{
    let t = push_hex_digit(s, b / 16);
    let t = push_hex_digit(t, b % 16);
    assert(t@ =~= s@ + hex_byte(b));
    t
}

impl CoreTextLinraRenderer {
    /// A CoreText renderer.
    pub fn new() -> (r: CoreTextLinraRenderer) {
        CoreTextLinraRenderer {  }
    }

    /// The renderer's name.
    pub fn name(&self) -> (r: &'static str)
        ensures
            r@ == "coretext-linra"@,
    {
        "coretext-linra"
    }

    /// Only "bitmap" and "rgba".
    pub fn supports_format(&self, format: &str) -> (r: bool)
        ensures
            r == (format@ == "bitmap"@ || format@ == "rgba"@),
    {
        str_eq(format, "bitmap") || str_eq(format, "rgba")
    }

    /// The output for empty text, which is rendered without the platform:
    /// one transparent pixel.  `None` for any other text, which the
    /// platform draws.
    pub fn empty_text_output(&self, text: &str) -> (r: Option<BitmapData>)
        ensures
            text@.len() == 0 ==> (r matches Some(bd) && bd.width == 1 && bd.height == 1 && bd.format
                == BitmapFormat::Rgba8 && bd.data@ == seq![0u8, 0u8, 0u8, 0u8]),
            text@.len() != 0 ==> r is None,
    {
        if text.is_empty() {
            let data = vec![0u8, 0u8, 0u8, 0u8];
            assert(data@ =~= seq![0u8, 0u8, 0u8, 0u8]);
            Some(BitmapData { width: 1, height: 1, format: BitmapFormat::Rgba8, data })
        } else {
            None
        }
    }

    /// Refuse data shorter than 12 bytes or without a known font signature
    /// in its first four bytes.
    pub fn validate_font_data(data: &[u8]) -> (r: Result<(), RenderError>)
        ensures
            data@.len() < 12 ==> (r matches Err(RenderError::BackendError(m)) && m@
                == "Font data too small to be valid"@),
            data@.len() >= 12 && known_signature(data@.take(4)) ==> r is Ok,
            data@.len() >= 12 && !known_signature(data@.take(4)) ==> (r matches Err(
                RenderError::BackendError(m),
            ) && m@ == "Invalid font signature: "@ + hex_byte(data@[0]) + hex_byte(data@[1])
                + hex_byte(data@[2]) + hex_byte(data@[3])),
    {
        if data.len() < 12 {
            return Err(RenderError::BackendError(String::from_str("Font data too small to be valid")));
        }
        let (a, b, c, d) = (data[0], data[1], data[2], data[3]);
        let ghost sig = data@.take(4);
        proof {
            assert(sig =~= seq![a, b, c, d]);
        }
        let valid = (a == 0x00 && b == 0x01 && c == 0x00 && d == 0x00) || (a == 0x4f && b == 0x54
            && c == 0x54 && d == 0x4f) || (a == 0x74 && b == 0x72 && c == 0x75 && d == 0x65) || (a
            == 0x74 && b == 0x74 && c == 0x63 && d == 0x66) || (a == 0x77 && b == 0x4f && c == 0x46
            && d == 0x46) || (a == 0x77 && b == 0x4f && c == 0x46 && d == 0x32);
        proof {
            if valid {
                assert(known_signature(sig));
            } else {
                assert(!known_signature(sig)) by {
                    if known_signature(sig) {
                        assert(sig[0] == a && sig[1] == b && sig[2] == c && sig[3] == d);
                    }
                }
            }
        }
        if !valid {
            proof {
                reveal_strlit("Invalid font signature: ");
            }
            let s = String::from_str("Invalid font signature: ");
            let s = push_hex(s, a);
            let s = push_hex(s, b);
            let s = push_hex(s, c);
            let s = push_hex(s, d);
            return Err(RenderError::BackendError(s));
        }
        Ok(())
    }

    /// A four-byte axis tag as the big-endian number CoreText uses; `None`
    /// for a tag that is not four bytes long.
    pub fn tag_to_axis_id(tag: &str) -> (r: Option<i64>)
        ensures
            tag.spec_bytes().len() == 4 ==> (r matches Some(v) && v == tag.spec_bytes()[0]
                * 0x100_0000 + tag.spec_bytes()[1] * 0x1_0000 + tag.spec_bytes()[2] * 0x100
                + tag.spec_bytes()[3]),
            tag.spec_bytes().len() != 4 ==> r is None,
    {
        if tag.len() != 4 {
            return None;
        }
        let bytes = tag.as_bytes();
        let (a, b, c, d) = (bytes[0] as i64, bytes[1] as i64, bytes[2] as i64, bytes[3] as i64);
        let v: i64 = (a << 24u64) | (b << 16u64) | (c << 8u64) | d;
        proof {
            assert(v == a * 0x100_0000 + b * 0x1_0000 + c * 0x100 + d) by (bit_vector)
                requires
                    0 <= a < 256,
                    0 <= b < 256,
                    0 <= c < 256,
                    0 <= d < 256,
                    v == (a << 24u64) | (b << 16u64) | (c << 8u64) | d,
            ;
        }
        Some(v)
    }
}

impl Default for CoreTextLinraRenderer {
    /// Same as `new`.
    fn default() -> (r: CoreTextLinraRenderer) {
        CoreTextLinraRenderer::new()
    }
}

/// The platform's text renderer (CoreText).
pub fn create_renderer() -> (r: CoreTextLinraRenderer) {
    CoreTextLinraRenderer::new()
}

} // verus!
