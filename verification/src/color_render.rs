//! Color-glyph support: the color formats a font offers, the rendering
//! method a glyph took, the bounds of drawn content in a pixmap, the pixel
//! layout conversions of embedded bitmaps, and the choice among glyph
//! sources in order of preference.

use vstd::prelude::*;
use crate::font_data::{
    bitmap_strikes_present, colr_glyph_present, colr_table_present, decode_png, font_parses,
    glyph_count, has_bitmap_strikes, has_colr_glyph, has_colr_table, has_svg_table,
    maxp_glyph_count, parses_as_font, png_decoded, svg_table_present,
};
use crate::skia_canvas::{alpha_index, premul};
use crate::types::GlyphSource;

verus! {

/// Color-glyph formats a font can carry.
#[derive(Debug, Clone, Copy, PartialEq, Eq, Structural)]
pub enum ColorFontType {
    /// Layered color glyphs (COLR version 0).
    ColrV0,
    /// Color glyphs with gradients and effects (COLR version 1).
    ColrV1,
    /// Embedded SVG documents.
    Svg,
    /// Embedded bitmaps (sbix, CBDT/CBLC, EBDT/EBLC).
    Bitmap,
}

/// The rendering path a glyph took.
#[derive(Debug, Clone, Copy, PartialEq, Eq, Structural)]
pub enum RenderMethod {
    ColrV0,
    ColrV1,
    Svg,
    Bitmap,
    Outline,
}

/// Bounds of the non-transparent pixels of a pixmap, inclusive.
#[derive(Debug, Clone, Copy, PartialEq, Eq, Structural)]
pub struct ContentBounds {
    pub min_x: u32,
    pub max_x: u32,
    pub min_y: u32,
    pub max_y: u32,
}

/// `a - b`, or 0 when `b > a`.
pub open spec fn sat_sub(a: int, b: int) -> int {
    if a >= b {
        a - b
    } else {
        0
    }
}

impl ContentBounds {
    /// Width of the content in pixels.
    pub fn width(&self) -> (r: u32)
        requires
            sat_sub(self.max_x as int, self.min_x as int) < u32::MAX,
        ensures
            r == sat_sub(self.max_x as int, self.min_x as int) + 1,
    {
        self.max_x.saturating_sub(self.min_x) + 1
    }

    /// Height of the content in pixels.
    pub fn height(&self) -> (r: u32)
        requires
            sat_sub(self.max_y as int, self.min_y as int) < u32::MAX,
        ensures
            r == sat_sub(self.max_y as int, self.min_y as int) + 1,
    {
        self.max_y.saturating_sub(self.min_y) + 1
    }
}

/// Pixel `(x, y)` of an RGBA image `width` pixels wide has non-zero alpha.
pub open spec fn drawn(data: Seq<u8>, width: int, x: int, y: int) -> bool {
    data[(y * width + x) * 4 + 3] > 0
}

/// Pixel `(x, y)` lies in the image and is drawn.
pub open spec fn drawn_at(data: Seq<u8>, width: int, height: int, x: int, y: int) -> bool {
    0 <= x < width && 0 <= y < height && drawn(data, width, x, y)
}

/// The bounds enclose every drawn pixel and each side touches one.
pub open spec fn tight_bounds(data: Seq<u8>, width: int, height: int, b: ContentBounds) -> bool {
    &&& forall|x: int, y: int|
        #[trigger] drawn_at(data, width, height, x, y) ==> b.min_x <= x <= b.max_x && b.min_y <= y
            <= b.max_y
    &&& exists|y: int| #[trigger] drawn_at(data, width, height, b.min_x as int, y)
    &&& exists|y: int| #[trigger] drawn_at(data, width, height, b.max_x as int, y)
    &&& exists|x: int| #[trigger] drawn_at(data, width, height, x, b.min_y as int)
    &&& exists|x: int| #[trigger] drawn_at(data, width, height, x, b.max_y as int)
}

/// Some pixel of the image is drawn.
pub open spec fn any_drawn(data: Seq<u8>, width: int, height: int) -> bool {
    exists|x: int, y: int| #[trigger] drawn_at(data, width, height, x, y)
}

/// Pixel `(x, y)` comes before `(cx, cy)` in row-major order.
pub open spec fn before(x: int, y: int, cx: int, cy: int) -> bool {
    y < cy || (y == cy && x < cx)
}

/// Whether a drawn pixel comes before `(cx, cy)`.
pub open spec fn any_drawn_before(data: Seq<u8>, width: int, height: int, cx: int, cy: int) -> bool {
    exists|x: int, y: int| #[trigger] drawn_at(data, width, height, x, y) && before(x, y, cx, cy)
}

/// The running bounds of the drawn pixels before `(cx, cy)`.
pub open spec fn running_bounds(
    data: Seq<u8>,
    width: int,
    height: int,
    cx: int,
    cy: int,
    min_x: int,
    max_x: int,
    min_y: int,
    max_y: int,
) -> bool {
    if any_drawn_before(data, width, height, cx, cy) {
        &&& forall|x: int, y: int|
            #[trigger] drawn_at(data, width, height, x, y) && before(x, y, cx, cy) ==> min_x <= x
                <= max_x && min_y <= y <= max_y
        &&& exists|y: int| #[trigger] drawn_at(data, width, height, min_x, y) && before(min_x, y, cx, cy)
        &&& exists|y: int| #[trigger] drawn_at(data, width, height, max_x, y) && before(max_x, y, cx, cy)
        &&& exists|x: int| #[trigger] drawn_at(data, width, height, x, min_y) && before(x, min_y, cx, cy)
        &&& exists|x: int| #[trigger] drawn_at(data, width, height, x, max_y) && before(x, max_y, cx, cy)
    } else {
        min_x == width && max_x == 0 && min_y == height && max_y == 0
    }
}

/// Bounds of the pixels with non-zero alpha in an RGBA image of
/// `width × height` pixels; `None` when no pixel is drawn (an image without
/// pixels in both directions gives the bounds of pixel `(0, 0)`).
pub fn compute_content_bounds(width: u32, height: u32, data: &[u8]) -> (r: Option<ContentBounds>)
    requires
        data@.len() == width * height * 4,
        width * height * 4 <= u32::MAX,
    ensures
        width == 0 && height == 0 ==> r == Some(ContentBounds { min_x: 0, max_x: 0, min_y: 0, max_y: 0 }),
        width > 0 || height > 0 ==> match r {
            Some(b) => tight_bounds(data@, width as int, height as int, b),
            None => !any_drawn(data@, width as int, height as int),
        },
{
    let ghost d = data@;
    let ghost w = width as int;
    let ghost h = height as int;
    let mut min_x: u32 = width;
    let mut max_x: u32 = 0;
    let mut min_y: u32 = height;
    let mut max_y: u32 = 0;
    let mut y: u32 = 0;
    while y < height
        invariant
            d == data@,
            w == width,
            h == height,
            d.len() == w * h * 4,
            w * h * 4 <= u32::MAX,
            0 <= y <= height,
            running_bounds(d, w, h, 0, y as int, min_x as int, max_x as int, min_y as int, max_y as int),
        decreases height - y,
    {
        let mut x: u32 = 0;
        while x < width
            invariant
                d == data@,
                w == width,
                h == height,
                d.len() == w * h * 4,
                w * h * 4 <= u32::MAX,
                0 <= y < height,
                0 <= x <= width,
                running_bounds(d, w, h, x as int, y as int, min_x as int, max_x as int, min_y as int, max_y as int),
            decreases width - x,
        {
            assert((y * w + x) * 4 + 3 < w * h * 4) by (nonlinear_arith)
                requires
                    0 <= y < h,
                    0 <= x < w,
            ;
            let idx: u32 = (y * width + x) * 4 + 3;
            let ghost (a0, b0, c0, d0) = (min_x as int, max_x as int, min_y as int, max_y as int);
            let ghost was = any_drawn_before(d, w, h, x as int, y as int);
            if data[idx as usize] > 0 {
                if x < min_x {
                    min_x = x;
                }
                if x > max_x {
                    max_x = x;
                }
                if y < min_y {
                    min_y = y;
                }
                if y > max_y {
                    max_y = y;
                }
                proof {
                    assert(drawn_at(d, w, h, x as int, y as int));
                    assert(before(x as int, y as int, x + 1, y as int));
                    lemma_bounds_step_drawn(d, w, h, x as int, y as int, a0, b0, c0, d0, min_x as int, max_x as int, min_y as int, max_y as int);
                }
            } else {
                proof {
                    assert(!drawn_at(d, w, h, x as int, y as int));
                    lemma_bounds_step_blank(d, w, h, x as int, y as int, a0, b0, c0, d0);
                }
            }
            x = x + 1;
        }
        proof {
            lemma_bounds_next_row(d, w, h, y as int, min_x as int, max_x as int, min_y as int, max_y as int);
        }
        y = y + 1;
    }
    proof {
        lemma_bounds_done(d, w, h, min_x as int, max_x as int, min_y as int, max_y as int);
    }
    if min_x > max_x || min_y > max_y {
        None
    } else {
        Some(ContentBounds { min_x, max_x, min_y, max_y })
    }
}

/// A drawn pixel at `(x, y)` moves the running bounds to include it.
proof fn lemma_bounds_step_drawn(
    d: Seq<u8>,
    w: int,
    h: int,
    x: int,
    y: int,
    a0: int,
    b0: int,
    c0: int,
    d0: int,
    a1: int,
    b1: int,
    c1: int,
    d1: int,
)
    requires
        0 <= x < w,
        0 <= y < h,
        drawn_at(d, w, h, x, y),
        running_bounds(d, w, h, x, y, a0, b0, c0, d0),
        a1 == (if any_drawn_before(d, w, h, x, y) { if x < a0 { x } else { a0 } } else { if x < w { x } else { w } }),
        b1 == (if x > b0 { x } else { b0 }),
        c1 == (if y < c0 { y } else { c0 }),
        d1 == (if y > d0 { y } else { d0 }),
    ensures
        running_bounds(d, w, h, x + 1, y, a1, b1, c1, d1),
{
    assert(before(x, y, x + 1, y));
    assert(any_drawn_before(d, w, h, x + 1, y));
    assert forall|px: int, py: int|
        #[trigger] drawn_at(d, w, h, px, py) && before(px, py, x + 1, y) implies a1 <= px <= b1 && c1
            <= py <= d1 by {
        if !(px == x && py == y) {
            assert(before(px, py, x, y));
        }
    }
    if any_drawn_before(d, w, h, x, y) {
        let ya = choose|yy: int| #[trigger] drawn_at(d, w, h, a0, yy) && before(a0, yy, x, y);
        let yb = choose|yy: int| #[trigger] drawn_at(d, w, h, b0, yy) && before(b0, yy, x, y);
        let xc = choose|xx: int| #[trigger] drawn_at(d, w, h, xx, c0) && before(xx, c0, x, y);
        let xd = choose|xx: int| #[trigger] drawn_at(d, w, h, xx, d0) && before(xx, d0, x, y);
        if a1 == a0 {
            assert(drawn_at(d, w, h, a1, ya) && before(a1, ya, x + 1, y));
        } else {
            assert(drawn_at(d, w, h, a1, y) && before(a1, y, x + 1, y));
        }
        if b1 == b0 {
            assert(drawn_at(d, w, h, b1, yb) && before(b1, yb, x + 1, y));
        } else {
            assert(drawn_at(d, w, h, b1, y) && before(b1, y, x + 1, y));
        }
        if c1 == c0 {
            assert(drawn_at(d, w, h, xc, c1) && before(xc, c1, x + 1, y));
        } else {
            assert(drawn_at(d, w, h, x, c1) && before(x, c1, x + 1, y));
        }
        if d1 == d0 {
            assert(drawn_at(d, w, h, xd, d1) && before(xd, d1, x + 1, y));
        } else {
            assert(drawn_at(d, w, h, x, d1) && before(x, d1, x + 1, y));
        }
    } else {
        assert(a1 == x && b1 == x && c1 == y && d1 == y);
        assert(drawn_at(d, w, h, a1, y) && before(a1, y, x + 1, y));
        assert(drawn_at(d, w, h, x, c1) && before(x, c1, x + 1, y));
    }
}

/// A blank pixel at `(x, y)` leaves the running bounds as they are.
proof fn lemma_bounds_step_blank(
    d: Seq<u8>,
    w: int,
    h: int,
    x: int,
    y: int,
    a0: int,
    b0: int,
    c0: int,
    d0: int,
)
    requires
        0 <= x < w,
        0 <= y < h,
        !drawn_at(d, w, h, x, y),
        running_bounds(d, w, h, x, y, a0, b0, c0, d0),
    ensures
        running_bounds(d, w, h, x + 1, y, a0, b0, c0, d0),
{
    assert(any_drawn_before(d, w, h, x + 1, y) == any_drawn_before(d, w, h, x, y)) by {
        if any_drawn_before(d, w, h, x + 1, y) {
            let (px, py) = choose|px: int, py: int| #[trigger] drawn_at(d, w, h, px, py) && before(px, py, x + 1, y);
            assert(before(px, py, x, y));
        }
    }
    if any_drawn_before(d, w, h, x, y) {
        let ya = choose|yy: int| #[trigger] drawn_at(d, w, h, a0, yy) && before(a0, yy, x, y);
        let yb = choose|yy: int| #[trigger] drawn_at(d, w, h, b0, yy) && before(b0, yy, x, y);
        let xc = choose|xx: int| #[trigger] drawn_at(d, w, h, xx, c0) && before(xx, c0, x, y);
        let xd = choose|xx: int| #[trigger] drawn_at(d, w, h, xx, d0) && before(xx, d0, x, y);
        assert(drawn_at(d, w, h, a0, ya) && before(a0, ya, x + 1, y));
        assert(drawn_at(d, w, h, b0, yb) && before(b0, yb, x + 1, y));
        assert(drawn_at(d, w, h, xc, c0) && before(xc, c0, x + 1, y));
        assert(drawn_at(d, w, h, xd, d0) && before(xd, d0, x + 1, y));
        assert forall|px: int, py: int|
            #[trigger] drawn_at(d, w, h, px, py) && before(px, py, x + 1, y) implies a0 <= px <= b0
                && c0 <= py <= d0 by {
            assert(!(px == x && py == y));
            assert(before(px, py, x, y));
        }
    }
}

/// Having scanned row `y` to its end is having scanned up to the next row.
proof fn lemma_bounds_next_row(
    d: Seq<u8>,
    w: int,
    h: int,
    y: int,
    a: int,
    b: int,
    c: int,
    e: int,
)
    requires
        running_bounds(d, w, h, w, y, a, b, c, e),
    ensures
        running_bounds(d, w, h, 0, y + 1, a, b, c, e),
{
    assert forall|px: int, py: int| #[trigger] drawn_at(d, w, h, px, py) implies before(px, py, w, y)
        == before(px, py, 0, y + 1) by {}
    assert(any_drawn_before(d, w, h, w, y) == any_drawn_before(d, w, h, 0, y + 1)) by {
        if any_drawn_before(d, w, h, 0, y + 1) {
            let (px, py) = choose|px: int, py: int| #[trigger] drawn_at(d, w, h, px, py) && before(px, py, 0, y + 1);
            assert(before(px, py, w, y));
        }
        if any_drawn_before(d, w, h, w, y) {
            let (px, py) = choose|px: int, py: int| #[trigger] drawn_at(d, w, h, px, py) && before(px, py, w, y);
            assert(before(px, py, 0, y + 1));
        }
    }
    if any_drawn_before(d, w, h, w, y) {
        let ya = choose|yy: int| #[trigger] drawn_at(d, w, h, a, yy) && before(a, yy, w, y);
        let yb = choose|yy: int| #[trigger] drawn_at(d, w, h, b, yy) && before(b, yy, w, y);
        let xc = choose|xx: int| #[trigger] drawn_at(d, w, h, xx, c) && before(xx, c, w, y);
        let xd = choose|xx: int| #[trigger] drawn_at(d, w, h, xx, e) && before(xx, e, w, y);
        assert(drawn_at(d, w, h, a, ya) && before(a, ya, 0, y + 1));
        assert(drawn_at(d, w, h, b, yb) && before(b, yb, 0, y + 1));
        assert(drawn_at(d, w, h, xc, c) && before(xc, c, 0, y + 1));
        assert(drawn_at(d, w, h, xd, e) && before(xd, e, 0, y + 1));
    }
}

/// After the last row the running bounds are the bounds of the image.
proof fn lemma_bounds_done(d: Seq<u8>, w: int, h: int, a: int, b: int, c: int, e: int)
    requires
        0 <= w <= u32::MAX,
        0 <= h <= u32::MAX,
        running_bounds(d, w, h, 0, h, a, b, c, e),
    ensures
        w == 0 && h == 0 ==> a == 0 && b == 0 && c == 0 && e == 0,
        (w > 0 || h > 0) && (a > b || c > e) ==> !any_drawn(d, w, h),
        (w > 0 || h > 0) && !(a > b || c > e) ==> tight_bounds(
            d,
            w,
            h,
            ContentBounds { min_x: a as u32, max_x: b as u32, min_y: c as u32, max_y: e as u32 },
        ),
{
    assert forall|px: int, py: int| #[trigger] drawn_at(d, w, h, px, py) implies before(px, py, 0, h) by {}
    assert(any_drawn(d, w, h) == any_drawn_before(d, w, h, 0, h)) by {
        if any_drawn(d, w, h) {
            let (px, py) = choose|px: int, py: int| #[trigger] drawn_at(d, w, h, px, py);
            assert(before(px, py, 0, h));
        }
    }
    if any_drawn(d, w, h) {
        let ya = choose|yy: int| #[trigger] drawn_at(d, w, h, a, yy) && before(a, yy, 0, h);
        let yb = choose|yy: int| #[trigger] drawn_at(d, w, h, b, yy) && before(b, yy, 0, h);
        let xc = choose|xx: int| #[trigger] drawn_at(d, w, h, xx, c) && before(xx, c, 0, h);
        let xd = choose|xx: int| #[trigger] drawn_at(d, w, h, xx, e) && before(xx, e, 0, h);
        assert(0 <= a && a <= b && 0 <= c && c <= e);
        let cb = ContentBounds { min_x: a as u32, max_x: b as u32, min_y: c as u32, max_y: e as u32 };
        assert(cb.min_x == a && cb.max_x == b && cb.min_y == c && cb.max_y == e);
        assert(drawn_at(d, w, h, cb.min_x as int, ya));
        assert(drawn_at(d, w, h, cb.max_x as int, yb));
        assert(drawn_at(d, w, h, xc, cb.min_y as int));
        assert(drawn_at(d, w, h, xd, cb.max_y as int));
        assert forall|x: int, y: int| #[trigger] drawn_at(d, w, h, x, y) implies cb.min_x <= x
            <= cb.max_x && cb.min_y <= y <= cb.max_y by {
            assert(before(x, y, 0, h));
        }
        assert(tight_bounds(d, w, h, cb));
    }
}

/// Premultiplied RGBA from straight RGBA: each color byte scaled by its
/// pixel's alpha.
pub open spec fn premultiplied(rgba: Seq<u8>) -> Seq<u8> {
    Seq::new(
        rgba.len(),
        |i: int|
            if i % 4 == 3 {
                rgba[i]
            } else {
                premul(rgba[i] as int, rgba[alpha_index(i)] as int) as u8
            },
    )
}

/// Premultiply straight RGBA pixels.
pub fn premultiply_rgba(rgba: &[u8]) -> (r: Vec<u8>)
    requires
        rgba@.len() % 4 == 0,
    ensures
        r@ == premultiplied(rgba@),
{
    let n = rgba.len();
    let mut out: Vec<u8> = Vec::with_capacity(n);
    let mut j: usize = 0;
    while j < n
        invariant
            n == rgba@.len(),
            n % 4 == 0,
            j % 4 == 0,
            0 <= j <= n,
            out@.len() == j,
            forall|i: int| 0 <= i < j ==> out@[i] == premultiplied(rgba@)[i],
        decreases n - j,
    {
        let a = rgba[j + 3];
        proof {
            assert forall|i: int| j <= i < j + 4 implies #[trigger] alpha_index(i) == j + 3 by {
                crate::skia_canvas::lemma_pixel_start(i, j as int);
            }
            assert(rgba[j as int] * a / 255 <= 255) by (nonlinear_arith)
                requires
                    0 <= rgba[j as int] <= 255,
                    0 <= a <= 255,
            ;
            assert(rgba[j + 1] * a / 255 <= 255) by (nonlinear_arith)
                requires
                    0 <= rgba[j + 1] <= 255,
                    0 <= a <= 255,
            ;
            assert(rgba[j + 2] * a / 255 <= 255) by (nonlinear_arith)
                requires
                    0 <= rgba[j + 2] <= 255,
                    0 <= a <= 255,
            ;
            crate::skia_canvas::lemma_pixel_start(j + 3, j as int);
        }
        out.push(((rgba[j] as u16 * a as u16) / 255) as u8);
        out.push(((rgba[j + 1] as u16 * a as u16) / 255) as u8);
        out.push(((rgba[j + 2] as u16 * a as u16) / 255) as u8);
        out.push(a);
        j = j + 4;
    }
    assert(out@ =~= premultiplied(rgba@));
    out
}

/// RGBA from BGRA: the first and third byte of each pixel swapped.
pub open spec fn swapped_bgra(bgra: Seq<u8>) -> Seq<u8> {
    Seq::new(
        bgra.len(),
        |i: int|
            if i % 4 == 0 {
                bgra[i + 2]
            } else if i % 4 == 2 {
                bgra[i - 2]
            } else {
                bgra[i]
            },
    )
}

/// RGBA pixels from BGRA pixels.
pub fn bgra_to_rgba(bgra: &[u8]) -> (r: Vec<u8>)
    requires
        bgra@.len() % 4 == 0,
    ensures
        r@ == swapped_bgra(bgra@),
{
    let n = bgra.len();
    let mut out: Vec<u8> = Vec::with_capacity(n);
    let mut j: usize = 0;
    while j < n
        invariant
            n == bgra@.len(),
            n % 4 == 0,
            j % 4 == 0,
            0 <= j <= n,
            out@.len() == j,
            forall|i: int| 0 <= i < j ==> out@[i] == swapped_bgra(bgra@)[i],
        decreases n - j,
    {
        proof {
            assert forall|c: int| 0 <= c < 4 implies #[trigger] ((j + c) % 4) == c by {
                crate::skia_canvas::lemma_pixel_start(j + c, j as int);
            }
            assert((j + 0) % 4 == 0 && (j + 1) % 4 == 1 && (j + 2) % 4 == 2 && (j + 3) % 4 == 3);
        }
        out.push(bgra[j + 2]);
        out.push(bgra[j + 1]);
        out.push(bgra[j]);
        out.push(bgra[j + 3]);
        j = j + 4;
    }
    assert(out@ =~= swapped_bgra(bgra@));
    out
}

/// Black RGBA pixels whose alpha is the mask.
pub open spec fn masked_black(mask: Seq<u8>) -> Seq<u8> {
    Seq::new(
        mask.len() * 4,
        |i: int|
            if i % 4 == 3 {
                mask[i / 4]
            } else {
                0u8
            },
    )
}

/// RGBA pixels from an alpha mask: black, with the mask as alpha.
pub fn mask_to_rgba(mask: &[u8]) -> (r: Vec<u8>)
    requires
        mask@.len() * 4 <= usize::MAX,
    ensures
        r@ == masked_black(mask@),
{
    let n = mask.len();
    let mut out: Vec<u8> = Vec::with_capacity(n * 4);
    let mut k: usize = 0;
    while k < n
        invariant
            n == mask@.len(),
            n * 4 <= usize::MAX,
            0 <= k <= n,
            out@.len() == 4 * k,
            forall|i: int| 0 <= i < 4 * k ==> out@[i] == masked_black(mask@)[i],
        decreases n - k,
    {
        proof {
            assert forall|c: int| 0 <= c < 4 implies #[trigger] ((4 * k + c) % 4) == c && (4 * k + c)
                / 4 == k by {
                crate::skia_canvas::lemma_pixel_start(4 * k + c, 4 * k as int);
            }
            assert((4 * k + 0) % 4 == 0 && (4 * k + 1) % 4 == 1 && (4 * k + 2) % 4 == 2 && (4 * k + 3) % 4 == 3);
            assert((4 * k + 3) / 4 == k);
        }
        out.push(0);
        out.push(0);
        out.push(0);
        out.push(mask[k]);
        k = k + 1;
    }
    assert(out@ =~= masked_black(mask@));
    out
}

/// Opaque gray RGBA pixels from gray bytes.
pub open spec fn opaque_gray(gray: Seq<u8>) -> Seq<u8> {
    Seq::new(
        gray.len() * 4,
        |i: int|
            if i % 4 == 3 {
                255u8
            } else {
                gray[i / 4]
            },
    )
}

/// RGBA pixels from grayscale bytes.
pub fn gray_to_rgba(gray: &[u8]) -> (r: Vec<u8>)
    requires
        gray@.len() * 4 <= usize::MAX,
    ensures
        r@ == opaque_gray(gray@),
{
    let n = gray.len();
    let mut out: Vec<u8> = Vec::with_capacity(n * 4);
    let mut k: usize = 0;
    while k < n
        invariant
            n == gray@.len(),
            n * 4 <= usize::MAX,
            0 <= k <= n,
            out@.len() == 4 * k,
            forall|i: int| 0 <= i < 4 * k ==> out@[i] == opaque_gray(gray@)[i],
        decreases n - k,
    {
        proof {
            assert forall|c: int| 0 <= c < 4 implies #[trigger] ((4 * k + c) % 4) == c && (4 * k + c)
                / 4 == k by {
                crate::skia_canvas::lemma_pixel_start(4 * k + c, 4 * k as int);
            }
            assert((4 * k + 0) % 4 == 0 && (4 * k + 1) % 4 == 1 && (4 * k + 2) % 4 == 2 && (4 * k + 3) % 4 == 3);
            assert((4 * k + 0) / 4 == k && (4 * k + 1) / 4 == k && (4 * k + 2) / 4 == k);
        }
        let g = gray[k];
        out.push(g);
        out.push(g);
        out.push(g);
        out.push(255);
        k = k + 1;
    }
    assert(out@ =~= opaque_gray(gray@));
    out
}

/// Premultiplied RGBA pixels from gray-and-alpha byte pairs.
pub open spec fn gray_alpha_premultiplied(ga: Seq<u8>) -> Seq<u8> {
    Seq::new(
        ga.len() * 2,
        |i: int|
            if i % 4 == 3 {
                ga[2 * (i / 4) + 1]
            } else {
                premul(ga[2 * (i / 4)] as int, ga[2 * (i / 4) + 1] as int) as u8
            },
    )
}

/// Premultiplied RGBA pixels from gray-and-alpha pairs.
pub fn gray_alpha_to_rgba(ga: &[u8]) -> (r: Vec<u8>)
    requires
        ga@.len() % 2 == 0,
        ga@.len() * 2 <= usize::MAX,
    ensures
        r@ == gray_alpha_premultiplied(ga@),
{
    let n = ga.len() / 2;
    let mut out: Vec<u8> = Vec::with_capacity(n * 4);
    let mut k: usize = 0;
    while k < n
        invariant
            n * 2 == ga@.len(),
            n * 4 <= usize::MAX,
            0 <= k <= n,
            out@.len() == 4 * k,
            forall|i: int| 0 <= i < 4 * k ==> out@[i] == gray_alpha_premultiplied(ga@)[i],
        decreases n - k,
    {
        proof {
            assert forall|c: int| 0 <= c < 4 implies #[trigger] ((4 * k + c) % 4) == c && (4 * k + c)
                / 4 == k by {
                crate::skia_canvas::lemma_pixel_start(4 * k + c, 4 * k as int);
            }
            assert((4 * k + 0) % 4 == 0 && (4 * k + 1) % 4 == 1 && (4 * k + 2) % 4 == 2 && (4 * k + 3) % 4 == 3);
            assert((4 * k + 0) / 4 == k && (4 * k + 1) / 4 == k && (4 * k + 2) / 4 == k && (4 * k + 3) / 4 == k);
        }
        let g = ga[2 * k];
        let a = ga[2 * k + 1];
        assert(g * a / 255 <= 255) by (nonlinear_arith)
            requires
                0 <= g <= 255,
                0 <= a <= 255,
        ;
        let pm: u8 = ((g as u16 * a as u16) / 255) as u8;
        out.push(pm);
        out.push(pm);
        out.push(pm);
        out.push(a);
        k = k + 1;
    }
    assert(out@ =~= gray_alpha_premultiplied(ga@));
    out
}

/// Bytes of chunk `j` when `rgb` is cut into chunks of 3 (the last may be
/// shorter).
pub open spec fn chunk_len(n: int, j: int) -> int {
    if j < n / 3 {
        3
    } else {
        n % 3
    }
}

/// Each chunk of up to 3 bytes followed by an opaque alpha byte.
pub open spec fn rgb_padded(rgb: Seq<u8>) -> Seq<u8> {
    let n = rgb.len() as int;
    Seq::new(
        (4 * (n / 3) + if n % 3 > 0 {
            n % 3 + 1
        } else {
            0
        }) as nat,
        |i: int|
            if i % 4 < chunk_len(n, i / 4) {
                rgb[3 * (i / 4) + i % 4]
            } else {
                255u8
            },
    )
}

/// RGBA pixels from RGB bytes: every 3 bytes (and a shorter last chunk)
/// followed by alpha 255.
pub fn rgb_to_rgba(rgb: &[u8]) -> (r: Vec<u8>)
    requires
        rgb@.len() * 2 <= usize::MAX,
    ensures
        r@ == rgb_padded(rgb@),
{
    let n = rgb.len();
    let full = n / 3;
    let ghost spec_out = rgb_padded(rgb@);
    let mut out: Vec<u8> = Vec::with_capacity(n + full + 1);
    let mut k: usize = 0;
    while k < full
        invariant
            n == rgb@.len(),
            n * 2 <= usize::MAX,
            full == n / 3,
            spec_out == rgb_padded(rgb@),
            0 <= k <= full,
            out@.len() == 4 * k,
            forall|i: int| 0 <= i < 4 * k ==> out@[i] == spec_out[i],
        decreases full - k,
    {
        proof {
            assert forall|c: int| 0 <= c < 4 implies #[trigger] ((4 * k + c) % 4) == c && (4 * k + c)
                / 4 == k by {
                crate::skia_canvas::lemma_pixel_start(4 * k + c, 4 * k as int);
            }
            assert((4 * k + 0) % 4 == 0 && (4 * k + 1) % 4 == 1 && (4 * k + 2) % 4 == 2 && (4 * k + 3) % 4 == 3);
            assert((4 * k + 0) / 4 == k && (4 * k + 1) / 4 == k && (4 * k + 2) / 4 == k && (4 * k + 3) / 4 == k);
            assert(3 * k + 2 < n);
            assert(4 * k + 4 <= spec_out.len());
        }
        out.push(rgb[3 * k]);
        out.push(rgb[3 * k + 1]);
        out.push(rgb[3 * k + 2]);
        out.push(255);
        k = k + 1;
    }
    let rest = n - 3 * full;
    if rest > 0 {
        proof {
            assert forall|c: int| 0 <= c < 4 implies #[trigger] ((4 * full + c) % 4) == c && (4 * full
                + c) / 4 == full by {
                crate::skia_canvas::lemma_pixel_start(4 * full + c, 4 * full as int);
            }
            assert((4 * full + 0) % 4 == 0 && (4 * full + 1) % 4 == 1 && (4 * full + 2) % 4 == 2);
            assert((4 * full + 0) / 4 == full && (4 * full + 1) / 4 == full && (4 * full + 2) / 4 == full);
        }
        let mut c: usize = 0;
        while c < rest
            invariant
                n == rgb@.len(),
                full == n / 3,
                rest == n % 3,
                0 < rest < 3,
                spec_out == rgb_padded(rgb@),
                spec_out.len() == 4 * full + rest + 1,
                0 <= c <= rest,
                out@.len() == 4 * full + c,
                forall|i: int| 0 <= i < 4 * full + c ==> out@[i] == spec_out[i],
                forall|d: int| 0 <= d < 4 ==> #[trigger] ((4 * full + d) % 4) == d && (4 * full + d) / 4 == full,
            decreases rest - c,
        {
            proof {
                assert((4 * full + c) % 4 == c && (4 * full + c) / 4 == full);
            }
            out.push(rgb[3 * full + c]);
            c = c + 1;
        }
        proof {
            assert((4 * full + rest) % 4 == rest && (4 * full + rest) / 4 == full);
        }
        out.push(255);
    }
    assert(out@ =~= spec_out);
    out
}

/// Why an embedded bitmap glyph could not be rendered.
#[derive(Debug, Clone, Copy, PartialEq, Eq, Structural)]
pub enum BitmapRenderError {
    FontParseFailed,
    NoBitmapTable,
    GlyphNotFound,
    PngDecodeFailed,
    PixmapCreationFailed,
    UnsupportedFormat,
    OutlineRenderFailed,
    NoGlyphAvailable,
}

impl BitmapRenderError {
    /// The error's message.
    pub fn message(&self) -> (r: String)
        ensures
            r@ == bitmap_error_message(*self),
    {
        match self {
            BitmapRenderError::FontParseFailed => String::from_str("failed to parse font"),
            BitmapRenderError::NoBitmapTable => String::from_str(
                "font has no bitmap tables (sbix, CBDT, EBDT)",
            ),
            BitmapRenderError::GlyphNotFound => String::from_str("glyph not found at requested size"),
            BitmapRenderError::PngDecodeFailed => String::from_str("failed to decode PNG data"),
            BitmapRenderError::PixmapCreationFailed => String::from_str("failed to create pixmap"),
            BitmapRenderError::UnsupportedFormat => String::from_str("unsupported bitmap format"),
            BitmapRenderError::OutlineRenderFailed => String::from_str(
                "failed to render outline fallback",
            ),
            BitmapRenderError::NoGlyphAvailable => String::from_str(
                "no glyph available (bitmap or outline)",
            ),
        }
    }
}

/// The message of a bitmap rendering error.
pub open spec fn bitmap_error_message(e: BitmapRenderError) -> Seq<char> {
    match e {
        BitmapRenderError::FontParseFailed => "failed to parse font"@,
        BitmapRenderError::NoBitmapTable => "font has no bitmap tables (sbix, CBDT, EBDT)"@,
        BitmapRenderError::GlyphNotFound => "glyph not found at requested size"@,
        BitmapRenderError::PngDecodeFailed => "failed to decode PNG data"@,
        BitmapRenderError::PixmapCreationFailed => "failed to create pixmap"@,
        BitmapRenderError::UnsupportedFormat => "unsupported bitmap format"@,
        BitmapRenderError::OutlineRenderFailed => "failed to render outline fallback"@,
        BitmapRenderError::NoGlyphAvailable => "no glyph available (bitmap or outline)"@,
    }
}

/// Pixel layouts of a decoded PNG image.
#[derive(Debug, Clone, Copy, PartialEq, Eq, Structural)]
pub enum PngColorType {
    Grayscale,
    Rgb,
    Indexed,
    GrayscaleAlpha,
    Rgba,
}

/// Premultiplied RGBA pixels from decoded PNG pixels of the given layout;
/// indexed images are not supported.
pub fn png_pixels_to_rgba(color: PngColorType, buf: &[u8]) -> (r: Result<Vec<u8>, BitmapRenderError>)
    requires
        color == PngColorType::Rgba ==> buf@.len() % 4 == 0,
        color == PngColorType::GrayscaleAlpha ==> buf@.len() % 2 == 0,
        buf@.len() * 4 <= usize::MAX,
    ensures
        match color {
            PngColorType::Rgba => r matches Ok(v) && v@ == premultiplied(buf@),
            PngColorType::Rgb => r matches Ok(v) && v@ == rgb_padded(buf@),
            PngColorType::Grayscale => r matches Ok(v) && v@ == opaque_gray(buf@),
            PngColorType::GrayscaleAlpha => r matches Ok(v) && v@ == gray_alpha_premultiplied(buf@),
            PngColorType::Indexed => r == Err::<Vec<u8>, BitmapRenderError>(
                BitmapRenderError::UnsupportedFormat,
            ),
        },
{
    match color {
        PngColorType::Rgba => Ok(premultiply_rgba(buf)),
        PngColorType::Rgb => Ok(rgb_to_rgba(buf)),
        PngColorType::Grayscale => Ok(gray_to_rgba(buf)),
        PngColorType::GrayscaleAlpha => Ok(gray_alpha_to_rgba(buf)),
        PngColorType::Indexed => Err(BitmapRenderError::UnsupportedFormat),
    }
}

/// The two COLR glyph formats.
#[derive(Debug, Clone, Copy, PartialEq, Eq, Structural)]
pub enum ColorGlyphFormat {
    ColrV0,
    ColrV1,
}

/// Whether the font has a COLR table.
pub fn has_color_glyphs(font_data: &[u8]) -> (r: bool)
    ensures
        r == colr_table_present(font_data@),
{
    has_colr_table(font_data)
}

/// Whether the font has an SVG table.
pub fn has_svg_glyphs(font_data: &[u8]) -> (r: bool)
    ensures
        r == svg_table_present(font_data@),
{
    has_svg_table(font_data)
}

/// Whether the font has embedded bitmap strikes.
pub fn has_bitmap_glyphs(font_data: &[u8]) -> (r: bool)
    ensures
        r == bitmap_strikes_present(font_data@),
{
    has_bitmap_strikes(font_data)
}

/// How many glyphs are examined for COLR data: the font's glyph count, at
/// most 1000.
pub open spec fn colr_scan_limit(data: Seq<u8>) -> int {
    match maxp_glyph_count(data) {
        Some(n) => if n < 1000 {
            n as int
        } else {
            1000
        },
        None => 0,
    }
}

/// Some glyph below `n` has a COLR v1 glyph.
pub open spec fn colr_v1_below(data: Seq<u8>, n: int) -> bool {
    exists|g: int| 0 <= g < n && #[trigger] colr_glyph_present(data, g as u32, ColorGlyphFormat::ColrV1)
}

/// Some glyph below `n` has a COLR v0 glyph and no glyph up to it has a
/// COLR v1 glyph (the scan stops at the first v1 glyph).
pub open spec fn colr_v0_below(data: Seq<u8>, n: int) -> bool {
    exists|g: int|
        0 <= g < n && #[trigger] colr_glyph_present(data, g as u32, ColorGlyphFormat::ColrV0)
            && !colr_v1_below(data, g + 1)
}

/// The color formats of a font in order of preference: COLR v1, COLR v0,
/// SVG, bitmaps; nothing when the bytes do not read as a font.
pub open spec fn color_font_types(data: Seq<u8>) -> Seq<ColorFontType> {
    if !font_parses(data) {
        Seq::empty()
    } else {
        let n = colr_scan_limit(data);
        (if colr_v1_below(data, n) {
            seq![ColorFontType::ColrV1]
        } else {
            Seq::empty()
        }) + (if colr_v0_below(data, n) {
            seq![ColorFontType::ColrV0]
        } else {
            Seq::empty()
        }) + (if svg_table_present(data) {
            seq![ColorFontType::Svg]
        } else {
            Seq::empty()
        }) + (if bitmap_strikes_present(data) {
            seq![ColorFontType::Bitmap]
        } else {
            Seq::empty()
        })
    }
}

/// The color-glyph formats a font supports, in preferred render order.
pub fn detect_color_font_types(font_data: &[u8]) -> (r: Vec<ColorFontType>)
    ensures
        r@ == color_font_types(font_data@),
{
    let mut types: Vec<ColorFontType> = Vec::new();
    if !parses_as_font(font_data) {
        return types;
    }
    let ghost d = font_data@;
    let n: u16 = match glyph_count(font_data) {
        Some(c) => if c < 1000 {
            c
        } else {
            1000
        },
        None => 0,
    };
    let mut has_v1 = false;
    let mut has_v0 = false;
    let mut gid: u16 = 0;
    while gid < n && !has_v1
        invariant
            d == font_data@,
            n == colr_scan_limit(d),
            0 <= gid <= n,
            has_v1 ==> colr_v1_below(d, n as int),
            !has_v1 ==> !colr_v1_below(d, gid as int),
            has_v0 == colr_v0_below(d, gid as int),
            has_v1 ==> has_v0 == colr_v0_below(d, n as int),
        decreases (n - gid) + (if has_v1 { 0int } else { 1int }),
    {
        if has_colr_glyph(font_data, gid as u32, ColorGlyphFormat::ColrV1) {
            has_v1 = true;
            proof {
                assert(colr_glyph_present(d, gid as u32, ColorGlyphFormat::ColrV1));
                assert(colr_v1_below(d, n as int));
                assert(colr_v0_below(d, n as int) == colr_v0_below(d, gid as int)) by {
                    if colr_v0_below(d, n as int) {
                        let g = choose|g: int|
                            0 <= g < n && #[trigger] colr_glyph_present(d, g as u32, ColorGlyphFormat::ColrV0)
                                && !colr_v1_below(d, g + 1);
                        if g >= gid {
                            assert(colr_glyph_present(d, (gid as int) as u32, ColorGlyphFormat::ColrV1));
                        }
                    }
                }
            }
        } else {
            let v0 = has_colr_glyph(font_data, gid as u32, ColorGlyphFormat::ColrV0);
            if v0 {
                has_v0 = true;
            }
            proof {
                assert(!colr_v1_below(d, gid + 1)) by {
                    if colr_v1_below(d, gid + 1) {
                        let g = choose|g: int| 0 <= g < gid + 1 && #[trigger] colr_glyph_present(d, g as u32, ColorGlyphFormat::ColrV1);
                        assert(g < gid);
                    }
                }
                if v0 {
                    assert(colr_glyph_present(d, (gid as int) as u32, ColorGlyphFormat::ColrV0));
                }
                assert(colr_v0_below(d, gid + 1) == (has_v0)) by {
                    if colr_v0_below(d, gid + 1) {
                        let g = choose|g: int|
                            0 <= g < gid + 1 && #[trigger] colr_glyph_present(d, g as u32, ColorGlyphFormat::ColrV0)
                                && !colr_v1_below(d, g + 1);
                        if g < gid {
                            assert(colr_v0_below(d, gid as int));
                        }
                    }
                }
            }
            gid = gid + 1;
        }
    }
    proof {
        if !has_v1 {
            assert(gid == n);
        }
    }
    if has_v1 {
        types.push(ColorFontType::ColrV1);
    }
    if has_v0 {
        types.push(ColorFontType::ColrV0);
    }
    if has_svg_table(font_data) {
        types.push(ColorFontType::Svg);
    }
    if has_bitmap_strikes(font_data) {
        types.push(ColorFontType::Bitmap);
    }
    assert(types@ =~= color_font_types(d));
    types
}

/// Whether the font supports any color-glyph format.
pub fn has_any_color_support(font_data: &[u8]) -> (r: bool)
    ensures
        r == (color_font_types(font_data@).len() > 0),
{
    detect_color_font_types(font_data).len() > 0
}

/// The preferred color-glyph format of the font, if any.
pub fn get_best_color_type(font_data: &[u8]) -> (r: Option<ColorFontType>)
    ensures
        r == (if color_font_types(font_data@).len() > 0 {
            Some(color_font_types(font_data@)[0])
        } else {
            None::<ColorFontType>
        }),
{
    let types = detect_color_font_types(font_data);
    if types.len() > 0 {
        Some(types[0])
    } else {
        None
    }
}

/// The COLR format of one glyph, preferring version 1.
pub fn get_color_glyph_format(font_data: &[u8], glyph_id: u32) -> (r: Option<ColorGlyphFormat>)
    ensures
        r == (if colr_glyph_present(font_data@, glyph_id, ColorGlyphFormat::ColrV1) {
            Some(ColorGlyphFormat::ColrV1)
        } else if colr_glyph_present(font_data@, glyph_id, ColorGlyphFormat::ColrV0) {
            Some(ColorGlyphFormat::ColrV0)
        } else {
            None::<ColorGlyphFormat>
        }),
{
    if has_colr_glyph(font_data, glyph_id, ColorGlyphFormat::ColrV1) {
        Some(ColorGlyphFormat::ColrV1)
    } else if has_colr_glyph(font_data, glyph_id, ColorGlyphFormat::ColrV0) {
        Some(ColorGlyphFormat::ColrV0)
    } else {
        None
    }
}

/// The pixels a PNG converts to, as premultiplied RGBA.
pub open spec fn png_rgba(color: PngColorType, buf: Seq<u8>) -> Seq<u8> {
    match color {
        PngColorType::Rgba => premultiplied(buf),
        PngColorType::Rgb => rgb_padded(buf),
        PngColorType::Grayscale => opaque_gray(buf),
        _ => gray_alpha_premultiplied(buf),
    }
}

/// Decode an embedded PNG into premultiplied RGBA pixels with its width and
/// height.  Undecodable data and indexed images are refused.
pub fn decode_png_rgba(png_data: &[u8]) -> (r: Result<(Vec<u8>, u32, u32), BitmapRenderError>)
    ensures
        match png_decoded(png_data@) {
            None => r == Err::<(Vec<u8>, u32, u32), BitmapRenderError>(
                BitmapRenderError::PngDecodeFailed,
            ),
            Some((c, buf, w, h)) => if buf.len() * 4 > usize::MAX {
                r == Err::<(Vec<u8>, u32, u32), BitmapRenderError>(
                    BitmapRenderError::PngDecodeFailed,
                )
            } else if c == PngColorType::Indexed {
                r == Err::<(Vec<u8>, u32, u32), BitmapRenderError>(
                    BitmapRenderError::UnsupportedFormat,
                )
            } else {
                r matches Ok((v, rw, rh)) && v@ == png_rgba(c, buf) && rw == w && rh == h
            },
        },
{
    match decode_png(png_data) {
        None => Err(BitmapRenderError::PngDecodeFailed),
        Some((c, buf, w, h)) => {
            if buf.len() > usize::MAX / 4 {
                return Err(BitmapRenderError::PngDecodeFailed);
            }
            match png_pixels_to_rgba(c, buf.as_slice()) {
                Ok(v) => Ok((v, w, h)),
                Err(e) => Err(e),
            }
        },
    }
}

/// Why a color glyph could not be rendered.
#[derive(Debug)]
pub enum ColorRenderError {
    FontParseFailed,
    NoColrTable,
    GlyphNotFound,
    PaintError(skrifa::color::PaintError),
    PixmapCreationFailed,
    NoPalette,
    BitmapError(BitmapRenderError),
}

/// What trying one glyph source gave.
#[derive(Debug)]
pub enum SourceAttempt {
    /// The source rendered the glyph.
    Rendered,
    /// The source has nothing for the glyph; the next one is tried.
    Unavailable,
    /// The source failed; rendering stops with this error.
    Failed(ColorRenderError),
}

/// A source that `render_glyph_with_preference` leaves to the outline
/// renderers.
pub open spec fn is_outline(s: GlyphSource) -> bool {
    s == GlyphSource::Glyf || s == GlyphSource::Cff || s == GlyphSource::Cff2
}

/// The attempt decides: the glyph was rendered or rendering failed.
pub open spec fn decisive(a: SourceAttempt) -> bool {
    !(a is Unavailable)
}

/// The first position among the first `n` where a non-outline source's
/// attempt decides, if any.
pub open spec fn first_decisive(order: Seq<GlyphSource>, attempts: Seq<SourceAttempt>, n: int) -> Option<
    int,
>
    decreases n,
{
    if n <= 0 {
        None
    } else {
        match first_decisive(order, attempts, n - 1) {
            Some(i) => Some(i),
            None => if !is_outline(order[n - 1]) && decisive(attempts[n - 1]) {
                Some(n - 1)
            } else {
                None
            },
        }
    }
}

/// The position of the source whose attempt settles the rendering, trying
/// the sources of `order` in turn (`attempts[i]` is the outcome of
/// `order[i]`; outline sources are skipped): the first that rendered or
/// failed.  The glyph is rendered by that source, or rendering fails with
/// that error; when no position is returned the glyph is not found.
pub fn resolve_preference(order: &Vec<GlyphSource>, attempts: &Vec<SourceAttempt>) -> (r: Option<
    usize,
>)
    requires
        attempts@.len() == order@.len(),
    ensures
        match r {
            Some(i) => first_decisive(order@, attempts@, order@.len() as int) == Some(i as int),
            None => first_decisive(order@, attempts@, order@.len() as int) is None,
        },
{
    let n = order.len();
    let mut i: usize = 0;
    while i < n
        invariant
            n == order@.len(),
            n == attempts@.len(),
            0 <= i <= n,
            first_decisive(order@, attempts@, i as int) is None,
        decreases n - i,
    {
        let s = order[i];
        let outline = s == GlyphSource::Glyf || s == GlyphSource::Cff || s == GlyphSource::Cff2;
        if !outline {
            let decided = match &attempts[i] {
                SourceAttempt::Unavailable => false,
                _ => true,
            };
            if decided {
                proof {
                    assert(first_decisive(order@, attempts@, i as int + 1) == Some(i as int));
                    lemma_first_decisive_stays(order@, attempts@, i as int + 1, n as int);
                }
                return Some(i);
            }
        }
        i = i + 1;
    }
    None
}

/// Once a position decides, later positions do not change the first one.
proof fn lemma_first_decisive_stays(
    order: Seq<GlyphSource>,
    attempts: Seq<SourceAttempt>,
    m: int,
    n: int,
)
    requires
        0 <= m <= n,
        first_decisive(order, attempts, m) is Some,
    ensures
        first_decisive(order, attempts, n) == first_decisive(order, attempts, m),
    decreases n - m,
{
    if m < n {
        lemma_first_decisive_stays(order, attempts, m, n - 1);
    }
}

/// The outcome of trying an embedded bitmap: rendered, skipped when the font
/// has no bitmap for the glyph (no table, no glyph, unsupported format), or
/// failed with the bitmap error.
pub fn bitmap_attempt(result: Result<(), BitmapRenderError>) -> (r: SourceAttempt)
    ensures
        match result {
            Ok(()) => r is Rendered,
            Err(e) => if e == BitmapRenderError::NoBitmapTable || e == BitmapRenderError::GlyphNotFound
                || e == BitmapRenderError::UnsupportedFormat {
                r is Unavailable
            } else {
                r matches SourceAttempt::Failed(ColorRenderError::BitmapError(e2)) && e2 == e
            },
        },
{
    match result {
        Ok(()) => SourceAttempt::Rendered,
        Err(BitmapRenderError::NoBitmapTable) => SourceAttempt::Unavailable,
        Err(BitmapRenderError::GlyphNotFound) => SourceAttempt::Unavailable,
        Err(BitmapRenderError::UnsupportedFormat) => SourceAttempt::Unavailable,
        Err(e) => SourceAttempt::Failed(ColorRenderError::BitmapError(e)),
    }
}

/// Errors after which a renderer falls back to the glyph's outline: the
/// font has no color glyph, no COLR table or no palette.
pub fn allows_outline_fallback(e: &ColorRenderError) -> (r: bool)
    ensures
        r == (*e is GlyphNotFound || *e is NoColrTable || *e is NoPalette),
{
    match e {
        ColorRenderError::GlyphNotFound => true,
        ColorRenderError::NoColrTable => true,
        ColorRenderError::NoPalette => true,
        _ => false,
    }
}

/// How a glyph drawn from `source` is rendered.
pub open spec fn method_of(source: GlyphSource) -> RenderMethod {
    match source {
        GlyphSource::Colr1 => RenderMethod::ColrV1,
        GlyphSource::Colr0 => RenderMethod::ColrV0,
        GlyphSource::Svg => RenderMethod::Svg,
        GlyphSource::Sbix | GlyphSource::Cbdt | GlyphSource::Ebdt => RenderMethod::Bitmap,
        GlyphSource::Glyf | GlyphSource::Cff | GlyphSource::Cff2 => RenderMethod::Outline,
    }
}

/// The rendering method reported for a glyph drawn from `source`: COLR v1
/// or v0, SVG, an embedded bitmap (sbix, CBDT, EBDT), or its outline.
pub fn render_method_for(source: GlyphSource) -> (r: RenderMethod)
    ensures
        r == method_of(source),
{
    match source {
        GlyphSource::Colr1 => RenderMethod::ColrV1,
        GlyphSource::Colr0 => RenderMethod::ColrV0,
        GlyphSource::Svg => RenderMethod::Svg,
        GlyphSource::Sbix | GlyphSource::Cbdt | GlyphSource::Ebdt => RenderMethod::Bitmap,
        GlyphSource::Glyf | GlyphSource::Cff | GlyphSource::Cff2 => RenderMethod::Outline,
    }
}

/// The rank of a color-glyph format in the preferred render order: COLR
/// v1, then COLR v0, then SVG, then embedded bitmaps.
pub open spec fn color_preference(t: ColorFontType) -> int {
    match t {
        ColorFontType::ColrV1 => 0,
        ColorFontType::ColrV0 => 1,
        ColorFontType::Svg => 2,
        ColorFontType::Bitmap => 3,
    }
}

/// The detected formats come in strict preference order: when two formats
/// are both present, the more preferred one comes first, so no format
/// appears twice and the first one (what `get_best_color_type` gives) is
/// the most preferred format the font has.
pub proof fn lemma_color_types_in_preference_order(data: Seq<u8>)
    ensures
        forall|i: int, j: int|
            0 <= i < j < color_font_types(data).len() ==> color_preference(
                #[trigger] color_font_types(data)[i],
            ) < color_preference(#[trigger] color_font_types(data)[j]),
        forall|i: int|
            0 <= i < color_font_types(data).len() ==> color_preference(color_font_types(data)[0])
                <= color_preference(#[trigger] color_font_types(data)[i]),
{
    let s = color_font_types(data);
    if font_parses(data) {
        let n = colr_scan_limit(data);
        let a: Seq<ColorFontType> = if colr_v1_below(data, n) {
            seq![ColorFontType::ColrV1]
        } else {
            Seq::empty()
        };
        let b: Seq<ColorFontType> = if colr_v0_below(data, n) {
            seq![ColorFontType::ColrV0]
        } else {
            Seq::empty()
        };
        let c: Seq<ColorFontType> = if svg_table_present(data) {
            seq![ColorFontType::Svg]
        } else {
            Seq::empty()
        };
        let d: Seq<ColorFontType> = if bitmap_strikes_present(data) {
            seq![ColorFontType::Bitmap]
        } else {
            Seq::empty()
        };
        assert(s == a + b + c + d);
        // Each element's rank equals the block it comes from, and blocks
        // come in increasing rank.
        assert forall|i: int| 0 <= i < s.len() implies color_preference(#[trigger] s[i]) == (if i
            < a.len() {
            0int
        } else if i < a.len() + b.len() {
            1int
        } else if i < a.len() + b.len() + c.len() {
            2int
        } else {
            3int
        }) by {
            if i < a.len() {
                assert(s[i] == a[i]);
            } else if i < a.len() + b.len() {
                assert(s[i] == b[i - a.len()]);
            } else if i < a.len() + b.len() + c.len() {
                assert(s[i] == c[i - a.len() - b.len()]);
            } else {
                assert(s[i] == d[i - a.len() - b.len() - c.len()]);
            }
        }
        assert forall|i: int, j: int| 0 <= i < j < s.len() implies color_preference(#[trigger] s[i])
            < color_preference(#[trigger] s[j]) by {
            assert(a.len() <= 1 && b.len() <= 1 && c.len() <= 1 && d.len() <= 1);
        }
        assert forall|i: int| 0 <= i < s.len() implies color_preference(s[0]) <= color_preference(
            #[trigger] s[i],
        ) by {
            if i > 0 {
                assert(color_preference(s[0]) < color_preference(s[i]));
            }
        }
    }
}

} // verus!
