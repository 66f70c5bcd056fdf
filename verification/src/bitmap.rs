//! Rasterized glyph bitmaps and their compositing onto an RGBA canvas:
//! coverage is tinted with the text color and blended "over" the canvas.

use vstd::prelude::*;
use crate::types::Color;

verus! {

/// A rendered glyph: `width × height` coverage bytes (0 = empty, 255 =
/// solid), row-major, with the offset of its top-left corner from the pen
/// position (`left` to the right, `top` upward from the baseline).
#[derive(Debug, Clone, PartialEq, Eq)]
pub struct GlyphBitmap {
    pub width: u32,
    pub height: u32,
    pub left: i32,
    pub top: i32,
    pub data: Vec<u8>,
}

impl View for GlyphBitmap {
    /// Width, height, left and top offsets, and the coverage bytes.
    type V = (u32, u32, i32, i32, Seq<u8>);

    open spec fn view(&self) -> (u32, u32, i32, i32, Seq<u8>) {
        (self.width, self.height, self.left, self.top, self.data@)
    }
}

impl GlyphBitmap {
    /// A field-by-field copy of the bitmap.
    pub fn duplicate(&self) -> (r: GlyphBitmap)
        ensures
            r@ == self@,
    {
        let mut data: Vec<u8> = Vec::with_capacity(self.data.len());
        let mut i: usize = 0;
        while i < self.data.len()
            invariant
                0 <= i <= self.data@.len(),
                data@ == self.data@.subrange(0, i as int),
            decreases self.data@.len() - i,
        {
            data.push(self.data[i]);
            i = i + 1;
        }
        assert(data@ == self.data@);
        GlyphBitmap { width: self.width, height: self.height, left: self.left, top: self.top, data }
    }
}

/// One channel of "source over destination" as the blend computes it:
/// `s + (d * (255 - sa)) >> 8`, saturating at 255.
pub open spec fn blend_channel(d: u8, s: u8, sa: u8) -> u8 {
    let v = s + (d * (255 - sa)) / 256;
    if v > 255 {
        255u8
    } else {
        v as u8
    }
}

/// Byte `i` of `dst` blended with `src` pixel by pixel (RGBA, 4 bytes each).
pub open spec fn blended(dst: Seq<u8>, src: Seq<u8>, i: int) -> u8 {
    blend_channel(dst[i], src[i], src[i - i % 4 + 3])
}

fn blend_channel_exec(d: u8, s: u8, sa: u8) -> (r: u8)
    ensures
        r == blend_channel(d, s, sa),
{
    let inv: u8 = 255 - sa;
    assert(d * inv <= 255 * 255) by (nonlinear_arith)
        requires
            0 <= d <= 255,
            0 <= inv <= 255,
    ;
    let prod: u16 = d as u16 * inv as u16;
    assert(prod == d * (255 - sa));
    assert(prod >> 8u16 == prod / 256) by (bit_vector);
    let scaled: u8 = (prod >> 8u16) as u8;
    assert(prod / 256 <= 254) by (nonlinear_arith)
        requires
            prod == d * (255 - sa),
            0 <= d <= 255,
            0 <= sa <= 255,
    ;
    s.saturating_add(scaled)
}

/// Blend `src` over `dst`, both RGBA: each channel becomes
/// `src + dst * (255 - src_alpha) / 256`, saturating at 255.
pub fn blend_over_scalar(dst: &mut Vec<u8>, src: &Vec<u8>)
    requires
        old(dst)@.len() == src@.len(),
        src@.len() % 4 == 0,
    ensures
        final(dst)@.len() == old(dst)@.len(),
        forall|i: int| 0 <= i < src@.len() ==> final(dst)@[i] == blended(old(dst)@, src@, i),
{
    blend_over_at(dst, 0, src, 0, src.len());
    assert forall|i: int| 0 <= i < src@.len() implies dst@[i] == blended(old(dst)@, src@, i) by {
        assert(i - i % 4 + 3 == 0 + ((i - 0) - (i - 0) % 4 + 3));
    }
}

/// Blend `src` over `dst` eight pixels at a time; the result is the
/// scalar blend's.
pub fn blend_over_avx2(dst: &mut Vec<u8>, src: &Vec<u8>)
    requires
        old(dst)@.len() == src@.len(),
        src@.len() % 4 == 0,
    ensures
        final(dst)@.len() == old(dst)@.len(),
        forall|i: int| 0 <= i < src@.len() ==> final(dst)@[i] == blended(old(dst)@, src@, i),
{
    blend_over_chunked(dst, src, 32)
}

/// Blend `src` over `dst` four pixels at a time; the result is the scalar
/// blend's.
pub fn blend_over_sse41(dst: &mut Vec<u8>, src: &Vec<u8>)
    requires
        old(dst)@.len() == src@.len(),
        src@.len() % 4 == 0,
    ensures
        final(dst)@.len() == old(dst)@.len(),
        forall|i: int| 0 <= i < src@.len() ==> final(dst)@[i] == blended(old(dst)@, src@, i),
{
    blend_over_chunked(dst, src, 16)
}

/// Blend `src` over `dst` four pixels at a time; the result is the scalar
/// blend's.
pub fn blend_over_neon(dst: &mut Vec<u8>, src: &Vec<u8>)
    requires
        old(dst)@.len() == src@.len(),
        src@.len() % 4 == 0,
    ensures
        final(dst)@.len() == old(dst)@.len(),
        forall|i: int| 0 <= i < src@.len() ==> final(dst)@[i] == blended(old(dst)@, src@, i),
{
    blend_over_chunked(dst, src, 16)
}

/// Blend in blocks of `chunk` bytes, then the pixels left over.
fn blend_over_chunked(dst: &mut Vec<u8>, src: &Vec<u8>, chunk: usize)
    requires
        old(dst)@.len() == src@.len(),
        src@.len() % 4 == 0,
        chunk > 0,
        chunk % 4 == 0,
    ensures
        final(dst)@.len() == old(dst)@.len(),
        forall|i: int| 0 <= i < src@.len() ==> final(dst)@[i] == blended(old(dst)@, src@, i),
{
    let ghost d0 = dst@;
    let len = src.len();
    let q = len / chunk;
    assert(q * chunk <= len) by (nonlinear_arith)
        requires
            q == len / chunk,
            chunk > 0,
    ;
    let wide = q * chunk;
    let mut i: usize = 0;
    let mut blocks: usize = 0;
    while i < len
        invariant
            len == src@.len(),
            dst@.len() == len,
            d0.len() == len,
            len % 4 == 0,
            wide == q * chunk,
            wide <= len,
            chunk > 0,
            chunk % 4 == 0,
            i % 4 == 0,
            i <= len,
            i < wide ==> i == blocks * chunk,
            blocks <= i,
            forall|j: int| 0 <= j < i ==> dst@[j] == blended(d0, src@, j),
            forall|j: int| i <= j < len ==> dst@[j] == d0[j],
        decreases len - i,
    {
        let n: usize = if i < wide {
            assert(i + chunk <= wide) by (nonlinear_arith)
                requires
                    i == blocks * chunk,
                    i < wide,
                    wide == q * chunk,
                    chunk > 0,
            ;
            chunk
        } else {
            4
        };
        let ghost before = dst@;
        blend_over_at(dst, i, src, i, n);
        proof {
            assert forall|j: int| 0 <= j < i + n implies dst@[j] == blended(d0, src@, j) by {
                if j >= i {
                    let k = j - i;
                    assert(k % 4 == j % 4);
                    assert(before[j] == d0[j]);
                }
            }
            if i < wide {
                assert(i + chunk == (blocks + 1) * chunk) by (nonlinear_arith)
                    requires
                        i == blocks * chunk,
                ;
            }
        }
        if i < wide {
            blocks = blocks + 1;
        }
        i = i + n;
    }
}

/// Blend `src` over `dst`: the pixel blend used when compositing.
pub fn blend_over(dst: &mut Vec<u8>, src: &Vec<u8>)
    requires
        old(dst)@.len() == src@.len(),
        src@.len() % 4 == 0,
    ensures
        final(dst)@.len() == old(dst)@.len(),
        forall|i: int| 0 <= i < src@.len() ==> final(dst)@[i] == blended(old(dst)@, src@, i),
{
    blend_over_scalar(dst, src)
}

/// Blend `n` bytes of `src` starting at `src_start` over the `n` bytes of
/// `dst` starting at `dst_start`.
fn blend_over_at(dst: &mut Vec<u8>, dst_start: usize, src: &Vec<u8>, src_start: usize, n: usize)
    requires
        n % 4 == 0,
        dst_start + n <= old(dst)@.len(),
        src_start + n <= src@.len(),
    ensures
        final(dst)@.len() == old(dst)@.len(),
        forall|i: int|
            0 <= i < old(dst)@.len() ==> final(dst)@[i] == if dst_start <= i < dst_start + n {
                let k = i - dst_start;
                blend_channel(
                    old(dst)@[i],
                    src@[src_start + k],
                    src@[src_start + (k - k % 4) + 3],
                )
            } else {
                old(dst)@[i]
            },
{
    let slen = src.len();
    let dlen = dst.len();
    let mut j: usize = 0;
    while j < n
        invariant
            slen == src@.len(),
            dlen == dst@.len(),
            n % 4 == 0,
            j % 4 == 0,
            0 <= j <= n,
            dst_start + n <= old(dst)@.len(),
            src_start + n <= src@.len(),
            dst@.len() == old(dst)@.len(),
            forall|i: int|
                0 <= i < old(dst)@.len() ==> dst@[i] == if dst_start <= i < dst_start + j {
                    let k = i - dst_start;
                    blend_channel(
                        old(dst)@[i],
                        src@[src_start + k],
                        src@[src_start + (k - k % 4) + 3],
                    )
                } else {
                    old(dst)@[i]
                },
        decreases n - j,
    {
        assert(j + 4 <= n);
        let sa = src[src_start + j + 3];
        let d0 = blend_channel_exec(dst[dst_start + j], src[src_start + j], sa);
        let d1 = blend_channel_exec(dst[dst_start + j + 1], src[src_start + j + 1], sa);
        let d2 = blend_channel_exec(dst[dst_start + j + 2], src[src_start + j + 2], sa);
        let d3 = blend_channel_exec(dst[dst_start + j + 3], src[src_start + j + 3], sa);
        dst.set(dst_start + j, d0);
        dst.set(dst_start + j + 1, d1);
        dst.set(dst_start + j + 2, d2);
        dst.set(dst_start + j + 3, d3);
        j = j + 4;
    }
}

/// Fill every pixel of an RGBA canvas with `color`.
pub fn fill_background(canvas: &mut Vec<u8>, color: Color)
    requires
        old(canvas)@.len() % 4 == 0,
    ensures
        final(canvas)@.len() == old(canvas)@.len(),
        forall|i: int|
            0 <= i < final(canvas)@.len() ==> final(canvas)@[i] == channel(color, i % 4),
{
    let n = canvas.len();
    let mut j: usize = 0;
    while j < n
        invariant
            n == canvas@.len(),
            n % 4 == 0,
            j % 4 == 0,
            0 <= j <= n,
            forall|i: int| 0 <= i < j ==> canvas@[i] == channel(color, i % 4),
        decreases n - j,
    {
        canvas.set(j, color.r);
        canvas.set(j + 1, color.g);
        canvas.set(j + 2, color.b);
        canvas.set(j + 3, color.a);
        j = j + 4;
    }
}

/// Channel `c` (0 = red, 1 = green, 2 = blue, 3 = alpha) of a color.
pub open spec fn channel(color: Color, c: int) -> u8 {
    if c == 0 {
        color.r
    } else if c == 1 {
        color.g
    } else if c == 2 {
        color.b
    } else {
        color.a
    }
}

/// The alpha a coverage value gets when tinted with a color of alpha `a`.
pub open spec fn tinted_alpha(coverage: u8, a: u8) -> u8 {
    (coverage * a / 255) as u8
}

/// Byte `c` of the tinted source pixel for a coverage value.
pub open spec fn tinted(coverage: u8, color: Color, c: int) -> u8 {
    if c == 3 {
        tinted_alpha(coverage, color.a)
    } else {
        channel(color, c)
    }
}

/// The canvas rows: the number of whole `canvas_width`-pixel rows of RGBA.
pub open spec fn canvas_rows(len: int, canvas_width: int) -> int {
    len / (canvas_width * 4)
}

/// Canvas byte `i` after compositing `glyph` with its pen position at
/// `(x, y)`: inside the glyph's box (and inside the canvas) the tinted
/// coverage is blended over the old byte; elsewhere the byte is kept.
pub open spec fn composited(
    canvas: Seq<u8>,
    canvas_width: int,
    glyph: GlyphBitmap,
    x: int,
    y: int,
    color: Color,
    i: int,
) -> u8 {
    let p = i / 4;
    let c = i % 4;
    let px = p % canvas_width;
    let py = p / canvas_width;
    let gx = px - (x + glyph.left);
    let gy = py - (y - glyph.top);
    if py < canvas_rows(canvas.len() as int, canvas_width) && 0 <= gx < glyph.width && 0 <= gy
        < glyph.height {
        let coverage = glyph.data@[gy * glyph.width + gx];
        blend_channel(canvas[i], tinted(coverage, color, c), tinted_alpha(coverage, color.a))
    } else {
        canvas[i]
    }
}

/// The composited byte lies in glyph row `gy` of the composite.
pub open spec fn in_glyph_rows(
    canvas_len: int,
    canvas_width: int,
    glyph: GlyphBitmap,
    y: int,
    i: int,
    rows: int,
) -> bool {
    let py = (i / 4) / canvas_width;
    let gy = py - (y - glyph.top);
    0 <= gy < rows
}

/// Composite one glyph bitmap onto an RGBA canvas `canvas_width` pixels wide,
/// with the pen at `(x, y)` (the glyph's box starts at `x + left`, `y - top`).
/// Parts of the glyph outside the canvas are clipped.
pub fn composite_glyph(
    canvas: &mut Vec<u8>,
    canvas_width: u32,
    glyph: &GlyphBitmap,
    x: i32,
    y: i32,
    color: Color,
)
    requires
        canvas_width > 0,
        canvas_width * 4 <= u32::MAX,
        old(canvas)@.len() <= u32::MAX,
        glyph.width * glyph.height * 4 <= u32::MAX,
        glyph.data@.len() == glyph.width * glyph.height,
        i32::MIN <= x + glyph.left,
        x + glyph.left + glyph.width <= i32::MAX,
        i32::MIN <= y - glyph.top,
        y - glyph.top + glyph.height <= i32::MAX,
    ensures
        final(canvas)@.len() == old(canvas)@.len(),
        forall|i: int|
            0 <= i < old(canvas)@.len() ==> final(canvas)@[i] == composited(
                old(canvas)@,
                canvas_width as int,
                *glyph,
                x as int,
                y as int,
                color,
                i,
            ),
{
    if glyph.width == 0 || glyph.height == 0 {
        return;
    }
    let gw = glyph.width;
    let gh = glyph.height;
    let ox: i64 = x as i64 + glyph.left as i64;
    let oy: i64 = y as i64 - glyph.top as i64;
    let canvas_height: u32 = (canvas.len() as u32) / (canvas_width * 4);
    let ghost cw = canvas_width as int;
    let ghost old_canvas = canvas@;
    proof {
        assert(canvas_height == canvas_rows(old_canvas.len() as int, cw));
        assert(gw * gh * 4 <= u32::MAX);
        assert(gw * gh <= u32::MAX) by (nonlinear_arith)
            requires
                gw * gh * 4 <= u32::MAX,
        ;
    }

    // Tint the coverage: RGB of the color, alpha scaled by coverage.
    let npx: usize = (gw * gh) as usize;
    let mut colored: Vec<u8> = Vec::with_capacity(npx * 4);
    let mut k: usize = 0;
    while k < npx
        invariant
            npx == glyph.data@.len(),
            0 <= k <= npx,
            colored@.len() == 4 * k,
            forall|j: int|
                0 <= j < 4 * k ==> colored@[j] == tinted(glyph.data@[j / 4], color, j % 4),
        decreases npx - k,
    {
        let cov = glyph.data[k];
        proof {
            assert(cov * color.a <= 255 * 255) by (nonlinear_arith)
                requires
                    0 <= cov <= 255,
                    0 <= color.a <= 255,
            ;
            assert(cov * color.a / 255 <= 255) by (nonlinear_arith)
                requires
                    0 <= cov * color.a <= 255 * 255,
            ;
        }
        let alpha: u8 = ((cov as u16 * color.a as u16) / 255) as u8;
        colored.push(color.r);
        colored.push(color.g);
        colored.push(color.b);
        colored.push(alpha);
        k = k + 1;
    }

    let mut gy: u32 = 0;
    while gy < gh
        invariant
            gw == glyph.width,
            gh == glyph.height,
            gw > 0,
            gh > 0,
            cw == canvas_width,
            cw > 0,
            cw * 4 <= u32::MAX,
            old_canvas.len() <= u32::MAX,
            gw * gh * 4 <= u32::MAX,
            colored@.len() == 4 * (gw * gh),
            glyph.data@.len() == gw * gh,
            forall|j: int|
                0 <= j < 4 * (gw * gh) ==> colored@[j] == tinted(glyph.data@[j / 4], color, j % 4),
            ox == x + glyph.left,
            oy == y - glyph.top,
            i32::MIN <= ox,
            ox + gw <= i32::MAX,
            i32::MIN <= oy,
            oy + gh <= i32::MAX,
            canvas_height == canvas_rows(old_canvas.len() as int, cw),
            0 <= gy <= gh,
            canvas@.len() == old_canvas.len(),
            forall|i: int|
                0 <= i < old_canvas.len() ==> canvas@[i] == if in_glyph_rows(
                    old_canvas.len() as int,
                    cw,
                    *glyph,
                    y as int,
                    i,
                    gy as int,
                ) {
                    composited(old_canvas, cw, *glyph, x as int, y as int, color, i)
                } else {
                    old_canvas[i]
                },
        decreases gh - gy,
    {
        let py: i64 = oy + gy as i64;
        if py >= 0 && py < canvas_height as i64 {
            let px_start: i64 = if ox > 0 {
                ox
            } else {
                0
            };
            let px_end: i64 = if ox + (gw as i64) < canvas_width as i64 {
                ox + gw as i64
            } else {
                canvas_width as i64
            };
            if px_start < px_end {
                let gx_start: u32 = (px_start - ox) as u32;
                let row_bytes: usize = ((px_end - px_start) as usize) * 4;
                proof {
                    lemma_canvas_row_in_bounds(
                        old_canvas.len() as int,
                        cw,
                        canvas_height as int,
                        py as int,
                        px_end as int,
                    );
                    lemma_glyph_row_in_bounds(gw as int, gh as int, gy as int, gx_start as int, (px_end - ox) as int);
                }
                let canvas_row_start: usize = ((py as u32 * canvas_width + px_start as u32) * 4) as usize;
                let glyph_row_start: usize = ((gy * gw + gx_start) * 4) as usize;
                let ghost before = canvas@;
                blend_over_at(canvas, canvas_row_start, &colored, glyph_row_start, row_bytes);
                proof {
                    lemma_row_step(
                        old_canvas,
                        before,
                        canvas@,
                        cw,
                        *glyph,
                        x as int,
                        y as int,
                        color,
                        colored@,
                        gy as int,
                        py as int,
                        px_start as int,
                        px_end as int,
                        canvas_height as int,
                    );
                }
            } else {
                proof {
                    lemma_row_empty(old_canvas, canvas@, cw, *glyph, x as int, y as int, color, gy as int, px_start as int, px_end as int, canvas_height as int);
                }
            }
        } else {
            proof {
                lemma_row_outside(old_canvas, canvas@, cw, *glyph, x as int, y as int, color, gy as int, canvas_height as int);
            }
        }
        gy = gy + 1;
    }
    proof {
        assert forall|i: int| 0 <= i < old_canvas.len() implies canvas@[i] == composited(
            old_canvas,
            cw,
            *glyph,
            x as int,
            y as int,
            color,
            i,
        ) by {
            if !in_glyph_rows(old_canvas.len() as int, cw, *glyph, y as int, i, gh as int) {
                let py = (i / 4) / cw;
                assert(!(0 <= py - (y - glyph.top) < glyph.height));
            }
        }
    }
}

proof fn lemma_canvas_row_in_bounds(len: int, cw: int, ch: int, py: int, px_end: int)
    requires
        len >= 0,
        cw > 0,
        ch == len / (cw * 4),
        0 <= py < ch,
        0 <= px_end <= cw,
        len <= u32::MAX,
    ensures
        (py * cw + px_end) * 4 <= len,
        (py * cw + px_end) * 4 <= u32::MAX,
        py * cw <= u32::MAX,
{
    assert((py + 1) * cw * 4 <= ch * (cw * 4)) by (nonlinear_arith)
        requires
            0 <= py < ch,
            cw > 0,
    ;
    assert(ch * (cw * 4) <= len) by (nonlinear_arith)
        requires
            ch == len / (cw * 4),
            cw > 0,
            len >= 0,
    ;
    assert((py * cw + px_end) * 4 <= (py + 1) * cw * 4) by (nonlinear_arith)
        requires
            px_end <= cw,
            0 <= py,
    ;
    assert(py * cw <= (py * cw + px_end) * 4) by (nonlinear_arith)
        requires
            0 <= py,
            cw > 0,
            px_end >= 0,
    ;
}

proof fn lemma_glyph_row_in_bounds(gw: int, gh: int, gy: int, gx_start: int, gx_end: int)
    requires
        0 <= gy < gh,
        0 <= gx_start < gx_end <= gw,
        gw * gh * 4 <= u32::MAX,
    ensures
        (gy * gw + gx_end) * 4 <= 4 * (gw * gh),
        gy * gw <= u32::MAX,
{
    assert((gy + 1) * gw <= gh * gw) by (nonlinear_arith)
        requires
            0 <= gy < gh,
            gw >= 0,
    ;
    assert((gy + 1) * gw == gy * gw + gw) by (nonlinear_arith);
    assert(gh * gw == gw * gh) by (nonlinear_arith);
    assert(gy * gw <= gw * gh) by (nonlinear_arith)
        requires
            0 <= gy < gh,
            gw >= 0,
    ;
}

proof fn lemma_pixel_coords(i: int, cw: int)
    requires
        cw > 0,
        i >= 0,
    ensures
        i == ((i / 4) / cw * cw + (i / 4) % cw) * 4 + i % 4,
        0 <= (i / 4) % cw < cw,
        (i / 4) / cw >= 0,
{
    assert((i / 4) == (i / 4) / cw * cw + (i / 4) % cw) by (nonlinear_arith)
        requires
            cw > 0,
    ;
}

#[verifier::rlimit(40)]
proof fn lemma_row_step(
    old_canvas: Seq<u8>,
    before: Seq<u8>,
    after: Seq<u8>,
    cw: int,
    glyph: GlyphBitmap,
    x: int,
    y: int,
    color: Color,
    colored: Seq<u8>,
    gy: int,
    py: int,
    px_start: int,
    px_end: int,
    ch: int,
)
    requires
        cw > 0,
        glyph.width > 0,
        0 <= gy < glyph.height,
        glyph.data@.len() == glyph.width * glyph.height,
        colored.len() == 4 * (glyph.width * glyph.height),
        forall|j: int|
            0 <= j < 4 * (glyph.width * glyph.height) ==> colored[j] == tinted(
                glyph.data@[j / 4],
                color,
                j % 4,
            ),
        py == y - glyph.top + gy,
        ch == canvas_rows(old_canvas.len() as int, cw),
        0 <= py < ch,
        px_start == (if x + glyph.left > 0 { x + glyph.left } else { 0 }),
        px_end == (if x + glyph.left + glyph.width < cw { x + glyph.left + glyph.width } else { cw }),
        px_start < px_end,
        before.len() == old_canvas.len(),
        after.len() == old_canvas.len(),
        (py * cw + px_end) * 4 <= old_canvas.len(),
        forall|i: int|
            0 <= i < old_canvas.len() ==> before[i] == if in_glyph_rows(
                old_canvas.len() as int,
                cw,
                glyph,
                y,
                i,
                gy,
            ) {
                composited(old_canvas, cw, glyph, x, y, color, i)
            } else {
                old_canvas[i]
            },
        forall|i: int|
            0 <= i < old_canvas.len() ==> after[i] == if (py * cw + px_start) * 4 <= i < (py * cw
                + px_start) * 4 + (px_end - px_start) * 4 {
                let k = i - (py * cw + px_start) * 4;
                let gs = (gy * glyph.width + (px_start - (x + glyph.left))) * 4;
                blend_channel(before[i], colored[gs + k], colored[gs + (k - k % 4) + 3])
            } else {
                before[i]
            },
    ensures
        forall|i: int|
            0 <= i < old_canvas.len() ==> after[i] == if in_glyph_rows(
                old_canvas.len() as int,
                cw,
                glyph,
                y,
                i,
                gy + 1,
            ) {
                composited(old_canvas, cw, glyph, x, y, color, i)
            } else {
                old_canvas[i]
            },
{
    let ox = x + glyph.left;
    let oy = y - glyph.top;
    let gw = glyph.width as int;
    let lo = (py * cw + px_start) * 4;
    let hi = lo + (px_end - px_start) * 4;
    assert forall|i: int| 0 <= i < old_canvas.len() implies after[i] == if in_glyph_rows(
        old_canvas.len() as int,
        cw,
        glyph,
        y,
        i,
        gy + 1,
    ) {
        composited(old_canvas, cw, glyph, x, y, color, i)
    } else {
        old_canvas[i]
    } by {
        lemma_pixel_coords(i, cw);
        let p = i / 4;
        let c = i % 4;
        let ipx = p % cw;
        let ipy = p / cw;
        if lo <= i < hi {
            // The byte lies in canvas row `py`, between the clipped columns.
            let k = i - lo;
            assert(ipy == py && px_start <= ipx < px_end) by {
                assert(i == (ipy * cw + ipx) * 4 + c);
                assert(lo == (py * cw + px_start) * 4);
                if ipy < py {
                    assert((ipy * cw + ipx) * 4 + c < (py * cw) * 4) by (nonlinear_arith)
                        requires
                            ipy < py,
                            0 <= ipx < cw,
                            0 <= c < 4,
                    ;
                } else if ipy > py {
                    assert((ipy * cw) * 4 >= (py * cw + cw) * 4) by (nonlinear_arith)
                        requires
                            ipy > py,
                            cw > 0,
                    ;
                }
            }
            assert(k == (ipx - px_start) * 4 + c);
            assert(k % 4 == c);
            assert(k - k % 4 == (ipx - px_start) * 4);
            let gx = ipx - ox;
            let gs = (gy * gw + (px_start - ox)) * 4;
            assert(gs + k == (gy * gw + gx) * 4 + c);
            assert(gs + (k - k % 4) + 3 == (gy * gw + gx) * 4 + 3);
            assert(0 <= gx < gw);
            assert(0 <= gy * gw + gx < gw * glyph.height) by (nonlinear_arith)
                requires
                    0 <= gy < glyph.height,
                    0 <= gx < gw,
            ;
            assert(((gy * gw + gx) * 4 + c) / 4 == gy * gw + gx);
            assert(((gy * gw + gx) * 4 + c) % 4 == c);
            assert(((gy * gw + gx) * 4 + 3) / 4 == gy * gw + gx);
            assert(((gy * gw + gx) * 4 + 3) % 4 == 3);
            assert(!in_glyph_rows(old_canvas.len() as int, cw, glyph, y, i, gy));
            assert(in_glyph_rows(old_canvas.len() as int, cw, glyph, y, i, gy + 1));
        } else {
            if in_glyph_rows(old_canvas.len() as int, cw, glyph, y, i, gy + 1) && !in_glyph_rows(
                old_canvas.len() as int,
                cw,
                glyph,
                y,
                i,
                gy,
            ) {
                // Same canvas row, but outside the clipped columns: nothing drawn.
                assert(ipy == py);
                assert(i == (py * cw + ipx) * 4 + c);
                if ipx < px_start {
                    assert(i < lo) by (nonlinear_arith)
                        requires
                            i == (py * cw + ipx) * 4 + c,
                            lo == (py * cw + px_start) * 4,
                            ipx < px_start,
                            0 <= c < 4,
                    ;
                    assert(!(0 <= ipx - ox < gw));
                } else {
                    assert(ipx >= px_end);
                    assert(!(0 <= ipx - ox < gw));
                }
            }
        }
    }
}

proof fn lemma_row_empty(
    old_canvas: Seq<u8>,
    canvas: Seq<u8>,
    cw: int,
    glyph: GlyphBitmap,
    x: int,
    y: int,
    color: Color,
    gy: int,
    px_start: int,
    px_end: int,
    ch: int,
)
    requires
        cw > 0,
        0 <= gy,
        px_start == (if x + glyph.left > 0 { x + glyph.left } else { 0 }),
        px_end == (if x + glyph.left + glyph.width < cw { x + glyph.left + glyph.width } else { cw }),
        px_start >= px_end,
        canvas.len() == old_canvas.len(),
        forall|i: int|
            0 <= i < old_canvas.len() ==> canvas[i] == if in_glyph_rows(
                old_canvas.len() as int,
                cw,
                glyph,
                y,
                i,
                gy,
            ) {
                composited(old_canvas, cw, glyph, x, y, color, i)
            } else {
                old_canvas[i]
            },
    ensures
        forall|i: int|
            0 <= i < old_canvas.len() ==> canvas[i] == if in_glyph_rows(
                old_canvas.len() as int,
                cw,
                glyph,
                y,
                i,
                gy + 1,
            ) {
                composited(old_canvas, cw, glyph, x, y, color, i)
            } else {
                old_canvas[i]
            },
{
    assert forall|i: int| 0 <= i < old_canvas.len() implies canvas[i] == if in_glyph_rows(
        old_canvas.len() as int,
        cw,
        glyph,
        y,
        i,
        gy + 1,
    ) {
        composited(old_canvas, cw, glyph, x, y, color, i)
    } else {
        old_canvas[i]
    } by {
        lemma_pixel_coords(i, cw);
    }
}

proof fn lemma_row_outside(
    old_canvas: Seq<u8>,
    canvas: Seq<u8>,
    cw: int,
    glyph: GlyphBitmap,
    x: int,
    y: int,
    color: Color,
    gy: int,
    ch: int,
)
    requires
        cw > 0,
        0 <= gy,
        ch == canvas_rows(old_canvas.len() as int, cw),
        !(0 <= y - glyph.top + gy < ch),
        canvas.len() == old_canvas.len(),
        forall|i: int|
            0 <= i < old_canvas.len() ==> canvas[i] == if in_glyph_rows(
                old_canvas.len() as int,
                cw,
                glyph,
                y,
                i,
                gy,
            ) {
                composited(old_canvas, cw, glyph, x, y, color, i)
            } else {
                old_canvas[i]
            },
    ensures
        forall|i: int|
            0 <= i < old_canvas.len() ==> canvas[i] == if in_glyph_rows(
                old_canvas.len() as int,
                cw,
                glyph,
                y,
                i,
                gy + 1,
            ) {
                composited(old_canvas, cw, glyph, x, y, color, i)
            } else {
                old_canvas[i]
            },
{
    assert forall|i: int| 0 <= i < old_canvas.len() implies canvas[i] == if in_glyph_rows(
        old_canvas.len() as int,
        cw,
        glyph,
        y,
        i,
        gy + 1,
    ) {
        composited(old_canvas, cw, glyph, x, y, color, i)
    } else {
        old_canvas[i]
    } by {
        lemma_pixel_coords(i, cw);
        assert((i / 4) / cw >= 0);
    }
}

} // verus!
