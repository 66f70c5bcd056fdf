//! The skia renderer's premultiplied RGBA canvas: the premultiplied
//! background, source pixels of coverage masks and color glyphs, the
//! clamped "over" operator, compositing of one glyph, and the conversion of
//! the finished canvas back to straight alpha.

use vstd::prelude::*;
use crate::bitmap::channel;
use crate::skia_renderer::{SkiaGlyph, SkiaGlyphData};
use crate::types::Color;

verus! {

/// A channel value scaled by an alpha: `c * a / 255`.
pub open spec fn premul(c: int, a: int) -> int {
    c * a / 255
}

/// Premultiplied "over" of one byte: the source byte plus the destination
/// byte scaled by the source's transparency, clamped to 255.
pub open spec fn over(d: u8, s: int, sa: int) -> u8 {
    let v = s + d * (255 - sa) / 255;
    if v > 255 {
        255u8
    } else {
        v as u8
    }
}

/// A canvas of `len` bytes filled with the premultiplied background, or
/// transparent.
pub open spec fn premul_canvas(len: int, background: Option<Color>) -> Seq<u8> {
    Seq::new(
        len as nat,
        |i: int|
            match background {
                Some(c) => if i % 4 == 3 {
                    c.a
                } else {
                    premul(channel(c, i % 4) as int, c.a as int) as u8
                },
                None => 0u8,
            },
    )
}

/// Glyph pixel `k` has source data.
pub open spec fn has_source(g: SkiaGlyph, k: int) -> bool {
    match g.data {
        SkiaGlyphData::Mask(m) => 0 <= k < m@.len(),
        SkiaGlyphData::RgbaPremul(d) => 0 <= k && 4 * k + 3 < d@.len(),
    }
}

/// Byte `c` of the premultiplied source color of glyph pixel `k`: a mask's
/// coverage scales the foreground's alpha, which scales its color; a color
/// glyph gives its own bytes.
pub open spec fn source(g: SkiaGlyph, fg: Color, k: int, c: int) -> int {
    match g.data {
        SkiaGlyphData::Mask(m) => {
            let sa = premul(m@[k] as int, fg.a as int);
            if c == 3 {
                sa
            } else {
                premul(channel(fg, c) as int, sa)
            }
        },
        SkiaGlyphData::RgbaPremul(d) => d@[4 * k + c] as int,
    }
}

/// Canvas byte `i` after compositing glyph `g` with its top-left pixel at
/// canvas position `(x, y)`: canvas pixels covered by a glyph pixel with
/// source data and non-zero source alpha get the source "over" them.
pub open spec fn skia_composited(
    canvas: Seq<u8>,
    cw: int,
    g: SkiaGlyph,
    fg: Color,
    x: int,
    y: int,
    i: int,
) -> u8 {
    let p = i / 4;
    let c = i % 4;
    let px = p % cw;
    let py = p / cw;
    let gx = px - x;
    let gy = py - y;
    let k = gy * g.width + gx;
    if py < (canvas.len() as int) / (cw * 4) && 0 <= gx < g.width && 0 <= gy < g.height && has_source(g, k)
        && source(g, fg, k, 3) != 0 {
        over(canvas[i], source(g, fg, k, c), source(g, fg, k, 3))
    } else {
        canvas[i]
    }
}

/// The canvas after compositing `g` at `(x, y)`.
pub open spec fn skia_placed(canvas: Seq<u8>, cw: int, g: SkiaGlyph, fg: Color, x: int, y: int) -> Seq<
    u8,
> {
    Seq::new(canvas.len(), |i: int| skia_composited(canvas, cw, g, fg, x, y, i))
}

/// The index of the alpha byte of the pixel that byte `i` belongs to.
pub open spec fn alpha_index(i: int) -> int {
    i - i % 4 + 3
}

/// Byte `i` of a premultiplied canvas in straight alpha: color bytes are
/// divided by the pixel's alpha with rounding and clamped; a transparent
/// pixel becomes all zero.
pub open spec fn unpremultiplied(canvas: Seq<u8>, i: int) -> u8 {
    let a = canvas[alpha_index(i)];
    if i % 4 == 3 {
        a
    } else if a == 0 {
        0u8
    } else {
        let v = (canvas[i] * 255 + a / 2) / (a as int);
        if v > 255 {
            255u8
        } else {
            v as u8
        }
    }
}

/// `premul` on bytes.
fn premul_exec(c: u8, a: u8) -> (r: u8)
    ensures
        r == premul(c as int, a as int),
{
    assert(c * a / 255 <= 255) by (nonlinear_arith)
        requires
            0 <= c <= 255,
            0 <= a <= 255,
    ;
    ((c as u32 * a as u32) / 255) as u8
}

/// `over` on bytes.
fn over_exec(d: u8, s: u8, sa: u8) -> (r: u8)
    ensures
        r == over(d, s as int, sa as int),
{
    assert(d * (255 - sa) / 255 <= 255) by (nonlinear_arith)
        requires
            0 <= d <= 255,
            0 <= sa <= 255,
    ;
    let v: u32 = s as u32 + (d as u32 * (255 - sa as u32)) / 255;
    if v > 255 {
        255
    } else {
        v as u8
    }
}

/// A new canvas of `len` bytes holding the premultiplied background.
pub fn new_premul_canvas(len: usize, background: Option<Color>) -> (r: Vec<u8>)
    requires
        len % 4 == 0,
    ensures
        r@ == premul_canvas(len as int, background),
{
    let (r0, g0, b0, a0): (u8, u8, u8, u8) = match background {
        Some(c) => (premul_exec(c.r, c.a), premul_exec(c.g, c.a), premul_exec(c.b, c.a), c.a),
        None => (0, 0, 0, 0),
    };
    let mut canvas: Vec<u8> = Vec::with_capacity(len);
    let mut k: usize = 0;
    while k < len
        invariant
            len % 4 == 0,
            k % 4 == 0,
            0 <= k <= len,
            canvas@.len() == k,
            match background {
                Some(c) => r0 == premul(c.r as int, c.a as int) && g0 == premul(c.g as int, c.a as int)
                    && b0 == premul(c.b as int, c.a as int) && a0 == c.a,
                None => r0 == 0 && g0 == 0 && b0 == 0 && a0 == 0,
            },
            forall|j: int| 0 <= j < k ==> canvas@[j] == premul_canvas(len as int, background)[j],
        decreases len - k,
    {
        canvas.push(r0);
        canvas.push(g0);
        canvas.push(b0);
        canvas.push(a0);
        k = k + 4;
    }
    assert(canvas@ =~= premul_canvas(len as int, background));
    canvas
}

/// Convert a premultiplied canvas to straight alpha in place.
pub fn unpremultiply(canvas: &mut Vec<u8>)
    requires
        old(canvas)@.len() % 4 == 0,
    ensures
        final(canvas)@ == Seq::new(old(canvas)@.len(), |i: int| unpremultiplied(old(canvas)@, i)),
{
    let ghost old_c = canvas@;
    let len = canvas.len();
    let mut j: usize = 0;
    while j < len
        invariant
            len == old_c.len(),
            len % 4 == 0,
            j % 4 == 0,
            0 <= j <= len,
            canvas@.len() == len,
            forall|i: int| 0 <= i < j ==> canvas@[i] == unpremultiplied(old_c, i),
            forall|i: int| j <= i < len ==> canvas@[i] == old_c[i],
        decreases len - j,
    {
        proof {
            assert forall|i: int| j <= i < j + 4 implies #[trigger] alpha_index(i) == j + 3 by {
                lemma_pixel_start(i, j as int);
            }
        }
        let a = canvas[j + 3];
        if a == 0 {
            canvas.set(j, 0);
            canvas.set(j + 1, 0);
            canvas.set(j + 2, 0);
        } else {
            let mut c: usize = 0;
            while c < 3
                invariant
                    len == old_c.len(),
                    j % 4 == 0,
                    j + 4 <= len,
                    canvas@.len() == len,
                    a == old_c[j + 3],
                    a != 0,
                    0 <= c <= 3,
                    forall|i: int| j <= i < j + 4 ==> #[trigger] alpha_index(i) == j + 3,
                    forall|i: int| 0 <= i < j ==> canvas@[i] == unpremultiplied(old_c, i),
                    forall|i: int| j <= i < j + c ==> canvas@[i] == unpremultiplied(old_c, i),
                    forall|i: int| j + c <= i < len ==> canvas@[i] == old_c[i],
                decreases 3 - c,
            {
                let v0 = canvas[j + c];
                assert(v0 * 255 + a / 2 <= 255 * 255 + 127) by (nonlinear_arith)
                    requires
                        0 <= v0 <= 255,
                        0 <= a <= 255,
                ;
                let v: u32 = (v0 as u32 * 255 + a as u32 / 2) / a as u32;
                let b: u8 = if v > 255 {
                    255
                } else {
                    v as u8
                };
                proof {
                    lemma_pixel_start((j + c) as int, j as int);
                }
                canvas.set(j + c, b);
                c = c + 1;
            }
        }
        j = j + 4;
    }
    assert(canvas@ =~= Seq::new(old_c.len(), |i: int| unpremultiplied(old_c, i)));
}

/// For `j` a multiple of 4 and `i` in `j .. j + 4`, `i` rounds down to `j`.
pub proof fn lemma_pixel_start(i: int, j: int)
    requires
        j % 4 == 0,
        j >= 0,
        j <= i < j + 4,
    ensures
        i - i % 4 == j,
{
    assert(i % 4 == i - j) by (nonlinear_arith)
        requires
            j % 4 == 0,
            j >= 0,
            j <= i < j + 4,
    ;
}

/// The premultiplied source color of glyph pixel `k`, if it has data.
fn source_pixel(g: &SkiaGlyph, fg: Color, k: u128) -> (r: Option<(u8, u8, u8, u8)>)
    ensures
        match r {
            Some((r0, g0, b0, a0)) => {
                &&& has_source(*g, k as int)
                &&& r0 == source(*g, fg, k as int, 0)
                &&& g0 == source(*g, fg, k as int, 1)
                &&& b0 == source(*g, fg, k as int, 2)
                &&& a0 == source(*g, fg, k as int, 3)
            },
            None => !has_source(*g, k as int),
        },
{
    match &g.data {
        SkiaGlyphData::Mask(m) => {
            if k < m.len() as u128 {
                let cov = m[k as usize];
                let sa = premul_exec(cov, fg.a);
                Some((premul_exec(fg.r, sa), premul_exec(fg.g, sa), premul_exec(fg.b, sa), sa))
            } else {
                None
            }
        },
        SkiaGlyphData::RgbaPremul(d) => {
            let n = d.len() / 4;
            if k < n as u128 {
                assert(4 * k + 3 < d@.len()) by (nonlinear_arith)
                    requires
                        k < n,
                        n == d@.len() / 4,
                ;
                let b = 4 * (k as usize);
                Some((d[b], d[b + 1], d[b + 2], d[b + 3]))
            } else {
                assert(!(4 * k + 3 < d@.len())) by (nonlinear_arith)
                    requires
                        k >= n,
                        n == d@.len() / 4,
                ;
                None
            }
        },
    }
}

/// Canvas byte `i` lies in pixel `(i / 4) % cw, (i / 4) / cw`; for a pixel
/// `(px, py)` inside the canvas, its bytes are those from `(py * cw + px) * 4`.
proof fn lemma_pixel_of(i: int, cw: int, px: int, py: int)
    requires
        cw > 0,
        0 <= px < cw,
        py >= 0,
        (py * cw + px) * 4 <= i < (py * cw + px) * 4 + 4,
    ensures
        (i / 4) % cw == px,
        (i / 4) / cw == py,
        i % 4 == i - (py * cw + px) * 4,
{
    let p = py * cw + px;
    assert(i / 4 == p && i % 4 == i - p * 4) by (nonlinear_arith)
        requires
            p * 4 <= i < p * 4 + 4,
    ;
    vstd::arithmetic::div_mod::lemma_fundamental_div_mod_converse(p, cw, py, px);
}

/// A canvas byte whose pixel is `(px, py)` lies in the bytes of that pixel.
proof fn lemma_same_pixel(i: int, cw: int, px: int, py: int)
    requires
        cw > 0,
        i >= 0,
        (i / 4) % cw == px,
        (i / 4) / cw == py,
    ensures
        (py * cw + px) * 4 <= i < (py * cw + px) * 4 + 4,
{
    let p = i / 4;
    assert(p == py * cw + px) by (nonlinear_arith)
        requires
            cw > 0,
            p >= 0,
            px == p % cw,
            py == p / cw,
    ;
    assert(p * 4 <= i < p * 4 + 4) by (nonlinear_arith)
        requires
            i >= 0,
            p == i / 4,
    ;
}

/// Composite glyph `g` onto an RGBA canvas `cw` pixels wide and `ch` high,
/// with the glyph's top-left pixel at `(x, y)`; parts outside the canvas are
/// clipped.
pub fn composite_skia_glyph(
    canvas: &mut Vec<u8>,
    cw: u32,
    ch: u32,
    g: &SkiaGlyph,
    fg: Color,
    x: i128,
    y: i128,
)
    requires
        cw > 0,
        ch > 0,
        old(canvas)@.len() == cw * ch * 4,
        -0x1_0000_0000_0000 <= x <= 0x1_0000_0000_0000,
        -0x1_0000_0000_0000 <= y <= 0x1_0000_0000_0000,
    ensures
        final(canvas)@ == skia_placed(old(canvas)@, cw as int, *g, fg, x as int, y as int),
{
    let ghost old_c = canvas@;
    let ghost cwi = cw as int;
    let ghost xi = x as int;
    let ghost yi = y as int;
    proof {
        assert((old_c.len() as int) / (cwi * 4) == ch) by (nonlinear_arith)
            requires
                old_c.len() == cwi * ch * 4,
                cwi > 0,
        ;
    }
    let x0: i128 = if x > 0 {
        x
    } else {
        0
    };
    let y0: i128 = if y > 0 {
        y
    } else {
        0
    };
    let x1: i128 = if x + (g.width as i128) < cw as i128 {
        x + g.width as i128
    } else {
        cw as i128
    };
    let y1: i128 = if y + (g.height as i128) < ch as i128 {
        y + g.height as i128
    } else {
        ch as i128
    };
    let len = canvas.len();
    let mut cy: i128 = y0;
    while cy < y1
        invariant
            len == old_c.len(),
            cwi == cw,
            cw > 0,
            ch > 0,
            xi == x,
            yi == y,
            old_c.len() == cwi * ch * 4,
            (old_c.len() as int) / (cwi * 4) == ch,
            x0 == (if x > 0 { x } else { 0 }),
            y0 == (if y > 0 { y } else { 0 }),
            x1 == (if x + g.width < cw { x + g.width } else { cw as int }),
            y1 == (if y + g.height < ch { y + g.height } else { ch as int }),
            y0 <= cy,
            y0 < y1 ==> cy <= y1,
            canvas@.len() == old_c.len(),
            forall|i: int|
                0 <= i < old_c.len() ==> canvas@[i] == if (i / 4) / cwi < cy {
                    skia_composited(old_c, cwi, *g, fg, xi, yi, i)
                } else {
                    old_c[i]
                },
        decreases y1 - cy,
    {
        let mut cx: i128 = x0;
        while cx < x1
            invariant
                len == old_c.len(),
                cwi == cw,
                cw > 0,
                ch > 0,
                xi == x,
                yi == y,
                old_c.len() == cwi * ch * 4,
                (old_c.len() as int) / (cwi * 4) == ch,
                x0 == (if x > 0 { x } else { 0 }),
                x1 == (if x + g.width < cw { x + g.width } else { cw as int }),
                y1 == (if y + g.height < ch { y + g.height } else { ch as int }),
                0 <= cy < y1,
                y <= cy,
                x0 <= cx,
                x0 < x1 ==> cx <= x1,
                canvas@.len() == old_c.len(),
                forall|i: int|
                    0 <= i < old_c.len() ==> canvas@[i] == if (i / 4) / cwi < cy || ((i / 4) / cwi
                        == cy && (i / 4) % cwi < cx) {
                        skia_composited(old_c, cwi, *g, fg, xi, yi, i)
                    } else {
                        old_c[i]
                    },
            decreases x1 - cx,
        {
            let ghost before = canvas@;
            let gx: u128 = (cx - x) as u128;
            let gy: u128 = (cy - y) as u128;
            assert(gy * g.width + gx < 0x1_0000_0000_0000_0000_0000) by (nonlinear_arith)
                requires
                    gy < g.height,
                    gx < g.width,
                    g.height <= u32::MAX,
                    g.width <= u32::MAX,
            ;
            let k: u128 = gy * (g.width as u128) + gx;
            proof {
                assert((cy * cwi + cx) * 4 + 4 <= old_c.len()) by (nonlinear_arith)
                    requires
                        0 <= cy < ch,
                        0 <= cx < cwi,
                        old_c.len() == cwi * ch * 4,
                ;
            }
            let idx: usize = ((cy as usize) * (cw as usize) + cx as usize) * 4;
            let ghost idxi = idx as int;
            match source_pixel(g, fg, k) {
                Some((sr, sg, sb, sa)) => {
                    if sa != 0 {
                        let d0 = canvas[idx];
                        let d1 = canvas[idx + 1];
                        let d2 = canvas[idx + 2];
                        let d3 = canvas[idx + 3];
                        canvas.set(idx, over_exec(d0, sr, sa));
                        canvas.set(idx + 1, over_exec(d1, sg, sa));
                        canvas.set(idx + 2, over_exec(d2, sb, sa));
                        canvas.set(idx + 3, over_exec(d3, sa, sa));
                    }
                },
                None => {},
            }
            proof {
                assert forall|i: int| 0 <= i < old_c.len() implies canvas@[i] == if (i / 4) / cwi
                    < cy || ((i / 4) / cwi == cy && (i / 4) % cwi < cx + 1) {
                    skia_composited(old_c, cwi, *g, fg, xi, yi, i)
                } else {
                    old_c[i]
                } by {
                    if idxi <= i < idxi + 4 {
                        lemma_pixel_of(i, cwi, cx as int, cy as int);
                        assert(before[i] == old_c[i]);
                    } else {
                        assert(canvas@[i] == before[i]);
                        if (i / 4) / cwi == cy && (i / 4) % cwi == cx {
                            lemma_same_pixel(i, cwi, cx as int, cy as int);
                        }
                    }
                }
            }
            cx = cx + 1;
        }
        proof {
            assert forall|i: int| 0 <= i < old_c.len() implies canvas@[i] == if (i / 4) / cwi < cy
                + 1 {
                skia_composited(old_c, cwi, *g, fg, xi, yi, i)
            } else {
                old_c[i]
            } by {
                let py = (i / 4) / cwi;
                let px = (i / 4) % cwi;
                assert(0 <= px < cwi) by (nonlinear_arith)
                    requires
                        cwi > 0,
                        i >= 0,
                        px == (i / 4) % cwi,
                ;
                if py == cy && !(px < cx) {
                    // Right of the glyph: nothing drawn there.
                    assert(px >= x + g.width || x0 >= x1);
                }
                if py == cy && x0 >= x1 {
                    assert(px < x || px >= x + g.width);
                }
            }
        }
        cy = cy + 1;
    }
    proof {
        assert forall|i: int| 0 <= i < old_c.len() implies canvas@[i] == skia_composited(
            old_c,
            cwi,
            *g,
            fg,
            xi,
            yi,
            i,
        ) by {
            let py = (i / 4) / cwi;
            assert(py >= 0) by (nonlinear_arith)
                requires
                    cwi > 0,
                    i >= 0,
                    py == (i / 4) / cwi,
            ;
            if !(py < cy) {
                assert(py >= y + g.height || py >= ch || y0 >= y1);
            }
        }
        assert(canvas@ =~= skia_placed(old_c, cwi, *g, fg, xi, yi));
    }
}

} // verus!
