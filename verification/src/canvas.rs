//! Canvas arithmetic shared by the bitmap renderers: rounding of 26.6 sizes
//! to whole pixels, conversion to pixel coordinates with the saturation of a
//! float-to-integer cast, the blank canvas, and the placement of one glyph.

use vstd::prelude::*;
use crate::bitmap::{channel, composite_glyph, composited, GlyphBitmap};
use crate::fixed::trunc_div;
use crate::types::Color;

verus! {

/// The least integer not below `a / b`, for `b > 0`.
pub open spec fn ceil_div(a: int, b: int) -> int {
    if a >= 0 {
        (a + b - 1) / b
    } else {
        -((-a) / b)
    }
}

/// `ceil_div` is the ceiling: `b * (q - 1) < a <= b * q`.
pub proof fn lemma_ceil_div(a: int, b: int)
    requires
        b > 0,
    ensures
        b * (ceil_div(a, b) - 1) < a <= b * ceil_div(a, b),
{
    if a >= 0 {
        let q = (a + b - 1) / b;
        let r = (a + b - 1) % b;
        assert(a + b - 1 == b * q + r && 0 <= r < b) by (nonlinear_arith)
            requires
                b > 0,
                q == (a + b - 1) / b,
                r == (a + b - 1) % b,
        ;
        assert(b * (q - 1) < a <= b * q) by (nonlinear_arith)
            requires
                a + b - 1 == b * q + r,
                0 <= r < b,
        ;
    } else {
        let m = -a;
        let q = m / b;
        let r = m % b;
        assert(m == b * q + r && 0 <= r < b) by (nonlinear_arith)
            requires
                b > 0,
                m > 0,
                q == m / b,
                r == m % b,
        ;
        assert(b * (-q - 1) < a <= b * (-q)) by (nonlinear_arith)
            requires
                m == b * q + r,
                0 <= r < b,
                a == -m,
        ;
    }
}

/// A float-to-`u32` cast of an integral value: negative values become 0,
/// values above `u32::MAX` become `u32::MAX`.
pub open spec fn sat_u32(v: int) -> int {
    if v < 0 {
        0
    } else if v > u32::MAX {
        u32::MAX as int
    } else {
        v
    }
}

/// `ceil_div` on values whose magnitude fits in 120 bits.
pub fn ceil_div_exec(a: i128, b: i128) -> (r: i128)
    requires
        b > 0,
        -0x1_0000_0000_0000_0000_0000_0000_0000 < a < 0x1_0000_0000_0000_0000_0000_0000_0000,
        b < 0x1_0000_0000_0000_0000_0000_0000_0000,
    ensures
        r == ceil_div(a as int, b as int),
{
    if a >= 0 {
        let n: u128 = (a + b - 1) as u128;
        let q: u128 = n / (b as u128);
        assert(q <= n) by (nonlinear_arith)
            requires
                q == n / (b as u128),
                b > 0,
        ;
        q as i128
    } else {
        let m: u128 = (-a) as u128;
        let q: u128 = m / (b as u128);
        assert(q <= m) by (nonlinear_arith)
            requires
                q == m / (b as u128),
                b > 0,
        ;
        -(q as i128)
    }
}

/// `trunc_div` (division rounding toward zero) on bounded values.
pub fn trunc_div_exec(a: i128, b: i128) -> (r: i128)
    requires
        b > 0,
        -0x1_0000_0000_0000_0000_0000_0000_0000 < a < 0x1_0000_0000_0000_0000_0000_0000_0000,
        b < 0x1_0000_0000_0000_0000_0000_0000_0000,
    ensures
        r == trunc_div(a as int, b as int),
{
    if a >= 0 {
        let q: u128 = (a as u128) / (b as u128);
        assert(q <= a) by (nonlinear_arith)
            requires
                q == (a as u128) / (b as u128),
                b > 0,
                a >= 0,
        ;
        q as i128
    } else {
        let m: u128 = (-a) as u128;
        let q: u128 = m / (b as u128);
        assert(q <= m) by (nonlinear_arith)
            requires
                q == m / (b as u128),
                b > 0,
        ;
        -(q as i128)
    }
}

/// `sat_u32` as code.
pub fn sat_u32_exec(v: i128) -> (r: u32)
    ensures
        r == sat_u32(v as int),
{
    if v < 0 {
        0
    } else if v > u32::MAX as i128 {
        u32::MAX
    } else {
        v as u32
    }
}

/// A canvas of `len` bytes, RGBA, filled with `background` or transparent.
pub open spec fn blank_canvas(len: int, background: Option<Color>) -> Seq<u8> {
    Seq::new(
        len as nat,
        |i: int|
            match background {
                Some(c) => channel(c, i % 4),
                None => 0u8,
            },
    )
}

/// A new canvas of `len` bytes filled with `background`, or transparent.
pub fn new_canvas(len: usize, background: Option<Color>) -> (r: Vec<u8>)
    requires
        len % 4 == 0,
    ensures
        r@ == blank_canvas(len as int, background),
{
    let mut canvas: Vec<u8> = Vec::with_capacity(len);
    let mut k: usize = 0;
    while k < len
        invariant
            0 <= k <= len,
            canvas@.len() == k,
            forall|j: int| 0 <= j < k ==> canvas@[j] == 0u8,
        decreases len - k,
    {
        canvas.push(0u8);
        k = k + 1;
    }
    match background {
        Some(c) => {
            crate::bitmap::fill_background(&mut canvas, c);
        },
        None => {},
    }
    assert(canvas@ =~= blank_canvas(len as int, background));
    canvas
}

/// The glyph can be composited at pen position `(x, y)` without any
/// coordinate leaving the `i32` range, and its coverage matches its size.
pub open spec fn placeable(b: GlyphBitmap, x: int, y: int) -> bool {
    &&& b.data@.len() == b.width * b.height
    &&& b.width * b.height * 4 <= u32::MAX
    &&& i32::MIN <= x <= i32::MAX
    &&& i32::MIN <= y <= i32::MAX
    &&& i32::MIN <= x + b.left
    &&& x + b.left + b.width <= i32::MAX
    &&& i32::MIN <= y - b.top
    &&& y - b.top + b.height <= i32::MAX
}

/// The canvas after placing `b` with its pen at `(x, y)`; a glyph that is
/// not placeable is skipped.
pub open spec fn placed(canvas: Seq<u8>, cw: int, b: GlyphBitmap, x: int, y: int, color: Color) -> Seq<u8> {
    if placeable(b, x, y) {
        Seq::new(canvas.len(), |i: int| composited(canvas, cw, b, x, y, color, i))
    } else {
        canvas
    }
}

/// Composite `b` with its pen at `(x, y)` when it is placeable.
pub fn place_glyph(canvas: &mut Vec<u8>, cw: u32, b: &GlyphBitmap, x: i128, y: i128, color: Color)
    requires
        cw > 0,
        cw * 4 <= u32::MAX,
        old(canvas)@.len() <= u32::MAX,
    ensures
        final(canvas)@ == placed(old(canvas)@, cw as int, *b, x as int, y as int, color),
{
    let bw = b.width as u128;
    let bh = b.height as u128;
    assert(bw * bh <= 0xffff_ffff * 0xffff_ffff) by (nonlinear_arith)
        requires
            bw <= 0xffff_ffff,
            bh <= 0xffff_ffff,
    ;
    let area: u128 = bw * bh;
    let ok = b.data.len() as u128 == area
        && area * 4 <= u32::MAX as u128
        && x >= i32::MIN as i128 && x <= i32::MAX as i128
        && y >= i32::MIN as i128 && y <= i32::MAX as i128
        && x + b.left as i128 >= i32::MIN as i128
        && x + b.left as i128 + b.width as i128 <= i32::MAX as i128
        && y - b.top as i128 >= i32::MIN as i128
        && y - b.top as i128 + b.height as i128 <= i32::MAX as i128;
    if ok {
        let ghost before = canvas@;
        composite_glyph(canvas, cw, b, x as i32, y as i32, color);
        assert(canvas@ =~= placed(before, cw as int, *b, x as int, y as int, color));
    }
}

} // verus!
