//! Grayscale images produced by the orge rasterizer, its error type, and the
//! rasterizer settings that turn an outline into an image.

use vstd::prelude::*;
use crate::scan_converter::{
    mono_image, path_effect, path_safe, scan_fits, DropoutMode, FillRule, OutlineState, PathCommand,
    ScanConverter,
};
use crate::edge::Edge;
use crate::fixed::F26Dot6;
use crate::outline_bounds::{box_ok, command_in_box, in_box, lemma_path_in_box, lemma_scan_fits, path_in_box};
use crate::scan_converter::table_edge_total;
use crate::text::{decimal, decimal_string};

verus! {

/// Errors of the orge rasterizer.
#[derive(Debug, Clone, PartialEq, Eq)]
pub enum OrgeError {
    /// Invalid render parameters.
    InvalidParams(String),
    /// A glyph could not be rasterized.
    RasterizationFailed { glyph_id: u32, reason: String },
    /// The font could not be read.
    FontError(String),
    /// An internal inconsistency.
    Internal(String),
}

impl OrgeError {
    /// The error's message: its kind, a colon, and its detail.
    pub fn message(&self) -> (r: String)
        ensures
            match self {
                OrgeError::InvalidParams(m) => r@ == "Invalid render parameters: "@ + m@,
                OrgeError::RasterizationFailed { glyph_id, reason } => r@ == "Failed to rasterize glyph "@
                    + decimal(*glyph_id as nat) + ": "@ + reason@,
                OrgeError::FontError(m) => r@ == "Font error: "@ + m@,
                OrgeError::Internal(m) => r@ == "Internal error: "@ + m@,
            },
    {
        proof {
            reveal_strlit("Invalid render parameters: ");
            reveal_strlit("Font error: ");
            reveal_strlit("Internal error: ");
            reveal_strlit("Failed to rasterize glyph ");
        }
        match self {
            OrgeError::InvalidParams(m) => {
                let s = String::from_str("Invalid render parameters: ");
                s.concat(m.as_str())
            },
            OrgeError::RasterizationFailed { glyph_id, reason } => {
                let s = String::from_str("Failed to rasterize glyph ");
                let id = decimal_string(*glyph_id as u64);
                let s = s.concat(id.as_str());
                let s = s.concat(": ");
                s.concat(reason.as_str())
            },
            OrgeError::FontError(m) => {
                let s = String::from_str("Font error: ");
                s.concat(m.as_str())
            },
            OrgeError::Internal(m) => {
                let s = String::from_str("Internal error: ");
                s.concat(m.as_str())
            },
        }
    }
}

/// A grayscale image: `width * height` bytes, row-major.
#[derive(Clone, Debug)]
pub struct Image {
    width: u32,
    height: u32,
    pixels: Vec<u8>,
}

impl Image {
    /// Width in pixels.
    pub closed spec fn w(self) -> int {
        self.width as int
    }

    /// Height in pixels.
    pub closed spec fn h(self) -> int {
        self.height as int
    }

    /// The pixels, row-major.
    pub closed spec fn px(self) -> Seq<u8> {
        self.pixels@
    }

    /// Well-formed: non-zero dimensions and exactly `width * height` pixels.
    pub closed spec fn wf(self) -> bool {
        &&& self.width > 0
        &&& self.height > 0
        &&& self.pixels@.len() == self.width * self.height
    }

    /// Build an image, rejecting zero dimensions and a pixel buffer whose
    /// length is not `width * height`.
    pub fn new(width: u32, height: u32, pixels: Vec<u8>) -> (r: Result<Image, OrgeError>)
        ensures
            (width == 0 || height == 0) <==> r matches Err(OrgeError::InvalidParams(_)),
            (width != 0 && height != 0 && pixels@.len() != width * height) <==> r matches Err(
                OrgeError::Internal(_),
            ),
            r is Ok <==> (width != 0 && height != 0 && pixels@.len() == width * height),
            r matches Ok(img) ==> img.wf() && img.w() == width && img.h() == height && img.px()
                == pixels@,
            r matches Err(OrgeError::InvalidParams(m)) ==> m@ == "Image dimensions must be non-zero"@,
    {
        if width == 0 || height == 0 {
            return Err(OrgeError::InvalidParams(String::from_str("Image dimensions must be non-zero")));
        }
        proof {
            assert((width as u64) * (height as u64) <= 0xffff_ffff_ffff_ffff) by (nonlinear_arith)
                requires width <= 0xffff_ffff, height <= 0xffff_ffff;
        }
        let expected: u64 = (width as u64) * (height as u64);
        if pixels.len() as u64 != expected {
            proof {
                reveal_strlit("Pixel data size mismatch: expected ");
            }
            let msg = String::from_str("Pixel data size mismatch: expected ");
            let e = expected.to_string();
            let msg = msg.concat(e.as_str());
            let msg = msg.concat(" bytes, got ");
            let g = pixels.len().to_string();
            let msg = msg.concat(g.as_str());
            return Err(OrgeError::Internal(msg));
        }
        Ok(Image { width, height, pixels })
    }

    /// The pixels, row-major.
    pub fn pixels(&self) -> (r: &[u8])
        ensures
            r@ == self.px(),
    {
        self.pixels.as_slice()
    }

    /// The owned pixel buffer.
    pub fn into_pixels(self) -> (r: Vec<u8>)
        ensures
            r@ == self.px(),
    {
        self.pixels
    }

    /// Width in pixels.
    pub fn width(&self) -> (r: u32)
        ensures
            r == self.w(),
    {
        self.width
    }

    /// Height in pixels.
    pub fn height(&self) -> (r: u32)
        ensures
            r == self.h(),
    {
        self.height
    }

    /// Whether every pixel is zero (a blank render).
    pub fn is_empty(&self) -> (r: bool)
        ensures
            r == (forall|i: int| 0 <= i < self.px().len() ==> self.px()[i] == 0u8),
    {
        let mut i: usize = 0;
        while i < self.pixels.len()
            invariant
                0 <= i <= self.pixels@.len(),
                forall|k: int| 0 <= k < i ==> self.pixels@[k] == 0u8,
            decreases self.pixels@.len() - i,
        {
            if self.pixels[i] != 0 {
                proof {
                    assert(self.px()[i as int] != 0u8);
                }
                return false;
            }
            i = i + 1;
        }
        true
    }
}

/// Settings of the orge glyph rasterizer.
#[derive(Clone, Debug)]
pub struct GlyphRasterizer {
    /// Fill rule used for every glyph.
    pub fill_rule: FillRule,
    /// Dropout control used for every glyph.
    pub dropout_mode: DropoutMode,
}

/// The outline state of a fresh converter with `h` scanlines.
pub open spec fn fresh_outline(h: int) -> OutlineState {
    (Seq::new(h as nat, |i: int| Seq::<Edge>::empty()), (F26Dot6(0), F26Dot6(0)), (F26Dot6(0), F26Dot6(0)))
}

impl GlyphRasterizer {
    /// Non-zero winding, no dropout control.
    pub fn new() -> (r: GlyphRasterizer)
        ensures
            r.fill_rule == FillRule::NonZeroWinding,
            r.dropout_mode == DropoutMode::Off,
    {
        GlyphRasterizer { fill_rule: FillRule::NonZeroWinding, dropout_mode: DropoutMode::Off }
    }

    /// The same settings with another fill rule.
    pub fn with_fill_rule(self, rule: FillRule) -> (r: GlyphRasterizer)
        ensures
            r.fill_rule == rule,
            r.dropout_mode == self.dropout_mode,
    {
        GlyphRasterizer { fill_rule: rule, ..self }
    }

    /// The same settings with another dropout mode.
    pub fn with_dropout_mode(self, mode: DropoutMode) -> (r: GlyphRasterizer)
        ensures
            r.fill_rule == self.fill_rule,
            r.dropout_mode == mode,
    {
        GlyphRasterizer { dropout_mode: mode, ..self }
    }

    /// Rasterize an outline, already scaled and positioned in 26.6 pixel
    /// coordinates, into a `width × height` monochrome image (1 = covered).
    pub fn rasterize_outline(&self, outline: &Vec<PathCommand>, width: u32, height: u32) -> (r: Result<
        Image,
        OrgeError,
    >)
        requires
            width <= i32::MAX,
            height <= i32::MAX,
            width * height <= usize::MAX,
            path_safe(fresh_outline(height as int), height as int, outline@),
            scan_fits(
                Seq::<Edge>::empty(),
                path_effect(fresh_outline(height as int), height as int, outline@).0,
                height as int,
            ),
        ensures
            (width == 0 || height == 0) <==> r is Err,
            r matches Ok(img) ==> img.wf() && img.w() == width && img.h() == height && img.px()
                == mono_image(
                Seq::<Edge>::empty(),
                path_effect(fresh_outline(height as int), height as int, outline@).0,
                self.fill_rule,
                width as int,
                height as int,
            ),
    {
        let mut converter = ScanConverter::new(width as usize, height as usize);
        converter.set_fill_rule(self.fill_rule);
        converter.set_dropout_mode(self.dropout_mode);
        proof {
            assert(converter.outline() == fresh_outline(height as int));
        }
        converter.apply_path(outline);
        let total = (width as usize) * (height as usize);
        let mut bitmap: Vec<u8> = Vec::with_capacity(total);
        let mut k: usize = 0;
        while k < total
            invariant
                0 <= k <= total,
                bitmap@.len() == k,
            decreases total - k,
        {
            bitmap.push(0u8);
            k = k + 1;
        }
        converter.render_mono(&mut bitmap);
        Image::new(width, height, bitmap)
    }
}

/// Whether a point lies in `[0, bw] × [0, bh]` (26.6 units).
fn point_in_box(x: F26Dot6, y: F26Dot6, bw: i64, bh: i64) -> (r: bool)
    ensures
        r == in_box((x, y), bw as int, bh as int),
{
    let xv = x.raw() as i64;
    let yv = y.raw() as i64;
    0 <= xv && xv <= bw && 0 <= yv && yv <= bh
}

/// Whether every point of the outline lies in `[0, bw] × [0, bh]`.
pub fn outline_in_box(outline: &Vec<PathCommand>, bw: i64, bh: i64) -> (r: bool)
    ensures
        r == path_in_box(outline@, bw as int, bh as int),
{
    let mut i: usize = 0;
    while i < outline.len()
        invariant
            0 <= i <= outline@.len(),
            forall|j: int| 0 <= j < i ==> command_in_box(#[trigger] outline@[j], bw as int, bh as int),
        decreases outline@.len() - i,
    {
        let ok = match outline[i] {
            PathCommand::MoveTo(x, y) => point_in_box(x, y, bw, bh),
            PathCommand::LineTo(x, y) => point_in_box(x, y, bw, bh),
            PathCommand::QuadTo(x1, y1, x2, y2) => point_in_box(x1, y1, bw, bh) && point_in_box(
                x2,
                y2,
                bw,
                bh,
            ),
            PathCommand::CubicTo(x1, y1, x2, y2, x3, y3) => point_in_box(x1, y1, bw, bh)
                && point_in_box(x2, y2, bw, bh) && point_in_box(x3, y3, bw, bh),
            PathCommand::Close => true,
        };
        if !ok {
            return false;
        }
        i = i + 1;
    }
    true
}

impl GlyphRasterizer {
    /// Rasterize an outline, scaled and positioned in 26.6 pixel coordinates,
    /// into a `width × height` monochrome image (1 = covered), refusing what
    /// the scan converter cannot draw exactly: a zero side (as `Image::new`
    /// does), a canvas over 4096 pixels either way, a point outside the
    /// canvas rows or left of it or 4096 pixels right of it, or 2^31 - 1 or
    /// more edges.
    pub fn rasterize_outline_checked(&self, outline: &Vec<PathCommand>, width: u32, height: u32) -> (r:
        Result<Image, OrgeError>)
        ensures
            width == 0 || height == 0 ==> (r matches Err(OrgeError::InvalidParams(m)) && m@
                == "Image dimensions must be non-zero"@),
            width > 0 && height > 0 && (width > 4096 || height > 4096 || !path_in_box(
                outline@,
                0x4_0000,
                64 * height,
            )) ==> (r matches Err(OrgeError::Internal(m)) && m@ == "outline outside the canvas"@),
            width > 0 && height > 0 && width <= 4096 && height <= 4096 && path_in_box(
                outline@,
                0x4_0000,
                64 * height,
            ) ==> ({
                let table = path_effect(fresh_outline(height as int), height as int, outline@).0;
                if table_edge_total(table, height as int) >= 0x7fff_ffff {
                    r matches Err(OrgeError::Internal(m)) && m@ == "too many edges"@
                } else {
                    r matches Ok(img) && img.wf() && img.w() == width && img.h() == height
                        && img.px() == mono_image(
                        Seq::<Edge>::empty(),
                        table,
                        self.fill_rule,
                        width as int,
                        height as int,
                    )
                }
            }),
    {
        if width == 0 || height == 0 {
            return Err(OrgeError::InvalidParams(String::from_str("Image dimensions must be non-zero")));
        }
        if width > 4096 || height > 4096 || !outline_in_box(outline, 0x4_0000, 64 * height as i64) {
            return Err(OrgeError::Internal(String::from_str("outline outside the canvas")));
        }
        let mut converter = ScanConverter::new(width as usize, height as usize);
        converter.set_fill_rule(self.fill_rule);
        converter.set_dropout_mode(self.dropout_mode);
        proof {
            assert(converter.outline() == fresh_outline(height as int));
            assert(box_ok(0x4_0000, 64 * height, height as int));
            lemma_path_in_box(fresh_outline(height as int), height as int, outline@, 0x4_0000, 64 * height);
        }
        converter.apply_path(outline);
        if !converter.edge_count_fits() {
            return Err(OrgeError::Internal(String::from_str("too many edges")));
        }
        proof {
            lemma_scan_fits(converter.table(), height as int);
            assert(width * height <= 4096 * 4096) by (nonlinear_arith)
                requires
                    0 < width <= 4096,
                    0 < height <= 4096,
            ;
        }
        let total = (width as usize) * (height as usize);
        let mut bitmap: Vec<u8> = Vec::with_capacity(total);
        let mut k: usize = 0;
        while k < total
            invariant
                0 <= k <= total,
                bitmap@.len() == k,
            decreases total - k,
        {
            bitmap.push(0u8);
            k = k + 1;
        }
        converter.render_mono(&mut bitmap);
        Image::new(width, height, bitmap)
    }
}

} // verus!
