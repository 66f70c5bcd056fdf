//! The JSON renderer's data: each shaped glyph as HarfBuzz reports it, with
//! positions in 26.6 units.

use vstd::prelude::*;
use crate::shaping::eq_ignore_ascii_case;
use crate::text::ascii_lower;
use crate::types::{PositionedGlyph, ShapingResult};

verus! {

/// One glyph in HarfBuzz's JSON layout: glyph ID, cluster, advance and
/// offset in 26.6 units.
#[derive(Debug, Clone, Copy, PartialEq, Eq, Structural)]
pub struct HbGlyphInfo {
    pub g: u32,
    pub cl: usize,
    pub ax: i32,
    pub ay: i32,
    pub dx: i32,
    pub dy: i32,
}

/// The HarfBuzz view of a positioned glyph: no vertical advance.
pub open spec fn hb_info(g: PositionedGlyph) -> HbGlyphInfo {
    HbGlyphInfo {
        g: g.id,
        cl: g.cluster as usize,
        ax: g.advance.0,
        ay: 0,
        dx: g.x.0,
        dy: g.y.0,
    }
}

/// Renders shaping results as data instead of pixels.
#[derive(Debug, Clone, Copy, PartialEq, Eq, Structural)]
pub struct JsonRenderer {}

impl JsonRenderer {
    /// A JSON renderer.
    pub fn new() -> (r: JsonRenderer) {
        JsonRenderer {  }
    }

    /// The renderer's name.
    pub fn name(&self) -> (r: &'static str)
        ensures
            r@ == "JSON"@,
    {
        "JSON"
    }

    /// Only "json", in any ASCII case.
    pub fn supports_format(&self, format: &str) -> (r: bool)
        ensures
            r == (ascii_lower(format@) == "json"@),
    {
        eq_ignore_ascii_case(format, "json")
    }

    /// The glyphs of a shaped run in HarfBuzz's layout, in order.
    pub fn glyph_infos(&self, shaped: &ShapingResult) -> (r: Vec<HbGlyphInfo>)
        ensures
            r@.len() == shaped.glyphs@.len(),
            forall|i: int| 0 <= i < r@.len() ==> r@[i] == hb_info(#[trigger] shaped.glyphs@[i]),
    {
        let mut r: Vec<HbGlyphInfo> = Vec::with_capacity(shaped.glyphs.len());
        let mut i: usize = 0;
        while i < shaped.glyphs.len()
            invariant
                0 <= i <= shaped.glyphs@.len(),
                r@.len() == i,
                forall|j: int| 0 <= j < i ==> r@[j] == hb_info(#[trigger] shaped.glyphs@[j]),
            decreases shaped.glyphs@.len() - i,
        {
            let g = shaped.glyphs[i];
            r.push(
                HbGlyphInfo {
                    g: g.id,
                    cl: g.cluster as usize,
                    ax: g.advance.raw(),
                    ay: 0,
                    dx: g.x.raw(),
                    dy: g.y.raw(),
                },
            );
            i = i + 1;
        }
        r
    }
}

impl Default for JsonRenderer {
    /// Same as `new`.
    fn default() -> (r: JsonRenderer) {
        JsonRenderer::new()
    }
}

} // verus!
