//! Queries on raw font and image bytes answered by skrifa, png, flate2 and
//! std.  Each answer depends on the bytes alone and is given a name, so that
//! the library's logic can be stated over it; nothing more is claimed of
//! these calls than what each item's documentation says.

use vstd::prelude::*;
use crate::color_render::{ColorGlyphFormat, PngColorType};
use skrifa::raw::TableProvider;
use skrifa::MetadataProvider;
use std::io::Read;

verus! {

/// skrifa's error for a COLR glyph that cannot be painted; carried, not
/// inspected.
#[verifier::external_type_specification]
#[verifier::external_body]
pub struct ExPaintError(skrifa::color::PaintError);

/// Whether skrifa reads the bytes as a font.
pub uninterp spec fn font_parses(data: Seq<u8>) -> bool;

/// Wraps `skrifa::FontRef::new`: whether it accepts the bytes.
#[verifier::external_body]
pub(crate) fn parses_as_font(data: &[u8]) -> (r: bool)
    ensures
        r == font_parses(data@),
{
    skrifa::FontRef::new(data).is_ok()
}

/// The glyph count of the font's `maxp` table, if the font and table read.
pub uninterp spec fn maxp_glyph_count(data: Seq<u8>) -> Option<u16>;

/// Wraps `FontRef::maxp` and `Maxp::num_glyphs`: the glyph count, `None`
/// when the font or its `maxp` table does not read.
#[verifier::external_body]
pub(crate) fn glyph_count(data: &[u8]) -> (r: Option<u16>)
    ensures
        r == maxp_glyph_count(data@),
{
    match skrifa::FontRef::new(data) {
        Ok(font) => font.maxp().ok().map(|m| m.num_glyphs()),
        Err(_) => None,
    }
}

/// Whether the font's COLR table holds a glyph of the given format for `gid`.
pub uninterp spec fn colr_glyph_present(data: Seq<u8>, gid: u32, format: ColorGlyphFormat) -> bool;

/// Wraps `ColorGlyphCollection::get_with_format`: whether it finds a color
/// glyph of `format` for `gid`; false when the font does not read.
#[verifier::external_body]
pub(crate) fn has_colr_glyph(data: &[u8], gid: u32, format: ColorGlyphFormat) -> (r: bool)
    ensures
        r == colr_glyph_present(data@, gid, format),
{
    let f = match format {
        ColorGlyphFormat::ColrV0 => skrifa::color::ColorGlyphFormat::ColrV0,
        ColorGlyphFormat::ColrV1 => skrifa::color::ColorGlyphFormat::ColrV1,
    };
    match skrifa::FontRef::new(data) {
        Ok(font) => font.color_glyphs().get_with_format(skrifa::GlyphId::new(gid), f).is_some(),
        Err(_) => false,
    }
}

/// Whether the font has a readable COLR table.
pub uninterp spec fn colr_table_present(data: Seq<u8>) -> bool;

/// Wraps `FontRef::colr`: whether the table reads; false when the font
/// does not.
#[verifier::external_body]
pub(crate) fn has_colr_table(data: &[u8]) -> (r: bool)
    ensures
        r == colr_table_present(data@),
{
    match skrifa::FontRef::new(data) {
        Ok(font) => font.colr().is_ok(),
        Err(_) => false,
    }
}

/// Whether the font has a readable SVG table.
pub uninterp spec fn svg_table_present(data: Seq<u8>) -> bool;

/// Wraps `FontRef::svg`: whether the table reads; false when the font does
/// not.
#[verifier::external_body]
pub(crate) fn has_svg_table(data: &[u8]) -> (r: bool)
    ensures
        r == svg_table_present(data@),
{
    match skrifa::FontRef::new(data) {
        Ok(font) => font.svg().is_ok(),
        Err(_) => false,
    }
}

/// Whether the font has bitmap strikes (sbix, CBDT/CBLC or EBDT/EBLC).
pub uninterp spec fn bitmap_strikes_present(data: Seq<u8>) -> bool;

/// Wraps `BitmapStrikes::new` and `BitmapStrikes::is_empty`: whether some
/// strike exists; false when the font does not read.
#[verifier::external_body]
pub(crate) fn has_bitmap_strikes(data: &[u8]) -> (r: bool)
    ensures
        r == bitmap_strikes_present(data@),
{
    match skrifa::FontRef::new(data) {
        Ok(font) => !skrifa::bitmap::BitmapStrikes::new(&font).is_empty(),
        Err(_) => false,
    }
}

/// The SVG table's document records, as (first glyph, last glyph, offset,
/// length), with the bytes of the document list they point into; `None`
/// when the font, the table or the list does not read.
pub uninterp spec fn svg_document_list(data: Seq<u8>) -> Option<(Seq<(u32, u32, u32, u32)>, Seq<u8>)>;

/// Wraps `Svg::svg_document_list`, `SVGDocumentList::document_records` and
/// `offset_data`: the records and the list's bytes.
#[verifier::external_body]
pub(crate) fn svg_documents(data: &[u8]) -> (r: Option<(Vec<(u32, u32, u32, u32)>, Vec<u8>)>)
    ensures
        match r {
            Some((recs, bytes)) => svg_document_list(data@) == Some((recs@, bytes@)),
            None => svg_document_list(data@) is None,
        },
{
    let font = skrifa::FontRef::new(data).ok()?;
    let list = font.svg().ok()?.svg_document_list().ok()?;
    let recs = list.document_records().iter().map(|r| (
        r.start_glyph_id().to_u32(),
        r.end_glyph_id().to_u32(),
        r.svg_doc_offset(),
        r.svg_doc_length(),
    )).collect();
    Some((recs, list.offset_data().as_bytes().to_vec()))
}

/// The decoded PNG image: pixel layout, pixel bytes, width and height.
pub uninterp spec fn png_decoded(data: Seq<u8>) -> Option<(PngColorType, Seq<u8>, u32, u32)>;

/// Wraps `png::Decoder::read_info`, `Reader::output_buffer_size` and
/// `Reader::next_frame`: the first frame's layout, its `buffer_size()`
/// bytes and its size, or `None` when decoding fails.  The crate computes
/// that size as rows of `width × samples × bytes per sample`, with RGBA and
/// gray-alpha images only at 8 or 16 bits, so an RGBA buffer holds a
/// multiple of 4 bytes and a gray-alpha buffer an even number.
#[verifier::external_body]
pub(crate) fn decode_png(data: &[u8]) -> (r: Option<(PngColorType, Vec<u8>, u32, u32)>)
    ensures
        match r {
            Some((c, buf, w, h)) => {
                &&& png_decoded(data@) == Some((c, buf@, w, h))
                &&& c == PngColorType::Rgba ==> buf@.len() % 4 == 0
                &&& c == PngColorType::GrayscaleAlpha ==> buf@.len() % 2 == 0
            },
            None => png_decoded(data@) is None,
        },
{
    let mut reader = png::Decoder::new(std::io::Cursor::new(data)).read_info().ok()?;
    let mut buf = vec![0u8; reader.output_buffer_size()?];
    let info = reader.next_frame(&mut buf).ok()?;
    let c = match info.color_type {
        png::ColorType::Grayscale => PngColorType::Grayscale,
        png::ColorType::Rgb => PngColorType::Rgb,
        png::ColorType::Indexed => PngColorType::Indexed,
        png::ColorType::GrayscaleAlpha => PngColorType::GrayscaleAlpha,
        png::ColorType::Rgba => PngColorType::Rgba,
    };
    buf.truncate(info.buffer_size());
    Some((c, buf, info.width, info.height))
}

/// The text that gzip-compressed bytes expand to, if they expand to UTF-8.
pub uninterp spec fn gunzipped_text(data: Seq<u8>) -> Option<Seq<char>>;

/// Wraps `flate2::read::GzDecoder` and `Read::read_to_string`: the
/// decompressed text, `None` when decompression or UTF-8 decoding fails.
#[verifier::external_body]
pub(crate) fn gunzip_text(data: &[u8]) -> (r: Option<String>)
    ensures
        match r {
            Some(s) => gunzipped_text(data@) == Some(s@),
            None => gunzipped_text(data@) is None,
        },
{
    let mut text = String::new();
    flate2::read::GzDecoder::new(data).read_to_string(&mut text).ok()?;
    Some(text)
}

/// The text that bytes spell in UTF-8, if they are valid UTF-8.
pub uninterp spec fn utf8_text(data: Seq<u8>) -> Option<Seq<char>>;

/// Wraps `String::from_utf8`: the text, `None` for invalid UTF-8.
#[verifier::external_body]
pub(crate) fn decode_utf8(data: Vec<u8>) -> (r: Option<String>)
    ensures
        match r {
            Some(s) => utf8_text(data@) == Some(s@),
            None => utf8_text(data@) is None,
        },
{
    String::from_utf8(data).ok()
}

} // verus!
