use typf::fixed::F26Dot6;
use typf::glyph_cache::GlyphCacheKey;
use typf::glyph_raster::{outline_pixel_box, rasterize_glyph_outline, render_glyph_outline, GlyphRasterError};
use typf::opixa_renderer::OpixaRenderer;
use typf::scan_converter::{DropoutMode, FillRule, PathCommand};

fn px(v: f32) -> F26Dot6 {
    F26Dot6::from_raw((v * 64.0) as i32)
}

fn square(x0: f32, y0: f32, x1: f32, y1: f32) -> Vec<PathCommand> {
    vec![
        PathCommand::MoveTo(px(x0), px(y0)),
        PathCommand::LineTo(px(x1), px(y0)),
        PathCommand::LineTo(px(x1), px(y1)),
        PathCommand::LineTo(px(x0), px(y1)),
        PathCommand::Close,
    ]
}

#[test]
fn empty_outline_gives_empty_bitmap() {
    let b = rasterize_glyph_outline(&vec![], 4, FillRule::NonZeroWinding, DropoutMode::Off).unwrap();
    assert_eq!((b.width, b.height, b.left, b.top), (0, 0, 0, 0));
    assert!(b.data.is_empty());
}

#[test]
fn pixel_aligned_square_is_fully_covered() {
    let b = rasterize_glyph_outline(&square(0.0, 0.0, 4.0, 4.0), 4, FillRule::NonZeroWinding, DropoutMode::Off)
        .unwrap();
    assert_eq!((b.width, b.height, b.left, b.top), (4, 4, 0, 4));
    assert_eq!(b.data, vec![255u8; 16]);
}

#[test]
fn half_pixel_square_gives_partial_coverage() {
    // From 0.5 to 1.5 pixels: the box is 2x2 pixels and each pixel is a
    // quarter covered.
    let b = rasterize_glyph_outline(&square(0.5, 0.5, 1.5, 1.5), 2, FillRule::NonZeroWinding, DropoutMode::Off)
        .unwrap();
    assert_eq!((b.width, b.height, b.left, b.top), (2, 2, 0, 2));
    assert_eq!(b.data, vec![63u8; 4]);
}

#[test]
fn glyph_box_follows_bearings() {
    let b = rasterize_glyph_outline(&square(-3.0, -2.0, 5.0, 7.0), 8, FillRule::EvenOdd, DropoutMode::Off)
        .unwrap();
    assert_eq!((b.width, b.height, b.left, b.top), (8, 9, -3, 7));
    assert_eq!(b.data.len(), 72);
}

#[test]
fn oversized_glyph_is_refused() {
    let r = rasterize_glyph_outline(&square(0.0, 0.0, 2000.0, 10.0), 4, FillRule::NonZeroWinding, DropoutMode::Off);
    assert_eq!(r, Err(GlyphRasterError::BitmapTooLarge { width: 8000, height: 40 }));
}

#[test]
fn pixel_box_rounds_outward() {
    let outline = vec![
        PathCommand::MoveTo(px(0.25), px(-1.5)),
        PathCommand::QuadTo(px(3.5), px(2.25), px(1.0), px(0.0)),
    ];
    assert_eq!(outline_pixel_box(&outline), Some((0, -2, 4, 3)));
    assert_eq!(outline_pixel_box(&vec![PathCommand::Close]), None);
}

#[test]
fn curves_are_filled() {
    let outline = vec![
        PathCommand::MoveTo(px(0.0), px(0.0)),
        PathCommand::CubicTo(px(0.0), px(8.0), px(8.0), px(8.0), px(8.0), px(0.0)),
        PathCommand::Close,
    ];
    let b = rasterize_glyph_outline(&outline, 4, FillRule::NonZeroWinding, DropoutMode::Off).unwrap();
    assert_eq!((b.width, b.height), (8, 8));
    // Inside the arch near the base, outside at the top corners.
    assert_eq!(b.data[7 * 8 + 4], 255);
    assert_eq!(b.data[0], 0);
}

#[test]
fn renderer_caches_rasterized_glyphs() {
    let mut renderer = OpixaRenderer::with_cache_capacity(4);
    let key = GlyphCacheKey::new(b"font", 5, 1600, &[]);
    let outline = square(0.0, 0.0, 2.0, 2.0);
    let first = renderer.glyph_bitmap(key, &outline).unwrap();
    let second = renderer.glyph_bitmap(key, &vec![]).unwrap();
    assert_eq!(first, second);
    let stats = renderer.cache_stats().unwrap();
    assert_eq!((stats.size, stats.hits, stats.misses), (1, 1, 1));
    // Without a cache the outline is rasterized every time.
    let mut plain = OpixaRenderer::new();
    assert_eq!(plain.glyph_bitmap(key, &outline), Some(first));
}

#[test]
fn glyph_rendering_checks_factor_and_area_first() {
    let rule = FillRule::NonZeroWinding;
    assert_eq!(
        render_glyph_outline(&square(0.0, 0.0, 4.0, 4.0), 3, rule, DropoutMode::Off),
        Err(GlyphRasterError::UnsupportedOversample { oversample: 3 })
    );
    // A horizontal line from (1, 2) to (6, 2): a 5 x 0 box with no pixels.
    let line = vec![PathCommand::MoveTo(px(1.0), px(2.0)), PathCommand::LineTo(px(6.0), px(2.0))];
    let b = render_glyph_outline(&line, 4, rule, DropoutMode::Off).unwrap();
    assert_eq!((b.width, b.height, b.left, b.top), (5, 0, 1, 2));
    assert!(b.data.is_empty());
    // Anything else is rasterized as before.
    assert_eq!(
        render_glyph_outline(&square(0.0, 0.0, 4.0, 4.0), 4, rule, DropoutMode::Off),
        rasterize_glyph_outline(&square(0.0, 0.0, 4.0, 4.0), 4, rule, DropoutMode::Off)
    );
    assert_eq!(
        render_glyph_outline(&square(0.0, 0.0, 2000.0, 10.0), 4, rule, DropoutMode::Off),
        Err(GlyphRasterError::BitmapTooLarge { width: 8000, height: 40 })
    );
}
