use typf::fixed::F26Dot6;
use typf::skia_renderer::{
    allows_color_sources, flip_vertical_rgba, is_fully_transparent, SkiaGlyph, SkiaGlyphData,
    SkiaRenderer, TinySkiaRenderer,
};
use typf::types::{
    BitmapFormat, Color, Direction, GlyphSource, GlyphSourcePreference, PositionedGlyph,
    RenderError, RenderParams, ShapingResult,
};

fn fx(v: f32) -> F26Dot6 {
    F26Dot6::from_raw((v * 64.0) as i32)
}

fn run(glyphs: Vec<PositionedGlyph>, advance_width: f32, advance_height: f32) -> ShapingResult {
    ShapingResult {
        glyphs,
        advance_width: fx(advance_width),
        advance_height: fx(advance_height),
        direction: Direction::LeftToRight,
    }
}

fn at(x: f32, y: f32) -> PositionedGlyph {
    PositionedGlyph { id: 1, x: fx(x), y: fx(y), advance: fx(2.0), cluster: 0 }
}

fn mask(width: u32, height: u32, bearing_x: i32, bearing_y: i32, coverage: u8) -> SkiaGlyph {
    SkiaGlyph {
        width,
        height,
        data: SkiaGlyphData::Mask(vec![coverage; (width * height) as usize]),
        bearing_x,
        bearing_y,
    }
}

#[test]
fn lib_test_renderer_default() {
    let renderer = SkiaRenderer::default();
    assert_eq!(renderer.name(), "skia");
    assert_eq!(renderer.max_size, 65535);
}

#[test]
fn integration_test_renderer_creation() {
    let renderer = SkiaRenderer::new();
    assert_eq!(renderer.name(), "skia");
}

#[test]
fn integration_test_renderer_default() {
    let renderer = SkiaRenderer::default();
    assert_eq!(renderer.name(), "skia");
}

#[test]
fn test_empty_rendering() {
    let renderer = SkiaRenderer::new();
    let shaped = run(vec![], 100.0, 20.0);
    let params = RenderParams::default();
    let result = renderer.render(&shaped, &vec![], &params);
    assert!(result.is_ok());
    if let Ok(bitmap) = result {
        assert_eq!(bitmap.format, BitmapFormat::Rgba8);
        assert!(bitmap.width > 0);
        assert!(bitmap.height > 0);
    }
}

#[test]
fn empty_run_gets_a_sixteen_pixel_transparent_canvas() {
    let renderer = SkiaRenderer::new();
    let shaped = run(vec![], 100.0, 20.0);
    let bitmap = renderer.render(&shaped, &vec![], &RenderParams::default()).unwrap();
    assert_eq!(bitmap.width, 100);
    assert_eq!(bitmap.height, 16);
    assert_eq!(bitmap.data.len(), 100 * 16 * 4);
    assert!(bitmap.data.iter().all(|&b| b == 0));
}

#[test]
fn canvas_size_follows_glyph_extent_and_padding() {
    let renderer = SkiaRenderer::new();
    let shaped = run(vec![at(0.0, 0.0), at(2.0, 0.0)], 4.5, 16.0);
    // One glyph reaches 7 px above the baseline, the other 3 px below it.
    let glyphs = vec![Ok(mask(2, 7, 0, 7, 255)), Ok(mask(2, 5, 0, 2, 255))];
    let params = RenderParams { padding: 2, ..RenderParams::default() };
    assert_eq!(renderer.canvas_size(&shaped, &glyphs, &params), (9, 14));
}

#[test]
fn opaque_mask_paints_foreground() {
    let renderer = SkiaRenderer::new();
    let shaped = run(vec![at(0.0, 0.0)], 2.0, 16.0);
    let glyphs = vec![Ok(mask(2, 2, 0, 2, 255))];
    let params = RenderParams { foreground: Color::rgba(10, 20, 30, 255), ..RenderParams::default() };
    let bitmap = renderer.render(&shaped, &glyphs, &params).unwrap();
    assert_eq!((bitmap.width, bitmap.height), (2, 2));
    for px in bitmap.data.chunks_exact(4) {
        assert_eq!(px, &[10, 20, 30, 255]);
    }
}

#[test]
fn half_coverage_over_white_background() {
    let renderer = SkiaRenderer::new();
    let shaped = run(vec![at(0.0, 0.0)], 1.0, 16.0);
    let glyphs = vec![Ok(mask(1, 1, 0, 1, 128))];
    let params = RenderParams {
        foreground: Color::black(),
        background: Some(Color::white()),
        ..RenderParams::default()
    };
    let bitmap = renderer.render(&shaped, &glyphs, &params).unwrap();
    // Source alpha 128; each color byte becomes 0 + 255 * 127 / 255 = 127,
    // alpha 128 + 255 * 127 / 255 = 255.
    assert_eq!(bitmap.data, vec![127, 127, 127, 255]);
}

#[test]
fn color_glyph_is_unpremultiplied() {
    let renderer = SkiaRenderer::new();
    let shaped = run(vec![at(0.0, 0.0)], 1.0, 16.0);
    let glyph = SkiaGlyph {
        width: 1,
        height: 1,
        data: SkiaGlyphData::RgbaPremul(vec![64, 0, 32, 128]),
        bearing_x: 0,
        bearing_y: 1,
    };
    let bitmap = renderer.render(&shaped, &vec![Ok(glyph)], &RenderParams::default()).unwrap();
    // (64 * 255 + 64) / 128 = 128, (32 * 255 + 64) / 128 = 64.
    assert_eq!(bitmap.data, vec![128, 0, 64, 128]);
}

#[test]
fn glyph_outside_canvas_is_clipped() {
    let renderer = SkiaRenderer::new();
    let shaped = run(vec![at(0.0, 0.0), at(0.0, 0.0)], 2.0, 16.0);
    let glyphs = vec![Ok(mask(1, 1, 0, 1, 255)), Ok(mask(1, 1, 5, 1, 255))];
    let bitmap = renderer.render(&shaped, &glyphs, &RenderParams::default()).unwrap();
    assert_eq!((bitmap.width, bitmap.height), (2, 1));
    assert_eq!(bitmap.data, vec![0, 0, 0, 255, 0, 0, 0, 0]);
}

#[test]
fn denying_every_source_is_refused() {
    let renderer = SkiaRenderer::new();
    let shaped = run(vec![at(0.0, 0.0)], 2.0, 16.0);
    let params = RenderParams {
        glyph_sources: GlyphSourcePreference::from_parts(
            vec![],
            vec![
                GlyphSource::Glyf,
                GlyphSource::Cff,
                GlyphSource::Cff2,
                GlyphSource::Colr0,
                GlyphSource::Colr1,
                GlyphSource::Svg,
                GlyphSource::Sbix,
                GlyphSource::Cbdt,
                GlyphSource::Ebdt,
            ],
        ),
        ..RenderParams::default()
    };
    let result = renderer.render(&shaped, &vec![Ok(mask(1, 1, 0, 1, 255))], &params);
    assert_eq!(
        result.unwrap_err(),
        RenderError::BackendError("skia renderer requires outline or color glyph sources".to_string())
    );
}

#[test]
fn all_glyphs_failing_reports_last_failure() {
    let renderer = SkiaRenderer::new();
    let shaped = run(vec![at(0.0, 0.0), at(2.0, 0.0)], 4.0, 16.0);
    let glyphs = vec![Err("first".to_string()), Err("second".to_string())];
    let result = renderer.render(&shaped, &glyphs, &RenderParams::default());
    assert_eq!(result.unwrap_err(), RenderError::BackendError("second".to_string()));
}

#[test]
fn failed_glyphs_are_skipped_when_others_render() {
    let renderer = SkiaRenderer::new();
    let shaped = run(vec![at(0.0, 0.0), at(1.0, 0.0)], 2.0, 16.0);
    let glyphs = vec![Err("missing".to_string()), Ok(mask(1, 1, 0, 1, 255))];
    let bitmap = renderer.render(&shaped, &glyphs, &RenderParams::default()).unwrap();
    assert_eq!(bitmap.data, vec![0, 0, 0, 0, 0, 0, 0, 255]);
}

#[test]
fn zero_width_is_refused() {
    let renderer = SkiaRenderer::new();
    let shaped = run(vec![], 0.0, 16.0);
    let result = renderer.render(&shaped, &vec![], &RenderParams::default());
    assert_eq!(result.unwrap_err(), RenderError::ZeroDimensions { width: 0, height: 16 });
}

#[test]
fn canvas_over_the_limit_is_refused() {
    let renderer = SkiaRenderer { max_size: 50 };
    let shaped = run(vec![], 100.0, 16.0);
    let result = renderer.render(&shaped, &vec![], &RenderParams::default());
    assert_eq!(
        result.unwrap_err(),
        RenderError::DimensionsTooLarge { width: 100, height: 16, max_width: 50, max_height: 50 }
    );
}

#[test]
fn flip_reverses_rows() {
    let mut data = vec![1, 1, 1, 1, 2, 2, 2, 2, 3, 3, 3, 3];
    flip_vertical_rgba(&mut data, 1, 3);
    assert_eq!(data, vec![3, 3, 3, 3, 2, 2, 2, 2, 1, 1, 1, 1]);
}

#[test]
fn transparency_checks_alpha_only() {
    assert!(is_fully_transparent(&[9, 9, 9, 0, 5, 5, 5, 0]));
    assert!(!is_fully_transparent(&[0, 0, 0, 0, 0, 0, 0, 1]));
    assert!(is_fully_transparent(&[]));
}

#[test]
fn color_sources_follow_the_preference() {
    assert!(allows_color_sources(&GlyphSourcePreference::from_parts(vec![], vec![])));
    assert!(!allows_color_sources(&GlyphSourcePreference::from_parts(
        vec![GlyphSource::Glyf],
        vec![GlyphSource::Colr0, GlyphSource::Colr1, GlyphSource::Svg, GlyphSource::Sbix, GlyphSource::Cbdt, GlyphSource::Ebdt],
    )));
}

#[test]
fn tiny_skia_glyph_renderer_is_stateless() {
    assert_eq!(TinySkiaRenderer::new(), TinySkiaRenderer::default());
}
