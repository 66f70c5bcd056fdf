use typf::bitmap::GlyphBitmap;
use typf::fixed::F26Dot6;
use typf::opixa_renderer::OpixaRenderer;
use typf::orge_renderer::OrgeRenderer;
use typf::parallel::{assign_regions, region_count_exec, ParallelRenderer};
use typf::types::{
    BitmapFormat, Color, Direction, FontMetrics, GlyphSource, GlyphSourcePreference,
    PositionedGlyph, RenderError, RenderParams, ShapingResult,
};

fn fx(v: f32) -> F26Dot6 {
    F26Dot6::from_raw((v * 64.0) as i32)
}

fn glyph(id: u32, x: f32, advance: f32, cluster: u32) -> PositionedGlyph {
    PositionedGlyph { id, x: fx(x), y: fx(0.0), advance: fx(advance), cluster }
}

fn two_glyph_run() -> ShapingResult {
    ShapingResult {
        glyphs: vec![glyph(72, 0.0, 10.0, 0), glyph(105, 10.0, 5.0, 1)],
        advance_width: fx(15.0),
        advance_height: fx(16.0),
        direction: Direction::LeftToRight,
    }
}

fn empty_run() -> ShapingResult {
    ShapingResult {
        glyphs: vec![],
        advance_width: fx(100.0),
        advance_height: fx(20.0),
        direction: Direction::LeftToRight,
    }
}

#[test]
fn lib_test_basic_rendering() {
    let renderer = OpixaRenderer::new();
    let shaped = two_glyph_run();
    // The stub font has no outlines: no glyph could be rasterized.
    let bitmaps = vec![None, None];
    let params = RenderParams::default();
    let bitmap = renderer.render(&shaped, &bitmaps, None, &params).expect("Expected bitmap output");
    assert_eq!(bitmap.format, BitmapFormat::Rgba8);
    assert!(bitmap.width > 0);
    assert!(bitmap.height > 0);
    assert_eq!(bitmap.data.len(), (bitmap.width * bitmap.height * 4) as usize);
}

#[test]
fn errors_when_outlines_denied() {
    let renderer = OpixaRenderer::new();
    let shaped = ShapingResult {
        glyphs: vec![glyph(1, 0.0, 10.0, 0)],
        advance_width: fx(10.0),
        advance_height: fx(16.0),
        direction: Direction::LeftToRight,
    };
    let params = RenderParams {
        glyph_sources: GlyphSourcePreference::from_parts(vec![GlyphSource::Colr1], vec![]),
        ..RenderParams::default()
    };
    let result = renderer.render(&shaped, &vec![None], None, &params);
    assert!(result.is_err(), "outline denial should be an error");
}

#[test]
fn lib_test_with_background() {
    let renderer = OpixaRenderer::new();
    let shaped = empty_run();
    let params = RenderParams { background: Some(Color::rgba(255, 0, 0, 255)), ..Default::default() };
    let bitmap = renderer.render(&shaped, &vec![], None, &params).expect("Expected bitmap output");
    assert_eq!(bitmap.data[0], 255);
    assert_eq!(bitmap.data[1], 0);
    assert_eq!(bitmap.data[2], 0);
    assert_eq!(bitmap.data[3], 255);
}

#[test]
fn test_opixa_renderer_creation() {
    let renderer = OpixaRenderer::new();
    assert_eq!(renderer.name(), "opixa");
}

#[test]
fn test_opixa_supports_format() {
    let renderer = OpixaRenderer::new();
    assert!(renderer.supports_format("bitmap"));
    assert!(renderer.supports_format("rgba"));
    assert!(renderer.supports_format("rgb"));
    assert!(renderer.supports_format("gray"));
    assert!(!renderer.supports_format("svg"));
    assert!(!renderer.supports_format("png"));
}

#[test]
fn orge_basic_rendering() {
    let renderer = OrgeRenderer::new();
    let shaped = two_glyph_run();
    let bitmap = renderer
        .render(&shaped, &vec![None, None], &RenderParams::default())
        .expect("Expected bitmap output");
    assert_eq!(bitmap.format, BitmapFormat::Rgba8);
    // 15 px of advance; 16 px * 1.2 = 19.2, rounded up.
    assert_eq!((bitmap.width, bitmap.height), (15, 20));
    assert_eq!(bitmap.data.len(), (bitmap.width * bitmap.height * 4) as usize);
}

#[test]
fn orge_with_background() {
    let renderer = OrgeRenderer::new();
    let params = RenderParams { background: Some(Color::rgba(255, 0, 0, 255)), ..Default::default() };
    let bitmap = renderer.render(&empty_run(), &vec![], &params).unwrap();
    assert_eq!(&bitmap.data[0..4], &[255, 0, 0, 255]);
    assert_eq!((bitmap.width, bitmap.height), (100, 16));
}

#[test]
fn orge_name_and_formats() {
    let renderer = OrgeRenderer::default();
    assert_eq!(renderer.name(), "orge");
    assert!(renderer.supports_format("gray"));
    assert!(!renderer.supports_format("svg"));
}

#[test]
fn orge_refuses_oversized_canvas() {
    let renderer = OrgeRenderer::new();
    let shaped = ShapingResult {
        glyphs: vec![],
        advance_width: fx(70000.0),
        advance_height: fx(16.0),
        direction: Direction::LeftToRight,
    };
    let result = renderer.render(&shaped, &vec![], &RenderParams::default());
    assert_eq!(result.unwrap_err(), RenderError::InvalidDimensions { width: 70000, height: 16 });
}

#[test]
fn orge_composites_glyph_at_baseline() {
    let renderer = OrgeRenderer::new();
    let shaped = ShapingResult {
        glyphs: vec![glyph(1, 2.0, 4.0, 0)],
        advance_width: fx(8.0),
        advance_height: fx(8.0),
        direction: Direction::LeftToRight,
    };
    // Baseline at 0.75 * 8 = 6; a 1x1 glyph with top 1 lands on row 5, column 2.
    let dot = GlyphBitmap { width: 1, height: 1, left: 0, top: 1, data: vec![255] };
    let bitmap = renderer.render(&shaped, &vec![Some(dot)], &RenderParams::default()).unwrap();
    assert_eq!(bitmap.width, 8);
    let w = bitmap.width as usize;
    for (p, px) in bitmap.data.chunks(4).enumerate() {
        if p == 5 * w + 2 {
            assert_eq!(px, &[0, 0, 0, 255]);
        } else {
            assert_eq!(px, &[0, 0, 0, 0]);
        }
    }
}

#[test]
fn opixa_height_follows_glyphs_and_metrics() {
    let renderer = OpixaRenderer::new();
    let shaped = ShapingResult {
        glyphs: vec![glyph(1, 0.0, 10.0, 0)],
        advance_width: fx(10.0),
        advance_height: fx(10.0),
        direction: Direction::LeftToRight,
    };
    let g = GlyphBitmap { width: 2, height: 5, left: 0, top: 4, data: vec![255; 10] };
    // Glyph alone: 4 above and 1 below the baseline.
    let bm = renderer.render(&shaped, &vec![Some(g.clone())], None, &RenderParams::default()).unwrap();
    assert_eq!(bm.height, 5);
    // Metrics 800 / -200 per 1000 at 10 px: ascent 8, descent 2.
    let m = FontMetrics { units_per_em: 1000, ascender: 800, descender: -200, line_gap: 0 };
    let bm = renderer.render(&shaped, &vec![Some(g)], Some(m), &RenderParams::default()).unwrap();
    assert_eq!(bm.height, 10);
}

#[test]
fn opixa_empty_run_is_sixteen_pixels_tall() {
    let renderer = OpixaRenderer::new();
    let shaped = ShapingResult {
        glyphs: vec![],
        advance_width: fx(0.0),
        advance_height: fx(200.0),
        direction: Direction::LeftToRight,
    };
    let params = RenderParams { padding: 2, ..RenderParams::default() };
    let bm = renderer.render(&shaped, &vec![], None, &params).unwrap();
    assert_eq!((bm.width, bm.height), (1, 20));
}

#[test]
fn opixa_cache_lifecycle() {
    let mut renderer = OpixaRenderer::with_cache_capacity(8);
    let stats = renderer.cache_stats().unwrap();
    assert_eq!((stats.size, stats.capacity, stats.hits, stats.misses), (0, 8, 0, 0));
    renderer.clear_cache();
    assert_eq!(renderer.cache_stats().unwrap().size, 0);
    assert!(OpixaRenderer::new().cache_stats().is_none());
    assert_eq!(OpixaRenderer::with_cache().cache_stats().unwrap().capacity, 1000);
}

#[test]
fn effective_order_defaults_and_denials() {
    let default = GlyphSourcePreference::default().effective_order();
    assert_eq!(default[0], GlyphSource::Glyf);
    assert_eq!(default.len(), 9);
    let p = GlyphSourcePreference::from_parts(
        vec![GlyphSource::Colr1, GlyphSource::Glyf, GlyphSource::Colr1],
        vec![GlyphSource::Glyf],
    );
    assert_eq!(p.effective_order(), vec![GlyphSource::Colr1]);
}

#[test]
fn glyphs_are_grouped_into_bands_of_sixty_four_rows() {
    let at = |y: i32| PositionedGlyph {
        id: 1,
        x: F26Dot6::from_int(0),
        y: F26Dot6::from_int(y),
        advance: F26Dot6::from_int(10),
        cluster: 0,
    };
    // 200 rows make three bands; rows past the last band's start stay in it.
    assert_eq!(region_count_exec(200), 3);
    assert_eq!(region_count_exec(10), 1);
    let glyphs = vec![at(5), at(70), at(-3), at(190), at(129), at(63)];
    let regions = assign_regions(&glyphs, 200);
    assert_eq!(regions, vec![vec![0, 2, 5], vec![1], vec![3, 4]]);
    assert_eq!(ParallelRenderer::new().thread_count, 0);
    assert_eq!(ParallelRenderer::with_threads(4).thread_count, 4);
    assert_eq!(OrgeRenderer::new().with_parallel_rendering().thread_count, 0);
    assert_eq!(OpixaRenderer::new().with_parallel_rendering().thread_count, 0);
}
