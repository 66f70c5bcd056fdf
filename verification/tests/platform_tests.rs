use typf::fixed::F26Dot6;
use typf::json_output::{HbGlyphInfo, JsonRenderer};
use typf::os_renderers::{create_renderer, CgRenderPlan, CoreGraphicsRenderer, CoreTextLinraRenderer};
use typf::skia_renderer::SkiaRenderer;
use typf::types::{BitmapFormat, Direction, PositionedGlyph, RenderError, RenderParams, ShapingResult};

fn fx(v: f32) -> F26Dot6 {
    F26Dot6::from_raw((v * 64.0) as i32)
}

#[test]
fn lib_test_renderer_creation() {
    let renderer = CoreTextLinraRenderer::new();
    assert_eq!(renderer.name(), "coretext-linra");
    let renderer = CoreGraphicsRenderer::new();
    assert_eq!(renderer.name(), "coregraphics");
    let renderer = SkiaRenderer::new();
    assert_eq!(renderer.name(), "skia");
}

#[test]
fn lib_test_supports_format() {
    let renderer = JsonRenderer::new();
    assert!(renderer.supports_format("json"));
    assert!(renderer.supports_format("JSON"));
    assert!(!renderer.supports_format("bitmap"));
    assert!(!renderer.supports_format("rgba"));
    assert!(!renderer.supports_format("svg"));
    assert!(!renderer.supports_format("png"));
    assert!(!renderer.supports_format("unknown"));

    let renderer = CoreTextLinraRenderer::new();
    assert!(renderer.supports_format("bitmap"));
    assert!(renderer.supports_format("rgba"));
    assert!(!renderer.supports_format("svg"));

    let renderer = CoreGraphicsRenderer::new();
    assert!(renderer.supports_format("bitmap"));
    assert!(renderer.supports_format("rgba"));
    assert!(!renderer.supports_format("svg"));

    let renderer = SkiaRenderer::new();
    assert!(renderer.supports_format("bitmap"));
    assert!(renderer.supports_format("rgba"));
    assert!(renderer.supports_format("svg"));
    assert!(renderer.supports_format("vector"));
    assert!(!renderer.supports_format("pdf"));
    assert!(!renderer.supports_format("unknown"));
}

#[test]
fn test_create_renderer() {
    let renderer = create_renderer();
    assert_eq!(renderer.name(), "coretext-linra");
}

#[test]
fn test_os_renderer_type() {
    let _renderer: CoreTextLinraRenderer = create_renderer();
}

#[test]
fn test_empty_glyphs() {
    let renderer = CoreGraphicsRenderer::new();
    let shaped = ShapingResult {
        glyphs: vec![],
        advance_width: fx(0.0),
        advance_height: fx(16.0),
        direction: Direction::LeftToRight,
    };
    let params = RenderParams::default();
    match renderer.plan(&shaped, &params) {
        CgRenderPlan::Done(bitmap) => {
            assert_eq!(bitmap.width, 1);
            assert_eq!(bitmap.height, 1);
            assert_eq!(bitmap.format, BitmapFormat::Rgba8);
            assert_eq!(bitmap.data, vec![0, 0, 0, 0]);
        }
        other => panic!("unexpected {:?}", other),
    }
}

#[test]
fn coregraphics_names_and_formats() {
    let renderer = CoreGraphicsRenderer::default();
    assert_eq!(renderer.name(), "coregraphics");
    assert!(renderer.supports_format("bitmap"));
    assert!(renderer.supports_format("rgba"));
    assert!(!renderer.supports_format("svg"));
    let ct = CoreTextLinraRenderer::default();
    assert!(ct.supports_format("rgba"));
    assert!(!ct.supports_format("svg"));
}

#[test]
fn coregraphics_canvas_covers_glyph_extent() {
    let shaped = ShapingResult {
        glyphs: vec![
            PositionedGlyph { id: 1, x: fx(0.0), y: fx(0.0), advance: fx(10.0), cluster: 0 },
            PositionedGlyph { id: 2, x: fx(10.0), y: fx(0.0), advance: fx(5.5), cluster: 1 },
        ],
        advance_width: fx(15.5),
        advance_height: fx(20.0),
        direction: Direction::LeftToRight,
    };
    let params = RenderParams { padding: 2, ..RenderParams::default() };
    // 15.5 + 4 rounds up to 20; 20 (16 above, 4 below) + 4 = 24.
    assert_eq!(CoreGraphicsRenderer::calculate_dimensions(&shaped, &params), (20, 24));
    match CoreGraphicsRenderer::new().plan(&shaped, &params) {
        CgRenderPlan::Draw { width, height } => assert_eq!((width, height), (20, 24)),
        other => panic!("unexpected {:?}", other),
    }
}

#[test]
fn font_signatures_are_checked() {
    let mut ttf = vec![0u8; 12];
    ttf[1] = 1;
    assert!(CoreTextLinraRenderer::validate_font_data(&ttf).is_ok());
    let mut otf = b"OTTO".to_vec();
    otf.extend_from_slice(&[0u8; 8]);
    assert!(CoreTextLinraRenderer::validate_font_data(&otf).is_ok());
    assert_eq!(
        CoreTextLinraRenderer::validate_font_data(&[0u8; 4]),
        Err(RenderError::BackendError("Font data too small to be valid".to_string()))
    );
    let mut bad = b"PK\x03\xfe".to_vec();
    bad.extend_from_slice(&[0u8; 8]);
    assert_eq!(
        CoreTextLinraRenderer::validate_font_data(&bad),
        Err(RenderError::BackendError("Invalid font signature: 504b03fe".to_string()))
    );
}

#[test]
fn axis_tags_become_big_endian_numbers() {
    assert_eq!(CoreTextLinraRenderer::tag_to_axis_id("wght"), Some(0x7767_6874));
    assert_eq!(CoreTextLinraRenderer::tag_to_axis_id("wdt"), None);
    assert_eq!(CoreTextLinraRenderer::tag_to_axis_id("wdth!"), None);
}

#[test]
fn json_glyph_infos_use_26_6_units() {
    let renderer = JsonRenderer::default();
    assert_eq!(renderer.name(), "JSON");
    let shaped = ShapingResult {
        glyphs: vec![
            PositionedGlyph { id: 65, x: fx(0.0), y: fx(0.0), advance: fx(10.0), cluster: 0 },
            PositionedGlyph { id: 66, x: fx(10.0), y: fx(-1.5), advance: fx(10.0), cluster: 1 },
        ],
        advance_width: fx(20.0),
        advance_height: fx(16.0),
        direction: Direction::LeftToRight,
    };
    assert_eq!(
        renderer.glyph_infos(&shaped),
        vec![
            HbGlyphInfo { g: 65, cl: 0, ax: 640, ay: 0, dx: 0, dy: 0 },
            HbGlyphInfo { g: 66, cl: 1, ax: 640, ay: 0, dx: 640, dy: -96 },
        ]
    );
}

#[test]
fn lib_test_empty_text() {
    let renderer = CoreTextLinraRenderer::new();
    let result = renderer.empty_text_output("");
    assert!(result.is_some());
    if let Some(bitmap) = result {
        assert_eq!(bitmap.width, 1);
        assert_eq!(bitmap.height, 1);
        assert_eq!(bitmap.data, vec![0, 0, 0, 0]);
    }
    assert!(renderer.empty_text_output("a").is_none());
}
