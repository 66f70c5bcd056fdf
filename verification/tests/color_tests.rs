use typf::base64::base64_encode;
use typf::color_render::{
    bgra_to_rgba, bitmap_attempt, compute_content_bounds, decode_png_rgba, detect_color_font_types,
    get_best_color_type, get_color_glyph_format, gray_alpha_to_rgba, gray_to_rgba,
    has_any_color_support, has_bitmap_glyphs, has_color_glyphs, mask_to_rgba, png_pixels_to_rgba,
    premultiply_rgba, resolve_preference, rgb_to_rgba, BitmapRenderError, ColorRenderError,
    ContentBounds, PngColorType, SourceAttempt,
};
use typf::svg_glyph::{
    extract_defs, extract_glyph_svg, extract_group_content, extract_namespaces,
    get_svg_document, substitute_css_variables, SvgRenderError,
};
use typf::color_render::has_svg_glyphs;
use typf::text::decimal_string;
use typf::svg_output::choose_glyph_source;
use typf::color_render::{render_method_for, RenderMethod};
use typf::types::{Color, GlyphSource};

#[test]
fn test_no_svg_table() {
    assert!(!has_svg_glyphs(&[]));
}

#[test]
fn test_css_variable_substitution() {
    let svg = r#"<svg><path fill="var(--color0, #FFD214)" d="..."/></svg>"#;
    let palette = vec![Color::rgba(255, 0, 0, 255)];
    let result = substitute_css_variables(svg, &palette);
    assert!(result.contains("#FF0000"), "Should substitute with red: {}", result);
    assert!(!result.contains("var("), "Should not contain var(): {}", result);
}

#[test]
fn test_css_variable_substitution_multiple() {
    let svg = r#"<svg>
            <path fill="var(--color0, yellow)"/>
            <path fill="var(--color1, blue)"/>
            <path fill="var(--color0, yellow)"/>
        </svg>"#;
    let palette = vec![Color::rgba(255, 0, 0, 255), Color::rgba(0, 255, 0, 255)];
    let result = substitute_css_variables(svg, &palette);
    assert_eq!(result.matches("#FF0000").count(), 2, "Should have 2 color0 substitutions: {}", result);
    assert_eq!(result.matches("#00FF00").count(), 1, "Should have 1 color1 substitution: {}", result);
}

#[test]
fn css_substitution_exact_output() {
    let svg = r#"<p fill="var(--color1, blue)"/><q fill="var(--color5, x)"/>"#;
    let palette = vec![Color::rgba(0, 0, 0, 255), Color::rgba(18, 171, 205, 255)];
    // Entry 5 is not in the palette: its variable stays.
    assert_eq!(
        substitute_css_variables(svg, &palette),
        r##"<p fill="#12ABCD"/><q fill="var(--color5, x)"/>"##
    );
}

#[test]
fn css_substitution_without_closing_paren_keeps_text() {
    let svg = "a var(--color0 b";
    let palette = vec![Color::rgba(1, 2, 3, 255)];
    assert_eq!(substitute_css_variables(svg, &palette), "a var(--color0 b");
}

#[test]
fn css_substitution_with_empty_palette_is_identity() {
    let svg = r#"<path fill="var(--color0, red)"/>"#;
    assert_eq!(substitute_css_variables(svg, &[]), svg);
}

#[test]
fn defs_sections_are_concatenated() {
    let svg = "<svg><defs><a/></defs><g/><defs id=\"x\"><b/></defs><defs></svg>";
    assert_eq!(extract_defs(svg), "<defs><a/></defs><defs id=\"x\"><b/></defs>");
    assert_eq!(extract_defs("<svg/>"), "");
}

#[test]
fn xlink_namespace_only_when_used() {
    assert_eq!(extract_namespaces("<use xlink:href=\"#a\"/>"), " xmlns:xlink=\"http://www.w3.org/1999/xlink\"");
    assert_eq!(extract_namespaces("<use href=\"#a\"/>"), "");
}

#[test]
fn group_content_handles_nesting() {
    assert_eq!(extract_group_content("<g ><p/></g><q/></g>rest").as_deref(), Some("<g ><p/></g><q/>"));
    assert_eq!(extract_group_content("<gradient/></g>").as_deref(), Some("<gradient/>"));
    assert_eq!(extract_group_content("<p/>"), None);
}

#[test]
fn glyph_is_cut_out_of_a_shared_document() {
    let doc = "<svg><defs><d/></defs><g id=\"glyph3\" t=\"1\"><path xlink:href=\"x\"/><g><p/></g></g><g id=\"glyph4\"><q/></g></svg>";
    let out = extract_glyph_svg(doc, 3, 1000).unwrap();
    assert_eq!(
        out,
        "<svg xmlns=\"http://www.w3.org/2000/svg\" xmlns:xlink=\"http://www.w3.org/1999/xlink\" viewBox=\"0 -1000 1000 2000\"><defs><d/></defs><path xlink:href=\"x\"/><g><p/></g></svg>"
    );
}

#[test]
fn document_without_the_glyph_id_is_returned_as_is() {
    let doc = "<svg><path/></svg>";
    assert_eq!(extract_glyph_svg(doc, 7, 2048).unwrap(), doc);
}

#[test]
fn glyph_id_without_group_is_not_found() {
    let doc = "<svg><path id=\"glyph7\"/></svg>";
    assert_eq!(extract_glyph_svg(doc, 7, 2048), Err(SvgRenderError::GlyphNotFound));
}

#[test]
fn unterminated_group_is_malformed() {
    let doc = "<svg><g id=\"glyph7\"><path/></svg>";
    assert_eq!(
        extract_glyph_svg(doc, 7, 2048),
        Err(SvgRenderError::ParseFailed("malformed glyph group".to_string()))
    );
    assert_eq!(
        SvgRenderError::ParseFailed("x".to_string()).message(),
        "SVG parse error: x"
    );
}

#[test]
fn decimal_numerals() {
    assert_eq!(decimal_string(0), "0");
    assert_eq!(decimal_string(7), "7");
    assert_eq!(decimal_string(65535), "65535");
    assert_eq!(decimal_string(1234567890), "1234567890");
}

#[test]
fn svg_document_of_garbage_is_a_parse_failure() {
    assert_eq!(get_svg_document(&[1, 2, 3], 1), Err(SvgRenderError::FontParseFailed));
}

#[test]
fn base64_padding() {
    assert_eq!(base64_encode(b""), "");
    assert_eq!(base64_encode(b"f"), "Zg==");
    assert_eq!(base64_encode(b"fo"), "Zm8=");
    assert_eq!(base64_encode(b"foo"), "Zm9v");
    assert_eq!(base64_encode(b"foobar"), "Zm9vYmFy");
    assert_eq!(base64_encode(&[0xff, 0xfe, 0x00, 0x01]), "//4AAQ==");
}

#[test]
fn content_bounds_of_drawn_pixels() {
    // 3x2 image; pixels (1,0) and (2,1) drawn.
    let mut data = vec![0u8; 3 * 2 * 4];
    data[(0 * 3 + 1) * 4 + 3] = 10;
    data[(1 * 3 + 2) * 4 + 3] = 255;
    let b = compute_content_bounds(3, 2, &data).unwrap();
    assert_eq!(b, ContentBounds { min_x: 1, max_x: 2, min_y: 0, max_y: 1 });
    assert_eq!(b.width(), 2);
    assert_eq!(b.height(), 2);
    assert_eq!(compute_content_bounds(3, 2, &vec![0u8; 24]), None);
    assert_eq!(
        compute_content_bounds(0, 0, &[]),
        Some(ContentBounds { min_x: 0, max_x: 0, min_y: 0, max_y: 0 })
    );
}

#[test]
fn content_bounds_width_saturates() {
    let b = ContentBounds { min_x: 5, max_x: 3, min_y: 0, max_y: 0 };
    assert_eq!(b.width(), 1);
    assert_eq!(b.height(), 1);
}

#[test]
fn pixel_layout_conversions() {
    assert_eq!(premultiply_rgba(&[255, 128, 0, 128, 9, 9, 9, 0]), vec![128, 64, 0, 128, 0, 0, 0, 0]);
    assert_eq!(bgra_to_rgba(&[1, 2, 3, 4, 5, 6, 7, 8]), vec![3, 2, 1, 4, 7, 6, 5, 8]);
    assert_eq!(mask_to_rgba(&[7, 200]), vec![0, 0, 0, 7, 0, 0, 0, 200]);
    assert_eq!(gray_to_rgba(&[9]), vec![9, 9, 9, 255]);
    assert_eq!(gray_alpha_to_rgba(&[200, 128]), vec![100, 100, 100, 128]);
    assert_eq!(rgb_to_rgba(&[1, 2, 3, 4, 5]), vec![1, 2, 3, 255, 4, 5, 255]);
    assert_eq!(rgb_to_rgba(&[1, 2, 3]), vec![1, 2, 3, 255]);
}

#[test]
fn png_layouts() {
    assert_eq!(png_pixels_to_rgba(PngColorType::Indexed, &[1, 2]), Err(BitmapRenderError::UnsupportedFormat));
    assert_eq!(png_pixels_to_rgba(PngColorType::Grayscale, &[3]), Ok(vec![3, 3, 3, 255]));
    assert_eq!(decode_png_rgba(&[0, 1, 2, 3]), Err(BitmapRenderError::PngDecodeFailed));
    assert_eq!(BitmapRenderError::PngDecodeFailed.message(), "failed to decode PNG data");
}

#[test]
fn garbage_is_not_a_color_font() {
    assert!(detect_color_font_types(&[0, 1, 2, 3]).is_empty());
    assert!(!has_any_color_support(&[]));
    assert_eq!(get_best_color_type(&[]), None);
    assert_eq!(get_color_glyph_format(&[], 3), None);
    assert!(!has_color_glyphs(&[]));
    assert!(!has_bitmap_glyphs(&[]));
}

#[test]
fn first_deciding_source_wins() {
    let order = vec![GlyphSource::Glyf, GlyphSource::Colr1, GlyphSource::Svg, GlyphSource::Sbix];
    let attempts = vec![
        SourceAttempt::Rendered,
        SourceAttempt::Unavailable,
        SourceAttempt::Rendered,
        SourceAttempt::Failed(ColorRenderError::NoPalette),
    ];
    // The outline source is skipped; the SVG source renders first.
    assert_eq!(resolve_preference(&order, &attempts), Some(2));
    let attempts = vec![
        SourceAttempt::Unavailable,
        SourceAttempt::Failed(ColorRenderError::NoPalette),
        SourceAttempt::Rendered,
        SourceAttempt::Unavailable,
    ];
    assert_eq!(resolve_preference(&order, &attempts), Some(1));
    let attempts = vec![
        SourceAttempt::Rendered,
        SourceAttempt::Unavailable,
        SourceAttempt::Unavailable,
        SourceAttempt::Unavailable,
    ];
    assert_eq!(resolve_preference(&order, &attempts), None);
}

#[test]
fn bitmap_errors_that_fall_through() {
    assert!(matches!(bitmap_attempt(Ok(())), SourceAttempt::Rendered));
    assert!(matches!(bitmap_attempt(Err(BitmapRenderError::GlyphNotFound)), SourceAttempt::Unavailable));
    assert!(matches!(
        bitmap_attempt(Err(BitmapRenderError::PngDecodeFailed)),
        SourceAttempt::Failed(ColorRenderError::BitmapError(BitmapRenderError::PngDecodeFailed))
    ));
}

#[test]
fn svg_renderer_takes_the_first_serving_source() {
    let order = vec![GlyphSource::Colr1, GlyphSource::Glyf, GlyphSource::Svg];
    // The color source did not render: the outline path serves.
    assert_eq!(choose_glyph_source(&order, true, &vec![false, false, true]), Some(1));
    // The color source rendered first.
    assert_eq!(choose_glyph_source(&order, true, &vec![true, false, true]), Some(0));
    // No path and only the last source rendered.
    assert_eq!(choose_glyph_source(&order, false, &vec![false, false, true]), Some(2));
    // Nothing serves: the glyph is left out.
    assert_eq!(choose_glyph_source(&order, false, &vec![false, true, false]), None);
    assert_eq!(choose_glyph_source(&Vec::new(), true, &Vec::new()), None);
}

#[test]
fn css_variable_numbers_name_whole_palette_entries() {
    let mut palette: Vec<Color> = (0..11u8).map(|i| Color::rgba(i, i, i, 255)).collect();
    palette[1] = Color::rgba(0x11, 0x22, 0x33, 255);
    palette[10] = Color::rgba(0xAA, 0xBB, 0xCC, 255);
    let svg = r#"<path fill="var(--color10, red)"/>"#;
    let result = substitute_css_variables(svg, &palette);
    assert!(result.contains("#AABBCC"), "entry 10 expected: {}", result);
    assert!(!result.contains("#112233"), "entry 1 must not match: {}", result);
    assert!(!result.contains("var("), "{}", result);
    let both = r#"<g fill="var(--color1, red)" stroke="var(--color10,blue)"/>"#;
    assert_eq!(
        substitute_css_variables(both, &palette),
        r##"<g fill="#112233" stroke="#AABBCC"/>"##
    );
}

#[test]
fn each_glyph_source_reports_its_render_method() {
    assert_eq!(render_method_for(GlyphSource::Colr1), RenderMethod::ColrV1);
    assert_eq!(render_method_for(GlyphSource::Colr0), RenderMethod::ColrV0);
    assert_eq!(render_method_for(GlyphSource::Svg), RenderMethod::Svg);
    for s in [GlyphSource::Sbix, GlyphSource::Cbdt, GlyphSource::Ebdt] {
        assert_eq!(render_method_for(s), RenderMethod::Bitmap);
    }
    for s in [GlyphSource::Glyf, GlyphSource::Cff, GlyphSource::Cff2] {
        assert_eq!(render_method_for(s), RenderMethod::Outline);
    }
}
