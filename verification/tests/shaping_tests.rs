use typf::font_cache::{CacheStats, FontCacheConfig, TypfError};
use typf::shaping::{
    parse_direction, parse_feature, parse_feature_tag, parse_features, parse_u32, ShapeRequest,
    ShapingError, TextDirection, TextShaper,
};

#[test]
fn test_text_shaper_new() {
    let _shaper = TextShaper::new();
}

#[test]
fn test_shape_request_default() {
    let request = ShapeRequest::default();
    assert_eq!(request.text, "");
    assert!(request.script.is_none());
    assert!(request.direction.is_none());
    assert!(request.language.is_none());
    assert_eq!(request.features.len(), 0);
}

#[test]
fn feature_tags_have_four_characters() {
    assert_eq!(parse_feature_tag("liga"), Some(('l', 'i', 'g', 'a')));
    assert_eq!(parse_feature_tag("x"), None);
    assert_eq!(parse_feature_tag("toolong"), None);
}

#[test]
fn directions_are_case_insensitive() {
    assert_eq!(parse_direction("RTL"), TextDirection::Rtl);
    assert_eq!(parse_direction("ttb"), TextDirection::Ttb);
    assert_eq!(parse_direction("Btt"), TextDirection::Btt);
    assert_eq!(parse_direction("ltr"), TextDirection::Ltr);
    assert_eq!(parse_direction("sideways"), TextDirection::Ltr);
}

#[test]
fn feature_settings_parse() {
    assert_eq!(parse_feature("liga=0"), Some((('l', 'i', 'g', 'a'), 0)));
    assert_eq!(parse_feature("kern"), Some((('k', 'e', 'r', 'n'), 1)));
    assert_eq!(parse_feature("ss01=+3"), Some((('s', 's', '0', '1'), 3)));
    assert_eq!(parse_feature("liga=on"), None);
    assert_eq!(parse_feature("lig=1"), None);
    assert_eq!(parse_feature("liga="), None);
    let fs = vec!["liga=1".to_string(), "bad".to_string(), "kern=0".to_string()];
    assert_eq!(parse_features(&fs), vec![(('l', 'i', 'g', 'a'), 1), (('k', 'e', 'r', 'n'), 0)]);
}

#[test]
fn u32_parsing_matches_std() {
    for s in ["0", "42", "+7", "4294967295", "4294967296", "", "+", "-1", "1a", " 1"] {
        assert_eq!(parse_u32(s), s.parse::<u32>().ok(), "input {:?}", s);
    }
}

#[test]
fn shaping_error_messages() {
    let e = ShapingError::Internal { reason: "count mismatch".to_string() };
    assert_eq!(e.message(), "Shaping internal error: count mismatch");
    let e = ShapingError::FontLockFailed { path: "/f.ttf".to_string() };
    assert_eq!(e.message(), "Failed to lock HarfBuzz font for /f.ttf");
}

#[test]
fn cache_config_builders() {
    let c = FontCacheConfig::new();
    assert_eq!((c.max_fonts(), c.max_glyphs(), c.max_shapes()), (512, 2048, 512));
    let c = c.with_max_fonts(1).with_max_glyphs(2).with_max_shapes(3);
    assert_eq!((c.max_fonts(), c.max_glyphs(), c.max_shapes()), (1, 2, 3));
    let c = FontCacheConfig::default().with_limits(0, 5, 6);
    assert_eq!((c.max_fonts(), c.max_glyphs(), c.max_shapes()), (0, 5, 6));
}

#[test]
fn cache_stats_totals() {
    let s = CacheStats {
        mmap_count: 1,
        face_count: 2,
        shape_count: 3,
        glyph_count: 4,
        max_fonts: 512,
        max_glyphs: 2048,
        max_shapes: 512,
        glyph_hits: 0,
        glyph_misses: 0,
        shape_hits: 0,
        shape_misses: 0,
    };
    assert!(!s.is_empty());
    assert_eq!(s.total_items(), 10);
    assert_eq!(s.estimated_memory_bytes(), 100_000 + 100_000 + 3_000 + 20_000);
    let empty = CacheStats { mmap_count: 0, face_count: 0, shape_count: 0, glyph_count: 0, ..s };
    assert!(empty.is_empty());
}

#[test]
fn error_constructors() {
    assert_eq!(TypfError::shaping("x".to_string()), TypfError::ShapingError { reason: "x".to_string() });
    assert_eq!(TypfError::other("y".to_string()), TypfError::Other("y".to_string()));
    assert_eq!(
        TypfError::font_load("/a".to_string(), "missing".to_string()),
        TypfError::FontLoadError { path: "/a".to_string(), source: "missing".to_string() }
    );
}

#[test]
fn test_parse_feature_tag_valid() {
    let tag = parse_feature_tag("liga");
    assert!(tag.is_some());
}

#[test]
fn test_parse_feature_tag_invalid() {
    let tag = parse_feature_tag("x");
    assert!(tag.is_none());

    let tag = parse_feature_tag("toolong");
    assert!(tag.is_none());
}
