use typf::fixed::F26Dot6;
use typf::image::{GlyphRasterizer, Image, OrgeError};
use typf::scan_converter::{DropoutMode, FillRule, PathCommand};

#[test]
fn it_works() {
    assert_eq!(2 + 2, 4);
}

#[test]
fn image_rejects_invalid_dimensions() {
    let result = Image::new(0, 10, vec![]);
    assert!(result.is_err());
    let result = Image::new(10, 10, vec![0u8; 5]);
    assert!(result.is_err());
}

#[test]
fn image_is_empty_detects_blank_canvas() {
    let img = Image::new(4, 4, vec![0u8; 16]).unwrap();
    assert!(img.is_empty());
    let mut pixels = vec![0u8; 16];
    pixels[3] = 1;
    let img = Image::new(4, 4, pixels).unwrap();
    assert!(!img.is_empty());
}

#[test]
fn test_error_handling() {
    let result = Image::new(0, 100, vec![]);
    assert!(result.is_err());
    let result = Image::new(100, 0, vec![]);
    assert!(result.is_err());
    let result = Image::new(10, 10, vec![0u8; 50]);
    assert!(result.is_err());
    let result = Image::new(10, 10, vec![0u8; 100]);
    assert!(result.is_ok());
}

#[test]
fn image_error_kinds() {
    match Image::new(0, 3, vec![]) {
        Err(OrgeError::InvalidParams(_)) => {}
        other => panic!("unexpected {:?}", other),
    }
    match Image::new(2, 2, vec![0u8; 3]) {
        Err(OrgeError::Internal(m)) => {
            assert_eq!(m, "Pixel data size mismatch: expected 4 bytes, got 3")
        }
        other => panic!("unexpected {:?}", other),
    }
}

#[test]
fn image_accessors_return_what_was_given() {
    let img = Image::new(3, 2, vec![1, 2, 3, 4, 5, 6]).unwrap();
    assert_eq!(img.width(), 3);
    assert_eq!(img.height(), 2);
    assert_eq!(img.pixels(), &[1, 2, 3, 4, 5, 6]);
    assert_eq!(img.into_pixels(), vec![1, 2, 3, 4, 5, 6]);
}

#[test]
fn error_messages_name_the_problem() {
    let e = OrgeError::InvalidParams("bad".to_string());
    assert!(e.message().contains("bad"));
    let e = OrgeError::RasterizationFailed { glyph_id: 7, reason: "empty".to_string() };
    assert!(e.message().contains('7'));
    assert!(e.message().contains("empty"));
}

#[test]
fn rasterizer_builders_set_fields() {
    let r = GlyphRasterizer::new();
    assert_eq!(r.fill_rule, FillRule::NonZeroWinding);
    assert_eq!(r.dropout_mode, DropoutMode::Off);
    let r = GlyphRasterizer::new().with_fill_rule(FillRule::EvenOdd).with_dropout_mode(DropoutMode::Smart);
    assert_eq!(r.fill_rule, FillRule::EvenOdd);
    assert_eq!(r.dropout_mode, DropoutMode::Smart);
}

#[test]
fn rasterize_outline_fills_a_square() {
    let f = F26Dot6::from_int;
    let outline = vec![
        PathCommand::MoveTo(f(1), f(1)),
        PathCommand::LineTo(f(3), f(1)),
        PathCommand::LineTo(f(3), f(3)),
        PathCommand::LineTo(f(1), f(3)),
        PathCommand::Close,
    ];
    let img = GlyphRasterizer::new().rasterize_outline(&outline, 4, 4).unwrap();
    assert_eq!(img.width(), 4);
    assert_eq!(
        img.pixels(),
        &[0, 0, 0, 0, 0, 1, 1, 0, 0, 1, 1, 0, 0, 0, 0, 0]
    );
}

#[test]
fn rasterizer_has_sensible_defaults() {
    let rast = GlyphRasterizer::new();
    assert_eq!(rast.fill_rule, FillRule::NonZeroWinding);
    assert_eq!(rast.dropout_mode, DropoutMode::Off);
}

#[test]
fn test_fill_rules() {
    let rasterizer_nonzero = GlyphRasterizer::new().with_fill_rule(FillRule::NonZeroWinding);
    let rasterizer_evenodd = GlyphRasterizer::new().with_fill_rule(FillRule::EvenOdd);
    assert_eq!(rasterizer_nonzero.fill_rule, FillRule::NonZeroWinding);
    assert_eq!(rasterizer_evenodd.fill_rule, FillRule::EvenOdd);
}

#[test]
fn test_dropout_modes() {
    let rasterizer_simple = GlyphRasterizer::new().with_dropout_mode(DropoutMode::Simple);
    let rasterizer_smart = GlyphRasterizer::new().with_dropout_mode(DropoutMode::Smart);
    let rasterizer_none = GlyphRasterizer::new().with_dropout_mode(DropoutMode::Off);
    assert_eq!(rasterizer_simple.dropout_mode, DropoutMode::Simple);
    assert_eq!(rasterizer_smart.dropout_mode, DropoutMode::Smart);
    assert_eq!(rasterizer_none.dropout_mode, DropoutMode::Off);
}

#[test]
fn checked_rasterization_matches_and_refuses() {
    let f = F26Dot6::from_int;
    let outline = vec![
        PathCommand::MoveTo(f(1), f(1)),
        PathCommand::LineTo(f(3), f(1)),
        PathCommand::LineTo(f(3), f(3)),
        PathCommand::LineTo(f(1), f(3)),
        PathCommand::Close,
    ];
    let r = GlyphRasterizer::new();
    let img = r.rasterize_outline_checked(&outline, 4, 4).unwrap();
    assert_eq!(img.pixels(), &[0, 0, 0, 0, 0, 1, 1, 0, 0, 1, 1, 0, 0, 0, 0, 0]);
    assert!(matches!(r.rasterize_outline_checked(&outline, 0, 4), Err(OrgeError::InvalidParams(_))));
    // The square reaches row 3, below a canvas of 2 rows.
    assert!(matches!(r.rasterize_outline_checked(&outline, 4, 2), Err(OrgeError::Internal(_))));
    let err = OrgeError::RasterizationFailed { glyph_id: 42, reason: "missing".to_string() };
    assert_eq!(err.message(), "Failed to rasterize glyph 42: missing");
}
