use typf::bitmap::{
    blend_over, blend_over_avx2, blend_over_neon, blend_over_scalar, blend_over_sse41,
    composite_glyph, fill_background, GlyphBitmap,
};
use typf::types::Color;

#[test]
fn test_blend_over_scalar() {
    let mut dst = vec![100, 100, 100, 255, 50, 50, 50, 128];
    let src = vec![200, 200, 200, 128, 150, 150, 150, 64];
    blend_over_scalar(&mut dst, &src);
    assert!(dst[0] > 100);
}

#[test]
fn blend_over_exact_values() {
    let mut dst = vec![100, 100, 100, 255, 50, 50, 50, 128];
    let src = vec![200, 200, 200, 128, 150, 150, 150, 64];
    blend_over_scalar(&mut dst, &src);
    // 200 + (100 * 127) >> 8 = 249; 128 + (255 * 127) >> 8 = 254;
    // 150 + (50 * 191) >> 8 = 187;  64 + (128 * 191) >> 8 = 159.
    assert_eq!(dst, vec![249, 249, 249, 254, 187, 187, 187, 159]);
}

#[test]
fn blend_over_saturates() {
    let mut dst = vec![255, 255, 255, 255];
    let src = vec![200, 10, 0, 0];
    blend_over(&mut dst, &src);
    assert_eq!(dst, vec![255, 255, 254, 254]);
}

#[test]
fn opaque_source_replaces_destination() {
    let mut dst = vec![9, 8, 7, 6];
    let src = vec![1, 2, 3, 255];
    blend_over(&mut dst, &src);
    assert_eq!(dst, vec![1, 2, 3, 255]);
}

#[test]
fn background_fill_paints_every_pixel() {
    let mut canvas = vec![0u8; 12];
    fill_background(&mut canvas, Color::rgba(1, 2, 3, 4));
    assert_eq!(canvas, vec![1, 2, 3, 4, 1, 2, 3, 4, 1, 2, 3, 4]);
}

#[test]
fn composite_places_glyph_at_its_bearings() {
    // 4x3 transparent canvas; a 2x1 solid glyph with left = 1, top = 1 at pen (0, 2)
    // lands on row 1, columns 1 and 2.
    let mut canvas = vec![0u8; 4 * 3 * 4];
    let glyph = GlyphBitmap { width: 2, height: 1, left: 1, top: 1, data: vec![255, 255] };
    composite_glyph(&mut canvas, 4, &glyph, 0, 2, Color::rgba(10, 20, 30, 255));
    for p in 0..12 {
        let px = &canvas[p * 4..p * 4 + 4];
        if p == 5 || p == 6 {
            assert_eq!(px, &[10, 20, 30, 255]);
        } else {
            assert_eq!(px, &[0, 0, 0, 0]);
        }
    }
}

#[test]
fn composite_clips_at_canvas_edges() {
    let mut canvas = vec![0u8; 2 * 2 * 4];
    let glyph = GlyphBitmap { width: 3, height: 3, left: -1, top: 1, data: vec![255; 9] };
    composite_glyph(&mut canvas, 2, &glyph, 0, 0, Color::black());
    // Glyph box starts at (-1, -1): it covers canvas pixels (0, 0), (1, 0), (0, 1), (1, 1).
    assert_eq!(canvas, vec![0, 0, 0, 255, 0, 0, 0, 255, 0, 0, 0, 255, 0, 0, 0, 255]);
}

#[test]
fn composite_scales_alpha_by_coverage() {
    let mut canvas = vec![0u8; 4];
    let glyph = GlyphBitmap { width: 1, height: 1, left: 0, top: 0, data: vec![128] };
    composite_glyph(&mut canvas, 1, &glyph, 0, 0, Color::rgba(200, 100, 50, 255));
    assert_eq!(canvas, vec![200, 100, 50, 128]);
}

#[test]
fn empty_glyph_leaves_canvas() {
    let mut canvas = vec![5u8; 16];
    let glyph = GlyphBitmap { width: 0, height: 0, left: 0, top: 0, data: vec![] };
    composite_glyph(&mut canvas, 2, &glyph, 0, 0, Color::black());
    assert_eq!(canvas, vec![5u8; 16]);
}

#[test]
fn duplicate_copies_every_field() {
    let g = GlyphBitmap { width: 2, height: 1, left: -3, top: 4, data: vec![7, 8] };
    assert_eq!(g.duplicate(), g);
}

#[test]
fn test_blend_consistency() {
    let mut dst1 = vec![100; 1024];
    let mut dst2 = dst1.clone();
    let src = vec![200; 1024];

    blend_over_scalar(&mut dst1, &src);
    blend_over(&mut dst2, &src);

    assert_eq!(dst1, dst2);
}

#[test]
fn wide_blends_agree_with_the_scalar_blend() {
    // 27 pixels: whole blocks of 8 and 4 pixels plus pixels left over.
    let src: Vec<u8> = (0..108u32).map(|i| ((i * 37 + 11) % 256) as u8).collect();
    let dst: Vec<u8> = (0..108u32).map(|i| ((i * 91 + 5) % 256) as u8).collect();
    let mut expected = dst.clone();
    blend_over_scalar(&mut expected, &src);
    for blend in [blend_over_avx2, blend_over_sse41, blend_over_neon] {
        let mut out = dst.clone();
        blend(&mut out, &src);
        assert_eq!(out, expected);
    }
    // One pixel by hand: 40 + 200 * (255 - 128) / 256 = 40 + 99.
    let mut px = vec![200, 200, 200, 200];
    blend_over_avx2(&mut px, &vec![40, 40, 40, 128]);
    assert_eq!(px, vec![139, 139, 139, 227]);
}
