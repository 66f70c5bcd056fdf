use typf::fixed::F26Dot6;
use typf::grayscale::{downsample_to_grayscale_scalar, downsample_to_grayscale_simd, downsample_to_grayscale, render_grayscale, render_grayscale_direct, GrayscaleLevel};
use typf::scan_converter::{PathCommand, ScanConverter};

fn fi(v: i32) -> F26Dot6 {
    F26Dot6::from_int(v)
}

fn rect(x1: i32, y1: i32, x2: i32, y2: i32) -> Vec<PathCommand> {
    vec![
        PathCommand::MoveTo(fi(x1), fi(y1)),
        PathCommand::LineTo(fi(x2), fi(y1)),
        PathCommand::LineTo(fi(x2), fi(y2)),
        PathCommand::LineTo(fi(x1), fi(y2)),
        PathCommand::Close,
    ]
}

#[test]
fn grayscale_test_grayscale_level_factor() {
    assert_eq!(GrayscaleLevel::Level2x2.factor(), 2);
    assert_eq!(GrayscaleLevel::Level4x4.factor(), 4);
    assert_eq!(GrayscaleLevel::Level8x8.factor(), 8);
}

#[test]
fn grayscale_test_grayscale_level_samples() {
    assert_eq!(GrayscaleLevel::Level2x2.samples_per_pixel(), 4);
    assert_eq!(GrayscaleLevel::Level4x4.samples_per_pixel(), 16);
    assert_eq!(GrayscaleLevel::Level8x8.samples_per_pixel(), 64);
}

#[test]
fn grayscale_test_downsample_all_black() {
    let mono = vec![1u8; 4 * 4];
    let gray = downsample_to_grayscale(&mono, 4, 4, 2, 2, GrayscaleLevel::Level2x2);
    assert_eq!(gray.len(), 4);
    for &alpha in &gray {
        assert_eq!(alpha, 255);
    }
}

#[test]
fn grayscale_test_downsample_all_white() {
    let mono = vec![0u8; 4 * 4];
    let gray = downsample_to_grayscale(&mono, 4, 4, 2, 2, GrayscaleLevel::Level2x2);
    for &alpha in &gray {
        assert_eq!(alpha, 0);
    }
}

#[test]
fn grayscale_test_downsample_half_coverage() {
    let mono = vec![1, 0, 1, 0, 0, 1, 0, 1, 1, 0, 1, 0, 0, 1, 0, 1];
    let gray = downsample_to_grayscale(&mono, 4, 4, 2, 2, GrayscaleLevel::Level2x2);
    for &alpha in &gray {
        assert!(alpha >= 120 && alpha <= 135, "Alpha = {}", alpha);
    }
}

#[test]
fn grayscale_test_render_grayscale_direct_rectangle() {
    let gray = render_grayscale_direct(10, 10, GrayscaleLevel::Level2x2, &rect(4, 4, 16, 16));
    assert_eq!(gray.len(), 100);
    assert!(gray[5 * 10 + 5] > 200, "Center alpha = {}", gray[5 * 10 + 5]);
    assert!(gray[0] < 50, "Corner alpha = {}", gray[0]);
}

#[test]
fn grayscale_test_render_grayscale_levels() {
    for level in [GrayscaleLevel::Level2x2, GrayscaleLevel::Level4x4, GrayscaleLevel::Level8x8] {
        let factor = level.factor() as i32;
        let outline = rect(2 * factor, 2 * factor, 6 * factor, 6 * factor);
        let gray = render_grayscale_direct(8, 8, level, &outline);
        assert_eq!(gray.len(), 64);
        let filled = gray.iter().filter(|&&a| a > 100).count();
        assert!(filled > 0, "Level {:?} has no filled pixels", level);
    }
}

#[test]
fn grayscale_max_alpha_values() {
    assert_eq!(GrayscaleLevel::Level2x2.max_alpha(), 4);
    assert_eq!(GrayscaleLevel::Level4x4.max_alpha(), 16);
    assert_eq!(GrayscaleLevel::Level8x8.max_alpha(), 64);
}

#[test]
fn downsample_quarter_coverage_is_exact() {
    // One sample of four in each block: 1 * 255 / 4 = 63.
    let mono = vec![1, 0, 1, 0, 0, 0, 0, 0, 1, 0, 1, 0, 0, 0, 0, 0];
    let gray = downsample_to_grayscale(&mono, 4, 4, 2, 2, GrayscaleLevel::Level2x2);
    assert_eq!(gray, vec![63, 63, 63, 63]);
}

#[test]
fn downsample_clips_blocks_at_the_bitmap_edge() {
    // A 3x3 bitmap seen as 2x2 output pixels: the right and bottom blocks
    // are partly outside and count only the samples inside.
    let mono = vec![1u8; 9];
    let gray = downsample_to_grayscale(&mono, 3, 3, 2, 2, GrayscaleLevel::Level2x2);
    assert_eq!(gray, vec![255, 127, 127, 63]);
}

#[test]
fn render_grayscale_matches_direct_rendering() {
    let outline = rect(4, 4, 16, 16);
    let mut sc = ScanConverter::new(20, 20);
    sc.apply_path(&outline);
    let via_converter = render_grayscale(&mut sc, 10, 10, GrayscaleLevel::Level2x2);
    let direct = render_grayscale_direct(10, 10, GrayscaleLevel::Level2x2, &outline);
    assert_eq!(via_converter, direct);
}

#[test]
fn wide_downsampling_rounds_to_nearest() {
    // 4x2 samples: left block fully set, right block half set.
    let mono = vec![1, 1, 1, 0, 1, 1, 0, 1];
    let out = downsample_to_grayscale_simd(&mono, 4, 2, 2, 1, GrayscaleLevel::Level2x2);
    assert_eq!(out, vec![255, 128]);
    let scalar = downsample_to_grayscale_scalar(&mono, 4, 2, 2, 1, GrayscaleLevel::Level2x2);
    assert_eq!(scalar, vec![255, 127]);
}

#[test]
fn wide_downsampling_sums_sample_bytes() {
    // Byte values are summed as they are, and the result saturates.
    let mono = vec![2, 2, 2, 2];
    let out = downsample_to_grayscale_simd(&mono, 2, 2, 1, 1, GrayscaleLevel::Level2x2);
    assert_eq!(out, vec![255]);
}

#[test]
fn wide_and_scalar_downsampling_agree_within_one() {
    let (mw, mh) = (16usize, 8usize);
    let mono: Vec<u8> = (0..mw * mh).map(|i| ((i * 7 + i / 5) % 3 == 0) as u8).collect();
    for level in [GrayscaleLevel::Level2x2, GrayscaleLevel::Level4x4, GrayscaleLevel::Level8x8] {
        let f = level.factor();
        let (ow, oh) = (mw / f, mh / f);
        let scalar = downsample_to_grayscale_scalar(&mono, mw, mh, ow, oh, level);
        let wide = downsample_to_grayscale_simd(&mono, mw, mh, ow, oh, level);
        assert_eq!(scalar.len(), wide.len());
        for (s, w) in scalar.iter().zip(wide.iter()) {
            assert!(*w >= *s && *w - *s <= 1, "scalar {} wide {}", s, w);
        }
    }
    // Two of four samples: 127 rounded down, 128 rounded.
    let half = vec![1u8, 0, 0, 1];
    assert_eq!(downsample_to_grayscale_scalar(&half, 2, 2, 1, 1, GrayscaleLevel::Level2x2), vec![127]);
    assert_eq!(downsample_to_grayscale_simd(&half, 2, 2, 1, 1, GrayscaleLevel::Level2x2), vec![128]);
}
