use typf::fixed::F26Dot6;
use typf::scan_converter::{DropoutMode, FillRule, PathCommand, ScanConverter};

fn fi(v: i32) -> F26Dot6 {
    F26Dot6::from_int(v)
}

#[test]
fn test_scan_converter_new() {
    let sc = ScanConverter::new(64, 64);
    assert_eq!(sc.width(), 64);
    assert_eq!(sc.height(), 64);
    assert_eq!(sc.fill_rule(), FillRule::NonZeroWinding);
    assert_eq!(sc.dropout_mode(), DropoutMode::Off);
}

#[test]
fn test_scan_converter_set_fill_rule() {
    let mut sc = ScanConverter::new(64, 64);
    sc.set_fill_rule(FillRule::EvenOdd);
    assert_eq!(sc.fill_rule(), FillRule::EvenOdd);
}

#[test]
fn test_scan_converter_set_dropout_mode() {
    let mut sc = ScanConverter::new(64, 64);
    sc.set_dropout_mode(DropoutMode::Simple);
    assert_eq!(sc.dropout_mode(), DropoutMode::Simple);
}

#[test]
fn test_scan_converter_move_to() {
    let mut sc = ScanConverter::new(64, 64);
    sc.move_to(fi(10), fi(20));
    assert_eq!(sc.current_x().to_int(), 10);
    assert_eq!(sc.current_y().to_int(), 20);
    assert_eq!(sc.contour_start_x().to_int(), 10);
    assert_eq!(sc.contour_start_y().to_int(), 20);
}

#[test]
fn test_scan_converter_line_to() {
    let mut sc = ScanConverter::new(64, 64);
    sc.move_to(fi(0), fi(0));
    sc.line_to(fi(10), fi(10));
    assert_eq!(sc.current_x().to_int(), 10);
    assert_eq!(sc.current_y().to_int(), 10);
}

#[test]
fn test_render_simple_rectangle() {
    let mut sc = ScanConverter::new(10, 10);
    sc.move_to(fi(2), fi(2));
    sc.line_to(fi(8), fi(2));
    sc.line_to(fi(8), fi(8));
    sc.line_to(fi(2), fi(8));
    sc.close();

    let mut bitmap = vec![0u8; 100];
    sc.render_mono(&mut bitmap);
    for x in 2..8 {
        assert_eq!(bitmap[4 * 10 + x], 1, "Pixel ({}, 4) should be black", x);
    }
    assert_eq!(bitmap[4 * 10 + 0], 0, "Pixel (0, 4) should be white");
    assert_eq!(bitmap[4 * 10 + 9], 0, "Pixel (9, 4) should be white");
}

#[test]
fn test_render_triangle() {
    let mut sc = ScanConverter::new(20, 20);
    sc.move_to(fi(5), fi(5));
    sc.line_to(fi(15), fi(5));
    sc.line_to(fi(10), fi(15));
    sc.close();

    let mut bitmap = vec![0u8; 400];
    sc.render_mono(&mut bitmap);
    let filled_count: usize = bitmap.iter().filter(|&&p| p == 1).count();
    assert!(filled_count > 20, "Triangle should have filled pixels (got {})", filled_count);
}

#[test]
fn test_even_odd_fill_rule() {
    let mut sc = ScanConverter::new(10, 10);
    sc.set_fill_rule(FillRule::EvenOdd);
    sc.move_to(fi(2), fi(2));
    sc.line_to(fi(8), fi(2));
    sc.line_to(fi(8), fi(8));
    sc.line_to(fi(2), fi(8));
    sc.close();

    let mut bitmap = vec![0u8; 100];
    sc.render_mono(&mut bitmap);
    assert_eq!(bitmap[5 * 10 + 5], 1, "Center should be filled");
}

#[test]
fn test_reset() {
    let mut sc = ScanConverter::new(10, 10);
    sc.move_to(fi(5), fi(5));
    sc.line_to(fi(10), fi(10));
    sc.reset();
    assert_eq!(sc.current_x().to_int(), 0);
    assert_eq!(sc.current_y().to_int(), 0);
}

fn square(sc: &mut ScanConverter, x1: i32, y1: i32, x2: i32, y2: i32) {
    sc.move_to(fi(x1), fi(y1));
    sc.line_to(fi(x2), fi(y1));
    sc.line_to(fi(x2), fi(y2));
    sc.line_to(fi(x1), fi(y2));
    sc.close();
}

#[test]
fn rectangle_fills_exactly_its_pixels() {
    let mut sc = ScanConverter::new(10, 10);
    square(&mut sc, 2, 2, 8, 8);
    let mut bitmap = vec![0u8; 100];
    sc.render_mono(&mut bitmap);
    for y in 0..10 {
        for x in 0..10 {
            let inside = (2..8).contains(&x) && (2..8).contains(&y);
            assert_eq!(bitmap[y * 10 + x], inside as u8, "pixel ({}, {})", x, y);
        }
    }
}

#[test]
fn nested_squares_differ_by_fill_rule() {
    // Two squares drawn in the same direction: the inner one has winding 2.
    let mut nonzero = ScanConverter::new(12, 12);
    square(&mut nonzero, 1, 1, 11, 11);
    square(&mut nonzero, 4, 4, 8, 8);
    let mut a = vec![0u8; 144];
    nonzero.render_mono(&mut a);
    assert_eq!(a[6 * 12 + 6], 1);

    let mut evenodd = ScanConverter::new(12, 12);
    evenodd.set_fill_rule(FillRule::EvenOdd);
    square(&mut evenodd, 1, 1, 11, 11);
    square(&mut evenodd, 4, 4, 8, 8);
    let mut b = vec![0u8; 144];
    evenodd.render_mono(&mut b);
    assert_eq!(b[6 * 12 + 6], 0);
    assert_eq!(b[2 * 12 + 2], 1);
}

#[test]
fn render_clears_previous_bitmap_contents() {
    let mut sc = ScanConverter::new(4, 4);
    let mut bitmap = vec![7u8; 16];
    sc.render_mono(&mut bitmap);
    assert_eq!(bitmap, vec![0u8; 16]);
}

#[test]
fn reset_empties_the_outline() {
    let mut sc = ScanConverter::new(10, 10);
    square(&mut sc, 2, 2, 8, 8);
    sc.reset();
    let mut bitmap = vec![0u8; 100];
    sc.render_mono(&mut bitmap);
    assert!(bitmap.iter().all(|&p| p == 0));
}

#[test]
fn close_returns_to_contour_start() {
    let mut sc = ScanConverter::new(20, 20);
    sc.move_to(fi(3), fi(4));
    sc.line_to(fi(10), fi(4));
    sc.line_to(fi(10), fi(12));
    sc.close();
    assert_eq!(sc.current_x(), fi(3));
    assert_eq!(sc.current_y(), fi(4));
}

#[test]
fn path_commands_match_direct_calls() {
    let mut a = ScanConverter::new(16, 16);
    a.move_to(fi(2), fi(2));
    a.quadratic_to(fi(8), fi(14), fi(14), fi(2));
    a.cubic_to(fi(12), fi(1), fi(4), fi(1), fi(2), fi(2));
    a.close();
    let mut b = ScanConverter::new(16, 16);
    b.apply_path(&vec![
        PathCommand::MoveTo(fi(2), fi(2)),
        PathCommand::QuadTo(fi(8), fi(14), fi(14), fi(2)),
        PathCommand::CubicTo(fi(12), fi(1), fi(4), fi(1), fi(2), fi(2)),
        PathCommand::Close,
    ]);
    let mut ba = vec![0u8; 256];
    let mut bb = vec![0u8; 256];
    a.render_mono(&mut ba);
    b.render_mono(&mut bb);
    assert_eq!(ba, bb);
    assert!(ba.iter().any(|&p| p == 1));
}

#[test]
fn closing_twice_renders_as_closing_once() {
    let render = |closes: usize| {
        let mut sc = ScanConverter::new(8, 8);
        sc.move_to(fi(1), fi(1));
        sc.line_to(fi(6), fi(1));
        sc.line_to(fi(6), fi(6));
        for _ in 0..closes {
            sc.close();
        }
        assert_eq!((sc.current_x().to_int(), sc.current_y().to_int()), (1, 1));
        let mut bitmap = vec![0u8; 64];
        sc.render_mono(&mut bitmap);
        bitmap
    };
    let once = render(1);
    assert_eq!(render(2), once);
    assert!(once.iter().any(|&b| b != 0));
}
