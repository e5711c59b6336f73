//! Tests for rasterization: snapped and straight lines, the pixel-perfect
//! filter, the monotonic sorter and polyline handling.

use xprite::algorithms::line::{bresenham, pixel_perfect_line, snapped_line};
use xprite::algorithms::pixel_perfect::pixel_perfect;
use xprite::algorithms::sorter::sort_path;
use xprite::color::Color;
use xprite::geom::{CubicBezierSegment, Point2D};
use xprite::pixels::{Pixel, Pixels};
use xprite::polyline::Polyline;

fn rc(row: i64, col: i64) -> Pixel {
    Pixel::new(col, row, Color::red())
}

fn set_of(pixels: Vec<Pixel>) -> Pixels {
    Pixels::from_slice(&pixels)
}

#[test]
fn test_snap_line() {
    let adjusted_end = snapped_line(true, &rc(0, 0), &rc(9, 10));
    let expected = set_of(vec![
        rc(0, 0),
        rc(1, 1),
        rc(2, 2),
        rc(3, 3),
        rc(4, 4),
        rc(5, 5),
        rc(6, 6),
        rc(7, 7),
        rc(8, 8),
    ]);
    assert_eq!(expected, adjusted_end);
    assert_eq!(adjusted_end.len(), 9);
}

#[test]
fn test_snap_line_horizontal() {
    let run = snapped_line(true, &rc(0, 0), &rc(0, 5));
    // a horizontal run of five cells out of the start, endpoint excluded
    assert_eq!(run.len(), 5);
    assert_eq!(
        run,
        set_of(vec![rc(0, 0), rc(0, 1), rc(0, 2), rc(0, 3), rc(0, 4)])
    );
}

#[test]
fn test_bresenham_diagonal() {
    let line = bresenham(Point2D::new(0, 0), Point2D::new(3, 3));
    assert_eq!(line.len(), 4);
    assert_eq!(
        line,
        set_of(vec![
            Pixel::new(0, 0, Color::red()),
            Pixel::new(1, 1, Color::red()),
            Pixel::new(2, 2, Color::red()),
            Pixel::new(3, 3, Color::red()),
        ])
    );
}

#[test]
fn test_bresenham_degenerate() {
    // a zero-length segment rasterizes to the empty set
    let line = bresenham(Point2D::new(4, 4), Point2D::new(4, 4));
    assert!(line.is_empty());
}

#[test]
fn test_pixel_perfect_line_shallow() {
    let line = pixel_perfect_line(Point2D::new(0, 0), Point2D::new(4, 2));
    // exactly max(|dx|, |dy|) + 1 pixels, first pixel on the start
    assert_eq!(line.len(), 5);
    let first = line.get(0);
    assert_eq!(first.point.x, 0);
    assert_eq!(first.point.y, 0);
}

#[test]
fn test_pixel_perfect_filter_corner() {
    let path = vec![
        Pixel::new(0, 0, Color::red()),
        Pixel::new(0, 1, Color::red()),
        Pixel::new(1, 1, Color::red()),
    ];
    let filtered = pixel_perfect(&path);
    // the middle pixel of the L-turn is dropped
    assert_eq!(filtered.len(), 2);
    assert_eq!(filtered[0].point, Point2D::new(0, 0));
    assert_eq!(filtered[1].point, Point2D::new(1, 1));
}

#[test]
fn test_pixel_perfect_filter_idempotent() {
    let path = vec![
        Pixel::new(0, 0, Color::red()),
        Pixel::new(0, 1, Color::red()),
        Pixel::new(1, 1, Color::red()),
        Pixel::new(1, 2, Color::red()),
        Pixel::new(2, 2, Color::red()),
    ];
    let once = pixel_perfect(&path);
    let twice = pixel_perfect(&once);
    assert_eq!(once.len(), twice.len());
    for k in 0..once.len() {
        assert_eq!(once[k].point, twice[k].point);
    }
}

#[test]
fn test_pixel_perfect_filter_straight_line_kept() {
    let path = vec![
        Pixel::new(0, 0, Color::red()),
        Pixel::new(1, 0, Color::red()),
        Pixel::new(2, 0, Color::red()),
    ];
    let filtered = pixel_perfect(&path);
    assert_eq!(filtered.len(), 3);
}

#[test]
fn test_sort_path_preserves_pixels() {
    let path = vec![
        Pixel::new(2, 2, Color::red()),
        Pixel::new(1, 1, Color::red()),
        Pixel::new(0, 0, Color::red()),
        Pixel::new(1, 0, Color::blue()),
        Pixel::new(2, 0, Color::blue()),
    ];
    let sorted = sort_path(&path);
    assert_eq!(sorted.len(), path.len());
    // the descending diagonal run comes back ascending
    assert_eq!(sorted[0].point, Point2D::new(0, 0));
    assert_eq!(sorted[1].point, Point2D::new(1, 1));
    assert_eq!(sorted[2].point, Point2D::new(2, 2));
}

#[test]
fn test_polyline_connect() {
    let mut poly = Polyline::new();
    poly.push(Point2D::new(0, 0));
    poly.push(Point2D::new(2, 0));
    poly.push(Point2D::new(2, 2));
    let pixs = poly.connect_with_line();
    assert_eq!(
        pixs,
        set_of(vec![
            Pixel::new(0, 0, Color::red()),
            Pixel::new(1, 0, Color::red()),
            Pixel::new(2, 0, Color::red()),
            Pixel::new(2, 1, Color::red()),
            Pixel::new(2, 2, Color::red()),
        ])
    );
}

#[test]
fn test_polyline_simplify() {
    let mut poly = Polyline::new();
    poly.push(Point2D::new(0, 0));
    poly.push(Point2D::new(1, 0));
    poly.push(Point2D::new(2, 0));
    poly.push(Point2D::new(3, 0));
    poly.push(Point2D::new(4, 0));
    let simple = poly.reumann_witkam(1);
    // every interior anchor sits on the corridor line, so only the two
    // endpoints survive
    assert_eq!(simple.len(), 2);
    assert_eq!(simple.get(0), Point2D::new(0, 0));
    assert_eq!(simple.get(1), Point2D::new(4, 0));
}

#[test]
fn test_polyline_simplify_keeps_corner() {
    let mut poly = Polyline::new();
    poly.push(Point2D::new(0, 0));
    poly.push(Point2D::new(1, 0));
    poly.push(Point2D::new(10, 10));
    poly.push(Point2D::new(11, 10));
    poly.push(Point2D::new(20, 0));
    let simple = poly.reumann_witkam(1);
    // the anchor far outside the corridor becomes a new key point
    assert!(simple.len() >= 3);
    assert_eq!(simple.get(0), Point2D::new(0, 0));
    assert_eq!(simple.get(simple.len() - 1), Point2D::new(20, 0));
}

#[test]
fn test_monotonic_sort_keeps_points() {
    let mut pixs = set_of(vec![
        Pixel::new(3, 3, Color::red()),
        Pixel::new(2, 2, Color::red()),
        Pixel::new(1, 1, Color::red()),
    ]);
    let before = pixs.duplicate();
    pixs.monotonic_sort();
    assert_eq!(pixs, before);
}

#[test]
fn test_bezier_sample_endpoints() {
    let seg = CubicBezierSegment {
        from: Point2D::new(0, 0),
        ctrl1: Point2D::new(1, 1),
        ctrl2: Point2D::new(2, 2),
        to: Point2D::new(3, 3),
    };
    let start = seg.sample_cell(0);
    assert_eq!(start, Point2D::new(0, 0));
    let end = seg.sample_cell(1000);
    assert_eq!(end, Point2D::new(3, 3));
    let mid = seg.sample_cell(500);
    assert_eq!(mid, Point2D::new(1, 1));
}

#[test]
fn test_polyline_interp_controls() {
    let mut poly = Polyline::new();
    poly.push(Point2D::new(0, 0));
    poly.push(Point2D::new(9, 9));
    let path = poly.interp();
    assert_eq!(path.segments.len(), 1);
    let seg = path.segments[0];
    assert_eq!(seg.from, Point2D::new(0, 0));
    assert_eq!(seg.to, Point2D::new(9, 9));
    assert_eq!(seg.ctrl1, Point2D::new(1, 1));
    assert_eq!(seg.ctrl2, Point2D::new(8, 8));
}

#[test]
fn test_sort_path_keeps_run_order() {
    // two runs: a descending horizontal run that comes back ascending,
    // then a fresh run after the direction reversal; runs stay in order
    let path = vec![
        Pixel::new(3, 0, Color::red()),
        Pixel::new(2, 0, Color::red()),
        Pixel::new(1, 0, Color::red()),
        Pixel::new(2, 1, Color::blue()),
    ];
    let sorted = sort_path(&path);
    assert_eq!(sorted.len(), 4);
    assert_eq!(sorted[0].point, Point2D::new(1, 0));
    assert_eq!(sorted[1].point, Point2D::new(2, 0));
    assert_eq!(sorted[2].point, Point2D::new(3, 0));
    assert_eq!(sorted[3].point, Point2D::new(2, 1));
}
