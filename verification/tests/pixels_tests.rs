//! Tests for the pixel set: insertion, merging, set operations and the
//! occupancy-matrix conversions.

use xprite::color::Color;
use xprite::pixels::{Pixel, Pixels};

fn px(x: i64, y: i64, color: Color) -> Pixel {
    Pixel::new(x, y, color)
}

fn set_of(pixels: Vec<Pixel>) -> Pixels {
    Pixels::from_slice(&pixels)
}

#[test]
fn test_extend() {
    let mut v1 = set_of(vec![px(0, 0, Color::blue()), px(0, 1, Color::blue())]);
    let v2 = set_of(vec![px(0, 1, Color::blue())]);
    v1.extend(&v2);
    let expected = set_of(vec![px(0, 0, Color::blue()), px(0, 1, Color::blue())]);
    assert_eq!(expected, v1);
    assert_eq!(v1.len(), 2);
}

#[test]
fn test_extend_dup() {
    let mut v1 = set_of(vec![px(0, 0, Color::red()), px(0, 1, Color::red())]);
    let v2 = set_of(vec![px(0, 1, Color::blue())]);
    v1.extend(&v2);
    let expected = set_of(vec![px(0, 0, Color::red()), px(0, 1, Color::blue())]);
    assert_eq!(expected, v1);
    // merging at an existing point replaces the color and keeps the size
    assert_eq!(v1.len(), 2);
    let merged = v1.color_at(xprite::geom::Point2D::new(0, 1));
    assert_eq!(merged, Some(Color::blue()));
}

#[test]
fn test_bool_mat() {
    let pixs = set_of(vec![
        px(0, 0, Color::red()),
        px(0, 1, Color::red()),
        px(1, 1, Color::red()),
    ]);
    assert_eq!(
        pixs.as_bool_mat(2, 2),
        vec![vec![true, true], vec![false, true]]
    );
}

#[test]
fn test_sub() {
    let mut v1 = set_of(vec![px(0, 0, Color::red()), px(0, 1, Color::red())]);
    v1.sub(&set_of(vec![px(0, 1, Color::blue())]));
    assert_eq!(set_of(vec![px(0, 0, Color::red())]), v1);
}

#[test]
fn test_intersection() {
    let v1 = set_of(vec![px(0, 0, Color::red()), px(0, 1, Color::red())]);
    let intersection = v1.intersection(&set_of(vec![px(0, 1, Color::blue())]));
    assert_eq!(set_of(vec![px(0, 1, Color::red())]), intersection);
}

#[test]
fn test_push_replaces_color_keeps_size() {
    // pushing onto an occupied coordinate replaces the color in place and
    // preserves the set size
    let mut pixs = Pixels::new();
    pixs.push(px(4, 5, Color::red()));
    pixs.push(px(4, 5, Color::blue()));
    assert_eq!(pixs.len(), 1);
    let kept = pixs.color_at(xprite::geom::Point2D::new(4, 5));
    assert_eq!(kept, Some(Color::blue()));
}

#[test]
fn test_push_first_keeps_first_color() {
    // the sampling entry point suppresses duplicates first-hit
    let mut pixs = Pixels::new();
    pixs.push_first(px(4, 5, Color::red()));
    pixs.push_first(px(4, 5, Color::blue()));
    assert_eq!(pixs.len(), 1);
    let kept = pixs.color_at(xprite::geom::Point2D::new(4, 5));
    assert_eq!(kept, Some(Color::red()));
}

#[test]
fn test_insert_replaces_color_keeps_size() {
    let mut pixs = Pixels::new();
    pixs.push(px(4, 5, Color::red()));
    pixs.insert(px(4, 5, Color::green()));
    assert_eq!(pixs.len(), 1);
    let kept = pixs.color_at(xprite::geom::Point2D::new(4, 5));
    assert_eq!(kept, Some(Color::green()));
}

#[test]
fn test_from_slice_dedups() {
    let pixs = set_of(vec![
        px(1, 1, Color::red()),
        px(2, 2, Color::red()),
        px(1, 1, Color::blue()),
    ]);
    assert_eq!(pixs.len(), 2);
}

#[test]
fn test_set_color() {
    let mut pixs = set_of(vec![px(0, 0, Color::red()), px(3, 3, Color::blue())]);
    pixs.set_color(&Color::green());
    assert_eq!(pixs.len(), 2);
    assert_eq!(
        pixs.color_at(xprite::geom::Point2D::new(0, 0)),
        Some(Color::green())
    );
    assert_eq!(
        pixs.color_at(xprite::geom::Point2D::new(3, 3)),
        Some(Color::green())
    );
}

#[test]
fn test_bool_mat_round_trip() {
    let pixs = set_of(vec![
        px(0, 0, Color::red()),
        px(1, 2, Color::blue()),
        px(2, 1, Color::green()),
    ]);
    let mat = pixs.as_bool_mat(3, 3);
    let back = Pixels::from_bool_mat(&mat, Color::red());
    // the coordinate set survives the round trip; the colors are normalized
    assert_eq!(back, pixs);
}

#[test]
fn test_empty_pixels() {
    let pixs = Pixels::new();
    assert!(pixs.is_empty());
    assert_eq!(pixs.len(), 0);
    assert_eq!(pixs.as_bool_mat(2, 2), vec![vec![false, false], vec![false, false]]);
}

#[test]
fn test_contains() {
    let pixs = set_of(vec![px(7, 8, Color::red())]);
    assert!(pixs.contains(&px(7, 8, Color::blue())));
    assert!(!pixs.contains(&px(8, 7, Color::red())));
}

#[test]
fn test_as_mat() {
    let pixs = set_of(vec![px(0, 1, Color::red()), px(1, 0, Color::blue())]);
    let m = pixs.as_mat(2, 2);
    assert!(m[0][0].is_none());
    assert!(m[0][1].is_some());
    assert_eq!(m[0][1].unwrap().color, Color::red());
    assert!(m[1][0].is_some());
    assert_eq!(m[1][0].unwrap().color, Color::blue());
    assert!(m[1][1].is_none());
}
