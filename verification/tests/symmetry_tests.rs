//! Tests for the symmetry engine: the literal reflection cases of each
//! mode and the chained multi-mirror tool.

use xprite::algorithms::symmetry::SymmetryMode;
use xprite::color::Color;
use xprite::pixels::{Pixel, Pixels};
use xprite::tools::symmetry::Symmetry;
use xprite::xprite::Xprite;

fn rc(row: i64, col: i64) -> Pixel {
    Pixel::new(col, row, Color::red())
}

fn set_of(pixels: Vec<Pixel>) -> Pixels {
    Pixels::from_slice(&pixels)
}

#[test]
fn test_process_symmetry_vertial() {
    let pixs = set_of(vec![rc(0, 0), rc(1, 0), rc(2, 0)]);
    let mut ret = Pixels::new();
    let symm = SymmetryMode::Vertical(1);
    symm.process(&pixs, &mut ret);
    assert_eq!(ret, set_of(vec![rc(0, 1), rc(1, 1), rc(2, 1)]));
}

#[test]
fn test_process_symmetry_horizontal() {
    let pixs = set_of(vec![
        Pixel::new(0, 0, Color::red()),
        Pixel::new(1, 0, Color::red()),
        Pixel::new(2, 0, Color::red()),
    ]);
    let mut ret = Pixels::new();
    let symm = SymmetryMode::Horizontal(1);
    symm.process(&pixs, &mut ret);
    assert_eq!(
        ret,
        set_of(vec![
            Pixel::new(0, 1, Color::red()),
            Pixel::new(1, 1, Color::red()),
            Pixel::new(2, 1, Color::red()),
        ])
    );
}

#[test]
fn test_process_symmetry_quad() {
    let pixs = set_of(vec![Pixel::new(0, 0, Color::red())]);
    let mut ret = Pixels::new();
    let symm = SymmetryMode::Quad(1, 1);
    symm.process(&pixs, &mut ret);
    assert_eq!(
        ret,
        set_of(vec![
            Pixel::new(0, 1, Color::red()),
            Pixel::new(1, 1, Color::red()),
            Pixel::new(1, 0, Color::red()),
        ])
    );
}

#[test]
fn test_process_symmetry_quad2() {
    let pixs = set_of(vec![rc(0, 0), rc(1, 0)]);
    let mut ret = Pixels::new();
    let symm = SymmetryMode::Quad(2, 1);
    symm.process(&pixs, &mut ret);
    assert_eq!(
        ret,
        set_of(vec![rc(0, 1), rc(1, 1), rc(2, 0), rc(3, 0), rc(2, 1), rc(3, 1)])
    );
}

#[test]
fn test_antidiagonal_symmetry() {
    let pixs = set_of(vec![rc(0, 0)]);
    let mut ret = Pixels::new();
    let symm = SymmetryMode::AntiDiagonal(2);
    symm.process(&pixs, &mut ret);
    assert_eq!(ret, set_of(vec![rc(1, 1)]));
}

#[test]
fn test_antidiagonal_symmetry2() {
    let pixs = set_of(vec![rc(0, 0)]);
    let mut ret = Pixels::new();
    let symm = SymmetryMode::AntiDiagonal(3);
    symm.process(&pixs, &mut ret);
    assert_eq!(ret, set_of(vec![rc(2, 2)]));
}

#[test]
fn test_antidiagonal_symmetry3() {
    let pixs = set_of(vec![rc(0, 0), rc(1, 0)]);
    let mut ret = Pixels::new();
    let symm = SymmetryMode::AntiDiagonal(3);
    symm.process(&pixs, &mut ret);
    assert_eq!(ret, set_of(vec![rc(2, 1), rc(2, 2)]));
}

#[test]
fn test_diagonal_symmetry() {
    let pixs = set_of(vec![rc(0, 1)]);
    let mut ret = Pixels::new();
    let symm = SymmetryMode::Diagonal(0);
    symm.process(&pixs, &mut ret);
    assert_eq!(ret, set_of(vec![rc(1, 0)]));
}

#[test]
fn test_diagonal_symmetry1() {
    let pixs = set_of(vec![rc(0, 1)]);
    let mut ret = Pixels::new();
    let symm = SymmetryMode::Diagonal(1);
    symm.process(&pixs, &mut ret);
    assert_eq!(ret, set_of(vec![rc(0, -1)]));
}

#[test]
fn test_multistep_symmetry() {
    // chaining a horizontal and a vertical mirror matches the quad mode
    let pixs = set_of(vec![rc(0, 0), rc(1, 0)]);
    let mut symm = Symmetry::new();
    symm.add_symmetry(SymmetryMode::Horizontal(2));
    symm.add_symmetry(SymmetryMode::Vertical(1));
    let ret = symm.process(&pixs);
    assert_eq!(
        ret,
        set_of(vec![rc(0, 1), rc(1, 1), rc(2, 0), rc(3, 0), rc(2, 1), rc(3, 1)])
    );
}

#[test]
fn test_symmetry_mode_names() {
    assert_eq!(SymmetryMode::Horizontal(0).as_str(), "Horizontal");
    assert_eq!(SymmetryMode::Vertical(0).as_str(), "Vertical");
    assert_eq!(SymmetryMode::Diagonal(0).as_str(), "Diagonal");
    assert_eq!(SymmetryMode::AntiDiagonal(0).as_str(), "AntiDiagonal");
    assert_eq!(SymmetryMode::Quad(0, 0).as_str(), "Quad");
}

#[test]
fn test_symmetry_guides() {
    let guides = SymmetryMode::Vertical(3).get_line(8, 8);
    assert_eq!(guides.len(), 1);
    assert_eq!(guides[0].p0.x, 0);
    assert_eq!(guides[0].p0.y, 3);
    assert_eq!(guides[0].p1.x, 8);
    assert_eq!(guides[0].p1.y, 3);
    let quad = SymmetryMode::Quad(2, 3).get_line(8, 8);
    assert_eq!(quad.len(), 2);
}

#[test]
fn test_remove_symmetry() {
    let mut symm = Symmetry::new();
    symm.add_symmetry(SymmetryMode::Horizontal(1));
    symm.add_symmetry(SymmetryMode::Vertical(2));
    symm.remove_symmetry(0);
    assert_eq!(symm.symms.len(), 1);
    assert_eq!(symm.symms[0], SymmetryMode::Vertical(2));
}

#[test]
fn test_symmetry_keeps_source_colors() {
    // a mirrored pixel lands with the color of its source pixel
    let pixs = set_of(vec![
        Pixel::new(0, 0, Color::red()),
        Pixel::new(1, 0, Color::green()),
    ]);
    let mut ret = Pixels::new();
    SymmetryMode::Vertical(2).process(&pixs, &mut ret);
    assert_eq!(
        ret.color_at(xprite::geom::Point2D::new(3, 0)),
        Some(Color::red())
    );
    assert_eq!(
        ret.color_at(xprite::geom::Point2D::new(2, 0)),
        Some(Color::green())
    );
}

#[test]
fn test_symmetry_double_reflection_restores() {
    // reflecting twice across the same axis restores points and colors
    let pixs = set_of(vec![
        Pixel::new(0, 1, Color::red()),
        Pixel::new(2, 3, Color::blue()),
    ]);
    let mut once = Pixels::new();
    SymmetryMode::Horizontal(2).process(&pixs, &mut once);
    let mut twice = Pixels::new();
    SymmetryMode::Horizontal(2).process(&once, &mut twice);
    assert_eq!(twice, pixs);
    assert_eq!(
        twice.color_at(xprite::geom::Point2D::new(0, 1)),
        Some(Color::red())
    );
    assert_eq!(
        twice.color_at(xprite::geom::Point2D::new(2, 3)),
        Some(Color::blue())
    );
}

#[test]
fn test_symmetry_update_refreshes_guides() {
    let mut xpr = Xprite::new(8, 8);
    let mut symm = Symmetry::new();
    symm.add_symmetry(SymmetryMode::Vertical(3));
    symm.add_symmetry(SymmetryMode::Horizontal(2));
    let changed = symm.update(&mut xpr).unwrap();
    assert!(changed);
    // one guide per single mirror, in configuration order
    assert_eq!(xpr.line_buf.len(), 2);
    assert_eq!(xpr.line_buf[0].p0.y, 3);
    assert_eq!(xpr.line_buf[1].p0.x, 2);
    // a clean chain leaves the guides untouched
    let changed_again = symm.update(&mut xpr).unwrap();
    assert!(!changed_again);
    assert_eq!(xpr.line_buf.len(), 2);
}
