//! Tests for the history manager, the flood-fill engine and the drawing
//! tools driving a document end to end.

use xprite::algorithms::floodfill::{floodfill, floodfill_until, FloodFillDegrees};
use xprite::color::Color;
use xprite::geom::Point2D;
use xprite::history::History;
use xprite::pixels::{Pixel, Pixels};
use xprite::tools::line::Line;
use xprite::tools::paint_bucket::PaintBucket;
use xprite::tools::color_picker::ColorPicker;
use xprite::tools::pencil::{Pencil, PencilMode};
use xprite::tools::vector::Vector;
use xprite::tools::{InputItem, ToolType};
use xprite::xprite::Xprite;

fn set_of(pixels: Vec<Pixel>) -> Pixels {
    Pixels::from_slice(&pixels)
}

#[test]
fn test_history_discipline() {
    let mut h = History::new(String::from("background"));
    assert_eq!(h.frame_count(), 1);
    assert_eq!(h.cursor_index(), 0);
    h.enter();
    h.enter();
    // two commits: the cursor sits on the second copy
    assert_eq!(h.cursor_index(), 2);
    assert_eq!(h.frame_count(), 3);
    h.undo();
    assert_eq!(h.cursor_index(), 1);
    h.redo();
    assert_eq!(h.cursor_index(), 2);
    // redo at the top of the stack is a no-op
    h.redo();
    assert_eq!(h.cursor_index(), 2);
    // undo at the oldest frame saturates
    h.undo();
    h.undo();
    h.undo();
    assert_eq!(h.cursor_index(), 0);
    assert_eq!(h.frame_count(), 3);
}

#[test]
fn test_history_enter_truncates_redo_tail() {
    let mut h = History::new(String::from("background"));
    h.enter();
    h.enter();
    h.undo();
    h.undo();
    assert_eq!(h.cursor_index(), 0);
    h.enter();
    // the redo tail above the cursor was discarded by the fresh commit
    assert_eq!(h.frame_count(), 2);
    assert_eq!(h.cursor_index(), 1);
    h.redo();
    assert_eq!(h.cursor_index(), 1);
}

#[test]
fn test_history_redo_after_fresh_enter_noop() {
    let mut h = History::new(String::from("background"));
    h.enter();
    let frames = h.frame_count();
    let cursor = h.cursor_index();
    h.redo();
    assert_eq!(h.frame_count(), frames);
    assert_eq!(h.cursor_index(), cursor);
}

#[test]
fn test_floodfill_enclosed_region() {
    // a 4-connected red ring around the center of a 5 by 5 canvas
    let mut ring = Vec::new();
    for d in 0..3i64 {
        ring.push(Pixel::new(1 + d, 1, Color::red()));
        ring.push(Pixel::new(1 + d, 3, Color::red()));
        ring.push(Pixel::new(1, 1 + d, Color::red()));
        ring.push(Pixel::new(3, 1 + d, Color::red()));
    }
    let content = set_of(ring);
    let filled = floodfill(
        5,
        5,
        &content,
        Point2D::new(2, 2),
        None,
        Color::blue(),
        FloodFillDegrees::Four,
    );
    // the fill never leaks outside the enclosing boundary
    assert_eq!(filled, set_of(vec![Pixel::new(2, 2, Color::blue())]));
    assert_eq!(filled.len(), 1);
}

#[test]
fn test_floodfill_open_canvas() {
    let content = Pixels::new();
    let filled = floodfill(
        3,
        3,
        &content,
        Point2D::new(0, 0),
        None,
        Color::green(),
        FloodFillDegrees::Four,
    );
    assert_eq!(filled.len(), 9);
}

#[test]
fn test_floodfill_oob_seed() {
    let content = Pixels::new();
    let filled = floodfill(
        3,
        3,
        &content,
        Point2D::new(7, 7),
        None,
        Color::green(),
        FloodFillDegrees::Four,
    );
    assert!(filled.is_empty());
}

#[test]
fn test_floodfill_refill_is_empty() {
    // filling a region that already carries the fill color adds nothing
    let content = set_of(vec![Pixel::new(0, 0, Color::blue())]);
    let filled = floodfill(
        1,
        1,
        &content,
        Point2D::new(0, 0),
        Some(Color::blue()),
        Color::blue(),
        FloodFillDegrees::Four,
    );
    assert!(filled.is_empty());
}

#[test]
fn test_floodfill_eight_connected() {
    // a diagonal gap stops a 4-connected fill but not an 8-connected one
    let wall = set_of(vec![
        Pixel::new(1, 0, Color::red()),
        Pixel::new(0, 1, Color::red()),
    ]);
    let four = floodfill(
        2,
        2,
        &wall,
        Point2D::new(0, 0),
        None,
        Color::green(),
        FloodFillDegrees::Four,
    );
    assert_eq!(four.len(), 1);
    let eight = floodfill(
        2,
        2,
        &wall,
        Point2D::new(0, 0),
        None,
        Color::green(),
        FloodFillDegrees::Eight,
    );
    assert_eq!(eight.len(), 2);
}

#[test]
fn test_floodfill_until_target() {
    // fill-until-target runs over differently colored cells and stops at
    // cells already carrying the fill color
    let content = set_of(vec![
        Pixel::new(1, 0, Color::red()),
        Pixel::new(2, 0, Color::blue()),
    ]);
    let filled = floodfill_until(
        4,
        1,
        &content,
        Point2D::new(0, 0),
        Color::blue(),
        FloodFillDegrees::Four,
    );
    assert_eq!(filled.len(), 2);
    assert!(filled.contains(&Pixel::new(0, 0, Color::blue())));
    assert!(filled.contains(&Pixel::new(1, 0, Color::blue())));
}

#[test]
fn test_line_tool_commits_line() {
    let mut xpr = Xprite::new(16, 16);
    xpr.set_color(&Color::red());
    let mut tool = Line::new();
    tool.mouse_down(&mut xpr, Point2D::new(0, 0), InputItem::Left).unwrap();
    tool.mouse_up(&mut xpr, Point2D::new(3, 3)).unwrap();
    let expected = set_of(vec![
        Pixel::new(0, 0, Color::red()),
        Pixel::new(1, 1, Color::red()),
        Pixel::new(2, 2, Color::red()),
        Pixel::new(3, 3, Color::red()),
    ]);
    assert_eq!(xpr.current_layer().pixels(), &expected);
    assert_eq!(xpr.history.cursor_index(), 1);
}

#[test]
fn test_line_tool_set_options() {
    let mut xpr = Xprite::new(16, 16);
    let mut tool = Line::new();
    tool.set(&mut xpr, "ctrl", "true").unwrap();
    assert!(tool.snap);
    assert!(tool.is_snap_45);
    tool.set(&mut xpr, "ctrl", "false").unwrap();
    assert!(!tool.snap);
    tool.set(&mut xpr, "shift", "true").unwrap();
    assert!(tool.snap);
    assert!(!tool.is_snap_45);
    tool.set(&mut xpr, "volume", "up").unwrap();
    assert!(tool.snap);
}

#[test]
fn test_pencil_tool_commits_stroke() {
    let mut xpr = Xprite::new(16, 16);
    xpr.set_color(&Color::green());
    let mut tool = Pencil::new();
    tool.mouse_down(&mut xpr, Point2D::new(0, 0), InputItem::Left).unwrap();
    tool.mouse_move(&mut xpr, Point2D::new(0, 1)).unwrap();
    tool.mouse_move(&mut xpr, Point2D::new(1, 1)).unwrap();
    tool.mouse_up(&mut xpr, Point2D::new(1, 1)).unwrap();
    // the pixel-perfect stroke drops the staircase corner
    let expected = set_of(vec![
        Pixel::new(0, 0, Color::green()),
        Pixel::new(1, 1, Color::green()),
    ]);
    assert_eq!(xpr.current_layer().pixels(), &expected);
    assert_eq!(xpr.history.cursor_index(), 1);
}

#[test]
fn test_pencil_mode_parsing() {
    assert_eq!(PencilMode::from_str("Raw"), Ok(PencilMode::Raw));
    assert_eq!(PencilMode::from_str("Pixel Perfect"), Ok(PencilMode::PixelPerfect));
    assert_eq!(
        PencilMode::from_str("Sorted Monotonic"),
        Ok(PencilMode::SortedMonotonic)
    );
    assert_eq!(PencilMode::from_str("scribble"), Err(()));
    assert_eq!(PencilMode::Raw.as_str(), "Raw");
    assert_eq!(PencilMode::PixelPerfect.as_str(), "Pixel Perfect");
    assert_eq!(PencilMode::SortedMonotonic.as_str(), "Sorted Monotonic");
}

#[test]
fn test_paint_bucket_commits_fill() {
    let mut xpr = Xprite::new(2, 2);
    xpr.set_color(&Color::blue());
    let mut tool = PaintBucket::new();
    tool.mouse_up(&mut xpr, Point2D::new(0, 0)).unwrap();
    let expected = set_of(vec![
        Pixel::new(0, 0, Color::blue()),
        Pixel::new(0, 1, Color::blue()),
        Pixel::new(1, 0, Color::blue()),
        Pixel::new(1, 1, Color::blue()),
    ]);
    assert_eq!(xpr.current_layer().pixels(), &expected);
    assert_eq!(xpr.history.cursor_index(), 1);
}

#[test]
fn test_paint_bucket_oob_is_noop() {
    let mut xpr = Xprite::new(2, 2);
    let mut tool = PaintBucket::new();
    tool.mouse_up(&mut xpr, Point2D::new(9, 9)).unwrap();
    assert_eq!(xpr.history.cursor_index(), 0);
    assert!(xpr.current_layer().pixels().is_empty());
}

#[test]
fn test_color_picker_picks() {
    let mut xpr = Xprite::new(4, 4);
    xpr.set_color(&Color::red());
    let mut line = Line::new();
    line.mouse_down(&mut xpr, Point2D::new(1, 1), InputItem::Left).unwrap();
    line.mouse_up(&mut xpr, Point2D::new(2, 1)).unwrap();
    xpr.set_color(&Color::blue());
    let mut picker = ColorPicker::new();
    picker
        .mouse_down(&mut xpr, Point2D::new(1, 1), InputItem::Left)
        .unwrap();
    assert_eq!(xpr.color(), Color::red());
    // picking an empty cell keeps the current color
    xpr.set_color(&Color::green());
    picker
        .mouse_down(&mut xpr, Point2D::new(3, 3), InputItem::Left)
        .unwrap();
    assert_eq!(xpr.color(), Color::green());
}

#[test]
fn test_tool_type_names() {
    assert_eq!(ToolType::Pencil.as_str(), "Pencil");
    assert_eq!(ToolType::Line.as_str(), "Line");
    assert_eq!(ToolType::PaintBucket.as_str(), "PaintBucket");
    assert_eq!(ToolType::ColorPicker.as_str(), "ColorPicker");
    assert_eq!(ToolType::default(), ToolType::Pencil);
}

#[test]
fn test_brush_shapes() {
    let pixel = xprite::brush::Brush::pixel();
    assert_eq!(pixel.shape.len(), 1);
    assert_eq!(pixel.size, (1, 1));
    let cross = xprite::brush::Brush::cross();
    assert_eq!(cross.shape.len(), 5);
    assert_eq!(cross.size, (3, 3));
    assert!(cross.shape.contains(&Pixel::new(1, 1, Color::red())));
    assert!(!cross.shape.contains(&Pixel::new(0, 0, Color::red())));
}

#[test]
fn test_undo_restores_previous_content() {
    let mut xpr = Xprite::new(8, 8);
    xpr.set_color(&Color::red());
    let mut tool = Line::new();
    tool.mouse_down(&mut xpr, Point2D::new(0, 0), InputItem::Left).unwrap();
    tool.mouse_up(&mut xpr, Point2D::new(2, 0)).unwrap();
    assert_eq!(xpr.current_layer().pixels().len(), 3);
    xpr.history.undo();
    assert!(xpr.current_layer().pixels().is_empty());
    xpr.history.redo();
    assert_eq!(xpr.current_layer().pixels().len(), 3);
}

#[test]
fn test_vector_tool_commits_curve() {
    let mut xpr = Xprite::new(16, 16);
    let mut tool = Vector::new();
    tool.mouse_down(&mut xpr, Point2D::new(0, 0), InputItem::Left).unwrap();
    tool.mouse_move(&mut xpr, Point2D::new(9, 9)).unwrap();
    tool.mouse_up(&mut xpr, Point2D::new(9, 9)).unwrap();
    assert_eq!(xpr.history.cursor_index(), 1);
    // the samples run along the curve from the start anchor; the very
    // last grid cell is approached but not sampled
    let content = xpr.current_layer().pixels();
    assert!(content.contains(&Pixel::new(0, 0, Color::red())));
    assert!(content.contains(&Pixel::new(8, 8, Color::red())));
    assert!(!content.is_empty());
}

#[test]
fn test_pencil_ignores_pointer_outside_canvas() {
    let mut xpr = Xprite::new(4, 4);
    let mut tool = Pencil::new();
    tool.mouse_down(&mut xpr, Point2D::new(0, 0), InputItem::Left).unwrap();
    // pointer travel outside the canvas is a silent no-op
    tool.mouse_move(&mut xpr, Point2D::new(9, 9)).unwrap();
    tool.mouse_move(&mut xpr, Point2D::new(2, 0)).unwrap();
    tool.mouse_up(&mut xpr, Point2D::new(2, 0)).unwrap();
    let expected = set_of(vec![
        Pixel::new(0, 0, Color::black()),
        Pixel::new(1, 0, Color::black()),
        Pixel::new(2, 0, Color::black()),
    ]);
    assert_eq!(xpr.current_layer().pixels(), &expected);
}

#[test]
fn test_pencil_degenerate_commit() {
    // a press-and-release without movement commits the single footprint
    let mut xpr = Xprite::new(8, 8);
    xpr.set_color(&Color::red());
    let mut tool = Pencil::new();
    tool.mouse_down(&mut xpr, Point2D::new(3, 4), InputItem::Left).unwrap();
    tool.mouse_up(&mut xpr, Point2D::new(3, 4)).unwrap();
    assert_eq!(xpr.history.cursor_index(), 1);
    let expected = set_of(vec![Pixel::new(3, 4, Color::red())]);
    assert_eq!(xpr.current_layer().pixels(), &expected);
}

#[test]
fn test_set_malformed_values_are_noops() {
    let mut xpr = Xprite::new(8, 8);
    let mut line = Line::new();
    line.set(&mut xpr, "ctrl", "true").unwrap();
    line.set(&mut xpr, "ctrl", "sideways").unwrap();
    assert!(line.snap);
    assert!(line.is_snap_45);
    let mut pencil = Pencil::new();
    pencil.set(&mut xpr, "mode", "Raw").unwrap();
    pencil.set(&mut xpr, "mode", "scribble").unwrap();
    assert_eq!(pencil.mode, PencilMode::Raw);
    pencil.set(&mut xpr, "brush", "@").unwrap();
    assert_eq!(pencil.brush.shape.len(), 1);
}
