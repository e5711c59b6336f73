//! The drawing tools: one state machine per tool, each consuming pointer
//! events in canvas coordinates and committing pixel changes through the
//! document's history.

pub mod color_picker;
pub mod line;
pub mod paint_bucket;
pub mod pencil;
pub mod symmetry;
pub mod vector;

use vstd::prelude::*;

verus! {

/// The closed set of tool kinds.
#[derive(Clone, Copy, Debug, PartialEq, Eq, Structural)]
pub enum ToolType {
    Pencil,
    Line,
    PaintBucket,
    Vector,
    ColorPicker,
    Eraser,
    Rect,
    FilledRect,
    Texture,
}

impl ToolType {
    /// The display name of the tool.
    pub fn as_str(&self) -> (r: &'static str)
        ensures
            r@ == (match *self {
                ToolType::Pencil => "Pencil"@,
                ToolType::Line => "Line"@,
                ToolType::PaintBucket => "PaintBucket"@,
                ToolType::Vector => "Vector"@,
                ToolType::ColorPicker => "ColorPicker"@,
                ToolType::Eraser => "Eraser"@,
                ToolType::Rect => "Rect"@,
                ToolType::FilledRect => "FilledRect"@,
                ToolType::Texture => "Texture"@,
            }),
    {
        match self {
            ToolType::Pencil => "Pencil",
            ToolType::Line => "Line",
            ToolType::PaintBucket => "PaintBucket",
            ToolType::Vector => "Vector",
            ToolType::ColorPicker => "ColorPicker",
            ToolType::Eraser => "Eraser",
            ToolType::Rect => "Rect",
            ToolType::FilledRect => "FilledRect",
            ToolType::Texture => "Texture",
        }
    }
}

impl Default for ToolType {
    /// The tool a fresh document starts with.
    fn default() -> (r: ToolType)
        ensures
            r == ToolType::Pencil,
    {
        ToolType::Pencil
    }
}

/// Which pointer button an event carries.
#[derive(Clone, Copy, Debug, PartialEq, Eq, Structural)]
pub enum InputItem {
    Left,
    Right,
}

/// Do two string slices hold the same characters?
pub fn str_eq(a: &str, b: &str) -> (r: bool)
    ensures
        r == (a@ == b@),
{
    let owned_a: String = a.to_owned();
    let owned_b: String = b.to_owned();
    owned_a == owned_b
}

} // verus!
