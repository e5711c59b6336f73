//! Pixel colors: an RGBA value or the unset placeholder.

use vstd::prelude::*;

verus! {

/// The color carried by a pixel: either an RGBA value or `Unset`,
/// the placeholder used before a stroke is given its final color.
#[derive(Clone, Copy, Debug, PartialEq, Eq, Structural, Hash)]
pub enum Color {
    Unset,
    Rgba { r: u8, g: u8, b: u8, a: u8 },
}

impl Color {
    /// Build a color from its four channels.
    pub fn rgba(r: u8, g: u8, b: u8, a: u8) -> (c: Color)
        ensures
            c == (Color::Rgba { r, g, b, a }),
    {
        Color::Rgba { r, g, b, a }
    }

    /// Pure red, fully opaque.
    pub fn red() -> (c: Color)
        ensures
            c == (Color::Rgba { r: 255u8, g: 0u8, b: 0u8, a: 255u8 }),
    {
        Color::Rgba { r: 255, g: 0, b: 0, a: 255 }
    }

    /// Pure green, fully opaque.
    pub fn green() -> (c: Color)
        ensures
            c == (Color::Rgba { r: 0u8, g: 255u8, b: 0u8, a: 255u8 }),
    {
        Color::Rgba { r: 0, g: 255, b: 0, a: 255 }
    }

    /// Pure blue, fully opaque.
    pub fn blue() -> (c: Color)
        ensures
            c == (Color::Rgba { r: 0u8, g: 0u8, b: 255u8, a: 255u8 }),
    {
        Color::Rgba { r: 0, g: 0, b: 255, a: 255 }
    }

    /// Orange, fully opaque.
    pub fn orange() -> (c: Color)
        ensures
            c == (Color::Rgba { r: 255u8, g: 165u8, b: 0u8, a: 255u8 }),
    {
        Color::Rgba { r: 255, g: 165, b: 0, a: 255 }
    }

    /// Black, fully opaque.
    pub fn black() -> (c: Color)
        ensures
            c == (Color::Rgba { r: 0u8, g: 0u8, b: 0u8, a: 255u8 }),
    {
        Color::Rgba { r: 0, g: 0, b: 0, a: 255 }
    }
}

} // verus!
