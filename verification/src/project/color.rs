//! Colors and rectangles, in billionths.

use vstd::prelude::*;

verus! {

/// A straight-alpha color; each channel in billionths of full intensity.
#[derive(Debug, Clone, Copy, PartialEq, Eq, Structural)]
pub struct Color {
    pub r: i64,
    pub g: i64,
    pub b: i64,
    pub a: i64,
}

impl Color {
    /// An opaque color.
    pub open spec fn opaque(r: i64, g: i64, b: i64) -> Color {
        Color { r, g, b, a: 1_000_000_000 }
    }

    /// An opaque color.
    pub fn rgb(r: i64, g: i64, b: i64) -> (c: Self)
        ensures
            c == Color::opaque(r, g, b),
    {
        Color { r, g, b, a: 1_000_000_000 }
    }

    /// A color with an alpha.
    pub fn rgba(r: i64, g: i64, b: i64, a: i64) -> (c: Self)
        ensures
            c == (Color { r, g, b, a }),
    {
        Color { r, g, b, a }
    }

    /// The same color with another alpha.
    pub fn with_alpha(self, a: i64) -> (c: Self)
        ensures
            c == (Color { r: self.r, g: self.g, b: self.b, a }),
    {
        Color { r: self.r, g: self.g, b: self.b, a }
    }

    /// Opaque black.
    pub fn black() -> (c: Self)
        ensures
            c == Color::opaque(0, 0, 0),
    {
        Color::rgb(0, 0, 0)
    }

    /// Opaque white.
    pub fn white() -> (c: Self)
        ensures
            c == Color::opaque(1_000_000_000, 1_000_000_000, 1_000_000_000),
    {
        Color::rgb(1_000_000_000, 1_000_000_000, 1_000_000_000)
    }
}

/// A rectangle in normalized output space.
#[derive(Debug, Clone, Copy, PartialEq, Eq, Structural)]
pub struct Rect {
    pub x: i64,
    pub y: i64,
    pub w: i64,
    pub h: i64,
}

impl Rect {
    /// A rectangle by corner and size.
    pub fn new(x: i64, y: i64, w: i64, h: i64) -> (r: Self)
        ensures
            r == (Rect { x, y, w, h }),
    {
        Rect { x, y, w, h }
    }
}

} // verus!
