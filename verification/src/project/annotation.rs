//! The core annotation set: text labels, arrows, and highlight boxes.
//!
//! Each carries a [`TimeRange`] so it appears and disappears (with fades) on the timeline,
//! and geometry in normalized output space so it is resolution-independent. Positions and
//! sizes are billionths.

use crate::project::color::{Color, Rect};
use crate::project::timing::TimeRange;
use crate::zoom::event::Point;
use vstd::prelude::*;

verus! {

/// A text label drawn on the canvas.
#[derive(Debug)]
pub struct TextAnnotation {
    pub id: u32,
    pub text: String,
    /// Top-left anchor, normalized.
    pub pos: Point,
    /// Font size as a fraction of output height.
    pub font_size: i64,
    pub color: Color,
    /// Render with a bold weight.
    pub bold: bool,
    /// Render italic.
    pub italic: bool,
    /// Draw a translucent plate behind the glyphs so captions stay legible over busy
    /// footage.
    pub background: bool,
    /// Font family name; empty = the default sans-serif.
    pub font: String,
    pub range: TimeRange,
}

impl Clone for TextAnnotation {
    fn clone(&self) -> (r: Self)
        ensures
            r == *self,
    {
        TextAnnotation {
            id: self.id,
            text: self.text.clone(),
            pos: self.pos,
            font_size: self.font_size,
            color: self.color,
            bold: self.bold,
            italic: self.italic,
            background: self.background,
            font: self.font.clone(),
            range: self.range,
        }
    }
}

/// How an arrow's ends are capped.
#[derive(Debug, Clone, Copy, PartialEq, Eq, Structural)]
pub enum ArrowStyle {
    /// A single head at `to` (the classic pointer).
    Arrow,
    /// No heads, a plain line.
    Line,
    /// Heads at both ends.
    DoubleArrow,
}

impl Default for ArrowStyle {
    fn default() -> (s: Self)
        ensures
            s == ArrowStyle::Arrow,
    {
        ArrowStyle::Arrow
    }
}

/// An arrow from `from` to `to`.
#[derive(Debug, Clone, Copy, PartialEq, Eq, Structural)]
pub struct ArrowAnnotation {
    pub id: u32,
    pub from: Point,
    pub to: Point,
    pub color: Color,
    /// Stroke thickness as a fraction of output height.
    pub thickness: i64,
    /// Head style.
    pub style: ArrowStyle,
    pub range: TimeRange,
}

/// The geometry a highlight draws within its rect.
#[derive(Debug, Clone, Copy, PartialEq, Eq, Structural)]
pub enum HighlightShape {
    /// Axis-aligned rectangle.
    Rect,
    /// Ellipse inscribed in the rect.
    Ellipse,
    /// Opaque redaction block: drawn with a near-black fill whatever the stored color, so
    /// masked content can never leak through a wrong style.
    Mask,
}

impl Default for HighlightShape {
    fn default() -> (s: Self)
        ensures
            s == HighlightShape::Rect,
    {
        HighlightShape::Rect
    }
}

/// A highlight region (outlined or filled; rectangle or ellipse).
#[derive(Debug, Clone, Copy, PartialEq, Eq, Structural)]
pub struct HighlightBox {
    pub id: u32,
    pub rect: Rect,
    pub color: Color,
    /// Outline thickness as a fraction of output height (ignored when `filled`).
    pub thickness: i64,
    pub filled: bool,
    pub shape: HighlightShape,
    pub range: TimeRange,
}

} // verus!
