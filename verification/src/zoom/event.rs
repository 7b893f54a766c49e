//! Timestamped input events, the raw material the auto-zoom planner consumes.
//!
//! Times are nanoseconds from the start of the recording. Positions are billionths of the
//! captured region's extent, so the planner is resolution- and DPI-independent.

use crate::sort::Timed;
use vstd::prelude::*;

verus! {

/// Which mouse button produced a click.
#[derive(Debug, Clone, Copy, PartialEq, Eq, Structural)]
pub enum MouseButton {
    Left,
    Right,
    Middle,
    Other,
}

/// A position in billionths of the captured region's width and height.
#[derive(Debug, Clone, Copy, PartialEq, Eq, Structural)]
pub struct Point {
    pub x: i64,
    pub y: i64,
}

/// A single timestamped input event in normalized capture space.
#[derive(Debug, Clone, Copy, PartialEq, Eq, Structural)]
pub enum InputEvent {
    /// Cursor moved to `pos`.
    Move { t: i64, pos: Point },
    /// A mouse button was pressed at `pos`.
    Click { t: i64, pos: Point, button: MouseButton },
    /// A scroll tick at `pos` (`delta` in wheel units).
    Scroll { t: i64, pos: Point, delta: i32 },
    /// A drag began at `pos`.
    DragStart { t: i64, pos: Point },
    /// A drag ended at `pos`.
    DragEnd { t: i64, pos: Point },
    /// A key was typed (no position; used to sustain a zoom while typing).
    KeyType { t: i64 },
    /// The user deliberately requested a zoom at `pos` (the manual zoom hotkey). Always a
    /// zoom trigger, regardless of the click-to-zoom setting.
    ZoomMark { t: i64, pos: Point },
}

impl InputEvent {
    /// When the event happened.
    pub open spec fn time(self) -> i64 {
        match self {
            InputEvent::Move { t, .. } => t,
            InputEvent::Click { t, .. } => t,
            InputEvent::Scroll { t, .. } => t,
            InputEvent::DragStart { t, .. } => t,
            InputEvent::DragEnd { t, .. } => t,
            InputEvent::KeyType { t } => t,
            InputEvent::ZoomMark { t, .. } => t,
        }
    }

    /// Where the event happened.
    pub open spec fn place(self) -> Option<Point> {
        match self {
            InputEvent::Move { pos, .. } => Some(pos),
            InputEvent::Click { pos, .. } => Some(pos),
            InputEvent::Scroll { pos, .. } => Some(pos),
            InputEvent::DragStart { pos, .. } => Some(pos),
            InputEvent::DragEnd { pos, .. } => Some(pos),
            InputEvent::KeyType { .. } => None,
            InputEvent::ZoomMark { pos, .. } => Some(pos),
        }
    }

    /// The event's timestamp in nanoseconds.
    pub fn t(&self) -> (t: i64)
        ensures
            t == self.time(),
    {
        match *self {
            InputEvent::Move { t, .. } => t,
            InputEvent::Click { t, .. } => t,
            InputEvent::Scroll { t, .. } => t,
            InputEvent::DragStart { t, .. } => t,
            InputEvent::DragEnd { t, .. } => t,
            InputEvent::KeyType { t } => t,
            InputEvent::ZoomMark { t, .. } => t,
        }
    }

    /// The event's normalized position, if it has one (`KeyType` does not).
    pub fn pos(&self) -> (p: Option<Point>)
        ensures
            p == self.place(),
    {
        match *self {
            InputEvent::Move { pos, .. } => Some(pos),
            InputEvent::Click { pos, .. } => Some(pos),
            InputEvent::Scroll { pos, .. } => Some(pos),
            InputEvent::DragStart { pos, .. } => Some(pos),
            InputEvent::DragEnd { pos, .. } => Some(pos),
            InputEvent::KeyType { .. } => None,
            InputEvent::ZoomMark { pos, .. } => Some(pos),
        }
    }

    /// Whether this event should seed a new zoom (a deliberate point of interest). Clicks
    /// and drag-starts only count when click-to-zoom is enabled; a zoom mark (the manual
    /// hotkey) always counts.
    pub fn is_click_trigger(&self) -> (r: bool)
        ensures
            r == (*self is Click || *self is DragStart || *self is ZoomMark),
    {
        match self {
            InputEvent::Click { .. } => true,
            InputEvent::DragStart { .. } => true,
            InputEvent::ZoomMark { .. } => true,
            _ => false,
        }
    }

    /// Whether this event is a deliberate manual zoom request.
    pub fn is_zoom_mark(&self) -> (r: bool)
        ensures
            r == (*self is ZoomMark),
    {
        match self {
            InputEvent::ZoomMark { .. } => true,
            _ => false,
        }
    }

    /// Whether this event counts as ongoing activity that sustains a zoom hold.
    pub fn is_activity(&self) -> (r: bool)
        ensures
            r == !(*self is Move),
    {
        match self {
            InputEvent::Move { .. } => false,
            _ => true,
        }
    }
}

impl Timed for InputEvent {
    open spec fn at(self) -> i64 {
        self.time()
    }

    fn when(&self) -> (t: i64) {
        self.t()
    }
}

} // verus!
