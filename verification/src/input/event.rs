//! Raw, counter-stamped global input events in physical virtual-desktop pixels.

use vstd::prelude::*;

verus! {

/// Which mouse button an event refers to.
#[derive(Debug, Clone, Copy, PartialEq, Eq, Structural)]
pub enum MouseButton {
    Left,
    Right,
    Middle,
    X1,
    X2,
}

/// What a raw event represents.
#[derive(Debug, Clone, Copy, PartialEq, Eq, Structural)]
pub enum RawEventKind {
    Move,
    ButtonDown(MouseButton),
    ButtonUp(MouseButton),
    /// Wheel scroll with a signed delta (wheel units).
    Scroll(i32),
    /// Key pressed (virtual-key code).
    KeyDown(u16),
    /// Key released (virtual-key code).
    KeyUp(u16),
}

/// A single raw input event: a counter value, physical coordinates, and what happened.
#[derive(Debug, Clone, Copy, PartialEq, Eq, Structural)]
pub struct RawEvent {
    /// Counter value at the instant the event arrived.
    pub qpc: i64,
    /// Physical virtual-desktop X (may be negative on secondary monitors).
    pub x: i32,
    /// Physical virtual-desktop Y.
    pub y: i32,
    pub kind: RawEventKind,
}

} // verus!
