//! Hotkeys that are polled: a chord fires once when it goes down, and again only after it was
//! released.

use vstd::prelude::*;

verus! {

/// One polled chord press: counter value and physical cursor position.
#[derive(Debug, Clone, Copy, PartialEq, Eq, Structural)]
pub struct ChordMark {
    pub qpc: i64,
    pub x: i32,
    pub y: i32,
}

/// Whether a polled key state says that the key is down: the high-order bit is set.
pub fn key_down(state: i16) -> (r: bool)
    ensures
        r == (state < 0),
{
    state < 0
}

/// Whether a chord of two modifiers and a key is down.
pub fn chord_down(ctrl: bool, shift: bool, key: bool) -> (r: bool)
    ensures
        r == (ctrl && shift && key),
{
    ctrl && shift && key
}

/// A watcher of one chord.
#[derive(Debug, Clone, Copy)]
pub struct StopHotkey {
    held: bool,
}

impl StopHotkey {
    /// Whether the chord counts as held.
    pub closed spec fn holds(&self) -> bool {
        self.held
    }

    /// A watcher that starts out as held, so a chord that is down when watching begins must be
    /// released first.
    pub fn new() -> (w: Self)
        ensures
            w.holds(),
    {
        StopHotkey { held: true }
    }

    /// Take a polled state; fires on the rising edge.
    pub fn polled(&mut self, down: bool) -> (fires: bool)
        ensures
            fires == (down && !old(self).holds()),
            final(self).holds() == down,
    {
        let fires = down && !self.held;
        self.held = down;
        fires
    }
}

/// The watcher for the recording in progress, if any.
#[derive(Debug)]
pub struct RecordingHotkey(pub Option<StopHotkey>);

} // verus!
