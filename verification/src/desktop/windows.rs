//! Windows to record.

use vstd::prelude::*;

verus! {

/// One selectable window capture source.
#[derive(Debug)]
pub struct WindowInfo {
    pub hwnd: isize,
    pub title: String,
    /// Client size in physical pixels.
    pub w: u32,
    pub h: u32,
}

/// Style bit of floating toolbars.
pub const WS_EX_TOOLWINDOW: i32 = 0x80;

/// Style bits of a title bar.
pub const WS_CAPTION: i32 = 0xC0_0000;

/// Smallest client width of a window worth recording.
pub const MIN_WINDOW_W: u32 = 200;

/// Smallest client height of a window worth recording.
pub const MIN_WINDOW_H: u32 = 150;

/// What is known of a window.
#[derive(Debug, Clone, Copy)]
pub struct WindowFacts {
    pub visible: bool,
    pub ex_style: i32,
    pub style: i32,
    /// Length of its title.
    pub title_len: i32,
    /// Whether it is cloaked, where that could be asked (suspended apps still count as
    /// visible).
    pub cloaked: Option<u32>,
    /// Its client size, where that could be asked.
    pub client: Option<(u32, u32)>,
}

/// Whether a window is worth offering: visible, no tool window, with a title bar and a title,
/// not cloaked, and not tiny.
pub open spec fn worth_recording(f: WindowFacts) -> bool {
    &&& f.visible
    &&& f.ex_style & WS_EX_TOOLWINDOW == 0
    &&& f.style & WS_CAPTION == WS_CAPTION
    &&& f.title_len != 0
    &&& f.cloaked is None || f.cloaked == Some(0u32)
    &&& f.client matches Some(c) && c.0 >= MIN_WINDOW_W && c.1 >= MIN_WINDOW_H
}

/// Whether a window is worth offering as a capture source.
pub fn is_selectable(f: &WindowFacts) -> (r: bool)
    ensures
        r == worth_recording(*f),
{
    if !f.visible {
        return false;
    }
    if f.ex_style & WS_EX_TOOLWINDOW != 0 {
        return false;
    }
    if f.style & WS_CAPTION != WS_CAPTION {
        return false;
    }
    if f.title_len == 0 {
        return false;
    }
    if let Some(c) = f.cloaked {
        if c != 0 {
            return false;
        }
    }
    match f.client {
        Some((w, h)) => w >= MIN_WINDOW_W && h >= MIN_WINDOW_H,
        None => false,
    }
}

/// How many units of a title are read: its length, as far as the buffer holds it.
pub fn title_units(title_len: i32, buffer: usize) -> (n: usize)
    ensures
        n == (if title_len < 0 {
            0
        } else if title_len as int > buffer {
            buffer as int
        } else {
            title_len as int
        }),
{
    if title_len < 0 {
        0
    } else if title_len as u64 > buffer as u64 {
        buffer
    } else {
        title_len as usize
    }
}

/// A window under two hundred pixels wide or a hundred and fifty high is not offered, nor is
/// one that is hidden, cloaked or without a title.
pub proof fn small_and_hidden_windows_are_left_out(f: WindowFacts)
    requires
        worth_recording(f),
    ensures
        f.visible,
        f.title_len != 0,
        f.client is Some && f.client->Some_0.0 >= 200 && f.client->Some_0.1 >= 150,
        f.cloaked is None || f.cloaked == Some(0u32),
{
}

/// A shown window with a title bar and a title, that is no tool window, is offered as soon as
/// it is large enough.
pub proof fn ordinary_windows_are_offered(f: WindowFacts)
    requires
        f.visible,
        f.ex_style & 0x80 == 0,
        f.style & 0xC0_0000 == 0xC0_0000,
        f.title_len != 0,
        f.cloaked is None,
        f.client is Some && f.client->Some_0.0 >= 200 && f.client->Some_0.1 >= 150,
    ensures
        worth_recording(f),
{
}

} // verus!
