//! What the window messages of the global mouse and keyboard hooks mean.

use crate::input::event::{MouseButton, RawEventKind};
use vstd::prelude::*;

verus! {

/// Mouse messages.
pub const WM_MOUSEMOVE: u32 = 0x0200;

pub const WM_LBUTTONDOWN: u32 = 0x0201;

pub const WM_LBUTTONUP: u32 = 0x0202;

pub const WM_RBUTTONDOWN: u32 = 0x0204;

pub const WM_RBUTTONUP: u32 = 0x0205;

pub const WM_MBUTTONDOWN: u32 = 0x0207;

pub const WM_MBUTTONUP: u32 = 0x0208;

pub const WM_MOUSEWHEEL: u32 = 0x020A;

pub const WM_XBUTTONDOWN: u32 = 0x020B;

pub const WM_XBUTTONUP: u32 = 0x020C;

/// Keyboard messages.
pub const WM_KEYDOWN: u32 = 0x0100;

pub const WM_KEYUP: u32 = 0x0101;

pub const WM_SYSKEYDOWN: u32 = 0x0104;

pub const WM_SYSKEYUP: u32 = 0x0105;

/// The upper half of a mouse message's data.
pub open spec fn high_word(data: u32) -> int {
    data as int / 65536
}

/// The extra button that a message's data names.
pub open spec fn extra_button(data: u32) -> MouseButton {
    if high_word(data) == 1 {
        MouseButton::X1
    } else {
        MouseButton::X2
    }
}

/// The wheel movement in a message's data: its upper half as a signed number.
pub open spec fn wheel_delta(data: u32) -> int {
    if high_word(data) < 32768 {
        high_word(data)
    } else {
        high_word(data) - 65536
    }
}

/// The event that a mouse message stands for.
pub open spec fn mouse_event(msg: u32, data: u32) -> Option<RawEventKind> {
    if msg == WM_MOUSEMOVE {
        Some(RawEventKind::Move)
    } else if msg == WM_LBUTTONDOWN {
        Some(RawEventKind::ButtonDown(MouseButton::Left))
    } else if msg == WM_LBUTTONUP {
        Some(RawEventKind::ButtonUp(MouseButton::Left))
    } else if msg == WM_RBUTTONDOWN {
        Some(RawEventKind::ButtonDown(MouseButton::Right))
    } else if msg == WM_RBUTTONUP {
        Some(RawEventKind::ButtonUp(MouseButton::Right))
    } else if msg == WM_MBUTTONDOWN {
        Some(RawEventKind::ButtonDown(MouseButton::Middle))
    } else if msg == WM_MBUTTONUP {
        Some(RawEventKind::ButtonUp(MouseButton::Middle))
    } else if msg == WM_XBUTTONDOWN {
        Some(RawEventKind::ButtonDown(extra_button(data)))
    } else if msg == WM_XBUTTONUP {
        Some(RawEventKind::ButtonUp(extra_button(data)))
    } else if msg == WM_MOUSEWHEEL {
        Some(RawEventKind::Scroll(wheel_delta(data) as i32))
    } else {
        None
    }
}

/// The event that a keyboard message for key `vk` stands for.
pub open spec fn key_event(msg: u32, vk: u16) -> Option<RawEventKind> {
    if msg == WM_KEYDOWN || msg == WM_SYSKEYDOWN {
        Some(RawEventKind::KeyDown(vk))
    } else if msg == WM_KEYUP || msg == WM_SYSKEYUP {
        Some(RawEventKind::KeyUp(vk))
    } else {
        None
    }
}

/// Which extra button a message's data names.
pub fn xbutton(mouse_data: u32) -> (b: MouseButton)
    ensures
        b == extra_button(mouse_data),
{
    if mouse_data / 65536 == 1 {
        MouseButton::X1
    } else {
        MouseButton::X2
    }
}

/// Read a mouse message; `None` for one that is not recorded.
pub fn mouse_kind(msg: u32, mouse_data: u32) -> (k: Option<RawEventKind>)
    ensures
        k == mouse_event(msg, mouse_data),
{
    if msg == WM_MOUSEMOVE {
        Some(RawEventKind::Move)
    } else if msg == WM_LBUTTONDOWN {
        Some(RawEventKind::ButtonDown(MouseButton::Left))
    } else if msg == WM_LBUTTONUP {
        Some(RawEventKind::ButtonUp(MouseButton::Left))
    } else if msg == WM_RBUTTONDOWN {
        Some(RawEventKind::ButtonDown(MouseButton::Right))
    } else if msg == WM_RBUTTONUP {
        Some(RawEventKind::ButtonUp(MouseButton::Right))
    } else if msg == WM_MBUTTONDOWN {
        Some(RawEventKind::ButtonDown(MouseButton::Middle))
    } else if msg == WM_MBUTTONUP {
        Some(RawEventKind::ButtonUp(MouseButton::Middle))
    } else if msg == WM_XBUTTONDOWN {
        Some(RawEventKind::ButtonDown(xbutton(mouse_data)))
    } else if msg == WM_XBUTTONUP {
        Some(RawEventKind::ButtonUp(xbutton(mouse_data)))
    } else if msg == WM_MOUSEWHEEL {
        let high: i32 = (mouse_data / 65536) as i32;
        let delta: i32 = if high < 32768 {
            high
        } else {
            high - 65536
        };
        Some(RawEventKind::Scroll(delta))
    } else {
        None
    }
}

/// Read a keyboard message; `None` for one that is not recorded.
pub fn key_kind(msg: u32, vk: u16) -> (k: Option<RawEventKind>)
    ensures
        k == key_event(msg, vk),
{
    if msg == WM_KEYDOWN || msg == WM_SYSKEYDOWN {
        Some(RawEventKind::KeyDown(vk))
    } else if msg == WM_KEYUP || msg == WM_SYSKEYUP {
        Some(RawEventKind::KeyUp(vk))
    } else {
        None
    }
}

/// Each mouse message tells of its own button going down or coming up, and the wheel of how far
/// it turned, away from the user counting up; the two extra buttons are told apart by the high
/// word.
pub proof fn messages_tell_of_their_button(data: u32)
    ensures
        mouse_event(0x0200, data) == Some(RawEventKind::Move),
        mouse_event(0x0201, data) == Some(RawEventKind::ButtonDown(MouseButton::Left)),
        mouse_event(0x0202, data) == Some(RawEventKind::ButtonUp(MouseButton::Left)),
        mouse_event(0x0204, data) == Some(RawEventKind::ButtonDown(MouseButton::Right)),
        mouse_event(0x0205, data) == Some(RawEventKind::ButtonUp(MouseButton::Right)),
        mouse_event(0x0207, data) == Some(RawEventKind::ButtonDown(MouseButton::Middle)),
        mouse_event(0x0208, data) == Some(RawEventKind::ButtonUp(MouseButton::Middle)),
        mouse_event(0x020B, data) == Some(
            RawEventKind::ButtonDown(
                if 0x1_0000 <= data < 0x2_0000 {
                    MouseButton::X1
                } else {
                    MouseButton::X2
                },
            ),
        ),
        mouse_event(0x020C, data) == Some(
            RawEventKind::ButtonUp(
                if 0x1_0000 <= data < 0x2_0000 {
                    MouseButton::X1
                } else {
                    MouseButton::X2
                },
            ),
        ),
        ({
            let e = mouse_event(0x020A, data);
            let d = e->Some_0->Scroll_0;
            &&& e is Some && e->Some_0 is Scroll
            &&& data < 0x8000_0000 ==> d * 65536 <= data < (d + 1) * 65536
            &&& data >= 0x8000_0000 ==> d * 65536 <= data - 0x1_0000_0000 < (d + 1) * 65536
        }),
{
}

/// Keys go down and come up, with the system's or without.
pub proof fn key_messages_tell_of_their_key(vk: u16)
    ensures
        key_event(0x0100, vk) == Some(RawEventKind::KeyDown(vk)),
        key_event(0x0104, vk) == Some(RawEventKind::KeyDown(vk)),
        key_event(0x0101, vk) == Some(RawEventKind::KeyUp(vk)),
        key_event(0x0105, vk) == Some(RawEventKind::KeyUp(vk)),
{
}

} // verus!
