use vuoom::input::clock::Clock;
use vuoom::input::event::{MouseButton, RawEvent, RawEventKind};
use vuoom::input::hook::{key_kind, mouse_kind, xbutton};
use vuoom::input::keys::{is_ctrl, is_shift, is_standalone, key_name, modifier, Modifier};
use vuoom::input::normalize::{normalize, zoom_marks, CaptureRegion};
use vuoom::zoom::event::InputEvent;

#[test]
fn freq_is_positive() {
    assert!(Clock::new(10_000_000).freq() > 0);
    assert!(Clock::new(0).freq() > 0);
}

#[test]
fn seconds_between_uses_frequency() {
    let c = Clock::new(1000);
    assert!((c.nanos_between(0, 500) as f64 / 1e9 - 0.5).abs() < 1e-9);
}

#[test]
fn letters_and_named_keys_resolve() {
    assert_eq!(key_name(0x41), Some("A"));
    assert_eq!(key_name(0x0D), Some("Enter"));
    assert_eq!(key_name(0x7B), Some("F12"));
    assert_eq!(key_name(0x07), None);
}

#[test]
fn modifiers_classify() {
    assert_eq!(modifier(0xA2), Some(Modifier::Ctrl));
    assert_eq!(modifier(0x5B), Some(Modifier::Win));
    assert_eq!(modifier(0x41), None);
}

#[test]
fn plain_letters_are_not_standalone() {
    assert!(is_standalone(0x0D));
    assert!(!is_standalone(0x41));
}

#[test]
fn both_sides_of_a_modifier_count() {
    assert!(is_ctrl(0x11) && is_ctrl(0xA2) && is_ctrl(0xA3) && !is_ctrl(0x10));
    assert!(is_shift(0x10) && is_shift(0xA0) && is_shift(0xA1) && !is_shift(0x11));
}

#[test]
fn every_standalone_key_has_a_name() {
    for vk in 0..=255u16 {
        if is_standalone(vk) {
            assert!(key_name(vk).is_some());
            assert!(modifier(vk).is_none());
        }
    }
}

#[test]
fn hook_messages_become_events() {
    assert_eq!(mouse_kind(0x0200, 0), Some(RawEventKind::Move));
    assert_eq!(mouse_kind(0x0201, 0), Some(RawEventKind::ButtonDown(MouseButton::Left)));
    assert_eq!(mouse_kind(0x0202, 0), Some(RawEventKind::ButtonUp(MouseButton::Left)));
    assert_eq!(mouse_kind(0x020A, 0x0078_0000), Some(RawEventKind::Scroll(120)));
    assert_eq!(mouse_kind(0x020A, 0xFF88_0000), Some(RawEventKind::Scroll(-120)));
    assert_eq!(mouse_kind(0x0001, 0), None);
    assert_eq!(xbutton(0x0001_0000), MouseButton::X1);
    assert_eq!(xbutton(0x0002_0000), MouseButton::X2);
    assert_eq!(key_kind(0x0100, 0x41), Some(RawEventKind::KeyDown(0x41)));
    assert_eq!(key_kind(0x0101, 0x41), Some(RawEventKind::KeyUp(0x41)));
    assert_eq!(key_kind(0x0999, 0x41), None);
}

fn region() -> CaptureRegion {
    CaptureRegion { x: 100, y: 200, w: 1000, h: 500 }
}

#[test]
fn center_move_maps_to_half() {
    let raw = RawEvent { qpc: 1000, x: 100 + 500, y: 200 + 250, kind: RawEventKind::Move };
    let ev = normalize(&raw, &region(), 0, 1000).unwrap();
    match ev {
        InputEvent::Move { t, pos } => {
            assert_eq!(t, 1_000_000_000);
            assert_eq!((pos.x, pos.y), (500_000_000, 500_000_000));
        }
        _ => panic!("expected Move"),
    }
}

#[test]
fn click_maps_button_and_is_a_trigger() {
    let raw = RawEvent {
        qpc: 0,
        x: 100,
        y: 200,
        kind: RawEventKind::ButtonDown(MouseButton::Left),
    };
    let ev = normalize(&raw, &region(), 0, 1000).unwrap();
    assert!(matches!(ev, InputEvent::Click { .. }));
    assert!(ev.is_click_trigger());
}

#[test]
fn button_up_and_key_up_are_dropped() {
    let up = RawEvent { qpc: 0, x: 0, y: 0, kind: RawEventKind::ButtonUp(MouseButton::Left) };
    assert!(normalize(&up, &region(), 0, 1000).is_none());
    assert!(normalize(&key(0, RawEventKind::KeyUp(0x41)), &region(), 0, 1000).is_none());
}

fn key(qpc: i64, kind: RawEventKind) -> RawEvent {
    RawEvent { qpc, x: 0, y: 0, kind }
}

#[test]
fn ctrl_shift_z_makes_a_zoom_mark_at_the_cursor() {
    // Cursor lands at the region center, then Ctrl+Shift+Z is pressed.
    let raw = [
        RawEvent { qpc: 500, x: 100 + 500, y: 200 + 250, kind: RawEventKind::Move },
        key(1000, RawEventKind::KeyDown(0x11)), // Ctrl
        key(1010, RawEventKind::KeyDown(0x10)), // Shift
        key(1020, RawEventKind::KeyDown(0x5A)), // Z
    ];
    let marks = zoom_marks(&raw, &region(), 0, 1000);
    assert_eq!(marks.len(), 1);
    match marks[0] {
        InputEvent::ZoomMark { t, pos } => {
            assert_eq!(t, 1_020_000_000);
            assert_eq!((pos.x, pos.y), (500_000_000, 500_000_000));
        }
        _ => panic!("expected ZoomMark"),
    }
}

#[test]
fn z_alone_or_without_both_modifiers_does_nothing() {
    let raw = [
        key(10, RawEventKind::KeyDown(0x5A)), // Z, no modifiers
        key(20, RawEventKind::KeyDown(0x11)), // Ctrl only
        key(30, RawEventKind::KeyDown(0x5A)), // Z with Ctrl only
    ];
    assert!(zoom_marks(&raw, &region(), 0, 1000).is_empty());
}

#[test]
fn auto_repeat_while_held_marks_only_once() {
    let raw = [
        key(10, RawEventKind::KeyDown(0x11)),
        key(20, RawEventKind::KeyDown(0x10)),
        key(30, RawEventKind::KeyDown(0x5A)), // press
        key(40, RawEventKind::KeyDown(0x5A)), // auto-repeat
        key(50, RawEventKind::KeyDown(0x5A)), // auto-repeat
    ];
    assert_eq!(zoom_marks(&raw, &region(), 0, 1000).len(), 1);
}

#[test]
fn marks_outside_the_region_are_moved_inside() {
    let raw = [
        RawEvent { qpc: 0, x: -500, y: 9_000, kind: RawEventKind::Move },
        key(1, RawEventKind::KeyDown(0x11)),
        key(2, RawEventKind::KeyDown(0x10)),
        key(3, RawEventKind::KeyDown(0x5A)),
    ];
    match zoom_marks(&raw, &region(), 0, 1000)[0] {
        InputEvent::ZoomMark { pos, .. } => assert_eq!((pos.x, pos.y), (0, 1_000_000_000)),
        _ => panic!("expected ZoomMark"),
    }
}
