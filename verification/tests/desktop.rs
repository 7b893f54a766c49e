use vuoom::desktop::border::{border_strips, Area};
use vuoom::desktop::chord::{chord_down, key_down, StopHotkey};
use vuoom::desktop::displays::{
    device_name, extent, find_by_name, number_displays, DisplayInfo,
};
use vuoom::desktop::engine::Engine;
use vuoom::desktop::wall::{clamp, Edges};
use vuoom::desktop::windows::{is_selectable, title_units, WindowFacts, WS_CAPTION, WS_EX_TOOLWINDOW};

#[test]
fn four_strips_surround_the_area() {
    let s = border_strips(Area { x: 100, y: 50, w: 800, h: 600 });
    assert_eq!(s.len(), 4);
    for a in &s {
        // None of them covers any of the area.
        let apart = a.x + a.w <= 100 || a.x >= 900 || a.y + a.h <= 50 || a.y >= 650;
        assert!(apart);
        assert!(a.w == 3 || a.h == 3);
    }
}

#[test]
fn the_panel_is_pushed_out_the_shortest_way() {
    let forbidden = Edges { left: 0, top: 0, right: 100, bottom: 100 };
    let r = clamp(Edges { left: 90, top: 40, right: 110, bottom: 60 }, forbidden);
    assert_eq!((r.left, r.top, r.right, r.bottom), (100, 40, 120, 60));
    let far = clamp(Edges { left: 200, top: 0, right: 220, bottom: 20 }, forbidden);
    assert_eq!((far.left, far.top), (200, 0));
}

#[test]
fn chords_fire_once_per_press() {
    assert!(key_down(-32768) && !key_down(1) && !key_down(0));
    assert!(chord_down(true, true, true) && !chord_down(true, false, true));
    let mut h = StopHotkey::new();
    // A chord that is down when watching begins must be released first.
    assert!(!h.polled(true));
    assert!(!h.polled(false));
    assert!(h.polled(true));
}

#[test]
fn device_names_end_at_the_first_zero() {
    let units: Vec<u16> = "\\\\.\\DISPLAY1\0junk".encode_utf16().collect();
    assert_eq!(device_name(&units), "\\\\.\\DISPLAY1");
    // A surrogate is no character of its own and is replaced.
    assert_eq!(device_name(&[0xD83D, 0x41, 0xE9]), "\u{FFFD}Aé");
    assert_eq!(device_name(&[]), "");
}

fn display(name: &str, x: i32, primary: bool) -> DisplayInfo {
    DisplayInfo { name: name.to_string(), index: 0, x, y: 0, w: 1920, h: 1080, primary }
}

#[test]
fn displays_are_numbered_and_found_by_name() {
    let mut all = vec![display("right", 1920, false), display("main", 0, true), display("left", -1920, false)];
    number_displays(&mut all);
    let found = find_by_name(&all, "left").unwrap();
    assert_eq!((found.x, found.w), (-1920, 1920));
    assert!(find_by_name(&all, "none").is_none());
    let mut indices: Vec<usize> = all.iter().map(|d| d.index).collect();
    indices.sort();
    assert_eq!(indices, vec![1, 2, 3]);
    assert_eq!(extent(-1920, 0), 1920);
    assert_eq!(extent(5, 2), 0);
}

#[test]
fn an_engine_hands_out_its_session_once_started() {
    let mut e: Engine<u8> = Engine::new();
    assert!(e.session().is_err());
    assert!(e.set(Ok(7)).is_ok());
    assert_eq!(e.session(), Ok(&7));
    assert_eq!(e.set(Ok(8)), Err(Ok(8)));
    assert_eq!(e.session(), Ok(&7));
    let mut broken: Engine<u8> = Engine::new();
    assert!(broken.set(Err("no GPU".to_string())).is_ok());
    assert!(broken.session().unwrap_err().contains("no GPU"));
}

#[test]
fn only_real_windows_can_be_chosen() {
    let good = || WindowFacts {
        visible: true,
        ex_style: 0,
        style: WS_CAPTION,
        title_len: 5,
        cloaked: Some(0),
        client: Some((800, 600)),
    };
    assert!(is_selectable(&good()));
    assert!(!is_selectable(&WindowFacts { visible: false, ..good() }));
    assert!(!is_selectable(&WindowFacts { ex_style: WS_EX_TOOLWINDOW, ..good() }));
    assert!(!is_selectable(&WindowFacts { style: 0, ..good() }));
    assert!(!is_selectable(&WindowFacts { title_len: 0, ..good() }));
    assert!(!is_selectable(&WindowFacts { cloaked: Some(2), ..good() }));
    assert!(!is_selectable(&WindowFacts { client: Some((199, 600)), ..good() }));
    assert!(!is_selectable(&WindowFacts { client: None, ..good() }));
    assert_eq!(title_units(5, 10), 5);
    assert_eq!(title_units(50, 10), 10);
    assert_eq!(title_units(-1, 10), 0);
}
