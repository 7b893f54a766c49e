use vuoom::project::annotation::{HighlightBox, HighlightShape, TextAnnotation};
use vuoom::project::color::{Color, Rect};
use vuoom::project::crop::CropRect;
use vuoom::project::frame::{Background, FrameStyle};
use vuoom::project::model::{KeyTap, Project, SourceInfo};
use vuoom::project::timing::TimeRange;
use vuoom::render::layout::{camera_src_rect, compute_layout, content_rect, crop_src_rect};
use vuoom::render::readback::{
    channel_byte, labels, needs_rebuild, padded_row, unpad_rows, BgFill, FrameSizes,
};
use vuoom::render::scene::build_scene;
use vuoom::session::export::{background_fill, preview_meta, without_annotations};
use vuoom::zoom::camera::{simulate, CameraState, CameraTrack};
use vuoom::zoom::config::ZoomConfig;
use vuoom::zoom::event::{InputEvent, MouseButton, Point};

fn ns(t: f64) -> i64 {
    (t * 1e9).round() as i64
}

fn cam(cx: f64, cy: f64, zoom: f64) -> CameraState {
    CameraState { center: Point { x: ns(cx), y: ns(cy) }, zoom: ns(zoom) }
}

#[test]
fn no_zoom_samples_full_source() {
    let r = camera_src_rect(&cam(0.5, 0.5, 1.0));
    assert_eq!((r.x, r.y, r.w, r.h), (0, 0, ns(1.0), ns(1.0)));
}

#[test]
fn double_zoom_samples_center_quarter() {
    let r = camera_src_rect(&cam(0.5, 0.5, 2.0));
    assert_eq!((r.x, r.y, r.w, r.h), (ns(0.25), ns(0.25), ns(0.5), ns(0.5)));
}

#[test]
fn padding_insets_the_content_rect() {
    let r = content_rect(1000, 1000, ns(0.06));
    assert_eq!((r.x, r.y, r.w, r.h), (ns(60.0), ns(60.0), ns(880.0), ns(880.0)));
}

#[test]
fn corner_radius_scales_with_smaller_dimension() {
    let f = FrameStyle { corner_radius: ns(0.02), ..FrameStyle::default() };
    let l = compute_layout(1920, 1080, &f, &cam(0.5, 0.5, 1.0), None);
    assert_eq!(l.corner_radius_px, ns(0.02 * 1080.0));
}

#[test]
fn a_crop_confines_what_is_sampled() {
    let crop = CropRect { x: ns(0.5), y: ns(0.25), w: ns(0.5), h: ns(0.5) };
    let whole = crop_src_rect(&cam(0.5, 0.5, 1.0), Some(crop));
    assert_eq!((whole.x, whole.y, whole.w, whole.h), (ns(0.5), ns(0.25), ns(0.5), ns(0.5)));
    let zoomed = crop_src_rect(&cam(0.75, 0.5, 2.0), Some(crop));
    assert!(zoomed.x >= ns(0.5) && zoomed.x + zoomed.w <= ns(1.0));
    assert!(zoomed.y >= ns(0.25) && zoomed.y + zoomed.h <= ns(0.75));
}

fn spring(_x: i64, _v: i64, goal: i64, _half_life: i64, _dt: i64) -> (i64, i64) {
    (goal, 0)
}

fn rest() -> CameraTrack {
    simulate(&spring, &[], &[], ns(5.0), 60_000, &ZoomConfig::default())
}

fn project_with_text() -> Project {
    let mut p = Project::new(SourceInfo {
        path: "c.mkv".to_string(),
        width: 1000,
        height: 1000,
        fps: ns(60.0),
        duration: ns(5.0),
    });
    p.texts.push(TextAnnotation {
        id: 1,
        text: "Hi".to_string(),
        pos: Point { x: ns(0.1), y: ns(0.2) },
        font_size: ns(0.05),
        color: Color::white(),
        bold: false,
        italic: false,
        background: false,
        font: String::new(),
        range: TimeRange::new(ns(1.0), ns(3.0)),
    });
    p
}

#[test]
fn visible_text_resolves_to_pixels() {
    let p = project_with_text();
    let scene = build_scene(&p, &rest(), 1000, 1000, ns(2.0));
    assert_eq!(scene.texts.len(), 1);
    let t = &scene.texts[0];
    assert_eq!((t.x, t.y, t.font_px), (ns(100.0), ns(200.0), ns(50.0)));
}

#[test]
fn text_outside_time_window_is_dropped() {
    let p = project_with_text();
    let scene = build_scene(&p, &rest(), 1000, 1000, ns(4.0)); // after the text disappears
    assert!(scene.texts.is_empty());
}

#[test]
fn masks_are_drawn_opaque_and_filled() {
    let mut p = project_with_text();
    p.highlights.push(HighlightBox {
        id: 2,
        rect: Rect::new(ns(0.1), ns(0.1), ns(0.2), ns(0.2)),
        color: Color::rgba(ns(1.0), 0, 0, ns(0.1)),
        thickness: ns(0.01),
        filled: false,
        shape: HighlightShape::Mask,
        range: TimeRange::new(0, ns(5.0)),
    });
    let scene = build_scene(&p, &rest(), 1000, 1000, ns(2.0));
    let h = &scene.highlights[0];
    assert!(h.filled && !h.ellipse);
    assert_eq!(h.color.a, ns(1.0));
    assert_eq!((h.x, h.y, h.w, h.h), (ns(100.0), ns(100.0), ns(200.0), ns(200.0)));
}

#[test]
fn clicks_ripple_and_keys_show_only_when_asked() {
    let mut p = project_with_text();
    p.events.push(InputEvent::Click {
        t: ns(1.9),
        pos: Point { x: ns(0.5), y: ns(0.5) },
        button: MouseButton::Left,
    });
    p.key_taps.push(KeyTap { t: ns(1.8), label: "Ctrl+C".to_string() });
    let off = build_scene(&p, &rest(), 1000, 1000, ns(2.0));
    assert!(off.ripples.is_empty() && off.key_texts.is_empty());
    p.show_clicks = true;
    p.show_keys = true;
    let on = build_scene(&p, &rest(), 1000, 1000, ns(2.0));
    assert_eq!(on.ripples.len(), 1);
    assert!(on.ripples[0].ellipse);
    assert_eq!(on.key_texts.len(), 1);
    assert_eq!(on.key_texts[0].text, "Ctrl+C");
    assert_eq!(on.key_chips.len(), 1);
    // The label of the annotation and that of the key are both drawn.
    assert_eq!(labels(&on).len(), 2);
    let late = build_scene(&p, &rest(), 1000, 1000, ns(4.5));
    assert!(late.ripples.is_empty() && late.key_texts.is_empty());
}

#[test]
fn the_plain_preview_hides_annotations() {
    let p = project_with_text();
    let scene = without_annotations(build_scene(&p, &rest(), 1000, 1000, ns(2.0)));
    assert!(scene.texts.is_empty() && scene.arrows.is_empty() && scene.highlights.is_empty());
}

#[test]
fn rows_are_padded_for_readback_and_unpadded_again() {
    assert_eq!(padded_row(1), 256);
    assert_eq!(padded_row(64), 256);
    assert_eq!(padded_row(65), 512);
    let mut data = vec![0u8; 512];
    for i in 0..4 {
        data[i] = i as u8;
        data[256 + i] = 10 + i as u8;
    }
    assert_eq!(unpad_rows(&data, 256, 1, 2), vec![0, 1, 2, 3, 10, 11, 12, 13]);
}

#[test]
fn targets_are_rebuilt_only_for_new_sizes() {
    let have = FrameSizes { src_w: 4, src_h: 3, out_w: 2, out_h: 1 };
    assert!(have.matches(4, 3, 2, 1) && !have.matches(4, 3, 2, 2));
    assert!(needs_rebuild(None, FrameSizes { src_w: 4, src_h: 3, out_w: 2, out_h: 1 }));
    let same = FrameSizes { src_w: 4, src_h: 3, out_w: 2, out_h: 1 };
    assert!(!needs_rebuild(Some(have), same));
}

#[test]
fn channels_become_bytes() {
    assert_eq!(channel_byte(ns(1.0)), 255);
    assert_eq!(channel_byte(0), 0);
    assert_eq!(channel_byte(ns(-1.0)), 0);
    assert_eq!(channel_byte(ns(2.0)), 255);
    assert_eq!(channel_byte(ns(0.5)), 127);
}

#[test]
fn backgrounds_become_fills() {
    let f = BgFill::solid(Color::white());
    assert_eq!((f.color.r, f.color2.r, f.dir_x, f.dir_y), (ns(1.0), ns(1.0), 0, ns(1.0)));
    let plain = background_fill(&FrameStyle::default(), (ns(0.6), ns(0.8)));
    assert_eq!((plain.color.r, plain.dir_x, plain.dir_y), (0, 0, ns(1.0)));
    let teal = Background::preset("teal").unwrap();
    let g = background_fill(
        &FrameStyle { background: teal, ..FrameStyle::default() },
        (ns(0.6), ns(0.8)),
    );
    assert_eq!((g.dir_x, g.dir_y), (ns(0.6), ns(0.8)));
}

#[test]
fn preview_frames_carry_their_geometry() {
    let m = preview_meta(640, 360, ns(1.5));
    assert_eq!((m.stride, m.width, m.height), (2560, 640, 360));
    assert_eq!(m.target_time_ns, 1_500_000_000);
}
