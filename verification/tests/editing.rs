use vuoom::project::annotation::{
    ArrowAnnotation, ArrowStyle, HighlightShape, TextAnnotation,
};
use vuoom::project::color::Color;
use vuoom::project::crop::CropRect;
use vuoom::project::model::{Project, SourceInfo};
use vuoom::project::timing::TimeRange;
use vuoom::session::arrange::PasteItem;
use vuoom::session::edit_zoom::{rate_for, resimulate};
use vuoom::session::error::EditError;
use vuoom::session::ids::{find, highest_id, next_id, remove_all};
use vuoom::session::restyle::TextChange;
use vuoom::session::state::{Session, UNDO_CAP};
use vuoom::zoom::event::{InputEvent, MouseButton, Point};
use vuoom::zoom::keyframe::{ZoomMode, ZoomStyle};

fn ns(t: f64) -> i64 {
    (t * 1e9).round() as i64
}

fn project() -> Project {
    Project::new(SourceInfo {
        path: "c.mkv".to_string(),
        width: 1920,
        height: 1080,
        fps: ns(30.0),
        duration: ns(10.0),
    })
}

fn session() -> Session {
    let mut s = Session::new();
    s.load(&jump, project());
    s
}

fn no_change() -> TextChange {
    TextChange {
        x: None,
        y: None,
        text: None,
        font_size: None,
        bold: None,
        italic: None,
        background: None,
        font: None,
    }
}

#[test]
fn nothing_can_be_edited_without_a_recording() {
    let mut s = Session::new();
    assert_eq!(s.add_text("a".to_string(), 0, 0, 0), Err(EditError::NoRecording));
    assert_eq!(s.set_trim(0, ns(1.0)), Err(EditError::NoRecording));
    assert_eq!(s.clear_speed(), Err(EditError::NoRecording));
    assert!(matches!(s.add_zoom(&jump, 0), Err(EditError::NoRecording)));
    assert!(matches!(s.clip_state(), Err(EditError::NoRecording)));
    assert!(matches!(s.annotations(), Err(EditError::NoRecording)));
    assert!(!s.undo(&jump) && !s.redo(&jump));
    assert_eq!(EditError::NoRecording.message(), "no recording");
}

#[test]
fn undo_and_redo_go_back_and_forth() {
    let mut s = session();
    assert_eq!(s.add_text("a".to_string(), ns(0.1), ns(0.2), ns(1.0)), Ok(1));
    assert_eq!(s.add_arrow(0, 0, ns(0.5), ns(0.5), ns(1.0)), Ok(2));
    assert!(s.undo(&jump));
    assert_eq!((s.project().unwrap().texts.len(), s.project().unwrap().arrows.len()), (1, 0));
    assert!(s.redo(&jump));
    assert_eq!(s.project().unwrap().arrows.len(), 1);
    assert!(!s.redo(&jump));
    assert!(s.undo(&jump) && s.undo(&jump));
    assert!(s.project().unwrap().texts.is_empty());
    assert!(!s.undo(&jump));
    // A new edit forgets what was undone.
    assert_eq!(s.add_box(0, 0, ns(0.1), ns(0.1), 0), Ok(1));
    assert!(!s.redo(&jump));
}

#[test]
fn a_run_of_like_edits_is_one_undo_step() {
    let mut s = session();
    assert_eq!(s.add_text("a".to_string(), 0, 0, 0), Ok(1));
    for i in 1..=5 {
        assert_eq!(s.update_text(1, TextChange { x: Some(i), ..no_change() }), Ok(()));
    }
    assert_eq!(s.project().unwrap().texts[0].pos.x, 5);
    assert!(s.undo(&jump));
    assert_eq!(s.project().unwrap().texts[0].pos.x, 0);
    assert!(s.undo(&jump));
    assert!(s.project().unwrap().texts.is_empty());
}

#[test]
fn the_undo_list_is_bounded() {
    let mut s = session();
    for i in 0..(UNDO_CAP as i64 + 20) {
        assert!(s.add_text("a".to_string(), i, 0, 0).is_ok());
    }
    let mut steps = 0;
    while s.undo(&jump) {
        steps += 1;
    }
    assert_eq!(steps, UNDO_CAP);
    assert_eq!(s.project().unwrap().texts.len(), 20);
}

#[test]
fn loading_and_unloading_forget_the_steps() {
    let mut s = session();
    assert!(s.add_text("a".to_string(), 0, 0, 0).is_ok());
    s.load(&jump, project());
    assert!(!s.undo(&jump));
    s.unload();
    assert!(s.project().is_none());
}

#[test]
fn new_annotations_have_the_usual_look() {
    let mut s = session();
    assert_eq!(s.add_text("hi".to_string(), ns(0.1), ns(0.2), ns(9.0)), Ok(1));
    assert_eq!(s.add_ellipse(0, 0, ns(0.2), ns(0.2), ns(1.0)), Ok(2));
    assert_eq!(s.add_highlighter(0, 0, ns(0.2), ns(0.2), ns(1.0)), Ok(3));
    assert_eq!(s.add_mask(0, 0, ns(0.2), ns(0.2), ns(1.0)), Ok(4));
    let a = s.annotations().unwrap();
    let t = &a.texts[0];
    assert_eq!((t.font_size, t.bold, t.color.r), (ns(0.05), true, ns(1.0)));
    assert_eq!((t.range.start, t.range.end, t.range.fade_in), (ns(9.0), ns(10.0), ns(0.2)));
    assert_eq!(a.highlights[0].shape, HighlightShape::Ellipse);
    assert!(a.highlights[1].filled && a.highlights[1].color.a == ns(0.35));
    assert_eq!(a.highlights[2].shape, HighlightShape::Mask);
    assert_eq!((a.highlights[2].range.fade_in, a.highlights[2].range.end), (0, ns(4.0)));
    assert!(s.has_ids_left(1_000_000));
    assert!(!s.has_ids_left(u32::MAX));
}

#[test]
fn annotations_are_restyled_by_id() {
    let mut s = session();
    assert_eq!(s.add_text("hi".to_string(), 0, 0, 0), Ok(1));
    assert_eq!(s.add_arrow(0, 0, 1, 1, 0), Ok(2));
    assert_eq!(s.add_box(0, 0, 1, 1, 0), Ok(3));
    assert_eq!(s.update_text(9, no_change()), Err(EditError::NoSuchText));
    assert_eq!(s.update_arrow(9, 0, 0, 0, 0), Err(EditError::NoSuchArrow));
    assert_eq!(s.update_box(9, 0, 0, 0, 0), Err(EditError::NoSuchBox));
    assert_eq!(s.set_annotation_color(9, 0, 0, 0), Err(EditError::NoSuchAnnotation));
    assert_eq!(s.set_highlight_shape(1, true), Err(EditError::NoSuchHighlight));
    assert_eq!(
        s.set_annotation_style(1, Some(1), None),
        Err(EditError::NoSuchArrowOrHighlight)
    );
    assert_eq!(s.set_arrow_style(2, "double"), Ok(()));
    assert_eq!(s.set_annotation_color(3, ns(0.5), ns(0.25), ns(1.0)), Ok(()));
    assert_eq!(s.set_annotation_opacity(3, ns(5.0)), Ok(()));
    assert_eq!(s.project().unwrap().highlights[0].color.a, ns(1.0));
    assert_eq!(s.set_annotation_opacity(3, ns(0.5)), Ok(()));
    assert_eq!(s.set_highlight_shape(3, true), Ok(()));
    assert_eq!(s.update_annotation_range(1, ns(2.0), ns(99.0)), Ok(()));
    let a = s.annotations().unwrap();
    assert_ne!(a.arrows[0].style, ArrowStyle::Line);
    let h = &a.highlights[0];
    assert_eq!((h.color.r, h.color.g, h.color.b, h.color.a), (ns(0.5), ns(0.25), ns(1.0), ns(0.5)));
    assert_eq!(h.shape, HighlightShape::Ellipse);
    assert_eq!((a.texts[0].range.start, a.texts[0].range.end), (ns(2.0), ns(10.0)));
}

#[test]
fn copies_are_nudged_and_pastes_keep_their_offsets() {
    let mut s = session();
    assert_eq!(s.add_text("hi".to_string(), ns(0.1), ns(0.2), 0), Ok(1));
    assert_eq!(s.duplicate_annotation(1), Ok(2));
    assert_eq!(s.duplicate_annotation(7), Err(EditError::NoSuchAnnotation));
    let a = s.annotations().unwrap();
    assert_eq!((a.texts[1].pos.x, a.texts[1].pos.y), (ns(0.13), ns(0.23)));
    let text = |start: f64| TextAnnotation {
        id: 0,
        text: "p".to_string(),
        pos: Point { x: 0, y: 0 },
        font_size: ns(0.05),
        color: Color::white(),
        bold: false,
        italic: false,
        background: false,
        font: String::new(),
        range: TimeRange::new(ns(start), ns(start + 1.0)),
    };
    let arrow = ArrowAnnotation {
        id: 0,
        from: Point { x: 0, y: 0 },
        to: Point { x: 1, y: 1 },
        color: Color::white(),
        thickness: 1,
        style: ArrowStyle::Line,
        range: TimeRange::new(ns(2.5), ns(3.0)),
    };
    let items = vec![PasteItem::Text(text(2.0)), PasteItem::Arrow(arrow)];
    let refs = s.paste_annotations(&items, ns(5.0)).unwrap();
    assert_eq!((refs[0].kind.as_str(), refs[0].id), ("text", 3));
    assert_eq!((refs[1].kind.as_str(), refs[1].id), ("arrow", 4));
    let a = s.annotations().unwrap();
    assert_eq!((a.texts[2].range.start, a.texts[2].range.end), (ns(5.0), ns(6.0)));
    assert_eq!((a.arrows[0].range.start, a.arrows[0].range.end), (ns(5.5), ns(6.0)));
}

#[test]
fn annotations_move_in_their_stack() {
    let mut s = session();
    for i in 0..3 {
        assert_eq!(s.add_text("t".to_string(), i, 0, 0), Ok(i as u32 + 1));
    }
    let order = |s: &Session| -> Vec<u32> { s.project().unwrap().texts.iter().map(|t| t.id).collect() };
    assert_eq!(s.reorder_annotation(1, "front"), Ok(()));
    assert_eq!(order(&s), vec![2, 3, 1]);
    assert_eq!(s.reorder_annotation(1, "backward"), Ok(()));
    assert_eq!(order(&s), vec![2, 1, 3]);
    assert_eq!(s.reorder_annotation(3, "back"), Ok(()));
    assert_eq!(order(&s), vec![3, 2, 1]);
    assert_eq!(s.reorder_annotation(3, "forward"), Ok(()));
    assert_eq!(order(&s), vec![2, 3, 1]);
    let bad = s.reorder_annotation(3, "up").unwrap_err();
    assert_eq!(bad.message(), "bad reorder dir: up");
    assert_eq!(s.reorder_annotation(8, "front"), Err(EditError::NoSuchAnnotation));
    assert_eq!(s.delete_annotation(3, ""), Ok(()));
    assert_eq!(order(&s), vec![2, 1]);
}

#[test]
fn ids_are_found_removed_and_fresh() {
    let mut s = session();
    assert_eq!(s.add_text("a".to_string(), 0, 0, 0), Ok(1));
    assert_eq!(s.add_arrow(0, 0, 1, 1, 0), Ok(2));
    let mut p = s.project().unwrap().clone();
    assert_eq!((highest_id(&p), next_id(&p)), (2, 3));
    assert_eq!((find(&p.texts, 1), find(&p.texts, 2)), (Some(0), None));
    remove_all(&mut p.texts, 1);
    assert!(p.texts.is_empty());
}

#[test]
fn trims_are_held_to_the_clip() {
    let mut s = session();
    assert_eq!(s.set_trim(ns(2.0), ns(50.0)), Ok(()));
    assert_eq!(s.project().unwrap().active_range(), (ns(2.0), ns(10.0)));
    assert_eq!(s.set_trim(ns(2.0), ns(2.1)), Err(EditError::TrimTooShort));
    // The whole clip is no trim.
    assert_eq!(s.set_trim(0, ns(10.0)), Ok(()));
    assert!(s.project().unwrap().trim.is_none());
}

#[test]
fn idle_stretches_are_sped_up() {
    let mut p = project();
    for t in [0.5, 8.0] {
        p.events.push(InputEvent::Click {
            t: ns(t),
            pos: Point { x: 0, y: 0 },
            button: MouseButton::Left,
        });
    }
    let mut s = Session::new();
    s.load(&jump, p);
    let r = s.auto_speed(ns(4.0)).unwrap();
    assert_eq!(r.len(), 1);
    // Starts a little after the activity and ends a little before the next.
    assert!(r[0].start > ns(0.5) && r[0].end < ns(8.0));
    assert_eq!(r[0].factor, ns(4.0));
    assert_eq!(s.clear_speed(), Ok(()));
    assert!(s.project().unwrap().speed_regions.is_empty());
}

#[test]
fn regions_and_cuts_are_edited_by_place() {
    let mut s = session();
    assert_eq!(s.add_speed_region(ns(6.0), ns(7.0), ns(2.0)).unwrap().len(), 1);
    let two = s.add_speed_region(ns(1.0), ns(2.0), ns(3.0)).unwrap();
    assert_eq!((two[0].start, two[1].start), (ns(1.0), ns(6.0)));
    assert!(matches!(s.update_speed_region(5, 0, 1, 1), Err(EditError::NoSuchSpeedRegion)));
    let one = s.delete_speed_region(0).unwrap();
    assert_eq!((one.len(), one[0].start), (1, ns(6.0)));
    assert!(matches!(s.delete_speed_region(9), Err(EditError::NoSuchSpeedRegion)));
    assert_eq!(s.add_cut(ns(3.0), ns(4.0)).unwrap().len(), 1);
    let moved = s.update_cut(0, ns(5.0), ns(99.0)).unwrap();
    assert_eq!((moved[0].start, moved[0].end), (ns(5.0), ns(10.0)));
    assert!(matches!(s.update_cut(1, 0, 1), Err(EditError::NoSuchCut)));
    assert!(s.delete_cut(0).unwrap().is_empty());
    assert!(matches!(s.delete_cut(0), Err(EditError::NoSuchCut)));
}

fn jump(_x: i64, _v: i64, goal: i64, _half_life: i64, _dt: i64) -> (i64, i64) {
    (goal, 0)
}

#[test]
fn zooms_are_edited_by_place() {
    let mut s = session();
    let z = s.add_zoom(&jump, ns(3.0)).unwrap();
    assert_eq!((z.len(), z[0].start, z[0].end), (1, ns(3.0), ns(5.0)));
    let z = s.update_zoom(&jump, 0, ns(4.0), ns(6.0), ns(2.5)).unwrap();
    assert_eq!((z[0].start, z[0].end, z[0].amount), (ns(4.0), ns(6.0), ns(2.5)));
    let z = s.set_zoom_focus(&jump, 0, Some((ns(0.25), ns(7.0)))).unwrap();
    assert!(matches!(z[0].mode, ZoomMode::Manual { pos } if pos.x == ns(0.25) && pos.y == ns(1.0)));
    let z = s.set_zoom_focus(&jump, 0, None).unwrap();
    assert!(matches!(z[0].mode, ZoomMode::Auto));
    let z = s.set_zoom_style(&jump, 0, ZoomStyle::Slow).unwrap();
    assert_eq!(z[0].style, ZoomStyle::Slow);
    assert!(matches!(s.update_zoom(&jump, 4, 0, 1, 1), Err(EditError::NoSuchZoom)));
    assert!(matches!(s.set_zoom_style(&jump, 4, ZoomStyle::Slow), Err(EditError::NoSuchZoom)));
    // The edited project zooms where its segment lies.
    let track = resimulate(&jump, s.project().unwrap());
    assert_eq!(track.at(ns(5.0)).zoom, ns(2.5));
    assert_eq!(track.at(ns(1.0)).zoom, ns(1.0));
    assert!(s.delete_zoom(&jump, 0).unwrap().is_empty());
    assert!(matches!(s.delete_zoom(&jump, 0), Err(EditError::NoSuchZoom)));
    assert_eq!(rate_for(ns(30.0)), 30_000);
}

#[test]
fn the_camera_follows_undo_and_redo() {
    let mut s = session();
    let rest = s.track().unwrap().frames().to_vec();
    assert_eq!(rest.len(), 301);
    s.add_zoom(&jump, ns(3.0)).unwrap();
    let zoomed = s.track().unwrap().frames().to_vec();
    assert_eq!(s.track().unwrap().at(ns(4.0)).zoom, ns(1.8));
    assert!(s.undo(&jump));
    assert_eq!(s.track().unwrap().frames(), rest);
    assert!(s.redo(&jump));
    assert_eq!(s.track().unwrap().frames(), zoomed);
    assert!(matches!(s.delete_zoom(&jump, 7), Err(EditError::NoSuchZoom)));
    assert_eq!(s.track().unwrap().frames(), zoomed);
    s.unload();
    assert!(s.track().is_none());
}

#[test]
fn zooms_need_room() {
    let mut s = session();
    assert!(s.add_zoom(&jump, 0).is_ok());
    assert!(s.update_zoom(&jump, 0, 0, ns(5.0), ns(2.0)).is_ok());
    assert!(s.add_zoom(&jump, ns(5.0)).is_ok());
    assert!(matches!(s.add_zoom(&jump, ns(3.0)), Err(EditError::NoRoomForZoom)));
    assert_eq!(s.project().unwrap().zooms.len(), 2);
}

#[test]
fn planning_replaces_the_zooms() {
    let mut p = project();
    p.events.push(InputEvent::ZoomMark { t: ns(2.0), pos: Point { x: ns(0.5), y: ns(0.5) } });
    let mut s = Session::new();
    s.load(&jump, p);
    let z = s.plan_zoom_auto(&jump, ns(2.2)).unwrap();
    assert_eq!((z.len(), z[0].amount), (1, ns(2.2)));
}

#[test]
fn the_look_of_the_clip_is_set_and_reported() {
    let mut s = session();
    assert_eq!(s.set_show_clicks(true), Ok(()));
    assert_eq!(s.set_show_keys(true), Ok(()));
    assert_eq!(s.set_background_preset("teal"), Ok(()));
    assert_eq!(s.set_background_preset("mauve"), Err(EditError::UnknownBackground));
    for preset in ["none", "subtle", "standard"] {
        assert_eq!(s.set_frame_preset(preset), Ok(()));
        let st = s.clip_state().unwrap();
        assert!(st.frame_preset.len() > 0);
    }
    let st = s.clip_state().unwrap();
    assert!(st.show_clicks && st.show_keys);
    assert_eq!(st.background_preset, "teal");
    assert_eq!(st.duration, ns(10.0));
    let crop = CropRect { x: ns(0.2), y: ns(0.2), w: ns(0.5), h: ns(0.5) };
    assert_eq!(s.set_crop(Some(crop)), Ok(()));
    assert_eq!(s.project().unwrap().effective_source_dims(), (960, 540));
    assert_eq!(s.set_crop(Some(CropRect::full())), Ok(()));
    assert!(s.project().unwrap().crop.is_none());
}
