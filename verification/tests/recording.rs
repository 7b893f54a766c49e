use vuoom::capture::{CaptureSource, CropRegion};
use vuoom::desktop::chord::ChordMark;
use vuoom::input::clock::Clock;
use vuoom::input::event::{RawEvent, RawEventKind};
use vuoom::input::normalize::CaptureRegion;
use vuoom::project::model::{Project, SourceInfo};
use vuoom::session::drain::{Drain, FrameStep, WaitStep};
use vuoom::session::finish::{
    compose_capture_region, desktop_fits, merge_poll_chord_marks, pauses_to_cuts,
    recover_source, recoverable_duration, stop_warning, store_duration, Captured, StopError,
};
use vuoom::session::playback::nearest_idx;
use vuoom::session::space::{
    check_free_space, dropped_frames_warning, rate_fits, raw_write_rate_bps,
};
use vuoom::session::state::Session;
use vuoom::session::take::{NotRecording, Pause, StartError, StorageBusy};
use vuoom::session::taps::{extract_key_taps, is_app_control_chord};
use vuoom::session::target::{MonitorInfo, TargetError};
use vuoom::store::frames::FrameRec;
use vuoom::zoom::event::InputEvent;

fn ns(t: f64) -> i64 {
    (t * 1e9).round() as i64
}

fn near(a: i64, b: f64) -> bool {
    (a as f64 / 1e9 - b).abs() < 1e-3
}

/// The counter's frequency: ten million steps a second.
fn freq() -> i64 {
    Clock::new(10_000_000).freq()
}

fn rec(qpc: i64) -> FrameRec {
    FrameRec { qpc, w: 2, h: 2, offset: 0, len: 16 }
}

#[test]
fn nearest_idx_picks_closest_frame_by_time() {
    let f = freq();
    let start = 1000;
    // Frames captured 1s apart at t = 0, 1, 2, 3.
    let recs: Vec<FrameRec> = (0..4i64).map(|i| rec(start + i * f)).collect();
    assert_eq!(nearest_idx(&[], f, start, ns(1.0)), None);
    // Exact hits.
    assert_eq!(nearest_idx(&recs, f, start, 0), Some(0));
    assert_eq!(nearest_idx(&recs, f, start, ns(2.0)), Some(2));
    // Out of range clamps to the ends.
    assert_eq!(nearest_idx(&recs, f, start, ns(-5.0)), Some(0));
    assert_eq!(nearest_idx(&recs, f, start, ns(99.0)), Some(3));
    // Rounds to the nearer neighbour.
    assert_eq!(nearest_idx(&recs, f, start, ns(1.4)), Some(1));
    assert_eq!(nearest_idx(&recs, f, start, ns(1.6)), Some(2));
}

#[test]
fn capture_region_offsets_crop_by_monitor_origin() {
    // A crop offset within a secondary monitor whose virtual-desktop origin is negative
    // (to the left of / above the primary).
    let r = CropRegion { x: 100, y: 50, w: 800, h: 600 };
    let region = compose_capture_region((-1920, -100), Some(r), 1920, 1080);
    assert_eq!((region.x, region.y, region.w, region.h), (-1820, -50, 800, 600));
}

#[test]
fn capture_region_without_crop_is_full_monitor_at_origin() {
    let full = compose_capture_region((-1920, -100), None, 1920, 1080);
    assert_eq!((full.x, full.y, full.w, full.h), (-1920, -100, 1920, 1080));
}

#[test]
fn regions_off_the_coordinate_range_do_not_fit() {
    assert!(desktop_fits((-1920, -100), None, 1920, 1080));
    assert!(!desktop_fits((0, 0), None, u32::MAX, 1));
    let far = CropRegion { x: u32::MAX, y: 0, w: 8, h: 8 };
    assert!(!desktop_fits((0, 0), Some(far), 1920, 1080));
}

fn chord(qpc: i64, x: i32, y: i32) -> ChordMark {
    ChordMark { qpc, x, y }
}

#[test]
fn poll_chord_marks_dedup_filter_and_map_negative_origin() {
    let f = freq();
    let start = 0i64;
    let q = |t: f64| start + (t * f as f64) as i64;
    // Secondary monitor to the LEFT of the primary: negative virtual-desktop origin.
    let region = CaptureRegion { x: -1920, y: 0, w: 1000, h: 500 };
    let hook_times = [ns(2.0)]; // a hook-detected zoom already sits at t = 2.0
    let marks = [
        chord(q(2.1), -1920 + 500, 250), // within 0.3s of the hook mark -> deduped away
        chord(q(5.0), -1920 + 500, 250), // region center -> (0.5, 0.5)
        chord(q(-1.0), 0, 0),            // before the epoch -> filtered
        chord(q(11.0), 0, 0),            // past the duration -> filtered
        chord(q(7.0), -1920 - 100, 999), // outside the region -> clamped to (0, 1)
    ];
    let out = merge_poll_chord_marks(&marks, &hook_times, &region, f, start, ns(10.0));
    assert_eq!(out.len(), 2);
    match out[0] {
        InputEvent::ZoomMark { t, pos } => {
            assert!(near(t, 5.0));
            assert_eq!((pos.x, pos.y), (ns(0.5), ns(0.5)));
        }
        _ => panic!("expected ZoomMark"),
    }
    match out[1] {
        // x left of the region clamps to 0; y below the region clamps to 1.
        InputEvent::ZoomMark { pos, .. } => assert_eq!((pos.x, pos.y), (0, ns(1.0))),
        _ => panic!("expected ZoomMark"),
    }
}

#[test]
fn poll_chord_mark_far_from_any_hook_mark_is_kept() {
    let f = freq();
    let q = |t: f64| (t * f as f64) as i64;
    let region = CaptureRegion { x: 0, y: 0, w: 100, h: 100 };
    // Hook mark at 1.0; poll press 0.4s away (> 0.3s) is a distinct zoom, not a dup.
    let out =
        merge_poll_chord_marks(&[chord(q(1.4), 50, 50)], &[ns(1.0)], &region, f, 0, ns(5.0));
    assert_eq!(out.len(), 1);
}

fn pause(start: i64, end: Option<i64>) -> Pause {
    Pause { start, end }
}

#[test]
fn pauses_convert_to_sorted_clamped_cuts() {
    let f = freq();
    let start = 5_000i64;
    let q = |t: f64| start + (t * f as f64) as i64;
    let pauses = [
        pause(q(6.0), Some(q(7.0))),  // closed 6..7
        pause(q(2.0), Some(q(3.0))),  // closed 2..3 (earlier, must sort first among closed)
        pause(q(8.0), None),          // open at stop -> runs to the duration
        pause(q(4.0), Some(q(4.01))), // ~10ms span -> below the 0.05s floor, dropped
        pause(q(-1.0), Some(q(0.5))), // starts before the epoch -> start clamps to 0.0
    ];
    let cuts = pauses_to_cuts(&pauses, f, start, ns(10.0));
    let got: Vec<(i64, i64)> = cuts.iter().map(|c| (c.start, c.end)).collect();
    assert_eq!(cuts.len(), 4); // the tiny span is dropped
    assert!(got.windows(2).all(|w| w[0].0 <= w[1].0)); // sorted by start
    // Earliest span had a pre-epoch start clamped to 0.0.
    assert!(near(got[0].0, 0.0) && near(got[0].1, 0.5));
    // The open span ends at the recording duration.
    let last = *got.last().unwrap();
    assert!(near(last.0, 8.0) && near(last.1, 10.0));
}

#[test]
fn pause_open_past_duration_clamps_to_duration() {
    let f = freq();
    let q = |t: f64| (t * f as f64) as i64;
    // A closed span whose end overshoots the recording is clamped back to its duration.
    let cuts = pauses_to_cuts(&[pause(q(1.0), Some(q(99.0)))], f, 0, ns(4.0));
    assert_eq!(cuts.len(), 1);
    assert!(near(cuts[0].start, 1.0) && near(cuts[0].end, 4.0));
}

#[test]
fn zero_duration_pause_is_dropped() {
    // A pause and resume at the same instant produces no cut.
    assert!(pauses_to_cuts(&[pause(1_000, Some(1_000))], freq(), 0, ns(5.0)).is_empty());
}

fn rawk(qpc: i64, kind: RawEventKind) -> RawEvent {
    RawEvent { qpc, x: 0, y: 0, kind }
}

#[test]
fn key_taps_label_chords_and_specials_but_not_plain_typing() {
    let f = freq();
    let q = |t: f64| (t * f as f64) as i64;
    let raw = [
        // Ctrl+Shift+P chord.
        rawk(q(1.0), RawEventKind::KeyDown(0x11)),  // Ctrl
        rawk(q(1.01), RawEventKind::KeyDown(0x10)), // Shift
        rawk(q(1.02), RawEventKind::KeyDown(0x50)), // P
        rawk(q(1.03), RawEventKind::KeyUp(0x50)),
        rawk(q(1.04), RawEventKind::KeyUp(0x10)),
        rawk(q(1.05), RawEventKind::KeyUp(0x11)),
        // Plain typing (no modifier, not a standalone special) -> never labeled.
        rawk(q(2.0), RawEventKind::KeyDown(0x41)), // 'A'
        rawk(q(2.01), RawEventKind::KeyUp(0x41)),
        // Standalone Enter -> labeled on its own.
        rawk(q(3.0), RawEventKind::KeyDown(0x0D)),
        rawk(q(3.01), RawEventKind::KeyUp(0x0D)),
        // Enter auto-repeat shortly after -> coalesced into the press above.
        rawk(q(3.2), RawEventKind::KeyDown(0x0D)),
        // Past the recording end -> filtered.
        rawk(q(20.0), RawEventKind::KeyDown(0x0D)),
    ];
    let taps = extract_key_taps(&raw, f, 0, ns(10.0));
    let labels: Vec<&str> = taps.iter().map(|t| t.label.as_str()).collect();
    assert_eq!(labels, vec!["Ctrl+Shift+P", "Enter"]);
    assert!(near(taps[0].t, 1.02));
}

#[test]
fn a_held_key_is_shown_once() {
    let f = freq();
    let q = |t: f64| (t * f as f64) as i64;
    let mut raw: Vec<RawEvent> =
        [1.0, 1.3, 1.6].iter().map(|t| rawk(q(*t), RawEventKind::KeyDown(0x0D))).collect();
    let taps = extract_key_taps(&raw, f, 0, ns(10.0));
    assert_eq!(taps.len(), 1);
    assert_eq!(taps[0].label, "Enter");
    assert!(near(taps[0].t, 1.0));
    // Half a second after the last press it is a press of its own.
    raw.push(rawk(q(2.1), RawEventKind::KeyDown(0x0D)));
    let taps = extract_key_taps(&raw, f, 0, ns(10.0));
    assert_eq!(taps.len(), 2);
    assert!(near(taps[1].t, 2.1));
    // Another key in between is shown, and so is the next press.
    let mixed = [
        rawk(q(1.0), RawEventKind::KeyDown(0x0D)),
        rawk(q(1.1), RawEventKind::KeyDown(0x1B)),
        rawk(q(1.2), RawEventKind::KeyDown(0x0D)),
    ];
    assert_eq!(extract_key_taps(&mixed, f, 0, ns(10.0)).len(), 3);
}

#[test]
fn a_key_pressed_anew_is_shown_anew() {
    let f = freq();
    let q = |t: f64| (t * f as f64) as i64;
    let raw = [
        rawk(q(1.0), RawEventKind::KeyDown(0x0D)),
        rawk(q(1.1), RawEventKind::KeyUp(0x0D)),
        // Too soon after the press that is shown.
        rawk(q(1.3), RawEventKind::KeyDown(0x0D)),
        rawk(q(1.4), RawEventKind::KeyUp(0x0D)),
        // Soon after the last press, but long enough after the one that is shown.
        rawk(q(1.6), RawEventKind::KeyDown(0x0D)),
    ];
    let taps = extract_key_taps(&raw, f, 0, ns(10.0));
    assert_eq!(taps.len(), 2);
    assert!(near(taps[0].t, 1.0) && near(taps[1].t, 1.6));
}

#[test]
fn vuoom_control_chords_are_suppressed() {
    let f = freq();
    let q = |t: f64| (t * f as f64) as i64;
    let raw = [
        // Ctrl+Shift+X, the stop hotkey, must not appear.
        rawk(q(1.0), RawEventKind::KeyDown(0x11)),
        rawk(q(1.01), RawEventKind::KeyDown(0x10)),
        rawk(q(1.02), RawEventKind::KeyDown(0x58)), // X
        rawk(q(1.03), RawEventKind::KeyUp(0x58)),
        rawk(q(1.04), RawEventKind::KeyUp(0x10)),
        rawk(q(1.05), RawEventKind::KeyUp(0x11)),
        // Ctrl+Shift+Z, the zoom chord, must not appear either.
        rawk(q(2.0), RawEventKind::KeyDown(0x11)),
        rawk(q(2.01), RawEventKind::KeyDown(0x10)),
        rawk(q(2.02), RawEventKind::KeyDown(0x5A)), // Z
        rawk(q(2.03), RawEventKind::KeyUp(0x5A)),
        rawk(q(2.04), RawEventKind::KeyUp(0x10)),
        rawk(q(2.05), RawEventKind::KeyUp(0x11)),
        // A real user chord (Ctrl+Shift+C) still renders.
        rawk(q(3.0), RawEventKind::KeyDown(0x11)),
        rawk(q(3.01), RawEventKind::KeyDown(0x10)),
        rawk(q(3.02), RawEventKind::KeyDown(0x43)), // C
    ];
    let taps = extract_key_taps(&raw, f, 0, ns(10.0));
    let labels: Vec<&str> = taps.iter().map(|t| t.label.as_str()).collect();
    assert_eq!(labels, vec!["Ctrl+Shift+C"]);
    assert!(is_app_control_chord(true, true, 0x58) && is_app_control_chord(true, true, 0x5A));
    assert!(!is_app_control_chord(true, false, 0x58) && !is_app_control_chord(true, true, 0x43));
}

const GB: u64 = 1_000_000_000;

#[test]
fn raw_write_rate_scales_with_pixel_area() {
    // 4K has 4x the pixels of 1080p, so 4x the byte rate.
    assert_eq!(raw_write_rate_bps(3840, 2160), 4 * raw_write_rate_bps(1920, 1080));
    // 1080p at 30 fps: 1920*1080*4*30 bytes/s.
    assert_eq!(raw_write_rate_bps(1920, 1080), 1920 * 1080 * 4 * 30);
}

#[test]
fn free_space_blocks_below_absolute_floor() {
    // 1 GB is under the 2 GB hard floor even for a tiny capture.
    let err = check_free_space(GB, 640, 480).unwrap_err();
    assert!(err.contains("Not enough disk space"));
}

#[test]
fn free_space_blocks_when_under_thirty_seconds_of_capture() {
    // 5 GB clears the 2 GB floor, but 1080p burns ~250 MB/s, so 30 s needs ~7.5 GB.
    assert!(check_free_space(5 * GB, 1920, 1080).is_err());
}

#[test]
fn free_space_warns_when_low_but_sufficient() {
    // 20 GB at 1080p: above the ~7.5 GB / 30 s floor but below the ~75 GB / 5 min warn line.
    let warn = check_free_space(20 * GB, 1920, 1080).expect("should start").expect("should warn");
    assert!(warn.contains("low on space"));
}

#[test]
fn free_space_ok_when_plenty() {
    // 500 GB at 1080p clears even the 5 min warn line, no warning.
    assert_eq!(check_free_space(500 * GB, 1920, 1080), Ok(None));
    assert!(rate_fits(7680, 4320) && !rate_fits(u32::MAX, u32::MAX));
}

#[test]
fn many_dropped_frames_are_reported() {
    assert_eq!(dropped_frames_warning(0, 0), None);
    // Thirty in a great many are few, one more is not.
    assert_eq!(dropped_frames_warning(30, 100_000), None);
    assert!(dropped_frames_warning(31, 100_000).is_some());
    // A large share is reported however short the take was.
    assert_eq!(
        dropped_frames_warning(1, 3).unwrap(),
        "Capture couldn't keep up, dropped 1 frames (25.0%). \
         Try a smaller region or a less busy disk."
    );
}

#[test]
fn a_drain_writes_until_the_disk_fills() {
    let mut d = Drain::new();
    assert_eq!(d.frame_arrived(), FrameStep::Write);
    let mut probes = 0;
    for _ in 0..120 {
        if d.frame_arrived() == FrameStep::ProbeDisk {
            probes += 1;
            assert_eq!(d.probed(Some(10 * GB)), FrameStep::Write);
        }
    }
    assert_eq!(probes, 2);
    while d.frame_arrived() != FrameStep::ProbeDisk {}
    assert_eq!(d.probed(Some(1)), FrameStep::Discard);
    assert_eq!(d.frame_arrived(), FrameStep::Discard);
    assert!(d.must_salvage());
    assert!(d.outcome().0.is_some());
}

#[test]
fn a_failed_write_stops_writing() {
    let mut d = Drain::new();
    d.write_failed("disk gone".to_string());
    assert_eq!(d.frame_arrived(), FrameStep::Discard);
    let (err, early) = d.outcome();
    assert!(err.unwrap().contains("disk gone"));
    assert!(!early);
}

#[test]
fn a_drain_ends_when_asked_or_cut_off() {
    let mut d = Drain::new();
    assert_eq!(d.timed_out(false), WaitStep::KeepWaiting);
    assert_eq!(d.timed_out(true), WaitStep::Finish);
    assert_eq!(d.disconnected(false), WaitStep::Finish);
    assert_eq!(d.outcome(), (None, true));
    let mut asked = Drain::new();
    assert_eq!(asked.disconnected(true), WaitStep::Finish);
    assert_eq!(asked.outcome(), (None, false));
}

#[test]
fn the_first_trouble_is_the_one_reported() {
    let some = |s: &str| Some(s.to_string());
    let w = stop_warning(some("write"), true, 50, 10, some("space")).unwrap();
    assert!(w.contains("write"));
    assert!(stop_warning(None, true, 0, 10, None).is_some());
    assert_eq!(stop_warning(None, false, 0, 10, some("space")), some("space"));
    assert_eq!(stop_warning(None, false, 0, 10, None), None);
}

fn monitor() -> MonitorInfo {
    MonitorInfo { name: "DISPLAY2".to_string(), x: -1920, y: 0, w: 1920, h: 1080 }
}

#[test]
fn regions_must_lie_on_the_monitor() {
    let mut s = Session::new();
    assert_eq!(s.pending().size(), (1920, 1080));
    s.set_monitor(Some(monitor()));
    let tiny = CropRegion { x: 0, y: 0, w: 7, h: 100 };
    assert_eq!(s.set_region(Some(tiny)).unwrap_err().message(), "capture region is empty");
    let off = CropRegion { x: 1915, y: 10, w: 100, h: 100 };
    let err = s.set_region(Some(off)).unwrap_err();
    assert!(matches!(err, TargetError::OutsideMonitor { .. }));
    assert_eq!(
        err.message(),
        "capture region 100×100 at (1915, 10) is outside the 1920×1080 monitor"
    );
    assert!(s.pending().region.is_none());
    let overhanging = CropRegion { x: 1900, y: 10, w: 100, h: 100 };
    assert!(s.set_region(Some(overhanging)).is_ok());
    assert_eq!(s.pending().size(), (100, 100));
    assert_eq!(s.pending().origin(), (-1920, 0));
}

#[test]
fn a_window_target_replaces_the_region() {
    let mut s = Session::new();
    let r = CropRegion { x: 0, y: 0, w: 100, h: 100 };
    assert!(s.set_region(Some(r)).is_ok());
    let small = s.set_capture_window(7, 10, 20, 4, 600, monitor());
    assert_eq!(small.unwrap_err().message(), "capture window is too small");
    assert!(s.set_capture_window(7, 10, 20, 800, 600, monitor()).is_ok());
    assert!(s.pending().region.is_none());
    assert!(matches!(s.pending().source(), CaptureSource::Window { hwnd: 7 }));
    assert_eq!((s.pending().origin(), s.pending().size()), ((10, 20), (800, 600)));
}

/// A spring that does not move.
fn still(x: i64, _v: i64, _goal: i64, _half_life: i64, _dt: i64) -> (i64, i64) {
    (x, 0)
}

#[test]
fn a_new_take_drops_the_clip() {
    let mut s = Session::new();
    s.load(
        &still,
        Project::new(SourceInfo {
            path: String::new(),
            width: 2,
            height: 2,
            fps: ns(30.0),
            duration: ns(1.0),
        }),
    );
    assert!(s.track().is_some());
    s.start_recording(7, None);
    assert!(s.project().is_none() && s.track().is_none());
    assert!(!s.undo(&still));
    assert_eq!(s.recording().unwrap().start_qpc, 7);
}

#[test]
fn only_one_take_runs_at_a_time() {
    let mut s = Session::new();
    assert!(matches!(s.check_start(Some(GB)), Err(StartError::NoSpace(_))));
    assert!(matches!(s.check_start(None), Ok(None)));
    assert_eq!(s.set_record_paused(true, 5), Err(NotRecording));
    s.start_recording(1_000, None);
    assert!(s.recording().is_some());
    let again = s.check_start(None).unwrap_err();
    assert_eq!(again.message(), "already recording");
    assert_eq!(s.check_clear_storage(), Err(StorageBusy));
    assert!(s.cancel_recording());
    assert!(!s.cancel_recording());
    assert_eq!(s.check_clear_storage(), Ok(()));
}

#[test]
fn pausing_twice_leaves_one_open_span() {
    let mut s = Session::new();
    s.start_recording(0, None);
    assert_eq!(s.set_record_paused(true, 10), Ok(()));
    assert_eq!(s.set_record_paused(true, 20), Ok(()));
    assert_eq!(s.recording().unwrap().pauses, vec![pause(10, None)]);
    assert_eq!(s.set_record_paused(false, 30), Ok(()));
    assert_eq!(s.set_record_paused(false, 40), Ok(()));
    assert_eq!(s.recording().unwrap().pauses, vec![pause(10, Some(30))]);
}

#[test]
fn stopping_makes_a_project_of_the_take() {
    let f = freq();
    let mut s = Session::new();
    let nothing = Captured {
        recs: &[],
        raw: &[],
        polled: &[],
        write_err: None,
        ended_early: false,
        dropped: 0,
    };
    assert_eq!(s.stop_recording(&still, nothing, f).unwrap_err(), StopError::NotRecording);
    s.start_recording(0, Some("low on space".to_string()));
    assert!(s.set_record_paused(true, f).is_ok());
    assert!(s.set_record_paused(false, 2 * f).is_ok());
    let recs: Vec<FrameRec> = (0..=40).map(|i| rec(i * f / 10)).collect();
    let polled = [chord(3 * f, 1, 1)];
    let c = Captured {
        recs: &recs,
        raw: &[],
        polled: &polled,
        write_err: None,
        ended_early: false,
        dropped: 0,
    };
    let sum = s.stop_recording(&still, c, f).unwrap();
    assert_eq!((sum.frames, sum.duration, sum.zooms), (41, ns(4.0), 1));
    assert_eq!(sum.warning, Some("low on space".to_string()));
    let p = s.project().unwrap();
    assert_eq!((p.source.width, p.source.height), (2, 2));
    assert_eq!(p.cuts.len(), 1);
    assert_eq!((p.cuts[0].start, p.cuts[0].end), (ns(1.0), ns(2.0)));
    assert_eq!(p.events.len(), 1);
    assert!(s.recording().is_none());
}

#[test]
fn a_take_without_frames_is_an_error() {
    let mut s = Session::new();
    s.start_recording(0, None);
    let c = Captured {
        recs: &[],
        raw: &[],
        polled: &[],
        write_err: None,
        ended_early: false,
        dropped: 0,
    };
    let err = s.stop_recording(&still, c, freq()).unwrap_err();
    assert_eq!(err.message(), "No frames were captured, screen capture failed to start.");
    assert!(s.project().is_none());
}

#[test]
fn recovered_clips_get_their_length_from_their_frames() {
    let f = freq();
    let recs = [rec(100), rec(100 + 2 * f)];
    assert_eq!(store_duration(&recs, f), ns(2.0));
    assert_eq!(store_duration(&[], f), 0);
    assert!(recoverable_duration(ns(1.0), &[], f).is_none());
    assert_eq!(recoverable_duration(0, &recs, f), Some(ns(2.0)));
    assert_eq!(recoverable_duration(ns(9.0), &recs, f), Some(ns(9.0)));
    let mut p = vuoom::project::model::Project::new(vuoom::project::model::SourceInfo {
        path: String::new(),
        width: 0,
        height: 0,
        fps: 0,
        duration: 0,
    });
    assert_eq!(recover_source(&mut p, &recs, f), Some(100));
    assert_eq!((p.source.width, p.source.duration), (2, ns(2.0)));
    assert_eq!(recover_source(&mut p, &[], f), None);
}
