use vuoom::zoom::camera::{
    clamp_camera, plan_and_simulate, simulate, snap_axis, CameraFilter, CameraTarget,
};
use vuoom::zoom::config::ZoomConfig;
use vuoom::zoom::edit::{insert_sorted, move_to, remove, resize, sort_by_start, MIN_LEN};
use vuoom::zoom::event::{InputEvent, MouseButton, Point};
use vuoom::zoom::keyframe::{ZoomKeyframe, ZoomMode, ZoomStyle};
use vuoom::zoom::planner::plan_zooms;

fn ns(t: f64) -> i64 {
    (t * 1e9).round() as i64
}

fn at(x: f64, y: f64) -> Point {
    Point { x: ns(x), y: ns(y) }
}

/// A critically damped spring: values in billionths, times in nanoseconds.
fn spring(x: i64, v: i64, goal: i64, half_life: i64, dt: i64) -> (i64, i64) {
    let (x, v, goal) = (x as f64 / 1e9, v as f64 / 1e9, goal as f64 / 1e9);
    let hl = (half_life as f64 / 1e9).max(1e-4);
    let dt = dt as f64 / 1e9;
    let y = 2.0 * std::f64::consts::LN_2 / hl;
    let j0 = x - goal;
    let j1 = v + j0 * y;
    let e = (-y * dt).exp();
    (ns(e * (j0 + j1 * dt) + goal), ns(e * (v - j1 * y * dt)))
}

fn kf(start: f64, end: f64) -> ZoomKeyframe {
    ZoomKeyframe {
        start: ns(start),
        end: ns(end),
        amount: ns(1.8),
        mode: ZoomMode::Auto,
        edge_snap_ratio: ns(0.25),
        style: ZoomStyle::Smooth,
    }
}

#[test]
fn clamp_keeps_viewport_in_bounds() {
    let c = clamp_camera(at(0.0, 1.0), ns(2.0));
    assert_eq!((c.x, c.y), (ns(0.25), ns(0.75)));
    // At zoom 1.0 the only valid center is the middle.
    let c = clamp_camera(at(0.0, 0.0), ns(1.0));
    assert_eq!((c.x, c.y), (ns(0.5), ns(0.5)));
}

#[test]
fn zoom_style_changes_settle_speed() {
    let cfg = ZoomConfig::default();
    let seg = |style| ZoomKeyframe {
        start: 0,
        end: ns(6.0),
        amount: ns(2.0),
        mode: ZoomMode::Auto,
        edge_snap_ratio: 0,
        style,
    };
    // How far the zoom has risen shortly after the segment starts: a shorter
    // half-life closes the gap faster, so snappy leads smooth leads slow.
    let sample = |style| {
        simulate(&spring, &[], &[seg(style)], ns(6.0), 60_000, &cfg).at(ns(0.4)).zoom
    };
    let snappy = sample(ZoomStyle::Snappy);
    let smooth = sample(ZoomStyle::Smooth);
    let slow = sample(ZoomStyle::Slow);
    assert!(snappy > smooth, "snappy {snappy} should lead smooth {smooth}");
    assert!(smooth > slow, "smooth {smooth} should lead slow {slow}");
}

#[test]
fn simulate_zero_fps_produces_finite_track() {
    let track = simulate(&spring, &[], &[], ns(1.0), 0, &ZoomConfig::default());
    assert!(!track.frames().is_empty());
    assert!(track.frames().iter().all(|f| f.zoom == ns(1.0) && f.center.x == ns(0.5)));
}

#[test]
fn insert_keeps_sorted() {
    let mut z = vec![kf(0.0, 1.0), kf(5.0, 6.0)];
    let i = insert_sorted(&mut z, kf(2.0, 3.0));
    assert_eq!(i, Some(1));
    assert!(z.windows(2).all(|w| w[0].start <= w[1].start));
}

/// The list stays free of overlap after any sequence of edits.
fn assert_no_overlap(z: &[ZoomKeyframe]) {
    assert!(z.windows(2).all(|w| w[0].end <= w[1].start), "overlap detected");
}

#[test]
fn insert_overlapping_clamps_into_gap() {
    // Two segments with a 1.0s gap [3,4]; request a 2.0s zoom starting at 3.5.
    let mut z = vec![kf(0.0, 3.0), kf(4.0, 6.0)];
    let i = insert_sorted(&mut z, kf(3.5, 5.5)).expect("must fit");
    assert_eq!(i, 1);
    // Shrunk to fill the gap exactly, no overlap either side.
    assert_eq!((z[1].start, z[1].end), (ns(3.0), ns(4.0)));
    assert_no_overlap(&z);
}

#[test]
fn insert_rejected_when_gap_too_small() {
    // Gap [2.0, 2.1] is narrower than MIN_LEN.
    let mut z = vec![kf(0.0, 2.0), kf(2.1, 6.0)];
    assert!(insert_sorted(&mut z, kf(2.05, 4.0)).is_none());
    assert_eq!(z.len(), 2);
}

#[test]
fn insert_exact_abutment_allowed() {
    // Requesting a segment that exactly abuts the next one (end == next.start) is fine.
    let mut z = vec![kf(4.0, 6.0)];
    let i = insert_sorted(&mut z, kf(2.0, 4.0)).expect("must fit");
    assert_eq!(i, 0);
    assert_eq!(z[0].end, z[1].start); // touching, not overlapping
    assert_no_overlap(&z);
}

#[test]
fn resize_clamps_into_neighbor() {
    let mut z = vec![kf(0.0, 2.0), kf(3.0, 5.0)];
    // Try to drag the second segment's left edge back to 1.0 (into the first).
    assert!(resize(&mut z, 1, ns(1.0), ns(5.0), ns(10.0)));
    assert!(z[1].start >= z[0].end); // stopped at the neighbour
    assert_no_overlap(&z);
}

#[test]
fn resize_right_edge_stops_at_next() {
    let mut z = vec![kf(0.0, 2.0), kf(3.0, 5.0)];
    // Grow the first segment's right edge across the second, it stops at 3.0.
    assert!(resize(&mut z, 0, 0, ns(4.0), ns(10.0)));
    assert_eq!(z[0].end, ns(3.0));
    assert_no_overlap(&z);
}

#[test]
fn move_across_neighbor_stops() {
    let mut z = vec![kf(0.0, 2.0), kf(3.0, 4.0)];
    // Try to drag the second segment (len 1) left past the first one.
    assert!(move_to(&mut z, 1, ns(0.5), ns(10.0)));
    assert_no_overlap(&z);
    // It parks right after the first segment's end (2.0), not on top of it.
    let moved = z.iter().find(|k| k.duration() == 1_000_000_000).unwrap();
    assert_eq!(moved.start, ns(2.0));
}

#[test]
fn move_preserves_duration_and_clamps() {
    let mut z = vec![kf(1.0, 3.0)]; // duration 2
    assert!(move_to(&mut z, 0, ns(100.0), ns(10.0))); // clamp so it fits in [0,10]
    assert_eq!(z[0].duration(), 2_000_000_000);
    assert_eq!(z[0].end, ns(10.0));
    assert_eq!(z[0].start, ns(8.0));
}

#[test]
fn resize_enforces_min_len() {
    let mut z = vec![kf(1.0, 5.0)];
    // Try to collapse it to zero length; MIN_LEN is enforced.
    assert!(resize(&mut z, 0, ns(2.0), ns(2.0), ns(10.0)));
    assert!(z[0].duration() >= MIN_LEN as u64);
}

#[test]
fn remove_out_of_range_is_none() {
    let mut z = vec![kf(0.0, 1.0)];
    assert!(remove(&mut z, 5).is_none());
    assert!(remove(&mut z, 0).is_some());
    assert!(z.is_empty());
}

#[test]
fn edits_of_missing_segments_change_nothing() {
    let mut z = vec![kf(0.0, 1.0)];
    assert!(!move_to(&mut z, 1, 0, ns(10.0)));
    assert!(!resize(&mut z, 1, 0, ns(1.0), ns(10.0)));
    assert_eq!((z.len(), z[0].start, z[0].end), (1, 0, ns(1.0)));
}

#[test]
fn sorting_orders_segments_and_keeps_ties() {
    let mut z = vec![kf(5.0, 6.0), kf(0.0, 1.0), kf(5.0, 7.0)];
    sort_by_start(&mut z);
    let got: Vec<(i64, i64)> = z.iter().map(|k| (k.start, k.end)).collect();
    assert_eq!(got, vec![(0, ns(1.0)), (ns(5.0), ns(6.0)), (ns(5.0), ns(7.0))]);
}

/// The click pathway is off by default (the manual hotkey is the default trigger).
fn click_cfg() -> ZoomConfig {
    ZoomConfig { auto_zoom_on_click: true, ..ZoomConfig::default() }
}

fn click(t: f64, x: f64, y: f64) -> InputEvent {
    InputEvent::Click { t: ns(t), pos: at(x, y), button: MouseButton::Left }
}

fn mv(t: f64, x: f64, y: f64) -> InputEvent {
    InputEvent::Move { t: ns(t), pos: at(x, y) }
}

/// A typical "click around a UI" recording: move, click a corner, move, click elsewhere.
fn sample_recording() -> Vec<InputEvent> {
    let mut e = Vec::new();
    for i in 0..30 {
        let f = f64::from(i) / 30.0;
        e.push(mv(f, 0.5 + 0.02 * f, 0.5));
    }
    e.push(click(1.0, 0.12, 0.12)); // near top-left corner
    for i in 0..30 {
        let f = 1.0 + f64::from(i) / 30.0;
        e.push(mv(f, 0.12 + 0.02 * f, 0.12));
    }
    e.push(click(5.0, 0.85, 0.8)); // bottom-right
    e
}

#[test]
fn never_reveals_offscreen_area() {
    let cfg = click_cfg();
    let (_zooms, track) = plan_and_simulate(&spring, &sample_recording(), ns(8.0), 60_000, &cfg);
    for (i, s) in track.frames().iter().enumerate() {
        let half = 0.5 / (s.zoom as f64 / 1e9).max(1.0);
        let bounds = (half - 1e-9)..=(1.0 - half + 1e-9);
        let (x, y) = (s.center.x as f64 / 1e9, s.center.y as f64 / 1e9);
        assert!(bounds.contains(&x) && bounds.contains(&y), "frame {i} reveals off-screen area");
        assert!(s.zoom >= ns(1.0), "zoom dipped below 1.0: {}", s.zoom);
    }
}

#[test]
fn equal_recordings_give_equal_tracks() {
    let cfg = click_cfg();
    let (zooms, track) = plan_and_simulate(&spring, &sample_recording(), ns(8.0), 60_000, &cfg);
    let again = simulate(&spring, &sample_recording(), &zooms, ns(8.0), 60_000, &cfg);
    assert_eq!(track.frames(), again.frames());
    assert_eq!(track.frames().len(), 481);
}

#[test]
fn a_zoom_mark_seeds_a_zoom_but_is_no_click() {
    let mark = InputEvent::ZoomMark { t: ns(1.0), pos: at(0.5, 0.5) };
    assert!(mark.is_click_trigger());
    assert!(!mv(1.0, 0.5, 0.5).is_click_trigger());
    // One mark opens one zoom; it does not start a click-driven one beside it.
    assert_eq!(plan_zooms(&[mark], ns(8.0), &click_cfg()).len(), 1);
}

#[test]
fn every_click_lies_in_a_zoom() {
    let zooms = plan_zooms(&sample_recording(), ns(8.0), &click_cfg());
    for t in [ns(1.0), ns(5.0)] {
        assert!(zooms.iter().any(|z| z.contains(t)));
    }
    assert!(!zooms.iter().any(|z| z.contains(ns(7.9))));
}

#[test]
fn jitter_without_clicks_does_not_zoom() {
    let cfg = click_cfg();
    let mut events = Vec::new();
    for i in 0..120 {
        let t = f64::from(i) / 60.0;
        // sub-pixel wiggle around the middle
        let jx = 0.5 + 0.001 * f64::from(i % 3);
        events.push(mv(t, jx, 0.5));
    }
    let (zooms, track) = plan_and_simulate(&spring, &events, ns(2.0), 60_000, &cfg);
    assert!(zooms.is_empty(), "jitter alone must not create zooms");
    let max_zoom = track.frames().iter().map(|s| s.zoom).max().unwrap();
    assert!(max_zoom < ns(1.01), "camera zoomed on jitter: {max_zoom}");
}

#[test]
fn click_zooms_in_then_releases() {
    let cfg = click_cfg();
    let events = [click(1.0, 0.5, 0.5)];
    let (_zooms, track) = plan_and_simulate(&spring, &events, ns(6.0), 60_000, &cfg);
    let peak = track.frames().iter().map(|s| s.zoom).max().unwrap();
    assert!(peak > ns(1.5), "click did not zoom in enough (peak {peak})");
    // By the end of the clip (well after the hold) it should have released.
    let end = track.at(ns(6.0)).zoom;
    assert!(end < ns(1.2), "camera never zoomed back out (end {end})");
}

#[test]
fn simulation_is_deterministic() {
    let cfg = click_cfg();
    let rec = sample_recording();
    let a = plan_and_simulate(&spring, &rec, ns(8.0), 60_000, &cfg).1;
    let b = plan_and_simulate(&spring, &rec, ns(8.0), 60_000, &cfg).1;
    assert!(a.frames() == b.frames());
}

#[test]
fn no_triggers_no_zooms() {
    let events = [mv(0.1, 0.5, 0.5), mv(0.2, 0.51, 0.5)];
    assert!(plan_zooms(&events, ns(5.0), &click_cfg()).is_empty());
}

#[test]
fn rapid_colocated_clicks_debounce_to_one_segment() {
    // Three quick clicks at the same spot.
    let events = [click(1.0, 0.3, 0.3), click(1.2, 0.31, 0.29), click(1.4, 0.30, 0.31)];
    let zooms = plan_zooms(&events, ns(10.0), &click_cfg());
    assert_eq!(zooms.len(), 1, "rapid co-located clicks must merge");
}

#[test]
fn distant_clicks_in_time_make_separate_segments() {
    // Two clicks far apart in time and space -> two zooms.
    let events = [click(1.0, 0.2, 0.2), click(8.0, 0.8, 0.8)];
    let zooms = plan_zooms(&events, ns(12.0), &click_cfg());
    assert_eq!(zooms.len(), 2);
    assert!(zooms[0].end < zooms[1].start);
}

#[test]
fn close_in_time_segments_merge_for_frequency_limit() {
    // Two clusters whose holds would overlap within min_rezoom_interval -> merged.
    let events = [click(1.0, 0.2, 0.2), click(2.2, 0.8, 0.8)];
    let zooms = plan_zooms(&events, ns(12.0), &click_cfg());
    assert_eq!(zooms.len(), 1, "near-adjacent zooms merge to avoid seasickness");
}

#[test]
fn segments_respect_min_rezoom_spacing() {
    let cfg = click_cfg();
    let events = [click(1.0, 0.2, 0.2), click(8.0, 0.8, 0.8)];
    let zooms = plan_zooms(&events, ns(12.0), &cfg);
    for w in zooms.windows(2) {
        assert!(w[1].start >= w[0].end + cfg.min_rezoom_interval);
    }
}

#[test]
fn pre_roll_never_goes_negative() {
    let events = [click(0.05, 0.5, 0.5)];
    let zooms = plan_zooms(&events, ns(5.0), &click_cfg());
    assert_eq!(zooms.len(), 1);
    assert!(zooms[0].start >= 0);
}

#[test]
fn clicks_do_not_zoom_in_manual_mode() {
    // Default config = manual: clicks alone seed nothing.
    let cfg = ZoomConfig::default();
    assert!(!cfg.auto_zoom_on_click);
    let events = [click(1.0, 0.3, 0.3), click(5.0, 0.7, 0.7)];
    assert!(plan_zooms(&events, ns(8.0), &cfg).is_empty());
}

#[test]
fn zoom_mark_seeds_a_zoom_even_in_manual_mode() {
    let cfg = ZoomConfig::default();
    let events = [InputEvent::ZoomMark { t: ns(2.0), pos: at(0.4, 0.6) }];
    let zooms = plan_zooms(&events, ns(8.0), &cfg);
    assert_eq!(zooms.len(), 1, "manual zoom mark must seed a zoom");
}

#[test]
fn marks_switch_the_zoom_on_and_off() {
    let cfg = ZoomConfig::default();
    let mark = |t: f64| InputEvent::ZoomMark { t: ns(t), pos: at(0.4, 0.6) };
    let zooms = plan_zooms(&[mark(2.0), mark(5.0), mark(6.0)], ns(8.0), &cfg);
    assert_eq!(zooms.len(), 2);
    // Each starts a little early: the camera is on its way when the press comes.
    assert_eq!((zooms[0].start, zooms[0].end), (ns(2.0) - cfg.pre_roll, ns(5.0)));
    assert_eq!((zooms[1].start, zooms[1].end), (ns(6.0) - cfg.pre_roll, ns(8.0)));
}

#[test]
fn snapping_pulls_edges_in() {
    // Within the ratio of an edge the distance from the inner mark doubles.
    assert_eq!(snap_axis(ns(0.2), ns(0.25)), ns(0.15));
    assert_eq!(snap_axis(ns(0.1), ns(0.25)), 0);
    assert_eq!(snap_axis(ns(0.9), ns(0.25)), ns(1.0));
    assert_eq!(snap_axis(ns(0.5), ns(0.25)), ns(0.5));
}

#[test]
fn an_idle_camera_stays_at_rest() {
    let cfg = ZoomConfig::default();
    let mut f = CameraFilter::new(at(0.2, 0.7));
    for _ in 0..100 {
        let s = f.step(&spring, at(0.2, 0.7), CameraTarget::Idle, &cfg, 16_666_667);
        assert_eq!(s.zoom, ns(1.0));
        assert_eq!((s.center.x, s.center.y), (ns(0.5), ns(0.5)));
    }
}

#[test]
fn styles_have_their_half_lives() {
    // In hundredths.
    assert_eq!(ZoomStyle::Smooth.half_life_mul(), 100);
    assert_eq!(ZoomStyle::Snappy.half_life_mul(), 55);
    assert_eq!(ZoomStyle::Slow.half_life_mul(), 180);
    assert!(matches!(ZoomStyle::from_label("SLOW"), Some(ZoomStyle::Slow)));
    assert!(matches!(ZoomStyle::from_label("snappy"), Some(ZoomStyle::Snappy)));
    assert!(matches!(ZoomStyle::from_label("slow"), Some(ZoomStyle::Slow)));
    assert!(matches!(ZoomStyle::from_label("smooth"), Some(ZoomStyle::Smooth)));
    assert!(ZoomStyle::from_label("other").is_none());
}
