use vuoom::project::color::Color;
use vuoom::project::crop::CropRect;
use vuoom::project::frame::{AspectRatio, Background, FrameStyle};
use vuoom::project::manifest::{check_schema, prepare_manifest, schema_version, ManifestError};
use vuoom::project::model::{Project, SourceInfo, SCHEMA};
use vuoom::project::timeline::{output_duration, output_to_source, segments, Pace, SpeedRegion, Trim};
use vuoom::project::timing::TimeRange;

fn ns(t: f64) -> i64 {
    (t * 1e9).round() as i64
}

fn sample_source() -> SourceInfo {
    SourceInfo {
        path: "capture.mkv".to_string(),
        width: 2560,
        height: 1440,
        fps: ns(60.0),
        duration: ns(12.0),
    }
}

#[test]
fn new_project_has_defaults() {
    let p = Project::new(sample_source());
    assert_eq!(p.schema, SCHEMA);
    assert!(p.zooms.is_empty());
    assert!(matches!(p.aspect, AspectRatio::Original));
    assert_eq!(p.active_range(), (0, ns(12.0)));
}

/// A manifest without a schema member is of the first layout: it is stamped and kept whole.
#[test]
fn legacy_v1_bundle_migrates_and_round_trips() {
    let legacy = "{\"source\":{\"path\":\"capture.mkv\",\"width\":2560},\"zooms\":[]}";
    let v = prepare_manifest(legacy).expect("v1 bundle should migrate + parse");
    let obj = v.as_object().unwrap();
    assert_eq!(obj.get("schema").and_then(|s| s.as_u64()), Some(2));
    assert_eq!(obj.len(), 3);
    assert_eq!(obj.get("source").unwrap().get("width").unwrap().as_u64(), Some(2560));
    assert!(obj.get("zooms").unwrap().as_array().unwrap().is_empty());
    // What is already of the current layout comes through unchanged.
    let again = prepare_manifest(&v.to_string()).unwrap();
    assert!(again == v);
}

#[test]
fn newer_schema_is_rejected() {
    let err = prepare_manifest("{\"schema\":99}").expect_err("a newer schema must be rejected");
    assert!(err.message().contains("newer Vuoom"), "unexpected error message: {}", err.message());
    assert!(matches!(err, ManifestError::Newer { schema: 99 }));
}

#[test]
fn manifests_that_are_not_json_are_malformed() {
    let own = serde_json::from_str::<serde_json::Value>("{").unwrap_err().to_string();
    assert!(matches!(prepare_manifest("{"), Err(ManifestError::Malformed(m)) if m == own));
    assert_eq!(schema_version(None), 1);
    assert_eq!(schema_version(Some(7)), 7);
    assert!(check_schema(2).is_ok());
    assert!(check_schema(3).is_err());
}

#[test]
fn widescreen_output_dims_are_even_and_16_9() {
    let p = Project { aspect: AspectRatio::Widescreen, ..Project::new(sample_source()) };
    let (w, h) = p.output_dims();
    assert_eq!(w % 2, 0);
    assert_eq!(h % 2, 0);
    // 1440 * 16/9 = 2560
    assert_eq!((w, h), (2560, 1440));
}

#[test]
fn a_cropped_project_has_the_size_of_its_crop() {
    let mut p = Project::new(sample_source());
    p.crop = Some(CropRect { x: 0, y: 0, w: ns(0.5), h: ns(0.25) });
    assert_eq!(p.effective_source_dims(), (1280, 360));
    p.aspect = AspectRatio::Square;
    assert_eq!(p.output_dims(), (360, 360));
    p.aspect = AspectRatio::Vertical;
    let (w, h) = p.output_dims();
    assert_eq!((w % 2, h), (0, 360));
}

#[test]
fn an_active_range_is_the_trim() {
    let mut p = Project::new(sample_source());
    p.trim = Some(Trim { start: ns(2.0), end: ns(9.0) });
    assert_eq!(p.active_range(), (ns(2.0), ns(9.0)));
}

fn region(start: f64, end: f64, factor: f64) -> SpeedRegion {
    SpeedRegion { start: ns(start), end: ns(end), factor: ns(factor) }
}

fn cut(start: f64, end: f64) -> Trim {
    Trim { start: ns(start), end: ns(end) }
}

fn lasts(total: f64, regions: &[SpeedRegion], cuts: &[Trim]) -> i128 {
    output_duration(ns(total), regions, cuts)
}

fn source_at(t: f64, total: f64, regions: &[SpeedRegion], cuts: &[Trim]) -> i64 {
    output_to_source(ns(t), ns(total), regions, cuts)
}

#[test]
fn no_regions_is_identity() {
    assert_eq!(lasts(6.0, &[], &[]), ns(6.0) as i128);
    assert_eq!(source_at(2.5, 6.0, &[], &[]), ns(2.5));
}

#[test]
fn sped_region_shortens_output() {
    // [2,4] at 2x: 2s of source plays in 1s. Total 6s -> 5s output.
    let regions = [region(2.0, 4.0, 2.0)];
    assert_eq!(lasts(6.0, &regions, &[]), ns(5.0) as i128);
    // Output t=2.5 is mid-region -> source 3.0.
    assert_eq!(source_at(2.5, 6.0, &regions, &[]), ns(3.0));
    // After the region, output t=4.0 -> source 5.0.
    assert_eq!(source_at(4.0, 6.0, &regions, &[]), ns(5.0));
}

#[test]
fn cut_removes_its_span_from_output() {
    // Cut [2,4]: 6s -> 4s of output; times after the cut shift back by 2s.
    let cuts = [cut(2.0, 4.0)];
    assert_eq!(lasts(6.0, &[], &cuts), ns(4.0) as i128);
    // Before the cut: identity.
    assert_eq!(source_at(1.5, 6.0, &[], &cuts), ns(1.5));
    // The instant the cut starts, output jumps past it.
    assert_eq!(source_at(2.5, 6.0, &[], &cuts), ns(4.5));
}

#[test]
fn cut_and_speed_compose() {
    // 0..1 (1s) + 1..2 at 2x (0.5s) + 2..3 (1s) + 5..6 (1s) = 3.5s.
    let regions = [region(1.0, 2.0, 2.0)];
    let cuts = [cut(3.0, 5.0)];
    assert_eq!(lasts(6.0, &regions, &cuts), ns(3.5) as i128);
    // Output 3.0 lands 0.5s past the cut -> source 5.5.
    assert_eq!(source_at(3.0, 6.0, &regions, &cuts), ns(5.5));
}

#[test]
fn cut_inside_speed_still_removes_cut() {
    // 0..2 (2s) + 2..3 @4x (0.25s) + 3..4 cut + 4..8 @4x (1s) + 8..10 (2s) = 5.25s.
    let regions = [region(2.0, 8.0, 4.0)];
    let cuts = [cut(3.0, 4.0)];
    assert_eq!(lasts(10.0, &regions, &cuts), ns(5.25) as i128);
    // An output time just inside the sped span before the cut stays before it.
    assert_eq!(source_at(2.1, 10.0, &regions, &cuts), ns(2.4));
    // An output time just past the cut boundary jumps over the removed [3,4].
    assert_eq!(source_at(2.3, 10.0, &regions, &cuts), ns(4.2));
}

#[test]
fn cut_overlapping_speed_start() {
    // 0..1 (1s) + 1..3 cut + 3..6 @2x (1.5s) + 6..10 (4s) = 6.5s.
    let regions = [region(2.0, 6.0, 2.0)];
    let cuts = [cut(1.0, 3.0)];
    assert_eq!(lasts(10.0, &regions, &cuts), ns(6.5) as i128);
    // Output 1.5 is 0.5s past the cut, inside the @2x span: 3 + (1.5-1)*2 = 4.0.
    assert_eq!(source_at(1.5, 10.0, &regions, &cuts), ns(4.0));
}

#[test]
fn cut_overlapping_speed_end() {
    // 0..2 (2s) + 2..5 @2x (1.5s) + 5..8 cut + 8..10 (2s) = 5.5s.
    let regions = [region(2.0, 6.0, 2.0)];
    let cuts = [cut(5.0, 8.0)];
    assert_eq!(lasts(10.0, &regions, &cuts), ns(5.5) as i128);
    // Output 3.5 lands mid sped span: 2 + (3.5-2)*2 = 5.0.
    assert_eq!(source_at(3.5, 10.0, &regions, &cuts), ns(5.0));
}

#[test]
fn speed_fully_inside_cut_has_no_effect() {
    // speed [4,6] swallowed by cut [2,8]: identical to the cut alone.
    let regions = [region(4.0, 6.0, 4.0)];
    let cuts = [cut(2.0, 8.0)];
    let with_speed = lasts(10.0, &regions, &cuts);
    let cut_only = lasts(10.0, &[], &cuts);
    assert_eq!(with_speed, cut_only);
    // 0..2 (2s) + 2..8 cut + 8..10 (2s) = 4.0s.
    assert_eq!(with_speed, ns(4.0) as i128);
}

#[test]
fn overlapping_cuts_merge() {
    // cut [2,5] and cut [4,8] fuse into [2,8]; same as a single cut [2,8].
    let cuts = [cut(2.0, 5.0), cut(4.0, 8.0)];
    assert_eq!(lasts(10.0, &[], &cuts), ns(4.0) as i128);
    // Output 2.5 (0.5s past the merged cut) -> source 8.5, proving the union is removed.
    assert_eq!(source_at(2.5, 10.0, &[], &cuts), ns(8.5));
}

#[test]
fn overlapping_speeds_earliest_wins() {
    // 0..2 (2s) + 2..6 @2x (2s) + 6..8 @4x (0.5s) + 8..10 (2s) = 6.5s.
    let regions = [region(2.0, 6.0, 2.0), region(4.0, 8.0, 4.0)];
    assert_eq!(lasts(10.0, &regions, &[]), ns(6.5) as i128);
    // Output 3.5 lands in the overlap [4,6] at 2x (not 4x): 2 + (3.5-2)*2 = 5.0.
    assert_eq!(source_at(3.5, 10.0, &regions, &[]), ns(5.0));
}

#[test]
fn cut_at_exact_speed_boundary() {
    // 0..2 (2s) + 2..4 @2x (1s) + 4..6 cut + 6..10 (4s) = 7.0s.
    let regions = [region(2.0, 4.0, 2.0)];
    let cuts = [cut(4.0, 6.0)];
    assert_eq!(lasts(10.0, &regions, &cuts), ns(7.0) as i128);
    // Output 3.0 lands mid sped span: 2 + (3.0-2)*2 = 4.0.
    assert_eq!(source_at(3.0, 10.0, &regions, &cuts), ns(4.0));
}

#[test]
fn segments_cover_the_clip_in_order() {
    let segs = segments(ns(10.0), &[region(2.0, 6.0, 2.0)], &[cut(5.0, 8.0)]);
    let mut at = 0;
    for s in &segs {
        assert_eq!(s.start, at);
        assert!(s.end > s.start);
        at = s.end;
    }
    assert_eq!(at, ns(10.0));
    assert!(segs.iter().any(|s| matches!(s.pace, Pace::Cut) && s.start == ns(5.0) && s.end == ns(8.0)));
}

#[test]
fn opacity_outside_window_is_zero() {
    let r = TimeRange::new(ns(1.0), ns(3.0));
    assert_eq!(r.opacity_at(ns(0.5)), 0);
    assert_eq!(r.opacity_at(ns(3.0)), 0);
    assert_eq!(r.opacity_at(ns(2.0)), ns(1.0));
    assert!(r.contains(ns(1.0)) && !r.contains(ns(3.0)));
}

#[test]
fn fades_ramp_linearly() {
    let r = TimeRange::with_fade(0, ns(2.0), ns(0.5));
    assert_eq!(r.opacity_at(ns(0.25)), ns(0.5)); // mid fade-in
    assert_eq!(r.opacity_at(ns(1.0)), ns(1.0)); // fully on
    assert_eq!(r.opacity_at(ns(1.75)), ns(0.5)); // mid fade-out
}

#[test]
fn crops_are_made_valid_or_dropped() {
    assert!(CropRect::full().is_full());
    assert!(CropRect::full().sanitized().is_none());
    let c = CropRect { x: ns(0.9), y: ns(-1.0), w: ns(0.5), h: 0 }.sanitized().unwrap();
    assert!(c.x >= 0 && c.x + c.w <= ns(1.0) && c.y >= 0 && c.y + c.h <= ns(1.0));
    assert!(c.w >= ns(0.05) && c.h >= ns(0.05));
    // Making it valid twice changes nothing more.
    let d = c.sanitized().unwrap();
    assert_eq!((c.x, c.y, c.w, c.h), (d.x, d.y, d.w, d.h));
}

#[test]
fn presets_are_found_by_their_names() {
    for name in ["graphite", "slate", "teal", "dusk", "paper", "midnight", "solid"] {
        let b = Background::preset(name).unwrap();
        assert_eq!(b.preset_name(), Some(name));
    }
    assert!(Background::preset("no such preset").is_none());
    let plain = Background::Solid(Color::rgb(1, 2, 3));
    assert!(plain.preset_name().is_none());
    // A new clip has no frame: it is exported edge to edge.
    let style = FrameStyle::default();
    assert_eq!((style.padding, style.corner_radius, style.shadow.strength), (0, 0, 0));
}

#[test]
fn colors_keep_their_channels() {
    let c = Color::rgb(1, 2, 3).with_alpha(9);
    assert_eq!((c.r, c.g, c.b, c.a), (1, 2, 3, 9));
    assert_eq!((Color::white().r, Color::white().a), (ns(1.0), ns(1.0)));
    assert_eq!((Color::black().g, Color::black().a), (0, ns(1.0)));
    assert_eq!(Color::rgba(4, 5, 6, 7).b, 6);
}
