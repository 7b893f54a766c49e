use vuoom::project::model::{Project, SourceInfo};
use vuoom::project::timeline::{SpeedRegion, Trim};
use vuoom::session::export::{
    check_export, check_seek, finish_gif, gif_settings, sample_starts, ExportError, Loaded,
    VideoExport, VideoStep, WINDOW,
};
use vuoom::session::playback::out_mapping;

fn ns(t: f64) -> i64 {
    (t * 1e9).round() as i64
}

fn project() -> Project {
    Project::new(SourceInfo {
        path: String::new(),
        width: 1920,
        height: 1080,
        fps: ns(30.0),
        duration: ns(10.0),
    })
}

#[test]
fn exports_need_a_recording_frames_and_a_gpu() {
    let all = Loaded { project: true, track: true, frames: Some(3), gpu: true };
    assert!(check_export(&all).is_ok());
    assert!(check_seek(&all).is_ok());
    let e = check_export(&Loaded { project: false, ..all }).unwrap_err();
    assert_eq!(e.message(), "no recording");
    let e = check_export(&Loaded { frames: Some(0), ..all }).unwrap_err();
    assert_eq!(e.message(), "no frames");
    let e = check_export(&Loaded { gpu: false, ..all }).unwrap_err();
    assert_eq!(e.message(), "no GPU compositor");
}

#[test]
fn a_trimmed_clip_plays_its_trim_only() {
    let mut p = project();
    p.trim = Some(Trim { start: ns(2.0), end: ns(6.0) });
    p.speed_regions.push(SpeedRegion { start: ns(3.0), end: ns(5.0), factor: ns(2.0) });
    let m = out_mapping(&p);
    assert_eq!((m.t0, m.span), (ns(2.0), ns(4.0)));
    // Three seconds of output at ten frames a second.
    assert_eq!(m.frame_count(10), 30);
    assert_eq!(m.source_time_of(0, 10), ns(2.0));
    assert_eq!(m.source_time_of(15, 10), ns(4.0));
    let times: Vec<i64> = (0..30).map(|i| m.source_time_of(i, 10)).collect();
    assert!(times.windows(2).all(|w| w[0] <= w[1]));
}

#[test]
fn a_clip_that_is_all_cut_shows_its_end() {
    let mut p = project();
    p.cuts.push(Trim { start: 0, end: ns(10.0) });
    let m = out_mapping(&p);
    assert_eq!(m.frame_count(10), 1);
    assert_eq!(m.source_time_of(0, 10), ns(10.0));
    assert_eq!(m.source_time_of(7, 10), ns(10.0));
}

#[test]
fn a_video_runs_through_its_frames() {
    let mut v = VideoExport::new(2);
    assert_eq!(v.step(false), VideoStep::Frame(0));
    // The last step of the progress is the finished file.
    assert_eq!(v.encoded(), (1, 3));
    assert_eq!(v.step(false), VideoStep::Frame(1));
    assert_eq!(v.encoded(), (2, 3));
    assert_eq!(v.step(false), VideoStep::Finalize);
    assert!(v.outcome().is_ok());
}

#[test]
fn a_cancelled_or_failed_video_is_removed() {
    let mut v = VideoExport::new(2);
    assert_eq!(v.step(true), VideoStep::Remove);
    assert_eq!(v.outcome().unwrap_err().message(), "export cancelled");
    let mut w = VideoExport::new(2);
    w.failed(ExportError::Failed("encoder".to_string()));
    assert_eq!(w.step(false), VideoStep::Remove);
    assert_eq!(w.outcome().unwrap_err().message(), "encoder");
}

#[test]
fn a_gif_that_was_not_finished_is_removed() {
    let (r, remove) = finish_gif(Ok(()), false);
    assert!(r.is_ok() && !remove);
    let (r, remove) = finish_gif(Err("stopped".to_string()), true);
    assert_eq!(r.unwrap_err().message(), "export cancelled");
    assert!(remove);
    let (r, remove) = finish_gif(Err("disk full".to_string()), false);
    assert_eq!(r.unwrap_err().message(), "disk full");
    assert!(remove);
}

#[test]
fn gif_settings_hold_what_was_asked_for() {
    let s = gif_settings(15, Some(640), 80);
    assert_eq!((s.fps, s.width, s.quality), (15, Some(640), 80));
}

#[test]
fn sample_windows_lie_in_the_clip() {
    for total in [1usize, 5, 12, 13, 40, 1000] {
        let starts = sample_starts(total);
        assert!(!starts.is_empty());
        for &s in &starts {
            assert!(s < total);
            assert!(total <= WINDOW || s + WINDOW <= total);
        }
        assert!(starts.windows(2).all(|w| w[0] < w[1]));
    }
}
