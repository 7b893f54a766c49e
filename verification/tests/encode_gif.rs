use std::cell::{Cell, RefCell};
use vuoom::encode::delta::{delta_frame, diff_bbox, TRANSPARENT_INDEX};
use vuoom::encode::error::EncodeError;
use vuoom::encode::image::RgbaImage;
use vuoom::encode::native::{
    export_gif_native, export_gif_native_streaming, frame_delay_cs, quality_to_speed,
    size_fits_gif, FrameSource, ProgressSink,
};
use vuoom::encode::plan::{
    estimate_delta_total_bytes, estimate_total_bytes, plan_frames,
};
use vuoom::encode::quantize::GlobalQuantizer;
use vuoom::encode::scale::downscale_rgba;
use vuoom::encode::settings::GifSettings;
use vuoom::session::export::{estimate_gif, measure_window};

fn solid(w: u32, h: u32, rgba: [u8; 4]) -> RgbaImage {
    let mut px = Vec::with_capacity((w * h * 4) as usize);
    for _ in 0..(w * h) {
        px.extend_from_slice(&rgba);
    }
    RgbaImage::new(w, h, px)
}

/// Decode a GIF back into (has_global_palette, frames-with-geometry).
fn decode(file: &[u8]) -> (bool, Vec<gif::Frame<'static>>) {
    let mut opts = gif::DecodeOptions::new();
    opts.set_color_output(gif::ColorOutput::Indexed);
    let mut d = opts.read_info(file).unwrap();
    let has_global = d.global_palette().is_some();
    let mut frames = Vec::new();
    while let Some(f) = d.read_next_frame().unwrap() {
        frames.push(f.clone());
    }
    (has_global, frames)
}

fn uncapped() -> GifSettings {
    GifSettings { width: None, ..GifSettings::readme() }
}

#[test]
fn downscale_halves_dimensions_and_preserves_color() {
    let src = solid(4, 4, [10, 20, 30, 255]);
    let out = downscale_rgba(&src, 2);
    assert_eq!((out.width, out.height), (2, 2));
    assert!(out.is_valid());
    assert_eq!(&out.pixels[0..4], &[10, 20, 30, 255]);
}

#[test]
fn downscale_never_upscales() {
    let src = solid(2, 2, [0, 0, 0, 255]);
    let out = downscale_rgba(&src, 8);
    assert_eq!((out.width, out.height), (2, 2));
}

#[test]
fn downscaling_averages_boxes() {
    let src = RgbaImage::new(2, 1, vec![10, 0, 0, 255, 31, 2, 0, 255]);
    let out = downscale_rgba(&src, 1);
    assert_eq!(out.pixels, vec![20, 1, 0, 255]);
}

#[test]
fn streaming_encoder_matches_frame_geometry() {
    let base = solid(8, 8, [200, 30, 30, 255]);
    let mut changed = base.clone();
    for y in 4..6 {
        for x in 4..6 {
            let o = ((y * 8 + x) * 4) as usize;
            changed.pixels[o..o + 4].copy_from_slice(&[30, 30, 200, 255]);
        }
    }
    let frames = [base, changed];
    let ticks = Cell::new(0u32);
    let file = export_gif_native_streaming(
        frames.len(),
        &mut FrameSource::new(|i: usize| Ok(frames[i].clone())),
        &uncapped(),
        &mut ProgressSink::new(|_done: usize, _total: usize| ticks.set(ticks.get() + 1)),
    )
    .unwrap();
    assert!(ticks.get() > 0, "progress callback never fired");
    let (has_global, decoded) = decode(&file);
    assert!(has_global);
    assert_eq!(decoded.len(), 2);
    assert_eq!((decoded[0].width, decoded[0].height), (8, 8)); // keyframe
    assert!(decoded[1].width <= 8 && decoded[1].height <= 8);
}

#[test]
fn streaming_zero_count_is_an_error() {
    let r = export_gif_native_streaming(
        0,
        &mut FrameSource::new(|_i: usize| Ok(solid(2, 2, [0, 0, 0, 255]))),
        &GifSettings::readme(),
        &mut ProgressSink::new(|_: usize, _: usize| {}),
    );
    assert!(matches!(r, Err(EncodeError::NoFrames)));
}

#[test]
fn zero_size_frame_is_an_error_not_a_panic() {
    let frames = vec![solid(0, 0, [0, 0, 0, 255])];
    let r = export_gif_native(&frames, &GifSettings::readme());
    assert!(matches!(r, Err(EncodeError::Gif(_))));
}

#[test]
fn quality_maps_to_valid_speed_range() {
    assert_eq!(quality_to_speed(100), 1);
    assert!((1..=30).contains(&quality_to_speed(80)));
    assert_eq!(quality_to_speed(0), 30);
}

#[test]
fn delay_is_centiseconds_per_frame() {
    assert_eq!(frame_delay_cs(20), 5); // 100/20
    assert_eq!(frame_delay_cs(15), 7); // round(6.67)
    assert!(frame_delay_cs(1000) >= 2); // floor clamp
}

#[test]
fn no_frames_is_an_error() {
    let err = export_gif_native(&[], &GifSettings::readme());
    assert!(matches!(err, Err(EncodeError::NoFrames)));
}

#[test]
fn mismatched_dimensions_are_an_error() {
    let frames = vec![solid(8, 8, [255, 0, 0, 255]), solid(4, 4, [255, 0, 0, 255])];
    let err = export_gif_native(&frames, &GifSettings::readme());
    assert!(matches!(err, Err(EncodeError::Gif(_))));
}

#[test]
fn writes_a_real_gif_with_a_global_palette() {
    let frames = vec![solid(8, 8, [255, 0, 0, 255]), solid(8, 8, [0, 255, 0, 255])];
    let bytes = export_gif_native(&frames, &GifSettings::readme()).unwrap();
    assert_eq!(&bytes[0..6], b"GIF89a");
    let (has_global, decoded) = decode(&bytes);
    assert!(has_global);
    assert_eq!(decoded.len(), 2);
}

#[test]
fn duplicate_frames_collapse_into_a_longer_delay() {
    let f = solid(8, 8, [40, 80, 120, 255]);
    let frames = vec![f.clone(), f.clone(), f];
    let settings = GifSettings::readme(); // 15 fps -> 7cs per frame
    let file = export_gif_native(&frames, &settings).unwrap();
    let (_, decoded) = decode(&file);
    assert_eq!(decoded.len(), 1);
    assert_eq!(decoded[0].delay, 3 * frame_delay_cs(settings.fps));
}

#[test]
fn delta_frame_covers_only_the_changed_region() {
    let base = solid(16, 16, [200, 0, 0, 255]);
    let mut changed = base.clone();
    for y in 8..12 {
        for x in 8..12 {
            let o = (y * 16 + x) * 4;
            changed.pixels[o..o + 4].copy_from_slice(&[0, 200, 0, 255]);
        }
    }
    let file = export_gif_native(&[base, changed], &GifSettings::readme()).unwrap();
    let (_, decoded) = decode(&file);
    assert_eq!(decoded.len(), 2);
    // Keyframe is full-size at the origin.
    let key = &decoded[0];
    assert_eq!((key.left, key.top, key.width, key.height), (0, 0, 16, 16));
    assert!(!key.buffer.contains(&TRANSPARENT_INDEX));
    // Delta frame is exactly the 4x4 changed block.
    let delta = &decoded[1];
    assert_eq!((delta.left, delta.top, delta.width, delta.height), (8, 8, 4, 4));
    assert_eq!(delta.dispose, gif::DisposalMethod::Keep);
    assert!(!delta.buffer.contains(&TRANSPARENT_INDEX));
}

#[test]
fn mostly_static_clip_is_far_smaller_than_full_frame_encoding() {
    let (w, h, n) = (320u32, 200u32, 30usize);
    let mut bg = Vec::with_capacity((w * h * 4) as usize);
    for i in 0..(w * h) {
        let v = ((i * 37) % 251) as u8; // deterministic texture so LZW can't trivially RLE it
        bg.extend_from_slice(&[v, v / 2, 255 - v, 255]);
    }
    let frames: Vec<RgbaImage> = (0..n)
        .map(|f| {
            let mut px = bg.clone();
            for y in 90..110usize {
                for x in (f * 8)..(f * 8 + 20) {
                    let o = (y * w as usize + x) * 4;
                    px[o..o + 4].copy_from_slice(&[255, 255, 255, 255]);
                }
            }
            RgbaImage::new(w, h, px)
        })
        .collect();
    let clip_bytes = export_gif_native(&frames, &uncapped()).unwrap().len() as u64;
    let key_bytes = export_gif_native(&frames[0..1], &uncapped()).unwrap().len() as u64;
    assert!(
        clip_bytes < key_bytes * n as u64 / 4,
        "delta encoding regressed: clip={clip_bytes}B vs full-frame={}B",
        key_bytes * n as u64
    );
}

#[test]
fn unchanged_pixels_inside_the_delta_rect_are_transparent() {
    let base = solid(16, 16, [200, 0, 0, 255]);
    let mut changed = base.clone();
    // Two far-apart pixels -> a large bbox that is mostly unchanged inside.
    for &(x, y) in &[(2usize, 2usize), (13, 13)] {
        let o = (y * 16 + x) * 4;
        changed.pixels[o..o + 4].copy_from_slice(&[0, 200, 0, 255]);
    }
    let file = export_gif_native(&[base, changed], &GifSettings::readme()).unwrap();
    let (_, decoded) = decode(&file);
    assert_eq!(decoded.len(), 2);
    let delta = &decoded[1];
    assert_eq!((delta.left, delta.top, delta.width, delta.height), (2, 2, 12, 12));
    assert_eq!(delta.transparent, Some(TRANSPARENT_INDEX));
    let opaque = delta.buffer.iter().filter(|&&i| i != TRANSPARENT_INDEX).count();
    assert_eq!(opaque, 2);
}

/// Drawing the decoded blocks one over the other shows the indexed frames again.
#[test]
fn a_decoded_gif_plays_its_frames() {
    let a = solid(6, 5, [200, 10, 10, 255]);
    let mut b = a.clone();
    b.pixels[4 * (6 * 2 + 3)..4 * (6 * 2 + 3) + 4].copy_from_slice(&[10, 10, 200, 255]);
    let frames = vec![a.clone(), b.clone(), b.clone(), a.clone()];
    let file = export_gif_native(&frames, &uncapped()).unwrap();
    let (_, decoded) = decode(&file);
    assert_eq!(decoded.len(), 3);
    let mut screen = vec![0u8; 30];
    let mut shown = Vec::new();
    for f in &decoded {
        for y in 0..f.height as usize {
            for x in 0..f.width as usize {
                let v = f.buffer[y * f.width as usize + x];
                if v != TRANSPARENT_INDEX {
                    screen[(y + f.top as usize) * 6 + x + f.left as usize] = v;
                }
            }
        }
        shown.push(screen.clone());
    }
    assert_eq!(shown[0], shown[2]);
    assert_ne!(shown[0], shown[1]);
    assert_eq!(shown[0].iter().zip(&shown[1]).filter(|(p, q)| p != q).count(), 1);
    assert_eq!(decoded[1].delay, 2 * decoded[0].delay);
}

#[test]
fn streaming_reports_a_frame_that_could_not_be_made() {
    let r = export_gif_native_streaming(
        2,
        &mut FrameSource::new(|i: usize| {
            if i == 0 { Ok(solid(2, 2, [1, 2, 3, 255])) } else { Err("lost".to_string()) }
        }),
        &uncapped(),
        &mut ProgressSink::new(|_: usize, _: usize| {}),
    );
    match r {
        Err(EncodeError::Gif(m)) => assert!(m.contains("lost")),
        _ => panic!("expected an encoding error"),
    }
}

#[test]
fn streaming_asks_and_reports_in_order() {
    let asked = RefCell::new(Vec::new());
    let seen = RefCell::new(Vec::new());
    let r = export_gif_native_streaming(
        50,
        &mut FrameSource::new(|i: usize| {
            asked.borrow_mut().push(i);
            Ok(solid(2, 2, [i as u8, 0, 0, 255]))
        }),
        &uncapped(),
        &mut ProgressSink::new(|done: usize, total: usize| seen.borrow_mut().push((done, total))),
    );
    assert!(r.is_ok());
    // Forty-eight samples spread from the first frame to the last, then every frame.
    let plan: Vec<usize> = (0..48).map(|s| s * 49 / 47).chain(0..50).collect();
    assert_eq!(*asked.borrow(), plan);
    let ticks: Vec<(usize, usize)> = (1..=98).map(|k| (k, 98)).collect();
    assert_eq!(*seen.borrow(), ticks);
}

#[test]
fn streaming_stops_at_the_first_fault() {
    let asked = RefCell::new(Vec::new());
    let seen = Cell::new(0u32);
    let r = export_gif_native_streaming(
        3,
        &mut FrameSource::new(|i: usize| {
            asked.borrow_mut().push(i);
            if asked.borrow().len() == 5 {
                Err("gone".to_string())
            } else {
                Ok(solid(2, 2, [i as u8, 0, 0, 255]))
            }
        }),
        &uncapped(),
        &mut ProgressSink::new(|_: usize, _: usize| seen.set(seen.get() + 1)),
    );
    assert!(matches!(r, Err(EncodeError::Gif(m)) if m == "gone"));
    assert_eq!(*asked.borrow(), vec![0, 1, 2, 0, 1]);
    assert_eq!(seen.get(), 4);
}

#[test]
fn frames_are_compared_as_they_are_handed_in() {
    // Both cap to two by two.
    let frames = [solid(4, 4, [1, 2, 3, 255]), solid(8, 8, [1, 2, 3, 255])];
    let capped = GifSettings { width: Some(2), ..uncapped() };
    let r = export_gif_native(&frames, &capped);
    assert!(matches!(r, Err(EncodeError::Gif(m)) if m == "frame dimensions differ"));
    let r = export_gif_native_streaming(
        2,
        &mut FrameSource::new(|i: usize| Ok(frames[i].clone())),
        &capped,
        &mut ProgressSink::new(|_: usize, _: usize| {}),
    );
    assert!(matches!(r, Err(EncodeError::Gif(m)) if m == "frame dimensions differ"));
}

#[test]
fn a_side_of_a_gif_has_sixteen_bits() {
    assert!(size_fits_gif(65_535, 65_535, None));
    assert!(!size_fits_gif(65_536, 1, None));
    assert!(size_fits_gif(131_070, 131_070, Some(65_535)));
    assert!(!size_fits_gif(131_070, 131_072, Some(65_535)));
}

#[test]
fn streaming_refuses_frames_of_different_sizes() {
    let r = export_gif_native_streaming(
        2,
        &mut FrameSource::new(|i: usize| Ok(solid(2 + i as u32, 2, [1, 2, 3, 255]))),
        &uncapped(),
        &mut ProgressSink::new(|_: usize, _: usize| {}),
    );
    match r {
        Err(EncodeError::Gif(m)) => assert_eq!(m, "frame dimensions differ"),
        _ => panic!("frames of two sizes were accepted"),
    }
}

#[test]
fn streaming_refuses_frames_without_pixels() {
    let r = export_gif_native_streaming(
        1,
        &mut FrameSource::new(|_: usize| Ok(solid(0, 0, [0, 0, 0, 255]))),
        &uncapped(),
        &mut ProgressSink::new(|_: usize, _: usize| {}),
    );
    match r {
        Err(EncodeError::Gif(m)) => assert_eq!(m, "zero-size frame"),
        _ => panic!("a frame without pixels was accepted"),
    }
}

#[test]
fn error_texts_name_what_failed() {
    assert_eq!(EncodeError::NoFrames.message(), "no frames to encode");
    assert_eq!(EncodeError::Gif("x".to_string()).message(), "gif encoding failed: x");
    assert_eq!(EncodeError::Png("x".to_string()).message(), "png encoding failed: x");
    assert_eq!(EncodeError::Io("x".to_string()).message(), "io error");
}

#[test]
fn the_palette_keeps_colors_apart() {
    let frames = vec![solid(4, 4, [250, 0, 0, 255]), solid(4, 4, [0, 0, 250, 255])];
    let mut q = GlobalQuantizer::train(&frames, 1);
    assert_eq!(q.palette().len(), 768);
    let red = q.index(250, 0, 0);
    let blue = q.index(0, 0, 250);
    assert_ne!(red, blue);
    assert_ne!(red, TRANSPARENT_INDEX);
    assert_eq!(q.index_frame(&frames[0]), vec![red; 16]);
}

#[test]
fn the_changed_box_is_tight() {
    let a = vec![0u8; 12];
    let mut b = a.clone();
    b[5] = 1;
    b[10] = 2;
    let r = diff_bbox(&a, &b, 4, 3).unwrap();
    assert_eq!((r.x0, r.y0, r.x1, r.y1), (1, 1, 3, 3));
    assert!(diff_bbox(&a, &a, 4, 3).is_none());
    let f = delta_frame(&a, &b, 4, 3, r, 7);
    assert_eq!(f.buffer, vec![1, TRANSPARENT_INDEX, TRANSPARENT_INDEX, 2]);
}

#[test]
fn downsamples_60_to_15_fps() {
    // 60 source frames (1s @ 60fps) -> ~15 emitted frames.
    let frames = plan_frames(60, 60_000, 15_000);
    assert_eq!(frames.len(), 15);
    assert_eq!(frames[0].source_index, 0);
    assert_eq!(frames[1].source_index, 4); // step = 4
    // The time is on the emitted (15fps) timeline.
    assert!((frames[1].pts as f64 / 1e9 - 1.0 / 15.0).abs() < 1e-9);
}

#[test]
fn never_emits_past_source() {
    let frames = plan_frames(10, 60_000, 15_000);
    assert!(frames.iter().all(|f| f.source_index < 10));
}

#[test]
fn empty_inputs_yield_no_frames() {
    assert!(plan_frames(0, 60_000, 15_000).is_empty());
    assert!(plan_frames(60, 0, 15_000).is_empty());
}

#[test]
fn delta_estimate_amortizes_the_keyframe() {
    // One 9-frame window: 50KB encoded, 10KB keyframe -> 5KB per delta frame.
    let e = estimate_delta_total_bytes(&[(50_000, 10_000, 9)], 901, 1000);
    assert_eq!(e, 10_000 + 5_000 * 900);
    let cheap = estimate_delta_total_bytes(&[(11_600, 10_000, 9)], 901, 1000);
    assert_eq!(cheap, 10_000 + 200 * 900);
}

#[test]
fn delta_estimate_averages_multiple_windows() {
    // Windows with 1KB and 3KB per delta -> 2KB average; 10KB average keyframe.
    let windows = [(14_000, 10_000, 5), (22_000, 10_000, 5)];
    let e = estimate_delta_total_bytes(&windows, 101, 1000);
    assert_eq!(e, 10_000 + 2_000 * 100);
}

#[test]
fn delta_estimate_handles_degenerate_inputs() {
    assert_eq!(estimate_delta_total_bytes(&[], 100, 1000), 0);
    assert_eq!(estimate_delta_total_bytes(&[(10_000, 10_000, 1)], 0, 1000), 0);
    // Single-frame clip: just the keyframe.
    assert_eq!(estimate_delta_total_bytes(&[(10_000, 10_000, 1)], 1, 1000), 10_000);
}

#[test]
fn size_estimate_scales_with_frames_and_motion() {
    // 100KB over 10 frames -> ~10KB/frame.
    let base = estimate_total_bytes(100_000, 10, 150, 1000);
    assert_eq!(base, 1_500_000);
    // Higher motion inflates the estimate.
    let busy = estimate_total_bytes(100_000, 10, 150, 1400);
    assert_eq!(busy, 2_100_000);
}

#[test]
fn large_estimates_are_exact_until_they_are_full() {
    assert_eq!(estimate_total_bytes(u64::MAX, 3, 1, 1000), u64::MAX / 3);
    assert_eq!(estimate_total_bytes(u64::MAX, usize::MAX, usize::MAX, 1000), u64::MAX);
    assert_eq!(estimate_total_bytes(u64::MAX, 1, 2, 1000), u64::MAX);
    // A factor below one counts as one; halves round up.
    assert_eq!(estimate_total_bytes(5, 2, 1, 500), 3);
    assert_eq!(estimate_delta_total_bytes(&[(100, 10, usize::MAX)], usize::MAX, 1000), 100);
    assert_eq!(estimate_delta_total_bytes(&[(u64::MAX, 0, 2)], 2, 1000), u64::MAX);
    assert_eq!(estimate_delta_total_bytes(&[(u64::MAX, 0, 2)], 3, 1000), u64::MAX);
    // A third and two thirds of a byte make one.
    let thirds = [(2, 1, 4), (1, 0, 1), (1, 0, 1)];
    assert_eq!(estimate_delta_total_bytes(&thirds, 3, 1000), 1);
}

#[test]
fn a_window_is_measured_by_encoding_it() {
    let frames = vec![solid(8, 8, [255, 0, 0, 255]), solid(8, 8, [0, 255, 0, 255])];
    let w = measure_window(&frames, &uncapped()).unwrap();
    assert_eq!(w.0, export_gif_native(&frames, &uncapped()).unwrap().len() as u64);
    assert_eq!(w.1, export_gif_native(&frames[0..1], &uncapped()).unwrap().len() as u64);
    assert_eq!(w.2, 2);
}

#[test]
fn the_estimate_of_a_still_clip_is_about_one_frame() {
    let still = solid(8, 8, [9, 9, 9, 255]);
    let n = estimate_gif(100, |_i: usize| Ok(still.clone()), &uncapped()).unwrap();
    let key = export_gif_native(&[still.clone()], &uncapped()).unwrap().len() as u64;
    assert!(n >= key && n < 2 * key);
    assert_eq!(estimate_gif(0, |_i: usize| Ok(still.clone()), &uncapped()), Ok(0));
    // Two windows of twelve frames start at 20 and at 60; the first fault counts.
    let refuse = |bad: usize| {
        move |i: usize| {
            if i == bad { Err(format!("no {i}")) } else { Ok(solid(8, 8, [9, 9, 9, 255])) }
        }
    };
    assert_eq!(estimate_gif(100, refuse(60), &uncapped()), Err("no 60".to_string()));
    assert!(estimate_gif(100, refuse(32), &uncapped()).is_ok());
    let sizes = |i: usize| {
        if i < 60 { Ok(solid(8 + (i % 2) as u32, 8, [9, 9, 9, 255])) } else { Err("no".to_string()) }
    };
    let differ = "gif encoding failed: frame dimensions differ".to_string();
    assert_eq!(estimate_gif(100, sizes, &uncapped()), Err(differ));
    let lost = estimate_gif(100, |_i: usize| Err("lost".to_string()), &uncapped());
    assert_eq!(lost, Err("lost".to_string()));
}
