use vuoom::encode::video::{bgrx_frame, bitrate, frame_hns, frame_start, pack2, FrameTooSmall};
use vuoom::session::export::video_size;

#[test]
fn attributes_are_packed_high_then_low() {
    assert_eq!(pack2(1920, 1080), 1920 * 4_294_967_296 + 1080);
}

#[test]
fn the_bit_rate_follows_size_and_quality() {
    // A tenth of a bit per pixel at quality 62.5: (2*62-50)/750.
    assert_eq!(bitrate(1920, 1080, 30, 62), (1920u64 * 1080 * 30 * 74 / 750) as u32);
    assert_eq!(bitrate(10, 10, 30, 40), 1_000_000);
    assert_eq!(bitrate(7680, 4320, 60, 100), 50_000_000);
    assert_eq!(bitrate(1920, 1080, 30, 0), bitrate(1920, 1080, 30, 40));
    assert!(bitrate(1280, 720, 30, 50) < bitrate(1280, 720, 30, 90));
}

#[test]
fn frame_times_are_in_hundreds_of_nanoseconds() {
    assert_eq!(frame_hns(30), 333_333);
    assert_eq!(frame_hns(0), 10_000_000);
    assert_eq!(frame_hns(u32::MAX), 1);
    assert_eq!(frame_start(3, 30), 999_999);
}

#[test]
fn frames_are_laid_out_for_the_encoder() {
    // 3x2 RGBA, cropped to 2x1.
    let rgba: Vec<u8> = (0..24).collect();
    let out = bgrx_frame(&rgba, 3, 2, 2, 1).unwrap();
    assert_eq!(out, vec![2, 1, 0, 255, 6, 5, 4, 255]);
    let two = bgrx_frame(&rgba, 3, 2, 2, 2).unwrap();
    assert_eq!(&two[8..], &[14, 13, 12, 255, 18, 17, 16, 255]);
    assert_eq!(bgrx_frame(&rgba, 3, 2, 4, 2).unwrap_err(), FrameTooSmall);
    assert_eq!(bgrx_frame(&rgba[0..16], 2, 2, 4, 4).unwrap_err(), FrameTooSmall);
    assert_eq!(FrameTooSmall.message(), "frame smaller than encoder size");
}

#[test]
fn video_sizes_are_even_and_capped() {
    let s = video_size(1921, 1081, None);
    assert!(!s.scaled);
    assert_eq!((s.src_w, s.src_h, s.w, s.h), (1921, 1081, 1920, 1080));
    let s = video_size(1920, 1080, Some(801));
    assert!(s.scaled);
    assert_eq!((s.src_w, s.src_h, s.w, s.h), (801, 450, 800, 450));
    let s = video_size(100, 100, Some(400));
    assert!(!s.scaled);
    let s = video_size(1000, 1, Some(2));
    assert_eq!((s.src_h, s.h), (1, 2));
}
