use vuoom::capture::{
    after_delivery, clamp_region, crop_bgra, frame_time, keep_frame, CropRegion, Delivery,
};

/// BGRA pixels with each pixel's B channel = its linear index.
fn ramp(w: u32, h: u32) -> Vec<u8> {
    let mut v = Vec::new();
    for i in 0..(w * h) {
        v.extend_from_slice(&[i as u8, 0, 0, 255]);
    }
    v
}

#[test]
fn crop_extracts_subrect() {
    let full = ramp(4, 2); // indices 0..7
    let (w, h, out) = crop_bgra(&full, 4, 2, CropRegion { x: 1, y: 0, w: 2, h: 2 });
    assert_eq!((w, h), (2, 2));
    // row0: idx 1,2 ; row1: idx 5,6
    assert_eq!(out[0], 1);
    assert_eq!(out[4], 2);
    assert_eq!(out[8], 5);
    assert_eq!(out[12], 6);
}

#[test]
fn a_crop_needs_no_more_than_its_own_rows() {
    let full = ramp(4, 1);
    let (w, h, out) = crop_bgra(&full[0..12], 4, 2, CropRegion { x: 1, y: 0, w: 2, h: 1 });
    assert_eq!((w, h), (2, 1));
    assert_eq!(out, vec![1, 0, 0, 255, 2, 0, 0, 255]);
}

#[test]
fn clamp_keeps_region_inside_frame() {
    assert_eq!(clamp_region(CropRegion { x: 3, y: 1, w: 99, h: 99 }, 4, 2), (3, 1, 1, 1));
    assert_eq!(clamp_region(CropRegion { x: 0, y: 0, w: 4, h: 2 }, 4, 2), (0, 0, 4, 2));
}

#[test]
fn an_uncropped_frame_is_kept_whole() {
    let full = ramp(4, 2);
    let f = keep_frame(&full, 4, 2, None, 77);
    assert_eq!((f.width, f.height, f.qpc), (4, 2, 77));
    assert_eq!(f.bgra, full);
    let c = keep_frame(&full, 4, 2, Some(CropRegion { x: 3, y: 1, w: 1, h: 1 }), 78);
    assert_eq!(c.bgra, vec![7, 0, 0, 255]);
}

#[test]
fn a_frame_time_far_from_now_is_not_trusted() {
    // Ten million steps a second on both sides: the instant itself, while it is plausible.
    assert_eq!(frame_time(Some(5_000), 6_000, 10_000_000), 5_000);
    assert_eq!(frame_time(Some(5_000), 900_000_000, 10_000_000), 900_000_000);
    assert_eq!(frame_time(None, 42, 10_000_000), 42);
}

#[test]
fn full_channels_drop_frames_and_disconnected_ones_stop() {
    let first = after_delivery(Delivery::Full, 0);
    assert!(first.dropped == 1 && first.warn && !first.stop);
    let second = after_delivery(Delivery::Full, 1);
    assert!(second.dropped == 2 && !second.warn);
    assert!(after_delivery(Delivery::Full, 59).warn);
    assert!(after_delivery(Delivery::Disconnected, 3).stop);
    let sent = after_delivery(Delivery::Sent, 3);
    assert!(sent.dropped == 3 && !sent.stop && !sent.warn);
}
