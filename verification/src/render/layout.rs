//! Per-frame layout: which region of the source frame to sample (the zoom and pan crop) and
//! where to draw the framed recording inside the padded output.
//!
//! Source space is measured in billionths, output space in billionths of a pixel.

use crate::project::crop::CropRect;
use crate::project::frame::FrameStyle;
use crate::units::{floor_div, greater, lesser, saturate, saturated, BILLION};
use crate::zoom::camera::{half_view, shows_only_the_screen, CameraState};
use vstd::prelude::*;

verus! {

/// A normalized rectangle in source space.
#[derive(Debug, Clone, Copy, PartialEq, Eq, Structural)]
pub struct NormRect {
    pub x: i64,
    pub y: i64,
    pub w: i64,
    pub h: i64,
}

/// A rectangle in output space, in billionths of a pixel.
#[derive(Debug, Clone, Copy, PartialEq, Eq, Structural)]
pub struct PxRect {
    pub x: i64,
    pub y: i64,
    pub w: i64,
    pub h: i64,
}

/// Everything the compositor needs to draw one framed, zoomed frame.
#[derive(Debug, Clone, Copy, PartialEq, Eq, Structural)]
pub struct CompositeLayout {
    /// Region of the source frame to sample, from the camera zoom and pan.
    pub src_rect: NormRect,
    /// Where the framed recording is drawn within the output, after padding.
    pub dst_rect: PxRect,
    /// Rounded-corner radius in billionths of an output pixel.
    pub corner_radius_px: i64,
}

/// Side of the visible source region at a zoom (at least one), rounded down.
pub open spec fn view_side(zoom: i64) -> int {
    BILLION * BILLION / greater(zoom as int, BILLION as int)
}

/// The visible source region for a camera pose.
pub open spec fn view_rect(cam: CameraState) -> NormRect {
    let side = view_side(cam.zoom);
    NormRect {
        x: saturated(cam.center.x - side / 2),
        y: saturated(cam.center.y - side / 2),
        w: side as i64,
        h: side as i64,
    }
}

/// The side of a view fits the screen.
proof fn lemma_view_side(zoom: i64)
    ensures
        0 <= view_side(zoom) <= BILLION,
{
    let z = greater(zoom as int, BILLION as int);
    let n = BILLION * BILLION;
    assert(0 <= n / z <= 1_000_000_000) by (nonlinear_arith)
        requires
            n == 1_000_000_000 * 1_000_000_000,
            z >= 1_000_000_000,
    ;
}

/// The visible source region for a camera pose: a centered crop whose side shrinks with the
/// zoom.
pub fn camera_src_rect(cam: &CameraState) -> (r: NormRect)
    ensures
        r == view_rect(*cam),
{
    let z: i64 = if cam.zoom < BILLION {
        BILLION
    } else {
        cam.zoom
    };
    proof {
        lemma_view_side(cam.zoom);
    }
    let side: i64 = 1_000_000_000_000_000_000 / z;
    NormRect {
        x: saturate(cam.center.x as i128 - (side / 2) as i128),
        y: saturate(cam.center.y as i128 - (side / 2) as i128),
        w: side,
        h: side,
    }
}

/// The smaller of two output dimensions.
pub open spec fn smaller(w: u32, h: u32) -> int {
    lesser(w as int, h as int)
}

/// Padding on each side, never negative.
pub open spec fn pad(out_w: u32, out_h: u32, padding: i64) -> int {
    greater(padding * smaller(out_w, out_h), 0)
}

/// The padded content rectangle inside the output; at least one pixel is left.
pub open spec fn padded(out_w: u32, out_h: u32, padding: i64) -> PxRect {
    let p = pad(out_w, out_h, padding);
    PxRect {
        x: saturated(p),
        y: saturated(p),
        w: greater(out_w * BILLION - 2 * p, BILLION as int) as i64,
        h: greater(out_h * BILLION - 2 * p, BILLION as int) as i64,
    }
}

/// A product of a length and a pixel count fits 128 bits easily.
proof fn lemma_product(a: i64, b: int)
    requires
        0 <= b <= 0xffff_ffff,
    ensures
        -0x8000_0000_0000_0000_0000_0000 <= a * b <= 0x8000_0000_0000_0000_0000_0000,
{
    assert(-0x8000_0000_0000_0000 * 0x1_0000_0000 <= a * b <= 0x8000_0000_0000_0000
        * 0x1_0000_0000) by (nonlinear_arith)
        requires
            -0x8000_0000_0000_0000 <= a <= 0x7fff_ffff_ffff_ffff,
            0 <= b <= 0xffff_ffff,
    ;
}

/// The padded content rectangle inside the output.
pub fn content_rect(out_w: u32, out_h: u32, padding: i64) -> (r: PxRect)
    ensures
        r == padded(out_w, out_h, padding),
{
    let small: u32 = if out_h < out_w {
        out_h
    } else {
        out_w
    };
    proof {
        lemma_product(padding, small as int);
    }
    let raw: i128 = (padding as i128) * (small as i128);
    let p: i128 = if raw < 0 {
        0
    } else {
        raw
    };
    let w: i128 = (out_w as i128) * 1_000_000_000 - 2 * p;
    let h: i128 = (out_h as i128) * 1_000_000_000 - 2 * p;
    PxRect {
        x: saturate(p),
        y: saturate(p),
        w: if w < 1_000_000_000 {
            BILLION
        } else {
            w as i64
        },
        h: if h < 1_000_000_000 {
            BILLION
        } else {
            h as i64
        },
    }
}

/// Smallest side of a sampled region.
pub const MIN_SAMPLE: i64 = 100_000;

/// Start and length of a view along one axis, mapped into a crop and cut to it.
pub open spec fn cropped_span(at: i64, len: i64, crop_at: i64, crop_len: i64) -> (int, int) {
    let from = crop_at + at * crop_len / BILLION as int;
    let size = len * crop_len / BILLION as int;
    let lo = greater(from, crop_at as int);
    let hi = lesser(from + size, crop_at + crop_len);
    (lo, greater(hi - lo, MIN_SAMPLE as int))
}

/// The sampled region of a view inside a crop.
pub open spec fn sampled_rect(cam: CameraState, crop: Option<CropRect>) -> NormRect {
    let v = view_rect(cam);
    match crop {
        None => v,
        Some(c) => {
            let xs = cropped_span(v.x, v.w, c.x, c.w);
            let ys = cropped_span(v.y, v.h, c.y, c.h);
            NormRect {
                x: saturated(xs.0),
                y: saturated(ys.0),
                w: saturated(xs.1),
                h: saturated(ys.1),
            }
        },
    }
}

/// Map a span into a crop.
fn crop_span(at: i64, len: i64, crop_at: i64, crop_len: i64) -> (s: (i64, i64))
    ensures
        s.0 == saturated(cropped_span(at, len, crop_at, crop_len).0),
        s.1 == saturated(cropped_span(at, len, crop_at, crop_len).1),
{
    proof {
        let a = at as int;
        let b = len as int;
        let c = crop_len as int;
        assert(-0x4000_0000_0000_0000_0000_0000_0000_0000 <= a * c
            <= 0x4000_0000_0000_0000_0000_0000_0000_0000) by (nonlinear_arith)
            requires
                -0x8000_0000_0000_0000 <= a <= 0x7fff_ffff_ffff_ffff,
                -0x8000_0000_0000_0000 <= c <= 0x7fff_ffff_ffff_ffff,
        ;
        assert(-0x4000_0000_0000_0000_0000_0000_0000_0000 <= b * c
            <= 0x4000_0000_0000_0000_0000_0000_0000_0000) by (nonlinear_arith)
            requires
                -0x8000_0000_0000_0000 <= b <= 0x7fff_ffff_ffff_ffff,
                -0x8000_0000_0000_0000 <= c <= 0x7fff_ffff_ffff_ffff,
        ;
    }
    let from: i128 = crop_at as i128 + floor_div((at as i128) * (crop_len as i128), 1_000_000_000);
    let size: i128 = floor_div((len as i128) * (crop_len as i128), 1_000_000_000);
    let end: i128 = crop_at as i128 + crop_len as i128;
    let lo: i128 = if from < crop_at as i128 {
        crop_at as i128
    } else {
        from
    };
    let hi: i128 = if end < from + size {
        end
    } else {
        from + size
    };
    let n: i128 = if hi - lo < 100_000 {
        100_000
    } else {
        hi - lo
    };
    (saturate(lo), saturate(n))
}

/// Map a camera source rect through the crop: the camera pans and zooms inside the cropped
/// region, and can never reveal pixels outside it.
pub fn crop_src_rect(cam: &CameraState, crop: Option<CropRect>) -> (r: NormRect)
    ensures
        r == sampled_rect(*cam, crop),
{
    let v = camera_src_rect(cam);
    match crop {
        None => v,
        Some(c) => {
            let (x, w) = crop_span(v.x, v.w, c.x, c.w);
            let (y, h) = crop_span(v.y, v.h, c.y, c.h);
            NormRect { x, y, w, h }
        },
    }
}

/// The full layout of a frame.
pub open spec fn layout_of(
    out_w: u32,
    out_h: u32,
    frame: FrameStyle,
    cam: CameraState,
    crop: Option<CropRect>,
) -> CompositeLayout {
    CompositeLayout {
        src_rect: sampled_rect(cam, crop),
        dst_rect: padded(out_w, out_h, frame.padding),
        corner_radius_px: saturated(greater(frame.corner_radius * smaller(out_w, out_h), 0)),
    }
}

/// Compute the full per-frame layout from output size, framing, camera pose, and crop.
pub fn compute_layout(
    out_w: u32,
    out_h: u32,
    frame: &FrameStyle,
    cam: &CameraState,
    crop: Option<CropRect>,
) -> (l: CompositeLayout)
    ensures
        l == layout_of(out_w, out_h, *frame, *cam, crop),
{
    let small: u32 = if out_h < out_w {
        out_h
    } else {
        out_w
    };
    proof {
        lemma_product(frame.corner_radius, small as int);
    }
    let radius: i128 = (frame.corner_radius as i128) * (small as i128);
    CompositeLayout {
        src_rect: crop_src_rect(cam, crop),
        dst_rect: content_rect(out_w, out_h, frame.padding),
        corner_radius_px: if radius < 0 {
            0
        } else {
            saturate(radius)
        },
    }
}

/// A camera that shows only the screen samples only the source.
pub proof fn views_lie_in_the_source(cam: CameraState)
    requires
        shows_only_the_screen(cam),
    ensures
        ({
            let v = view_rect(cam);
            &&& 0 <= v.x
            &&& 0 <= v.y
            &&& v.x + v.w <= BILLION
            &&& v.y + v.h <= BILLION
        }),
{
    lemma_view_side(cam.zoom);
    let z = greater(cam.zoom as int, BILLION as int);
    let side = view_side(cam.zoom);
    let half = half_view(cam.zoom);
    assert(side / 2 <= half && side - side / 2 <= half) by (nonlinear_arith)
        requires
            side == (1_000_000_000int * 1_000_000_000) / z,
            half == (500_000_000int * 1_000_000_000 + z - 1) / z,
            z >= 1_000_000_000,
    ;
}

/// Whatever the camera shows of a crop lies inside it, as long as more than the smallest
/// sample is left.
pub proof fn crops_hide_the_rest(cam: CameraState, c: CropRect)
    requires
        shows_only_the_screen(cam),
        0 <= c.x,
        0 <= c.y,
        0 <= c.w,
        0 <= c.h,
        c.x + c.w <= BILLION,
        c.y + c.h <= BILLION,
        sampled_rect(cam, Some(c)).w > MIN_SAMPLE,
        sampled_rect(cam, Some(c)).h > MIN_SAMPLE,
    ensures
        ({
            let r = sampled_rect(cam, Some(c));
            &&& c.x <= r.x
            &&& c.y <= r.y
            &&& r.x + r.w <= c.x + c.w
            &&& r.y + r.h <= c.y + c.h
        }),
{
    views_lie_in_the_source(cam);
    lemma_view_side(cam.zoom);
    let v = view_rect(cam);
    lemma_share(v.x as int, c.w as int);
    lemma_share(v.y as int, c.h as int);
    lemma_share(v.w as int, c.w as int);
    lemma_share(v.h as int, c.h as int);
}

/// A share of a length is no longer than it.
proof fn lemma_share(a: int, len: int)
    requires
        0 <= a <= BILLION,
        0 <= len <= BILLION,
    ensures
        0 <= a * len / BILLION as int <= len,
{
    assert(0 <= a * len / 1_000_000_000 <= len) by (nonlinear_arith)
        requires
            0 <= a <= 1_000_000_000,
            0 <= len,
    ;
}

/// The view is a square around the camera's center: the center is its middle, to within one
/// unit, and its side goes with the reciprocal of the zoom, rounded down. Below a zoom of one
/// it is the whole screen.
pub proof fn views_are_centered_on_the_camera(cam: CameraState)
    requires
        0 <= cam.center.x <= BILLION,
        0 <= cam.center.y <= BILLION,
    ensures
        ({
            let r = view_rect(cam);
            &&& -1 <= 2 * r.x + r.w - 2 * cam.center.x <= 1
            &&& -1 <= 2 * r.y + r.h - 2 * cam.center.y <= 1
            &&& r.w == r.h
            &&& cam.zoom >= BILLION ==> r.w * cam.zoom <= 1_000_000_000_000_000_000 < (r.w + 1)
                * cam.zoom
            &&& cam.zoom <= BILLION ==> r.w == BILLION
        }),
{
    lemma_view_side(cam.zoom);
    let z = greater(cam.zoom as int, BILLION as int);
    let n = BILLION * BILLION;
    let side = n / z;
    vstd::arithmetic::div_mod::lemma_fundamental_div_mod(n, z);
    assert(side * z <= n < (side + 1) * z) by (nonlinear_arith)
        requires
            n == z * side + n % z,
            0 <= n % z < z,
    ;
    assert(z == 1_000_000_000 ==> side == 1_000_000_000) by (nonlinear_arith)
        requires
            side == 1_000_000_000_000_000_000int / z,
    ;
}

/// The content lies in the middle of the output, with the same margin on all sides: the
/// share of the shorter side that was asked for. Without padding it fills the output.
pub proof fn content_is_padded_evenly(out_w: u32, out_h: u32, padding: i64)
    requires
        out_w > 0,
        out_h > 0,
    ensures
        ({
            let r = padded(out_w, out_h, padding);
            let margin = padding * (if out_w <= out_h {
                out_w as int
            } else {
                out_h as int
            });
            &&& padding <= 0 ==> r.x == 0 && r.y == 0 && r.w == out_w * BILLION && r.h == out_h
                * BILLION
            &&& padding >= 0 && 2 * margin + BILLION <= out_w * BILLION && 2 * margin + BILLION
                <= out_h * BILLION ==> {
                &&& r.x == margin
                &&& r.y == margin
                &&& 2 * r.x + r.w == out_w * BILLION
                &&& 2 * r.y + r.h == out_h * BILLION
            }
        }),
{
    let small = smaller(out_w, out_h);
    assert(padding <= 0 ==> padding * small <= 0) by (nonlinear_arith)
        requires
            small > 0,
    ;
    assert(padding >= 0 ==> padding * small >= 0) by (nonlinear_arith)
        requires
            small > 0,
    ;
}

/// The layout puts what the camera shows of the crop into the padded content, and rounds its
/// corners by the share of the shorter side that was asked for.
pub proof fn layouts_frame_the_view(
    out_w: u32,
    out_h: u32,
    frame: FrameStyle,
    cam: CameraState,
    crop: Option<CropRect>,
)
    requires
        0 <= frame.corner_radius <= BILLION,
    ensures
        ({
            let l = layout_of(out_w, out_h, frame, cam, crop);
            &&& crop is None ==> l.src_rect == view_rect(cam)
            &&& crop matches Some(c) ==> l.src_rect == sampled_rect(cam, Some(c))
            &&& l.dst_rect == padded(out_w, out_h, frame.padding)
            &&& out_w <= out_h ==> l.corner_radius_px == frame.corner_radius * out_w
            &&& out_h <= out_w ==> l.corner_radius_px == frame.corner_radius * out_h
        }),
{
    let small = smaller(out_w, out_h);
    let r = frame.corner_radius as int;
    assert(0 <= r * small <= 1_000_000_000 * 0xffff_ffff) by (nonlinear_arith)
        requires
            0 <= r <= 1_000_000_000,
            0 <= small <= 0xffff_ffff,
    ;
}

/// A crop takes the place of the screen: the view lies in the crop as it lies in the screen,
/// in proportion, along each axis and rounded down. A camera that shows the whole screen
/// samples the whole crop.
pub proof fn views_keep_their_place_in_a_crop(cam: CameraState, c: CropRect)
    requires
        shows_only_the_screen(cam),
        0 <= c.x,
        0 <= c.y,
        0 <= c.w,
        0 <= c.h,
        c.x + c.w <= BILLION,
        c.y + c.h <= BILLION,
    ensures
        ({
            let v = view_rect(cam);
            let r = sampled_rect(cam, Some(c));
            &&& (r.x - c.x) * BILLION <= v.x * c.w < (r.x - c.x + 1) * BILLION
            &&& (r.y - c.y) * BILLION <= v.y * c.h < (r.y - c.y + 1) * BILLION
            &&& r.w >= 100_000 && (r.w > 100_000 ==> r.w * BILLION <= v.w * c.w) && v.w * c.w < (r.w
                + 1) * BILLION
            &&& r.h >= 100_000 && (r.h > 100_000 ==> r.h * BILLION <= v.h * c.h) && v.h * c.h < (r.h
                + 1) * BILLION
            &&& cam.zoom <= BILLION && c.w >= 100_000 && c.h >= 100_000 ==> r.x == c.x && r.y == c.y
                && r.w == c.w && r.h == c.h
        }),
{
    views_lie_in_the_source(cam);
    lemma_view_side(cam.zoom);
    let v = view_rect(cam);
    lemma_span_in_crop(v.x, v.w, c.x, c.w);
    lemma_span_in_crop(v.y, v.h, c.y, c.h);
    views_are_centered_on_the_camera(cam);
    if cam.zoom <= BILLION {
        assert(v.x == 0 && v.y == 0);
        assert(v.x * c.w == 0 && v.y * c.h == 0 && v.w * c.w == 1_000_000_000 * c.w && v.h * c.h
            == 1_000_000_000 * c.h) by (nonlinear_arith)
            requires
                v.x == 0,
                v.y == 0,
                v.w == 1_000_000_000,
                v.h == 1_000_000_000,
        ;
    }
}

/// A span in the screen keeps its place in a crop.
proof fn lemma_span_in_crop(at: i64, len: i64, crop_at: i64, crop_len: i64)
    requires
        0 <= at,
        0 <= len,
        at + len <= BILLION,
        0 <= crop_at,
        0 <= crop_len,
        crop_at + crop_len <= BILLION,
    ensures
        ({
            let s = cropped_span(at, len, crop_at, crop_len);
            let from = s.0 - crop_at;
            &&& 0 <= from <= BILLION
            &&& from * BILLION <= at * crop_len < (from + 1) * BILLION
            &&& 100_000 <= s.1 <= BILLION
            &&& s.1 > 100_000 ==> s.1 * BILLION <= len * crop_len
            &&& len * crop_len < (s.1 + 1) * BILLION
        }),
{
    let b = 1_000_000_000int;
    let p = at * crop_len;
    let q = len * crop_len;
    lemma_share(at as int, crop_len as int);
    lemma_share(len as int, crop_len as int);
    assert(p + q <= b * crop_len && p >= 0 && q >= 0) by (nonlinear_arith)
        requires
            p == at * crop_len,
            q == len * crop_len,
            at + len <= b,
            at >= 0,
            len >= 0,
            crop_len >= 0,
    ;
    let f = p / b;
    let n = q / b;
    assert(f + n <= crop_len);
}

} // verus!
