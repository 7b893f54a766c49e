//! Captured frames: cropping, timestamps, and what happens when a frame is handed on.

use vstd::prelude::*;

verus! {

/// One captured frame: tightly-packed BGRA8 pixels, dimensions and counter timestamp.
#[derive(Debug)]
pub struct CapturedFrame {
    pub width: u32,
    pub height: u32,
    pub bgra: Vec<u8>,
    pub qpc: i64,
}

/// A sub-rectangle (physical px) of the captured monitor to keep, the rest is discarded.
#[derive(Clone, Copy, Debug, PartialEq, Eq, Structural)]
pub struct CropRegion {
    pub x: u32,
    pub y: u32,
    pub w: u32,
    pub h: u32,
}

/// Where a crop starts along one extent: as asked, but inside the frame.
pub open spec fn crop_start(at: u32, extent: u32) -> int {
    if extent == 0 {
        0
    } else if at >= extent {
        extent - 1
    } else {
        at as int
    }
}

/// How long a crop is along one extent: as asked, but inside the frame and not empty.
pub open spec fn crop_len(at: u32, len: u32, extent: u32) -> int {
    let room = extent - crop_start(at, extent);
    if len >= 1 && room >= 1 {
        if len > room {
            room
        } else {
            len as int
        }
    } else {
        1
    }
}

/// A crop clamped to a frame.
pub open spec fn clamped_crop(r: CropRegion, w: u32, h: u32) -> CropRegion {
    CropRegion {
        x: crop_start(r.x, w) as u32,
        y: crop_start(r.y, h) as u32,
        w: crop_len(r.x, r.w, w) as u32,
        h: crop_len(r.y, r.h, h) as u32,
    }
}

/// Clamp a requested crop inside the frame, guaranteeing a non-empty rect.
pub fn clamp_region(r: CropRegion, w: u32, h: u32) -> (c: (u32, u32, u32, u32))
    ensures
        (CropRegion { x: c.0, y: c.1, w: c.2, h: c.3 }) == clamped_crop(r, w, h),
        c.2 >= 1,
        c.3 >= 1,
        w > 0 ==> c.0 + c.2 <= w,
        h > 0 ==> c.1 + c.3 <= h,
{
    let cx: u32 = if w == 0 {
        0
    } else if r.x >= w {
        w - 1
    } else {
        r.x
    };
    let cy: u32 = if h == 0 {
        0
    } else if r.y >= h {
        h - 1
    } else {
        r.y
    };
    let mut cw: u32 = if r.w > w - cx {
        w - cx
    } else {
        r.w
    };
    if cw < 1 {
        cw = 1;
    }
    let mut ch: u32 = if r.h > h - cy {
        h - cy
    } else {
        r.h
    };
    if ch < 1 {
        ch = 1;
    }
    (cx, cy, cw, ch)
}

/// The pixels of a crop that lies inside a frame `w` pixels wide.
pub open spec fn crop_pixels(full: Seq<u8>, w: int, c: CropRegion) -> Seq<u8> {
    Seq::new(
        (c.w * c.h * 4) as nat,
        |i: int|
            {
                let px = i / 4;
                full[((c.y + px / c.w as int) * w + (c.x + px % c.w as int)) * 4 + i % 4]
            },
    )
}

/// How many bytes of a frame `w` pixels wide reach to the end of a crop's last row.
pub open spec fn crop_end(w: int, c: CropRegion) -> int {
    ((c.y + c.h - 1) * w + c.x + c.w) * 4
}

/// Crop a tightly-packed BGRA buffer to `region`, returning `(w, h, pixels)`.
pub fn crop_bgra(full: &[u8], w: u32, h: u32, region: CropRegion) -> (out: (u32, u32, Vec<u8>))
    requires
        w > 0,
        h > 0,
        full@.len() >= crop_end(w as int, clamped_crop(region, w, h)),
    ensures
        out.0 == clamped_crop(region, w, h).w,
        out.1 == clamped_crop(region, w, h).h,
        out.2@ == crop_pixels(full@, w as int, clamped_crop(region, w, h)),
{
    let (cx, cy, cw, ch) = clamp_region(region, w, h);
    let ghost c = clamped_crop(region, w, h);
    let ghost want = crop_pixels(full@, w as int, c);
    let mut out: Vec<u8> = Vec::new();
    let mut row: u32 = 0;
    assert(cw * 0 == 0);
    while row < ch
        invariant
            full@.len() >= crop_end(w as int, c),
            c == (CropRegion { x: cx, y: cy, w: cw, h: ch }),
            cw >= 1,
            cx + cw <= w,
            cy + ch <= h,
            want == crop_pixels(full@, w as int, c),
            row <= ch,
            out@.len() == cw * row * 4,
            forall|i: int| 0 <= i < out@.len() ==> out@[i] == want[i],
        decreases ch - row,
    {
        let mut col: u32 = 0;
        while col < cw
            invariant
                full@.len() >= crop_end(w as int, c),
                c == (CropRegion { x: cx, y: cy, w: cw, h: ch }),
                cw >= 1,
                cx + cw <= w,
                cy + ch <= h,
                want == crop_pixels(full@, w as int, c),
                row < ch,
                col <= cw,
                out@.len() == cw * row * 4 + col * 4,
                forall|i: int| 0 <= i < out@.len() ==> out@[i] == want[i],
            decreases cw - col,
        {
            let ghost k = cw * row + col;
            proof {
                assert(full.len() <= usize::MAX);
                assert(0 <= (cy + row) * w <= (cy + ch - 1) * w) by (nonlinear_arith)
                    requires
                        row + 1 <= ch,
                        w > 0,
                ;
                assert(cw * row == row * cw && k < cw * ch) by (nonlinear_arith)
                    requires
                        k == cw * row + col,
                        col < cw,
                        row + 1 <= ch,
                ;
                vstd::arithmetic::div_mod::lemma_fundamental_div_mod_converse(k, cw as int, row as int, col as int);
            }
            let s: usize = (((cy + row) as usize) * (w as usize) + (cx + col) as usize) * 4;
            out.push(full[s]);
            out.push(full[s + 1]);
            out.push(full[s + 2]);
            out.push(full[s + 3]);
            proof {
                assert forall|i: int| 0 <= i < out@.len() implies out@[i] == want[i] by {
                    if i >= k * 4 {
                        assert(i / 4 == k);
                    }
                }
            }
            col += 1;
        }
        proof {
            assert(cw * (row + 1) == cw * row + cw) by (nonlinear_arith);
        }
        row += 1;
    }
    assert(out@ =~= want);
    (cw, ch, out)
}

/// The frame that is kept of a captured screen: all of it, or a crop.
pub fn keep_frame(full: &[u8], width: u32, height: u32, crop: Option<CropRegion>, qpc: i64) -> (f:
    CapturedFrame)
    requires
        crop matches Some(r) ==> width > 0 && height > 0 && full@.len() >= crop_end(
            width as int,
            clamped_crop(r, width, height),
        ),
    ensures
        f.qpc == qpc,
        match crop {
            Some(r) => {
                let c = clamped_crop(r, width, height);
                f.width == c.w && f.height == c.h && f.bgra@ == crop_pixels(full@, width as int, c)
            },
            None => f.width == width && f.height == height && f.bgra@ == full@,
        },
{
    match crop {
        Some(r) => {
            let (w, h, bgra) = crop_bgra(full, width, height, r);
            CapturedFrame { width: w, height: h, bgra, qpc }
        },
        None => {
            let mut bgra: Vec<u8> = Vec::new();
            bgra.extend_from_slice(full);
            assert(bgra@ =~= full@);
            CapturedFrame { width, height, bgra, qpc }
        },
    }
}

/// Capture errors.
#[derive(Debug)]
pub enum CaptureError {
    /// The capture session could not be started.
    Start(String),
}

impl CaptureError {
    /// Human-readable description of the error.
    pub fn message(&self) -> (s: String)
        ensures
            s@ == "failed to start capture: "@ + self->Start_0@,
    {
        match self {
            CaptureError::Start(m) => {
                let mut s = "failed to start capture: ".to_owned();
                s.push_str(m.as_str());
                s
            },
        }
    }
}

/// What to capture: a display (by device name) or a top-level window (by handle).
#[derive(Debug)]
pub enum CaptureSource {
    Monitor { name: Option<String> },
    Window { hwnd: isize },
}

/// Quotient rounded towards zero.
pub open spec fn toward_zero(a: int, b: int) -> int {
    if a >= 0 {
        a / b
    } else {
        -((-a) / b)
    }
}

/// Counter ticks that a number of 100 ns steps stands for.
pub open spec fn frame_ticks(steps: i64, freq: i64) -> int {
    toward_zero(steps * freq, 10_000_000)
}

/// The counter value a frame is stamped with: its own capture instant (given in 100 ns
/// steps on the counter's axis) if there is one within a second of `now`, else `now`. An
/// instant far from `now` is not on the counter's axis and would poison every frame time.
pub fn frame_time(instant: Option<i64>, now: i64, freq: i64) -> (qpc: i64)
    ensures
        match instant {
            Some(steps) => {
                let t = frame_ticks(steps, freq);
                if -freq < t - now < freq {
                    qpc == t as i64
                } else {
                    qpc == now
                }
            },
            None => qpc == now,
        },
{
    match instant {
        Some(steps) => {
            proof {
                let a = steps as int;
                let b = freq as int;
                assert(-0x4000_0000_0000_0000_0000_0000_0000_0000 <= a * b
                    <= 0x4000_0000_0000_0000_0000_0000_0000_0000) by (nonlinear_arith)
                    requires
                        -0x8000_0000_0000_0000 <= a <= 0x8000_0000_0000_0000,
                        -0x8000_0000_0000_0000 <= b <= 0x8000_0000_0000_0000,
                ;
            }
            let t: i128 = (steps as i128) * (freq as i128) / 10_000_000;
            let away: i128 = t - now as i128;
            if -(freq as i128) < away && away < freq as i128 {
                #[verifier::truncate]
                (t as i64)
            } else {
                now
            }
        },
        None => now,
    }
}

/// How handing a frame to the bounded channel went.
#[derive(Debug, Clone, Copy, PartialEq, Eq, Structural)]
pub enum Delivery {
    Sent,
    Full,
    Disconnected,
}

/// What follows from a delivery: frames dropped so far, whether to warn about them, and
/// whether to stop capturing.
#[derive(Debug, Clone, Copy, PartialEq, Eq, Structural)]
pub struct AfterDelivery {
    pub dropped: u64,
    pub warn: bool,
    pub stop: bool,
}

/// Bounded, drop-newest: a full channel drops the frame and warns at the first drop and at
/// every sixtieth; a channel nobody reads any more stops the capture.
pub fn after_delivery(delivery: Delivery, dropped: u64) -> (r: AfterDelivery)
    requires
        dropped < u64::MAX,
    ensures
        r.dropped == (if delivery is Full {
            dropped + 1
        } else {
            dropped as int
        }),
        r.warn <==> delivery is Full && (r.dropped == 1 || r.dropped % 60 == 0),
        r.stop <==> delivery is Disconnected,
{
    match delivery {
        Delivery::Sent => AfterDelivery { dropped, warn: false, stop: false },
        Delivery::Full => {
            let n: u64 = dropped + 1;
            AfterDelivery { dropped: n, warn: n == 1 || n % 60 == 0, stop: false }
        },
        Delivery::Disconnected => AfterDelivery { dropped, warn: false, stop: true },
    }
}

/// A clamped crop is not empty and lies inside a frame that has pixels; a crop that
/// already does is kept as it is.
pub proof fn crops_lie_inside(r: CropRegion, w: u32, h: u32)
    requires
        w > 0,
        h > 0,
    ensures
        clamped_crop(r, w, h).w >= 1,
        clamped_crop(r, w, h).h >= 1,
        clamped_crop(r, w, h).x + clamped_crop(r, w, h).w <= w,
        clamped_crop(r, w, h).y + clamped_crop(r, w, h).h <= h,
        r.w >= 1 && r.h >= 1 && r.x + r.w <= w && r.y + r.h <= h ==> clamped_crop(r, w, h) == r,
{
}

/// A crop shows the pixels of its region where they are: the pixel at a place of the crop is
/// the one that far right of and below the region's corner in the full frame.
pub proof fn crops_show_their_region(
    full: Seq<u8>,
    w: u32,
    h: u32,
    r: CropRegion,
    x: int,
    y: int,
    c: int,
)
    requires
        r.w >= 1,
        r.h >= 1,
        r.x + r.w <= w,
        r.y + r.h <= h,
        0 <= x < r.w,
        0 <= y < r.h,
        0 <= c < 4,
    ensures
        ({
            let out = crop_pixels(full, w as int, clamped_crop(r, w, h));
            &&& out.len() == r.w * r.h * 4
            &&& out[(y * r.w + x) * 4 + c] == full[((r.y + y) * w + r.x + x) * 4 + c]
        }),
{
    let p = y * r.w + x;
    let i = p * 4 + c;
    let rw = r.w as int;
    assert(0 <= p < r.w * r.h) by (nonlinear_arith)
        requires
            p == y * r.w + x,
            0 <= x < r.w,
            0 <= y < r.h,
    ;
    assert(i / 4 == p && i % 4 == c);
    vstd::arithmetic::div_mod::lemma_fundamental_div_mod_converse(p, rw, y, x);
    crops_lie_inside(r, w, h);
}

/// A region that hangs over the far edges is cut there, one axis at a time; one that begins
/// beyond them is the last pixel.
pub proof fn crops_are_cut_at_the_edges(r: CropRegion, w: u32, h: u32)
    requires
        w > 0,
        h > 0,
    ensures
        ({
            let c = clamped_crop(r, w, h);
            &&& r.x < w ==> c.x == r.x
            &&& r.x < w && r.w >= 1 && r.x + r.w <= w ==> c.w == r.w
            &&& r.x < w && r.x + r.w > w ==> c.x + c.w == w
            &&& r.x >= w ==> c.x == w - 1 && c.w == 1
            &&& r.w == 0 ==> c.w == 1
            &&& r.y < h ==> c.y == r.y
            &&& r.y < h && r.h >= 1 && r.y + r.h <= h ==> c.h == r.h
            &&& r.y < h && r.y + r.h > h ==> c.y + c.h == h
            &&& r.y >= h ==> c.y == h - 1 && c.h == 1
            &&& r.h == 0 ==> c.h == 1
        }),
{
}

/// Instants count tenths of a microsecond: as many ticks have passed as fit into that time,
/// and backward in time just as many.
pub proof fn instants_become_ticks(steps: i64, freq: i64)
    requires
        steps >= 0,
        freq >= 0,
    ensures
        frame_ticks(steps, freq) * 10_000_000 <= steps * freq < (frame_ticks(steps, freq) + 1)
            * 10_000_000,
        frame_ticks((-steps) as i64, freq) == -frame_ticks(steps, freq),
{
    let p = steps * freq;
    assert(p >= 0 && (-steps) * freq == -p) by (nonlinear_arith)
        requires
            p == steps * freq,
            steps >= 0,
            freq >= 0,
    ;
}

} // verus!
