//! What a video encoder is told: bit rate, packed attributes, frame times and frame memory.

use vstd::prelude::*;

verus! {

/// Two 32-bit numbers packed into one attribute, the first in the high half.
pub fn pack2(hi: u32, lo: u32) -> (n: u64)
    ensures
        n == hi * 0x1_0000_0000 + lo,
{
    hi as u64 * 0x1_0000_0000 + lo as u64
}

/// A quality held to the slider's range.
pub open spec fn slider(quality: u8) -> int {
    if quality < 40 {
        40
    } else if quality > 100 {
        100
    } else {
        quality as int
    }
}

/// Average bits per second: from four hundredths of a bit per pixel at the low end of the
/// slider to a fifth at the high end, held between one and fifty megabits.
pub open spec fn bits_per_second(w: u32, h: u32, fps: u32, quality: u8) -> int {
    let bits = w * h * fps * (2 * slider(quality) - 50) / 750;
    if bits < 1_000_000 {
        1_000_000
    } else if bits > 50_000_000 {
        50_000_000
    } else {
        bits
    }
}

/// Map the quality slider to an average bit rate for this size and rate.
pub fn bitrate(w: u32, h: u32, fps: u32, quality: u8) -> (b: u32)
    ensures
        b == bits_per_second(w, h, fps, quality),
{
    let q: u128 = if quality < 40 {
        40
    } else if quality > 100 {
        100
    } else {
        quality as u128
    };
    proof {
        let a = w as int;
        let b = h as int;
        let c = fps as int;
        assert(0 <= a * b <= 0xffff_ffff * 0xffff_ffff) by (nonlinear_arith)
            requires
                0 <= a <= 0xffff_ffff,
                0 <= b <= 0xffff_ffff,
        ;
        let ab = a * b;
        assert(0 <= ab * c <= (0xffff_ffff * 0xffff_ffff) * 0xffff_ffff) by (nonlinear_arith)
            requires
                0 <= ab <= 0xffff_ffff * 0xffff_ffff,
                0 <= c <= 0xffff_ffff,
        ;
        let abc = ab * c;
        let k = 2 * q - 50;
        assert(0 <= abc * k <= ((0xffff_ffff * 0xffff_ffff) * 0xffff_ffff) * 150)
            by (nonlinear_arith)
            requires
                0 <= abc <= (0xffff_ffff * 0xffff_ffff) * 0xffff_ffff,
                0 <= k <= 150,
        ;
    }
    let bits: u128 = (w as u128) * (h as u128) * (fps as u128) * (2 * q - 50) / 750;
    if bits < 1_000_000 {
        1_000_000
    } else if bits > 50_000_000 {
        50_000_000
    } else {
        bits as u32
    }
}

/// Better quality never lowers the bit rate.
pub proof fn better_quality_never_costs_bits(w: u32, h: u32, fps: u32, a: u8, b: u8)
    requires
        a <= b,
    ensures
        bits_per_second(w, h, fps, a) <= bits_per_second(w, h, fps, b),
{
    let n = w * h * fps;
    assert(0 <= n) by (nonlinear_arith)
        requires
            n == w * h * fps,
            w >= 0,
            h >= 0,
            fps >= 0,
    ;
    let x = 2 * slider(a) - 50;
    let y = 2 * slider(b) - 50;
    assert(n * x <= n * y) by (nonlinear_arith)
        requires
            0 <= n,
            x <= y,
    ;
    vstd::arithmetic::div_mod::lemma_div_is_ordered(n * x, n * y, 750);
}

/// The duration of a frame in ticks of a hundred nanoseconds, at least one.
pub open spec fn frame_ticks(fps: u32) -> int {
    let f = if fps < 1 {
        1
    } else {
        fps as int
    };
    let n = 10_000_000int / f;
    if n < 1 {
        1
    } else {
        n
    }
}

/// The duration of a frame in ticks of a hundred nanoseconds.
pub fn frame_hns(fps: u32) -> (n: i64)
    ensures
        n == frame_ticks(fps),
        1 <= n <= 10_000_000,
{
    let f: i64 = if fps < 1 {
        1
    } else {
        fps as i64
    };
    proof {
        let d = f as int;
        assert(0 <= 10_000_000int / d <= 10_000_000) by (nonlinear_arith)
            requires
                d >= 1,
        ;
    }
    let n: i64 = 10_000_000 / f;
    if n < 1 {
        1
    } else {
        n
    }
}

/// When frame `index` starts, in ticks of a hundred nanoseconds.
pub fn frame_start(index: u32, fps: u32) -> (t: i64)
    ensures
        t == index * frame_ticks(fps),
{
    let n: i64 = frame_hns(fps);
    proof {
        let a = index as int;
        let b = n as int;
        assert(0 <= a * b <= 0xffff_ffff * 10_000_000) by (nonlinear_arith)
            requires
                0 <= a <= 0xffff_ffff,
                0 <= b <= 10_000_000,
        ;
    }
    index as i64 * n
}

/// A frame that is smaller than what is encoded.
#[derive(Debug, Clone, Copy, PartialEq, Eq, Structural)]
pub struct FrameTooSmall;

impl FrameTooSmall {
    /// The text shown to the user.
    pub fn message(&self) -> (s: String)
        ensures
            s@ == "frame smaller than encoder size"@,
    {
        "frame smaller than encoder size".to_owned()
    }
}

/// Byte `c` of a pixel in the encoder's memory order: blue, green, red, and an unused byte.
pub open spec fn bgrx_byte(rgba: Seq<u8>, at: int, c: int) -> u8 {
    if c == 0 {
        rgba[at + 2]
    } else if c == 1 {
        rgba[at + 1]
    } else if c == 2 {
        rgba[at]
    } else {
        255
    }
}

/// Row `y` of a frame, cropped to `w` pixels.
pub open spec fn bgrx_row(rgba: Seq<u8>, src_w: int, w: int, y: int) -> Seq<u8> {
    Seq::new(
        (w * 4) as nat,
        |i: int| bgrx_byte(rgba, y * (src_w * 4) + i / 4 * 4, i % 4),
    )
}

/// The first `rows` rows of a frame, cropped to `w` pixels.
pub open spec fn bgrx_rows(rgba: Seq<u8>, src_w: int, w: int, rows: int) -> Seq<u8>
    decreases rows,
{
    if rows <= 0 {
        Seq::empty()
    } else {
        bgrx_rows(rgba, src_w, w, rows - 1) + bgrx_row(rgba, src_w, w, rows - 1)
    }
}

/// Lay out one RGBA frame for an encoder of `w` by `h` pixels. Extra pixels on the right and
/// at the bottom are cropped.
pub fn bgrx_frame(rgba: &[u8], src_w: u32, src_h: u32, w: u32, h: u32) -> (r: Result<
    Vec<u8>,
    FrameTooSmall,
>)
    requires
        w <= src_w && h <= src_h && h > 0 ==> (h - 1) * (src_w * 4) + w * 4 <= rgba@.len(),
    ensures
        match r {
            Ok(out) => {
                &&& w <= src_w && h <= src_h
                &&& out@ == bgrx_rows(rgba@, src_w as int, w as int, h as int)
            },
            Err(_) => src_w < w || src_h < h,
        },
{
    if src_w < w || src_h < h {
        return Err(FrameTooSmall);
    }
    let mut out: Vec<u8> = Vec::new();
    let mut y: u32 = 0;
    let len: usize = rgba.len();
    let ghost stride = src_w * 4;
    while y < h
        invariant
            y <= h,
            w <= src_w,
            len == rgba@.len(),
            stride == src_w * 4,
            h > 0 ==> (h - 1) * stride + w * 4 <= rgba@.len(),
            out@ == bgrx_rows(rgba@, src_w as int, w as int, y as int),
        decreases h - y,
    {
        proof {
            let a = y as int;
            let b = h - 1;
            assert(0 <= a * stride <= b * stride) by (nonlinear_arith)
                requires
                    0 <= a <= b,
                    stride >= 0,
            ;
        }
        let start: usize = (y as u128 * (src_w as u128 * 4)) as usize;
        let ghost done = out@;
        let mut x: u32 = 0;
        while x < w
            invariant
                x <= w,
                y < h,
                len == rgba@.len(),
                start == y * stride,
                stride == src_w * 4,
                start + w * 4 <= rgba@.len(),
                out@ == done + bgrx_row(rgba@, src_w as int, w as int, y as int).take(x * 4),
            decreases w - x,
        {
            let at: usize = start + x as usize * 4;
            let ghost row = bgrx_row(rgba@, src_w as int, w as int, y as int);
            let ghost was = out@;
            out.push(rgba[at + 2]);
            out.push(rgba[at + 1]);
            out.push(rgba[at]);
            out.push(255);
            proof {
                assert(row[x * 4] == rgba@[at + 2]);
                assert(row[x * 4 + 1] == rgba@[at + 1]);
                assert(row[x * 4 + 2] == rgba@[at as int]);
                assert(row[x * 4 + 3] == 255);
                assert(out@ =~= done + row.take((x + 1) * 4));
            }
            x += 1;
        }
        proof {
            let row = bgrx_row(rgba@, src_w as int, w as int, y as int);
            assert(row.take(w * 4) =~= row);
        }
        y += 1;
    }
    Ok(out)
}

/// The bit rate goes with the pixels of a second: between the limits of one and fifty million,
/// it is a fifth of a bit for each at full quality, and less by one part in 375 of a bit for
/// each point of quality less.
pub proof fn bits_go_with_pixels(w: u32, h: u32, fps: u32, quality: u8)
    requires
        40 <= quality <= 100,
    ensures
        ({
            let b = bits_per_second(w, h, fps, quality);
            let due = w * h * fps * (2 * quality - 50);
            &&& 1_000_000 <= b <= 50_000_000
            &&& 1_000_000 * 750 <= due <= 50_000_000 * 750 ==> b * 750 <= due < (b + 1) * 750
            &&& due < 1_000_000 * 750 ==> b == 1_000_000
            &&& due > 50_000_000 * 750 ==> b == 50_000_000
            &&& quality == 100 && 5_000_000 <= w * h * fps <= 250_000_000 ==> b == w * h * fps / 5
        }),
{
    let p = w * h * fps;
    assert(quality == 100 ==> p * (2 * quality - 50) == p * 150) by (nonlinear_arith);
}

/// Frames follow each other without drift: each lasts as many tenths of a microsecond as fit
/// into its share of a second, and starts where the one before ends.
pub proof fn frames_follow_each_other(fps: u32)
    requires
        1 <= fps <= 10_000_000,
    ensures
        frame_ticks(fps) * fps <= 10_000_000 < (frame_ticks(fps) + 1) * fps,
{
    let f = fps as int;
    let n = 10_000_000int / f;
    assert(n * f <= 10_000_000 < (n + 1) * f) by (nonlinear_arith)
        requires
            n == 10_000_000int / f,
            f > 0,
    ;
    assert(n >= 1) by (nonlinear_arith)
        requires
            n == 10_000_000int / f,
            1 <= f <= 10_000_000,
    ;
}

/// A frame handed to the encoder is the top left part of the picture: each pixel keeps its
/// place, with blue first, then green and red, and a fourth byte of all ones.
pub proof fn encoder_frames_keep_places(
    rgba: Seq<u8>,
    src_w: int,
    w: int,
    rows: int,
    x: int,
    y: int,
)
    requires
        0 <= x < w <= src_w,
        0 <= y < rows,
    ensures
        ({
            let out = bgrx_rows(rgba, src_w, w, rows);
            let to = (y * w + x) * 4;
            let from = (y * src_w + x) * 4;
            &&& out.len() == rows * (w * 4)
            &&& 0 <= to
            &&& to + 4 <= out.len()
            &&& out[to] == rgba[from + 2]
            &&& out[to + 1] == rgba[from + 1]
            &&& out[to + 2] == rgba[from]
            &&& out[to + 3] == 255
        }),
    decreases rows,
{
    let out = bgrx_rows(rgba, src_w, w, rows);
    let before = bgrx_rows(rgba, src_w, w, rows - 1);
    let row = bgrx_row(rgba, src_w, w, rows - 1);
    lemma_bgrx_len(rgba, src_w, w, rows - 1);
    lemma_bgrx_len(rgba, src_w, w, rows);
    let to = (y * w + x) * 4;
    let from = (y * src_w + x) * 4;
    assert(rows * (w * 4) == (rows - 1) * (w * 4) + w * 4) by (nonlinear_arith);
    assert(to == y * (w * 4) + x * 4) by (nonlinear_arith)
        requires
            to == (y * w + x) * 4,
    ;
    assert(from == y * (src_w * 4) + x * 4) by (nonlinear_arith)
        requires
            from == (y * src_w + x) * 4,
    ;
    assert(0 <= y * (w * 4)) by (nonlinear_arith)
        requires
            y >= 0,
            w >= 0,
    ;
    if y < rows - 1 {
        encoder_frames_keep_places(rgba, src_w, w, rows - 1, x, y);
    } else {
        assert(out[to] == row[x * 4] && out[to + 1] == row[x * 4 + 1] && out[to + 2] == row[x * 4
            + 2] && out[to + 3] == row[x * 4 + 3]);
    }
}

/// How long the rows of an encoder frame are.
proof fn lemma_bgrx_len(rgba: Seq<u8>, src_w: int, w: int, rows: int)
    requires
        0 <= rows,
        0 <= w,
    ensures
        bgrx_rows(rgba, src_w, w, rows).len() == rows * (w * 4),
    decreases rows,
{
    if rows > 0 {
        lemma_bgrx_len(rgba, src_w, w, rows - 1);
        assert(rows * (w * 4) == (rows - 1) * (w * 4) + w * 4) by (nonlinear_arith);
    } else {
        assert(0 * (w * 4) == 0) by (nonlinear_arith);
    }
}

} // verus!
