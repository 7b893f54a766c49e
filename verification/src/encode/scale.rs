//! Box-filter downscaling.

use crate::encode::image::{Image, RgbaImage};
use vstd::prelude::*;

verus! {

/// Byte `c` of pixel `(x, y)` in an image `w` pixels wide.
pub open spec fn channel(pixels: Seq<u8>, w: int, x: int, y: int, c: int) -> int {
    pixels[(y * w + x) * 4 + c] as int
}

/// Sum of channel `c` over the pixels `x0..x1` of row `y`.
pub open spec fn row_sum(pixels: Seq<u8>, w: int, x0: int, x1: int, y: int, c: int) -> int
    decreases x1 - x0,
{
    if x1 <= x0 {
        0
    } else {
        row_sum(pixels, w, x0, x1 - 1, y, c) + channel(pixels, w, x1 - 1, y, c)
    }
}

/// Sum of channel `c` over the box `x0..x1` by `y0..y1`.
pub open spec fn box_sum(
    pixels: Seq<u8>,
    w: int,
    x0: int,
    x1: int,
    y0: int,
    y1: int,
    c: int,
) -> int
    decreases y1 - y0,
{
    if y1 <= y0 {
        0
    } else {
        box_sum(pixels, w, x0, x1, y0, y1 - 1, c) + row_sum(pixels, w, x0, x1, y1 - 1, c)
    }
}

/// First source column (or row) of the box that feeds output column (or row) `d` when
/// `from` of them become `to`. The box of `d` ends where that of `d + 1` begins.
pub open spec fn box_edge(d: int, from: int, to: int) -> int {
    d * from / to
}

/// Mean of channel `c` over the box that feeds output pixel `(dx, dy)`.
pub open spec fn box_mean(src: Image, dw: int, dh: int, dx: int, dy: int, c: int) -> int {
    let x0 = box_edge(dx, src.width as int, dw);
    let x1 = box_edge(dx + 1, src.width as int, dw);
    let y0 = box_edge(dy, src.height as int, dh);
    let y1 = box_edge(dy + 1, src.height as int, dh);
    box_sum(src.pixels, src.width as int, x0, x1, y0, y1, c) / ((x1 - x0) * (y1 - y0))
}

/// Whether an image is left alone: there is no cap, the cap does not bind, or there is
/// nothing to scale.
pub open spec fn keeps_size(src: Image, target_w: u32) -> bool {
    target_w == 0 || target_w >= src.width || src.width == 0 || src.height == 0
}

/// Height that goes with a width of `target_w`, at least one row.
pub open spec fn scaled_height(src: Image, target_w: u32) -> int {
    let h = src.height * target_w / src.width as int;
    if h < 1 {
        1
    } else {
        h
    }
}

/// The image box-filtered down to `target_w` columns; unchanged where it keeps its size.
pub open spec fn downscaled(src: Image, target_w: u32) -> Image {
    if keeps_size(src, target_w) {
        src
    } else {
        let dw = target_w as int;
        let dh = scaled_height(src, target_w);
        Image {
            width: target_w,
            height: dh as u32,
            pixels: Seq::new(
                (dw * dh * 4) as nat,
                |i: int| box_mean(src, dw, dh, i / 4 % dw, i / 4 / dw, i % 4) as u8,
            ),
        }
    }
}

/// Consecutive edges are ordered and stay inside the source when nothing is enlarged.
proof fn lemma_edges(d: int, from: int, to: int)
    requires
        0 <= d < to <= from,
    ensures
        0 <= box_edge(d, from, to) < box_edge(d + 1, from, to) <= from,
{
    let a = d * from;
    let b = (d + 1) * from;
    assert(b == a + from) by (nonlinear_arith)
        requires
            a == d * from,
            b == (d + 1) * from,
    ;
    assert(0 <= a) by (nonlinear_arith)
        requires
            a == d * from,
            d >= 0,
            from >= 0,
    ;
    assert(b <= to * from) by (nonlinear_arith)
        requires
            b == (d + 1) * from,
            d + 1 <= to,
            from >= 0,
    ;
    let p = a / to;
    let q = b / to;
    vstd::arithmetic::div_mod::lemma_fundamental_div_mod(a, to);
    vstd::arithmetic::div_mod::lemma_fundamental_div_mod(b, to);
    assert(p >= 0) by (nonlinear_arith)
        requires
            a == to * p + a % to,
            a % to < to,
            a >= 0,
            to > 0,
    ;
    assert(p < q) by (nonlinear_arith)
        requires
            a == to * p + a % to,
            b == to * q + b % to,
            b >= a + to,
            0 <= a % to,
            b % to < to,
            to > 0,
    ;
    assert(q <= from) by (nonlinear_arith)
        requires
            b == to * q + b % to,
            0 <= b % to,
            b <= to * from,
            to > 0,
    ;
}

/// A pixel inside the image has its four bytes inside the buffer.
proof fn lemma_pixel_in_bounds(w: int, h: int, x: int, y: int)
    requires
        0 <= x < w,
        0 <= y < h,
    ensures
        0 <= y * w,
        0 <= y * w + x < w * h,
        y * w <= w * h,
{
    assert(0 <= y * w && y * w + w <= w * h) by (nonlinear_arith)
        requires
            0 <= y < h,
            0 < w,
    ;
}

/// A row sum lies between zero and 255 per pixel.
proof fn lemma_row_sum_bound(pixels: Seq<u8>, w: int, x0: int, x1: int, y: int, c: int)
    requires
        x0 <= x1,
    ensures
        0 <= row_sum(pixels, w, x0, x1, y, c) <= 255 * (x1 - x0),
    decreases x1 - x0,
{
    if x0 < x1 {
        lemma_row_sum_bound(pixels, w, x0, x1 - 1, y, c);
    }
}

/// A box sum lies between zero and 255 per pixel.
proof fn lemma_box_sum_bound(
    pixels: Seq<u8>,
    w: int,
    x0: int,
    x1: int,
    y0: int,
    y1: int,
    c: int,
)
    requires
        x0 <= x1,
        y0 <= y1,
    ensures
        0 <= box_sum(pixels, w, x0, x1, y0, y1, c) <= 255 * ((x1 - x0) * (y1 - y0)),
    decreases y1 - y0,
{
    if y0 < y1 {
        lemma_box_sum_bound(pixels, w, x0, x1, y0, y1 - 1, c);
        lemma_row_sum_bound(pixels, w, x0, x1, y1 - 1, c);
        assert((x1 - x0) * (y1 - y0) == (x1 - x0) * (y1 - 1 - y0) + (x1 - x0)) by (nonlinear_arith);
    } else {
        assert((x1 - x0) * (y1 - y0) == 0) by (nonlinear_arith)
            requires
                y0 == y1,
        ;
    }
}

/// Sum one channel over a box.
fn sum_box(src: &RgbaImage, x0: u32, x1: u32, y0: u32, y1: u32, c: usize) -> (s: u128)
    requires
        src.pixels@.len() >= src.width * src.height * 4,
        x0 <= x1 <= src.width,
        y0 <= y1 <= src.height,
        c < 4,
    ensures
        s == box_sum(
            src.pixels@,
            src.width as int,
            x0 as int,
            x1 as int,
            y0 as int,
            y1 as int,
            c as int,
        ),
{
    let w: u32 = src.width;
    let mut total: u128 = 0;
    let mut y: u32 = y0;
    proof {
        assert((x1 - x0) * (y1 - y0) <= 0xffff_ffff * 0xffff_ffff) by (nonlinear_arith)
            requires
                0 <= x1 - x0 <= 0xffff_ffff,
                0 <= y1 - y0 <= 0xffff_ffff,
        ;
    }
    while y < y1
        invariant
            w == src.width,
            src.pixels@.len() >= src.width * src.height * 4,
            x0 <= x1 <= w,
            y0 <= y <= y1 <= src.height,
            c < 4,
            total == box_sum(src.pixels@, w as int, x0 as int, x1 as int, y0 as int, y as int, c as int),
            0 <= total <= 255 * ((x1 - x0) * (y - y0)),
        decreases y1 - y,
    {
        let mut x: u32 = x0;
        let ghost before = total;
        proof {
            assert((x1 - x0) * (y - y0) <= 0xffff_ffff * 0xffff_ffff) by (nonlinear_arith)
                requires
                    0 <= x1 - x0 <= 0xffff_ffff,
                    0 <= y - y0 <= 0xffff_ffff,
            ;
        }
        while x < x1
            invariant
                w == src.width,
                src.pixels@.len() >= src.width * src.height * 4,
                x0 <= x <= x1 <= w,
                y < src.height,
                c < 4,
                total == before + row_sum(src.pixels@, w as int, x0 as int, x as int, y as int, c as int),
                before <= 255 * (0xffff_ffff * 0xffff_ffff),
                total <= before + 255 * (x - x0),
            decreases x1 - x,
        {
            proof {
                lemma_pixel_in_bounds(w as int, src.height as int, x as int, y as int);
                assert(src.pixels.len() <= usize::MAX);
            }
            let i: usize = ((y as usize) * (w as usize) + x as usize) * 4 + c;
            total = total + src.pixels[i] as u128;
            x += 1;
        }
        proof {
            lemma_box_sum_bound(src.pixels@, w as int, x0 as int, x1 as int, y0 as int, y + 1, c as int);
        }
        y += 1;
    }
    total
}

/// Box-filter downscale to `target_w`, preserving aspect ratio. Never upscales: an image
/// is returned as it is when `target_w` is zero or already at least the source width.
pub fn downscale_rgba(src: &RgbaImage, target_w: u32) -> (out: RgbaImage)
    requires
        keeps_size(src@, target_w) || src.pixels@.len() >= src.width * src.height * 4,
    ensures
        out@ == downscaled(src@, target_w),
        out.width <= src.width,
        out.height <= src.height,
        src@.valid() ==> out@.valid(),
{
    if target_w == 0 || target_w >= src.width || src.width == 0 || src.height == 0 {
        return src.clone();
    }
    let sw: u32 = src.width;
    let sh: u32 = src.height;
    let dw: u32 = target_w;
    proof {
        assert(sh * dw <= 0xffff_ffff * 0xffff_ffff) by (nonlinear_arith)
            requires
                sh <= 0xffff_ffff,
                dw <= 0xffff_ffff,
        ;
        assert(sh * dw / sw as int <= sh) by (nonlinear_arith)
            requires
                dw <= sw,
                0 < sw,
        ;
        assert(0 <= sh * dw / sw as int) by (nonlinear_arith)
            requires
                0 < sw,
        ;
    }
    let raw_h: u64 = (sh as u64) * (dw as u64) / (sw as u64);
    let dh: u32 = if raw_h < 1 {
        1
    } else {
        raw_h as u32
    };
    let ghost out_spec = downscaled(src@, target_w).pixels;
    let mut out: Vec<u8> = Vec::new();
    let mut dy: u32 = 0;
    assert(dw * 0 == 0);
    while dy < dh
        invariant
            sw == src.width,
            sh == src.height,
            dw == target_w,
            1 <= dw < sw,
            1 <= dh <= sh,
            dh == scaled_height(src@, target_w),
            !keeps_size(src@, target_w),
            src.pixels@.len() >= src.width * src.height * 4,
            out_spec == downscaled(src@, target_w).pixels,
            dy <= dh,
            out@.len() == dw * dy * 4,
            forall|i: int| 0 <= i < out@.len() ==> out@[i] == out_spec[i],
        decreases dh - dy,
    {
        proof {
            lemma_edges(dy as int, sh as int, dh as int);
            assert(dy * sh <= 0xffff_ffff * 0xffff_ffff && (dy + 1) * sh <= 0xffff_ffff
                * 0xffff_ffff) by (nonlinear_arith)
                requires
                    dy + 1 <= 0xffff_ffff,
                    sh <= 0xffff_ffff,
            ;
        }
        let sy0: u32 = ((dy as u64) * (sh as u64) / (dh as u64)) as u32;
        let sy1: u32 = ((dy as u64 + 1) * (sh as u64) / (dh as u64)) as u32;
        let mut dx: u32 = 0;
        while dx < dw
            invariant
                sw == src.width,
                sh == src.height,
                dw == target_w,
                1 <= dw < sw,
                1 <= dh <= sh,
                dh == scaled_height(src@, target_w),
                !keeps_size(src@, target_w),
                src.pixels@.len() >= src.width * src.height * 4,
                out_spec == downscaled(src@, target_w).pixels,
                dy < dh,
                sy0 == box_edge(dy as int, sh as int, dh as int),
                sy1 == box_edge(dy + 1, sh as int, dh as int),
                sy0 < sy1 <= sh,
                dx <= dw,
                out@.len() == dw * dy * 4 + dx * 4,
                forall|i: int| 0 <= i < out@.len() ==> out@[i] == out_spec[i],
            decreases dw - dx,
        {
            proof {
                lemma_edges(dx as int, sw as int, dw as int);
                assert(dx * sw <= 0xffff_ffff * 0xffff_ffff && (dx + 1) * sw <= 0xffff_ffff
                    * 0xffff_ffff) by (nonlinear_arith)
                    requires
                        dx + 1 <= 0xffff_ffff,
                        sw <= 0xffff_ffff,
                ;
            }
            let sx0: u32 = ((dx as u64) * (sw as u64) / (dw as u64)) as u32;
            let sx1: u32 = ((dx as u64 + 1) * (sw as u64) / (dw as u64)) as u32;
            proof {
                assert((sx1 - sx0) * (sy1 - sy0) > 0) by (nonlinear_arith)
                    requires
                        sx1 > sx0,
                        sy1 > sy0,
                ;
                assert((sx1 - sx0) * (sy1 - sy0) <= 0xffff_ffff * 0xffff_ffff) by (nonlinear_arith)
                    requires
                        0 < sx1 - sx0 <= 0xffff_ffff,
                        0 < sy1 - sy0 <= 0xffff_ffff,
                ;
            }
            let n: u128 = ((sx1 - sx0) as u128) * ((sy1 - sy0) as u128);
            let mut c: usize = 0;
            while c < 4
                invariant
                    sw == src.width,
                    sh == src.height,
                    dw == target_w,
                    1 <= dw < sw,
                    1 <= dh <= sh,
                    dh == scaled_height(src@, target_w),
                    !keeps_size(src@, target_w),
                    src.pixels@.len() >= src.width * src.height * 4,
                    out_spec == downscaled(src@, target_w).pixels,
                    dy < dh,
                    dx < dw,
                    sy0 == box_edge(dy as int, sh as int, dh as int),
                    sy1 == box_edge(dy + 1, sh as int, dh as int),
                    sx0 == box_edge(dx as int, sw as int, dw as int),
                    sx1 == box_edge(dx + 1, sw as int, dw as int),
                    sx0 < sx1 <= sw,
                    sy0 < sy1 <= sh,
                    n == (sx1 - sx0) * (sy1 - sy0),
                    n > 0,
                    c <= 4,
                    out@.len() == dw * dy * 4 + dx * 4 + c,
                    forall|i: int| 0 <= i < out@.len() ==> out@[i] == out_spec[i],
                decreases 4 - c,
            {
                let s: u128 = sum_box(src, sx0, sx1, sy0, sy1, c);
                let ghost i = out@.len() as int;
                proof {
                    lemma_box_sum_bound(src.pixels@, sw as int, sx0 as int, sx1 as int, sy0 as int, sy1 as int, c as int);
                    assert(s / n <= 255) by (nonlinear_arith)
                        requires
                            s <= 255 * n,
                            n > 0,
                    ;
                    let k = dw * dy + dx;
                    assert(i == k * 4 + c);
                    assert(k % (dw as int) == dx && k / (dw as int) == dy) by {
                        assert(dw * dy == dy * dw) by (nonlinear_arith);
                        vstd::arithmetic::div_mod::lemma_fundamental_div_mod_converse(k, dw as int, dy as int, dx as int);
                    }
                    lemma_pixel_in_bounds(dw as int, dh as int, dx as int, dy as int);
                    assert(dw * dy == dy * dw) by (nonlinear_arith);
                    assert(i < out_spec.len());
                    assert(out_spec[i] == box_mean(src@, dw as int, dh as int, dx as int, dy as int, c as int) as u8);
                }
                out.push((s / n) as u8);
                c += 1;
            }
            dx += 1;
        }
        proof {
            assert(dw * (dy + 1) == dw * dy + dw) by (nonlinear_arith);
        }
        dy += 1;
    }
    proof {
        assert(out@ =~= out_spec);
    }
    RgbaImage::new(dw, dh, out)
}

/// Downscaling never enlarges an image and keeps a valid image valid.
pub proof fn downscaling_never_enlarges(src: Image, target_w: u32)
    requires
        src.valid(),
    ensures
        downscaled(src, target_w).valid(),
        downscaled(src, target_w).width <= src.width,
        downscaled(src, target_w).height <= src.height,
        target_w > 0 ==> downscaled(src, target_w).width <= target_w || src.height == 0,
{
    if !keeps_size(src, target_w) {
        assert(src.height * target_w / src.width as int <= src.height) by (nonlinear_arith)
            requires
                target_w <= src.width,
                0 < src.width,
        ;
    }
}

/// Where the byte of a channel of a pixel stands in an image `w` pixels wide.
proof fn lemma_byte_place(w: int, h: int, x: int, y: int, c: int)
    requires
        0 <= x < w,
        0 <= y < h,
        0 <= c < 4,
    ensures
        ({
            let i = (y * w + x) * 4 + c;
            &&& 0 <= i < w * h * 4
            &&& i % 4 == c
            &&& i / 4 % w == x
            &&& i / 4 / w == y
        }),
{
    lemma_pixel_in_bounds(w, h, x, y);
    let p = y * w + x;
    let i = p * 4 + c;
    assert(i / 4 == p);
    vstd::arithmetic::div_mod::lemma_fundamental_div_mod_converse(p, w, y, x);
}

/// A row sum lies between the bounds of its pixels.
proof fn lemma_row_sum_between(
    pixels: Seq<u8>,
    w: int,
    x0: int,
    x1: int,
    y: int,
    c: int,
    lo: int,
    hi: int,
)
    requires
        x0 <= x1,
        forall|x: int| x0 <= x < x1 ==> lo <= #[trigger] channel(pixels, w, x, y, c) <= hi,
    ensures
        lo * (x1 - x0) <= row_sum(pixels, w, x0, x1, y, c) <= hi * (x1 - x0),
    decreases x1 - x0,
{
    if x0 < x1 {
        lemma_row_sum_between(pixels, w, x0, x1 - 1, y, c, lo, hi);
        assert(lo * (x1 - x0) == lo * (x1 - 1 - x0) + lo) by (nonlinear_arith);
        assert(hi * (x1 - x0) == hi * (x1 - 1 - x0) + hi) by (nonlinear_arith);
    } else {
        assert(lo * (x1 - x0) == 0 && hi * (x1 - x0) == 0) by (nonlinear_arith)
            requires
                x0 == x1,
        ;
    }
}

/// A box sum lies between the bounds of its pixels.
proof fn lemma_box_sum_between(
    pixels: Seq<u8>,
    w: int,
    x0: int,
    x1: int,
    y0: int,
    y1: int,
    c: int,
    lo: int,
    hi: int,
)
    requires
        x0 <= x1,
        y0 <= y1,
        forall|x: int, y: int|
            x0 <= x < x1 && y0 <= y < y1 ==> lo <= #[trigger] channel(pixels, w, x, y, c) <= hi,
    ensures
        lo * ((x1 - x0) * (y1 - y0)) <= box_sum(pixels, w, x0, x1, y0, y1, c) <= hi * ((x1 - x0) * (
        y1 - y0)),
    decreases y1 - y0,
{
    let d = x1 - x0;
    if y0 < y1 {
        lemma_box_sum_between(pixels, w, x0, x1, y0, y1 - 1, c, lo, hi);
        lemma_row_sum_between(pixels, w, x0, x1, y1 - 1, c, lo, hi);
        assert(d * (y1 - y0) == d * (y1 - 1 - y0) + d) by (nonlinear_arith);
        let n = d * (y1 - 1 - y0);
        assert(lo * (n + d) == lo * n + lo * d && hi * (n + d) == hi * n + hi * d)
            by (nonlinear_arith);
    } else {
        assert(d * (y1 - y0) == 0) by (nonlinear_arith)
            requires
                y0 == y1,
        ;
        assert(lo * 0 == 0 && hi * 0 == 0);
    }
}

/// Downscaling keeps things in their place: a pixel of the result is no darker and no
/// brighter, in each channel, than the source pixels of the rows and columns that it stands
/// for. Where these are of one color, it has that color.
pub proof fn downscaling_keeps_places(
    src: Image,
    target_w: u32,
    dx: int,
    dy: int,
    c: int,
    lo: int,
    hi: int,
)
    requires
        src.valid(),
        0 < target_w < src.width,
        src.height > 0,
        0 <= dx < downscaled(src, target_w).width,
        0 <= dy < downscaled(src, target_w).height,
        0 <= c < 4,
        ({
            let w = src.width as int;
            let h = src.height as int;
            let dw = downscaled(src, target_w).width as int;
            let dh = downscaled(src, target_w).height as int;
            forall|x: int, y: int|
                dx * w / dw <= x < (dx + 1) * w / dw && dy * h / dh <= y < (dy + 1) * h / dh ==> lo
                    <= #[trigger] src.pixels[(y * w + x) * 4 + c] <= hi
        }),
    ensures
        ({
            let out = downscaled(src, target_w);
            lo <= out.pixels[(dy * out.width + dx) * 4 + c] <= hi
        }),
{
    let out = downscaled(src, target_w);
    let w = src.width as int;
    let h = src.height as int;
    let dw = target_w as int;
    let dh = scaled_height(src, target_w);
    lemma_scaled_height(src, target_w);
    lemma_byte_place(dw, dh, dx, dy, c);
    lemma_edges(dx, w, dw);
    lemma_edges(dy, h, dh);
    let x0 = box_edge(dx, w, dw);
    let x1 = box_edge(dx + 1, w, dw);
    let y0 = box_edge(dy, h, dh);
    let y1 = box_edge(dy + 1, h, dh);
    assert forall|x: int, y: int| x0 <= x < x1 && y0 <= y < y1 implies lo <= #[trigger] channel(
        src.pixels,
        w,
        x,
        y,
        c,
    ) <= hi by {
        assert(lo <= src.pixels[(y * w + x) * 4 + c] <= hi);
    }
    lemma_box_sum_between(src.pixels, w, x0, x1, y0, y1, c, lo, hi);
    lemma_box_sum_bound(src.pixels, w, x0, x1, y0, y1, c);
    let n = (x1 - x0) * (y1 - y0);
    let sum = box_sum(src.pixels, w, x0, x1, y0, y1, c);
    assert(n > 0) by (nonlinear_arith)
        requires
            n == (x1 - x0) * (y1 - y0),
            x1 > x0,
            y1 > y0,
    ;
    assert(lo <= sum / n <= hi && 0 <= sum / n <= 255) by (nonlinear_arith)
        requires
            lo * n <= sum <= hi * n,
            0 <= sum <= 255 * n,
            n > 0,
    ;
    assert(out.pixels[(dy * dw + dx) * 4 + c] == box_mean(src, dw, dh, dx, dy, c) as u8);
}

/// The height of a downscaled image is between one and that of the source.
proof fn lemma_scaled_height(src: Image, target_w: u32)
    requires
        0 < target_w < src.width,
        src.height > 0,
    ensures
        1 <= scaled_height(src, target_w) <= src.height,
        downscaled(src, target_w).height == scaled_height(src, target_w),
{
    let n = src.height * target_w;
    let d = src.width as int;
    assert(n / d <= src.height) by (nonlinear_arith)
        requires
            n == src.height * target_w,
            0 < target_w < d,
            src.height >= 0,
    ;
}

/// Downscaling keeps the shape: width and height shrink alike, to within a pixel row, and the
/// width is the one asked for.
pub proof fn downscaling_keeps_the_shape(src: Image, target_w: u32)
    requires
        0 < target_w < src.width,
        src.height > 0,
    ensures
        ({
            let out = downscaled(src, target_w);
            &&& out.width == target_w
            &&& out.height * src.width <= src.height * out.width || out.height == 1
            &&& src.height * out.width < (out.height + 1) * src.width
        }),
{
    lemma_scaled_height(src, target_w);
    let n = src.height * target_w;
    let d = src.width as int;
    let q = n / d;
    vstd::arithmetic::div_mod::lemma_fundamental_div_mod(n, d);
    assert(q * d <= n && n < (q + 1) * d) by (nonlinear_arith)
        requires
            n == d * q + n % d,
            0 <= n % d < d,
    ;
    let k = downscaled(src, target_w).height as int;
    assert(n < (k + 1) * d) by (nonlinear_arith)
        requires
            n < (q + 1) * d,
            q <= k,
            d > 0,
    ;
}

/// An image that is halved averages: every pixel is the mean, rounded down, of the four
/// source pixels that it stands for, channel by channel.
pub proof fn halving_averages(src: Image, target_w: u32, dx: int, dy: int, c: int)
    requires
        src.valid(),
        0 < target_w,
        src.width == 2 * target_w,
        src.height > 0,
        src.height % 2 == 0,
        0 <= dx < target_w,
        0 <= 2 * dy < src.height,
        0 <= c < 4,
    ensures
        ({
            let out = downscaled(src, target_w);
            let w = src.width as int;
            let a = src.pixels[(2 * dy * w + 2 * dx) * 4 + c];
            let b = src.pixels[(2 * dy * w + 2 * dx + 1) * 4 + c];
            let d = src.pixels[((2 * dy + 1) * w + 2 * dx) * 4 + c];
            let e = src.pixels[((2 * dy + 1) * w + 2 * dx + 1) * 4 + c];
            &&& 2 * out.height == src.height
            &&& out.pixels[(dy * out.width + dx) * 4 + c] == (a + b + d + e) / 4
        }),
{
    let out = downscaled(src, target_w);
    let w = src.width as int;
    let h = src.height as int;
    let dw = target_w as int;
    let dh = scaled_height(src, target_w);
    lemma_scaled_height(src, target_w);
    let half = h / 2;
    assert(h * dw / w == half) by (nonlinear_arith)
        requires
            w == 2 * dw,
            h == 2 * half,
            dw > 0,
    ;
    assert(dh == half);
    lemma_byte_place(dw, dh, dx, dy, c);
    assert(dx * w / dw == 2 * dx && (dx + 1) * w / dw == 2 * dx + 2) by (nonlinear_arith)
        requires
            w == 2 * dw,
            dw > 0,
    ;
    assert(dy * h / dh == 2 * dy && (dy + 1) * h / dh == 2 * dy + 2) by (nonlinear_arith)
        requires
            h == 2 * dh,
            dh > 0,
    ;
    let x0 = 2 * dx;
    let y0 = 2 * dy;
    reveal_with_fuel(row_sum, 3);
    reveal_with_fuel(box_sum, 3);
    assert(box_sum(src.pixels, w, x0, x0 + 2, y0, y0 + 2, c) == channel(src.pixels, w, x0, y0, c)
        + channel(src.pixels, w, x0 + 1, y0, c) + channel(src.pixels, w, x0, y0 + 1, c) + channel(
        src.pixels,
        w,
        x0 + 1,
        y0 + 1,
        c,
    ));
    assert(2 * dy * w == y0 * w);
    let sum = box_sum(src.pixels, w, x0, x0 + 2, y0, y0 + 2, c);
    assert((x0 + 2 - x0) * (y0 + 2 - y0) == 4) by (nonlinear_arith);
    assert(box_mean(src, dw, dh, dx, dy, c) == sum / 4);
    assert(out.pixels[(dy * dw + dx) * 4 + c] == box_mean(src, dw, dh, dx, dy, c) as u8);
}

} // verus!
