//! Around the GPU: row padding of the readback buffer, the key of its reusable resources, and
//! the fills handed to it.

use crate::project::color::Color;
use crate::render::scene::{ResolvedText, Scene};
use crate::units::BILLION;
use vstd::prelude::*;

verus! {

/// Alignment of rows copied out of a texture.
pub const ROW_ALIGN: u32 = 256;

/// Bytes from one row of a readback buffer to the next, for rows of `width` pixels.
pub open spec fn aligned_row(width: u32) -> int {
    (width * 4 + ROW_ALIGN - 1) / ROW_ALIGN as int * ROW_ALIGN
}

/// Bytes from one row of a readback buffer to the next: the least aligned number that holds
/// `width` pixels.
pub fn padded_row(width: u32) -> (n: u32)
    requires
        aligned_row(width) <= u32::MAX,
    ensures
        n == aligned_row(width),
        n % ROW_ALIGN == 0,
        width * 4 <= n < width * 4 + ROW_ALIGN,
{
    let blocks: u64 = (width as u64 * 4 + 255) / 256;
    (blocks * 256) as u32
}

/// The bytes of `rows` rows of `width` pixels, taken from a buffer whose rows are `padded`
/// bytes apart.
pub open spec fn tight_rows(data: Seq<u8>, padded: int, width: int, rows: int) -> Seq<u8>
    decreases rows,
{
    if rows <= 0 {
        Seq::empty()
    } else {
        tight_rows(data, padded, width, rows - 1) + data.subrange(
            (rows - 1) * padded,
            (rows - 1) * padded + width * 4,
        )
    }
}

/// Drop the padding behind each row of a readback buffer.
pub fn unpad_rows(data: &[u8], padded: u32, width: u32, height: u32) -> (out: Vec<u8>)
    requires
        width * 4 <= padded,
        padded * height <= data.len(),
    ensures
        out@ == tight_rows(data@, padded as int, width as int, height as int),
{
    let mut out: Vec<u8> = Vec::new();
    let mut row: u32 = 0;
    let mut start: usize = 0;
    let step: usize = padded as usize;
    let len: usize = (width * 4) as usize;
    while row < height
        invariant
            row <= height,
            start == row * padded,
            step == padded,
            len == width * 4,
            width * 4 <= padded,
            padded * height <= data.len(),
            out@ == tight_rows(data@, padded as int, width as int, row as int),
        decreases height - row,
    {
        proof {
            let r = row as int;
            let p = padded as int;
            let h = height as int;
            assert(r * p + p == (r + 1) * p) by (nonlinear_arith);
            assert((r + 1) * p <= p * h) by (nonlinear_arith)
                requires
                    r + 1 <= h,
                    p >= 0,
            ;
        }
        assert(start + len <= data.len());
        out.extend_from_slice(vstd::slice::slice_subrange(data, start, start + len));
        start = start + step;
        row += 1;
    }
    out
}

/// The bytes of an image with `pad` arbitrary bytes behind each row are that image again once
/// the padding is dropped.
pub proof fn padding_is_dropped(image: Seq<u8>, data: Seq<u8>, padded: int, width: int, rows: int)
    requires
        0 <= width,
        0 <= rows,
        width * 4 <= padded,
        rows * padded <= data.len(),
        image.len() == rows * (width * 4),
        forall|r: int, c: int|
            0 <= r < rows && 0 <= c < width * 4 ==> data[r * padded + c] == #[trigger] image[r * (
            width * 4) + c],
    ensures
        tight_rows(data, padded, width, rows) == image,
    decreases rows,
{
    let w = width * 4;
    if rows > 0 {
        let r = rows - 1;
        assert(r * w + w == rows * w) by (nonlinear_arith)
            requires
                r == rows - 1,
        ;
        assert(r * padded + padded == rows * padded) by (nonlinear_arith)
            requires
                r == rows - 1,
        ;
        assert(0 <= r * w) by (nonlinear_arith)
            requires
                0 <= r,
                0 <= w,
        ;
        assert(0 <= r * padded) by (nonlinear_arith)
            requires
                0 <= r,
                0 <= padded,
        ;
        let head = image.subrange(0, r * w);
        assert forall|q: int, c: int| 0 <= q < r && 0 <= c < w implies data[q * padded + c]
            == #[trigger] head[q * w + c] by {
            assert(0 <= q * w + c < r * w) by (nonlinear_arith)
                requires
                    0 <= q < r,
                    0 <= c < w,
            ;
            assert(head[q * w + c] == image[q * w + c]);
        }
        padding_is_dropped(head, data, padded, width, r);
        let last = data.subrange(r * padded, r * padded + w);
        assert forall|c: int| 0 <= c < w implies last[c] == image.subrange(r * w, rows * w)[c] by {
            assert(image[r * w + c] == data[r * padded + c]);
        }
        assert(last =~= image.subrange(r * w, rows * w));
        assert(head + image.subrange(r * w, rows * w) =~= image);
    } else {
        assert(rows * w == 0) by (nonlinear_arith)
            requires
                rows == 0,
        ;
        assert(image =~= Seq::<u8>::empty());
    }
}

/// The sizes that reusable GPU resources were built for.
#[derive(Debug, Clone, Copy, PartialEq, Eq, Structural)]
pub struct FrameSizes {
    pub src_w: u32,
    pub src_h: u32,
    pub out_w: u32,
    pub out_h: u32,
}

impl FrameSizes {
    /// Whether resources built for these sizes serve a frame of the given sizes.
    pub fn matches(&self, src_w: u32, src_h: u32, out_w: u32, out_h: u32) -> (r: bool)
        ensures
            r == (*self == FrameSizes { src_w, src_h, out_w, out_h }),
    {
        self.src_w == src_w && self.src_h == src_h && self.out_w == out_w && self.out_h == out_h
    }
}

/// Whether resources have to be built anew for a frame: none are there, or for other sizes.
pub fn needs_rebuild(have: Option<FrameSizes>, want: FrameSizes) -> (r: bool)
    ensures
        r == (have != Some(want)),
{
    match have {
        Some(h) => !h.matches(want.src_w, want.src_h, want.out_w, want.out_h),
        None => true,
    }
}

/// The backdrop behind the framed recording: a linear gradient between two stops, along a
/// direction in output space given in billionths.
#[derive(Debug, Clone, Copy, PartialEq, Eq, Structural)]
pub struct BgFill {
    pub color: Color,
    pub color2: Color,
    pub dir_x: i64,
    pub dir_y: i64,
}

impl BgFill {
    /// A flat fill: both stops are equal and the direction is irrelevant.
    pub fn solid(color: Color) -> (f: Self)
        ensures
            f == (BgFill { color, color2: color, dir_x: 0, dir_y: BILLION }),
    {
        BgFill { color, color2: color, dir_x: 0, dir_y: BILLION }
    }
}

/// A color channel as a byte: scaled to 255, rounded down, and held to a byte.
pub open spec fn byte_of(channel: i64) -> int {
    let n = channel * 255 / BILLION as int;
    if n < 0 {
        0
    } else if n > 255 {
        255
    } else {
        n
    }
}

/// A color channel as a byte.
pub fn channel_byte(channel: i64) -> (b: u8)
    ensures
        b == byte_of(channel),
{
    if channel < 0 {
        0
    } else {
        let n: i128 = (channel as i128) * 255 / 1_000_000_000;
        if n > 255 {
            255
        } else {
            n as u8
        }
    }
}

/// The labels of a frame in drawing order: annotations first, then the keystroke overlay.
pub fn labels(scene: &Scene) -> (r: Vec<&ResolvedText>)
    ensures
        r.len() == scene.texts.len() + scene.key_texts.len(),
        forall|i: int| 0 <= i < scene.texts.len() ==> *(#[trigger] r[i]) == scene.texts[i],
        forall|i: int|
            0 <= i < scene.key_texts.len() ==> *(#[trigger] r[scene.texts.len() + i])
                == scene.key_texts[i],
{
    let mut out: Vec<&ResolvedText> = Vec::new();
    let mut i: usize = 0;
    while i < scene.texts.len()
        invariant
            i <= scene.texts.len(),
            out.len() == i,
            forall|j: int| 0 <= j < i ==> *(#[trigger] out[j]) == scene.texts[j],
        decreases scene.texts.len() - i,
    {
        out.push(&scene.texts[i]);
        i += 1;
    }
    let mut k: usize = 0;
    while k < scene.key_texts.len()
        invariant
            k <= scene.key_texts.len(),
            out.len() == scene.texts.len() + k,
            forall|j: int| 0 <= j < scene.texts.len() ==> *(#[trigger] out[j]) == scene.texts[j],
            forall|j: int|
                0 <= j < k ==> *(#[trigger] out[scene.texts.len() + j]) == scene.key_texts[j],
        decreases scene.key_texts.len() - k,
    {
        out.push(&scene.key_texts[k]);
        k += 1;
    }
    out
}

/// A channel in billionths becomes the byte that is as far from none to all, rounded down.
pub proof fn channels_become_bytes(channel: i64)
    ensures
        channel <= 0 ==> byte_of(channel) == 0,
        channel >= BILLION ==> byte_of(channel) == 255,
        0 <= channel <= BILLION ==> byte_of(channel) * BILLION <= channel * 255 < (byte_of(channel)
            + 1) * BILLION,
{
}

} // verus!
