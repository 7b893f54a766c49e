//! Pure-Rust animated-GIF encoding.
//!
//! Optimized for screen recordings: one global palette for the whole clip, every frame
//! after the first is a delta rectangle, and identical consecutive frames collapse into a
//! longer delay on the previous frame.

use crate::encode::delta::{
    delta_frame, diff_bbox, held, key_block, playback, playback_restores_frames, stored, Block,
    PendingFrame, TRANSPARENT_INDEX,
};
use crate::encode::error::EncodeError;
use crate::encode::gif_file::{
    gif_file, gif_finish, gif_frames, gif_header, gif_repeat_forever, gif_start, gif_write,
    plain_header, repeating, with_delay, GifEncoder, GifFrame, GifHeader,
};
use crate::encode::image::{Image, RgbaImage};
use crate::encode::quantize::{
    full_palette, images, indexed, indices_are_opaque, trained_on, GlobalQuantizer,
};
use crate::encode::scale::{downscale_rgba, downscaled, keeps_size};
use crate::encode::settings::GifSettings;
use color_quant::NeuQuant;
use vstd::prelude::*;

verus! {

/// Frames the streaming encoder composites to train the global palette, enough spread for
/// a representative palette without holding the whole clip in memory.
pub const PALETTE_SAMPLE_FRAMES: usize = 48;

/// The quantizer's sample factor for a quality.
pub open spec fn speed_for(quality: u8) -> int {
    30 - (if quality > 100 {
        100
    } else {
        quality as int
    }) * 29 / 100
}

/// Map a quality (0-100) to a sample factor (1 = best and slowest, 30 = worst and
/// fastest).
pub fn quality_to_speed(quality: u8) -> (speed: i32)
    ensures
        speed == speed_for(quality),
        1 <= speed <= 30,
{
    let q: i32 = if quality > 100 {
        100
    } else {
        quality as i32
    };
    30 - (q * 29 / 100)
}

/// Centiseconds a frame stays at `fps` frames per second, rounded, at least two; no rate
/// counts as one frame per second.
pub open spec fn delay_for(fps: u32) -> nat {
    let rate = if fps < 1 {
        1
    } else {
        fps as int
    };
    let d = (100 + rate / 2) / rate;
    if d < 2 {
        2
    } else {
        d as nat
    }
}

/// Per-frame GIF delay in centiseconds for `fps`.
pub fn frame_delay_cs(fps: u32) -> (d: u16)
    ensures
        d == delay_for(fps),
        2 <= d <= 100,
{
    let rate: u32 = if fps < 1 {
        1
    } else {
        fps
    };
    assert((100 + rate as int / 2) / rate as int <= 100) by (nonlinear_arith)
        requires
            rate >= 1,
    ;
    assert((100 + rate as int / 2) / rate as int >= 0) by (nonlinear_arith)
        requires
            rate >= 1,
    ;
    let d: u32 = (100 + rate / 2) / rate;
    if d < 2 {
        2
    } else {
        d as u16
    }
}

/// A frame capped at a width, if there is a cap.
pub open spec fn capped(img: Image, width: Option<u32>) -> Image {
    match width {
        Some(w) => downscaled(img, w),
        None => img,
    }
}

/// Frames capped at a width, if there is a cap.
pub open spec fn capped_all(frames: Seq<Image>, width: Option<u32>) -> Seq<Image> {
    Seq::new(frames.len(), |i: int| capped(frames[i], width))
}

/// Apply the width cap to one frame.
fn cap_width(img: &RgbaImage, width: Option<u32>) -> (out: RgbaImage)
    requires
        img@.valid(),
    ensures
        out@ == capped(img@, width),
        out@.valid(),
{
    match width {
        Some(w) => downscale_rgba(img, w),
        None => img.clone(),
    }
}

/// Whether all images have the size of the first.
pub open spec fn same_size(imgs: Seq<Image>) -> bool {
    forall|i: int|
        0 <= i < imgs.len() ==> #[trigger] imgs[i].width == imgs[0].width && imgs[i].height
            == imgs[0].height
}

/// Images of one size have one size under a width cap, and pixels if they had any.
proof fn lemma_capped_size(a: Image, b: Image, width: Option<u32>)
    requires
        a.width == b.width,
        a.height == b.height,
    ensures
        capped(a, width).width == capped(b, width).width,
        capped(a, width).height == capped(b, width).height,
        a.width > 0 && a.height > 0 ==> capped(a, width).width > 0 && capped(a, width).height > 0,
{
    if let Some(w) = width {
        if a.width > 0 && a.height > 0 && !keeps_size(a, w) {
            let n = a.height * w;
            let d = a.width as int;
            assert(n / d <= a.height) by (nonlinear_arith)
                requires
                    n == a.height * w,
                    0 < w < d,
                    a.height >= 0,
            ;
        }
    }
}

/// Whether an image is valid and no larger than a GIF can be.
pub open spec fn fits_gif(img: Image) -> bool {
    img.valid() && img.width <= u16::MAX && img.height <= u16::MAX
}

/// Whether images of a size fit a GIF once their width is capped.
pub fn size_fits_gif(w: u32, h: u32, width: Option<u32>) -> (r: bool)
    ensures
        forall|img: Image|
            img.width == w && img.height == h ==> r == (#[trigger] capped(img, width).width
                <= u16::MAX && capped(img, width).height <= u16::MAX),
{
    let mut cw: u32 = w;
    let mut ch: u32 = h;
    if let Some(cap) = width {
        if cap > 0 && cap < w && h > 0 {
            proof {
                let n = h * cap;
                let d = w as int;
                assert(0 <= n <= 0xffff_ffff * 0xffff_ffff && n / d <= h) by (nonlinear_arith)
                    requires
                        n == h * cap,
                        0 < cap < d,
                        0 <= h <= 0xffff_ffff,
                        d <= 0xffff_ffff,
                ;
            }
            let scaled: u64 = (h as u64) * (cap as u64) / (w as u64);
            cw = cap;
            ch = if scaled < 1 {
                1
            } else {
                scaled as u32
            };
        }
    }
    cw <= 65_535 && ch <= 65_535
}

/// The palette indices of a list of images.
pub open spec fn indexed_all(quant: NeuQuant, imgs: Seq<Image>) -> Seq<Seq<u8>> {
    Seq::new(imgs.len(), |i: int| indexed(quant, imgs[i]))
}

/// A stored block as a GIF frame: its delay cut to what the format can hold.
pub open spec fn gif_frame(b: Block) -> GifFrame {
    GifFrame {
        block: with_delay(
            b,
            if b.delay_cs > u16::MAX {
                u16::MAX
            } else {
                b.delay_cs as u16
            },
        ),
        transparent: TRANSPARENT_INDEX,
    }
}

/// Stored blocks as GIF frames.
pub open spec fn gif_frames_of(blocks: Seq<Block>) -> Seq<GifFrame> {
    Seq::new(blocks.len(), |i: int| gif_frame(blocks[i]))
}

/// The GIF of a clip: `frames` are its frames and `samples` those that its palette is
/// trained on, all at their final size.
pub open spec fn gif_of(samples: Seq<Image>, frames: Seq<Image>, settings: GifSettings) -> Seq<u8> {
    let quant = trained_on(samples, speed_for(settings.quality));
    let w = frames[0].width;
    let h = frames[0].height;
    gif_file(
        repeating(plain_header(w as u16, h as u16, full_palette(quant))),
        gif_frames_of(
            stored(indexed_all(quant, frames), w as int, h as int, delay_for(settings.fps)),
        ),
    )
}

/// Whether an error says that the encoder ran out of memory.
pub open spec fn is_out_of_memory(e: EncodeError) -> bool {
    e is Gif && e->Gif_0@ == "Out of Memory"@
}

/// Whether an error says why these images, as they were handed in, could not be encoded:
/// there are none, they differ in size, they hold no pixels, or memory ran out.
pub open spec fn encode_fault(imgs: Seq<Image>, e: EncodeError) -> bool {
    if imgs.len() == 0 {
        e is NoFrames
    } else if !same_size(imgs) {
        e is Gif && e->Gif_0@ == "frame dimensions differ"@
    } else if imgs[0].width == 0 || imgs[0].height == 0 {
        e is Gif && e->Gif_0@ == "zero-size frame"@
    } else {
        is_out_of_memory(e)
    }
}

/// A GIF under way: the frames so far are written but for the last block, which may still
/// be held longer.
struct GifStream {
    encoder: GifEncoder,
    quant: GlobalQuantizer,
    width: u16,
    height: u16,
    delay: u16,
    prev: Vec<u8>,
    pending: PendingFrame,
    header: Ghost<GifHeader>,
    shown: Ghost<Seq<Seq<u8>>>,
}

impl GifStream {
    spec fn blocks(&self) -> Seq<Block> {
        stored(self.shown@, self.width as int, self.height as int, self.delay as nat)
    }

    spec fn wf(&self) -> bool {
        &&& self.quant.wf()
        &&& self.width > 0
        &&& self.height > 0
        &&& 2 <= self.delay <= 100
        &&& self.shown@.len() > 0
        &&& self.prev@ == self.shown@.last()
        &&& self.prev@.len() == self.width * self.height
        &&& self.header@.palette.len() == 768
        &&& gif_header(self.encoder) == self.header@
        &&& self.blocks().len() > 0
        &&& gif_frames(self.encoder) == gif_frames_of(self.blocks().drop_last())
        &&& self.pending@ == self.blocks().last()
        &&& self.pending.width > 0
        &&& self.pending.height > 0
        &&& self.pending.buffer@.len() == self.pending.width * self.pending.height
        &&& self.pending.delay_cs <= self.shown@.len() * self.delay
    }

    /// Start a GIF with its first frame.
    fn start(quant: GlobalQuantizer, first: &RgbaImage, fps: u32) -> (r: Result<
        GifStream,
        EncodeError,
    >)
        requires
            quant.wf(),
            fits_gif(first@),
            first.width > 0,
            first.height > 0,
        ensures
            r is Ok,
            r->Ok_0.wf(),
            r->Ok_0.width == first.width,
            r->Ok_0.height == first.height,
            r->Ok_0.delay == delay_for(fps),
            r->Ok_0.quant.network() == quant.network(),
            r->Ok_0.header@ == repeating(
                plain_header(first.width as u16, first.height as u16, full_palette(quant.network())),
            ),
            r->Ok_0.shown@ == seq![indexed(quant.network(), first@)],
    {
        let mut quant = quant;
        let palette = quant.palette();
        let width: u16 = first.width as u16;
        let height: u16 = first.height as u16;
        let mut encoder = match gif_start(width, height, &palette) {
            Ok(e) => e,
            Err(e) => return Err(EncodeError::Gif(e.to_string())),
        };
        match gif_repeat_forever(&mut encoder) {
            Ok(_) => {},
            Err(e) => return Err(EncodeError::Gif(e.to_string())),
        }
        let delay: u16 = frame_delay_cs(fps);
        let prev = quant.index_frame(first);
        let buffer = prev.clone();
        let ghost shown = seq![indexed(quant.network(), first@)];
        proof {
            assert(buffer@ =~= prev@);
            assert(first@.pixels.len() / 4 == first.width * first.height);
            let blocks = stored(shown, width as int, height as int, delay as nat);
            assert(blocks.drop_last() =~= Seq::<Block>::empty());
            assert(gif_frames_of(blocks.drop_last()) =~= Seq::<GifFrame>::empty());
        }
        let pending = PendingFrame {
            left: 0,
            top: 0,
            width,
            height,
            buffer,
            delay_cs: delay as u32,
        };
        let header = Ghost(gif_header(encoder));
        assert(pending@ =~= key_block(prev@, width as int, height as int, delay as nat));
        Ok(
            GifStream {
                encoder,
                quant,
                width,
                height,
                delay,
                prev,
                pending,
                header,
                shown: Ghost(shown),
            },
        )
    }

    /// Write the block that was held back.
    fn flush(&mut self) -> (r: Result<(), EncodeError>)
        requires
            old(self).wf(),
        ensures
            r is Err ==> is_out_of_memory(r->Err_0),
            r is Ok ==> {
                &&& gif_frames(final(self).encoder) == gif_frames_of(old(self).blocks())
                &&& gif_header(final(self).encoder) == old(self).header@
                &&& final(self).quant == old(self).quant
                &&& final(self).width == old(self).width
                &&& final(self).height == old(self).height
                &&& final(self).delay == old(self).delay
                &&& final(self).prev == old(self).prev
                &&& final(self).header == old(self).header
                &&& final(self).shown == old(self).shown
            },
    {
        let delay: u16 = if self.pending.delay_cs > u16::MAX as u32 {
            u16::MAX
        } else {
            self.pending.delay_cs as u16
        };
        match gif_write(&mut self.encoder, &self.pending, delay, TRANSPARENT_INDEX) {
            Ok(_) => {
                proof {
                    let blocks = old(self).blocks();
                    assert(gif_frames_of(blocks) =~= gif_frames_of(blocks.drop_last()).push(
                        gif_frame(blocks.last()),
                    ));
                }
                Ok(())
            },
            Err(e) => Err(EncodeError::Gif(e)),
        }
    }

    /// Add the next frame.
    fn push(&mut self, img: &RgbaImage) -> (r: Result<(), EncodeError>)
        requires
            old(self).wf(),
            fits_gif(img@),
            img.width == old(self).width,
            img.height == old(self).height,
            old(self).shown@.len() * old(self).delay + old(self).delay <= u32::MAX,
        ensures
            r is Err ==> is_out_of_memory(r->Err_0),
            r is Ok ==> {
                &&& final(self).wf()
                &&& final(self).quant.network() == old(self).quant.network()
                &&& final(self).width == old(self).width
                &&& final(self).height == old(self).height
                &&& final(self).delay == old(self).delay
                &&& final(self).header == old(self).header
                &&& final(self).shown@ == old(self).shown@.push(
                    indexed(old(self).quant.network(), img@),
                )
            },
    {
        let cur = self.quant.index_frame(img);
        let w: usize = self.width as usize;
        let h: usize = self.height as usize;
        let ghost shown = self.shown@.push(cur@);
        let ghost before = self.blocks();
        proof {
            assert(img@.pixels.len() / 4 == w * h);
            assert(shown.drop_last() =~= self.shown@);
            assert(shown[shown.len() - 2] == self.prev@);
            assert((self.shown@.len() + 1) * self.delay == self.shown@.len() * self.delay
                + self.delay) by (nonlinear_arith);
        }
        match diff_bbox(&self.prev, &cur, w, h) {
            None => {
                proof {
                    let blocks = before.drop_last().push(held(before.last(), self.delay as nat));
                    assert(stored(shown, w as int, h as int, self.delay as nat) == blocks);
                    assert(blocks.drop_last() =~= before.drop_last());
                }
                self.pending.delay_cs = self.pending.delay_cs + self.delay as u32;
                self.shown = Ghost(shown);
                assert(self.pending@ =~= self.blocks().last());
                Ok(())
            },
            Some(b) => {
                match self.flush() {
                    Ok(_) => {},
                    Err(e) => return Err(e),
                }
                let delay: u16 = self.delay;
                let frame = delta_frame(&self.prev, &cur, w, h, b, delay as u32);
                proof {
                    let blocks = before.push(frame@);
                    assert(stored(shown, w as int, h as int, delay as nat) == blocks);
                    assert(blocks.drop_last() =~= before);
                    let bw = b.x1 - b.x0;
                    let bh = b.y1 - b.y0;
                    assert(frame.buffer@.len() == bw * bh);
                    assert(1 * self.delay <= shown.len() * self.delay) by (nonlinear_arith)
                        requires
                            shown.len() >= 1,
                    ;
                }
                self.pending = frame;
                self.prev = cur;
                self.shown = Ghost(shown);
                Ok(())
            },
        }
    }

    /// End the GIF and hand out the file.
    fn finish(self) -> (r: Result<Vec<u8>, EncodeError>)
        requires
            self.wf(),
        ensures
            r is Err ==> is_out_of_memory(r->Err_0),
            r matches Ok(file) ==> file@ == gif_file(self.header@, gif_frames_of(self.blocks())),
    {
        let mut s = self;
        match s.flush() {
            Ok(_) => {},
            Err(e) => return Err(e),
        }
        match gif_finish(s.encoder) {
            Ok(file) => Ok(file),
            Err(e) => Err(EncodeError::Gif(e.to_string())),
        }
    }
}

/// Encode RGBA `frames` into an animated GIF with a global palette and delta-rectangle
/// frames.
///
/// Honors `settings.fps` (frame delay), `settings.width` (downscale cap) and
/// `settings.quality` (palette quantization effort). Loops infinitely. There must be
/// frames, of one size, with pixels; beyond that only memory can run out.
pub fn export_gif_native(frames: &[RgbaImage], settings: &GifSettings) -> (r: Result<
    Vec<u8>,
    EncodeError,
>)
    requires
        forall|i: int| 0 <= i < frames@.len() ==> #[trigger] frames@[i]@.valid(),
        forall|i: int|
            0 <= i < frames@.len() ==> fits_gif(#[trigger] capped(frames@[i]@, settings.width)),
        frames@.len() * delay_for(settings.fps) <= u32::MAX,
    ensures
        ({
            let given = images(frames@);
            let imgs = capped_all(given, settings.width);
            match r {
                Ok(file) => {
                    &&& given.len() > 0
                    &&& same_size(given)
                    &&& given[0].width > 0
                    &&& given[0].height > 0
                    &&& file@ == gif_of(imgs, imgs, *settings)
                },
                Err(e) => encode_fault(given, e),
            }
        }),
{
    if frames.len() == 0 {
        return Err(EncodeError::NoFrames);
    }
    let ghost given = images(frames@);
    let ghost imgs = capped_all(given, settings.width);
    let mut i: usize = 0;
    while i < frames.len()
        invariant
            i <= frames@.len(),
            frames@.len() > 0,
            given == images(frames@),
            forall|k: int|
                0 <= k < i ==> (#[trigger] given[k]).width == frames@[0].width && given[k].height
                    == frames@[0].height,
        decreases frames@.len() - i,
    {
        proof {
            assert(given[i as int] == frames@[i as int]@);
            assert(given[0] == frames@[0]@);
        }
        if frames[i].width != frames[0].width || frames[i].height != frames[0].height {
            assert(!same_size(given)) by {
                assert(given[i as int].width == frames@[i as int].width);
            }
            return Err(EncodeError::Gif("frame dimensions differ".to_owned()));
        }
        i += 1;
    }
    assert(same_size(given));
    assert(given[0] == frames@[0]@);
    if frames[0].width == 0 || frames[0].height == 0 {
        return Err(EncodeError::Gif("zero-size frame".to_owned()));
    }
    let mut scaled: Vec<RgbaImage> = Vec::new();
    i = 0;
    while i < frames.len()
        invariant
            i <= frames@.len(),
            given == images(frames@),
            imgs == capped_all(given, settings.width),
            forall|k: int| 0 <= k < frames@.len() ==> #[trigger] frames@[k]@.valid(),
            scaled@.len() == i,
            forall|k: int| 0 <= k < i ==> #[trigger] scaled@[k]@ == imgs[k],
        decreases frames@.len() - i,
    {
        assert(frames@[i as int]@.valid());
        scaled.push(cap_width(&frames[i], settings.width));
        i += 1;
    }
    proof {
        assert(images(scaled@) =~= imgs);
        assert(scaled@[0]@ == imgs[0]);
        assert(frames@[0]@.valid());
        assert forall|k: int| 0 <= k < imgs.len() implies #[trigger] imgs[k].width == imgs[0].width
            && imgs[k].height == imgs[0].height by {
            assert(given[k].width == given[0].width);
            lemma_capped_size(given[k], given[0], settings.width);
        }
        lemma_capped_size(given[0], given[0], settings.width);
    }
    let w: u32 = scaled[0].width;
    let h: u32 = scaled[0].height;
    proof {
        assert forall|k: int| 0 <= k < imgs.len() implies fits_gif(#[trigger] imgs[k]) by {
            assert(imgs[k] == capped(frames@[k]@, settings.width));
        }
    }
    let quant = GlobalQuantizer::train(&scaled, quality_to_speed(settings.quality));
    let ghost network = quant.network();
    let mut stream = match GifStream::start(quant, &scaled[0], settings.fps) {
        Ok(s) => s,
        Err(e) => return Err(e),
    };
    let ghost header = stream.header@;
    i = 1;
    assert(stream.shown@ =~= indexed_all(network, imgs).take(1));
    while i < scaled.len()
        invariant
            1 <= i <= scaled@.len(),
            scaled@.len() == imgs.len(),
            given == images(frames@),
            imgs == capped_all(given, settings.width),
            same_size(given),
            given[0].width > 0,
            given[0].height > 0,
            w > 0,
            h > 0,
            imgs.len() > 0,
            imgs.len() * delay_for(settings.fps) <= u32::MAX,
            w == imgs[0].width,
            h == imgs[0].height,
            forall|k: int| 0 <= k < scaled@.len() ==> #[trigger] scaled@[k]@ == imgs[k],
            same_size(imgs),
            forall|k: int| 0 <= k < imgs.len() ==> fits_gif(#[trigger] imgs[k]),
            stream.wf(),
            stream.quant.network() == network,
            stream.width == w,
            stream.height == h,
            stream.delay == delay_for(settings.fps),
            stream.header@ == header,
            stream.shown@ == indexed_all(network, imgs).take(i as int),
        decreases scaled@.len() - i,
    {
        proof {
            assert(scaled@[i as int]@ == imgs[i as int]);
            let d = delay_for(settings.fps);
            assert(i * d + d <= imgs.len() * d) by (nonlinear_arith)
                requires
                    i + 1 <= imgs.len(),
            ;
        }
        match stream.push(&scaled[i]) {
            Ok(_) => {},
            Err(e) => return Err(e),
        }
        proof {
            assert(indexed_all(network, imgs).take(i + 1) =~= indexed_all(network, imgs).take(
                i as int,
            ).push(indexed(network, imgs[i as int])));
        }
        i += 1;
    }
    proof {
        assert(indexed_all(network, imgs).take(i as int) =~= indexed_all(network, imgs));
    }
    stream.finish()
}

/// How many frames a clip's palette is trained on.
pub open spec fn sample_count(count: int) -> int {
    if count < PALETTE_SAMPLE_FRAMES {
        count
    } else {
        PALETTE_SAMPLE_FRAMES as int
    }
}

/// Which frame the `s`th sample is: the samples are spread from the first frame to the
/// last.
pub open spec fn sample_frame(s: int, count: int) -> int {
    if sample_count(count) <= 1 {
        0
    } else {
        s * (count - 1) / (sample_count(count) - 1)
    }
}

/// Which frames are asked for to encode a clip: the palette's samples, then every frame in
/// turn.
pub open spec fn asks(count: int) -> Seq<usize> {
    Seq::new(
        (sample_count(count) + count) as nat,
        |k: int|
            if k < sample_count(count) {
                sample_frame(k, count) as usize
            } else {
                (k - sample_count(count)) as usize
            },
    )
}

/// The progress that is reported while a clip is encoded: one tick for each frame asked for,
/// out of all of them.
pub open spec fn ticks(count: int) -> Seq<(usize, usize)> {
    let total = sample_count(count) + count;
    Seq::new(total as nat, |k: int| ((k + 1) as usize, total as usize))
}

/// Whether a log went on as planned: to the end of the plan if all is done, to some part of
/// it otherwise.
pub open spec fn went_on<T>(before: Seq<T>, after: Seq<T>, plan: Seq<T>, done: bool) -> bool {
    let n = after.len() - before.len();
    &&& 0 <= n <= plan.len()
    &&& after == before + plan.take(n)
    &&& done ==> n == plan.len()
}

/// A log that went on as planned up to `n` takes the next entry of the plan.
proof fn lemma_goes_on<T>(before: Seq<T>, plan: Seq<T>, n: int)
    requires
        0 <= n < plan.len(),
    ensures
        (before + plan.take(n)).push(plan[n]) == before + plan.take(n + 1),
{
    assert((before + plan.take(n)).push(plan[n]) =~= before + plan.take(n + 1));
}

/// Hands out the frames of a clip, and remembers which were asked for.
pub struct FrameSource<F> {
    frame: F,
    asked: Ghost<Seq<usize>>,
}

impl<F: Fn(usize) -> Result<RgbaImage, String>> FrameSource<F> {
    /// What makes the frames.
    pub closed spec fn maker(&self) -> F {
        self.frame
    }

    /// The frames that were asked for, in order.
    pub closed spec fn asked(&self) -> Seq<usize> {
        self.asked@
    }

    /// Frames made by `frame`.
    pub fn new(frame: F) -> (s: Self)
        ensures
            s.maker() == frame,
            s.asked() == Seq::<usize>::empty(),
    {
        FrameSource { frame, asked: Ghost(Seq::empty()) }
    }

    /// Ask for a frame.
    pub fn ask(&mut self, i: usize) -> (r: Result<RgbaImage, String>)
        requires
            call_requires(old(self).maker(), (i,)),
        ensures
            call_ensures(old(self).maker(), (i,), r),
            final(self).maker() == old(self).maker(),
            final(self).asked() == old(self).asked().push(i),
    {
        let r = (self.frame)(i);
        self.asked = Ghost(self.asked@.push(i));
        r
    }
}

/// Where progress is reported, with what was reported so far.
pub struct ProgressSink<P> {
    report: P,
    seen: Ghost<Seq<(usize, usize)>>,
}

impl<P: Fn(usize, usize)> ProgressSink<P> {
    /// What is told of progress.
    pub closed spec fn listener(&self) -> P {
        self.report
    }

    /// What was reported, in order.
    pub closed spec fn seen(&self) -> Seq<(usize, usize)> {
        self.seen@
    }

    /// Progress is reported to `report`.
    pub fn new(report: P) -> (s: Self)
        ensures
            s.listener() == report,
            s.seen() == Seq::<(usize, usize)>::empty(),
    {
        ProgressSink { report, seen: Ghost(Seq::empty()) }
    }

    /// Report that `done` of `total` are done.
    pub fn tick(&mut self, done: usize, total: usize)
        requires
            call_requires(old(self).listener(), (done, total)),
        ensures
            call_ensures(old(self).listener(), (done, total), ()),
            final(self).listener() == old(self).listener(),
            final(self).seen() == old(self).seen().push((done, total)),
    {
        (self.report)(done, total);
        self.seen = Ghost(self.seen@.push((done, total)));
    }
}

/// Whether `img` is what `frame` can hand out for index `i`.
pub open spec fn handed_out<F: Fn(usize) -> Result<RgbaImage, String>>(
    frame: F,
    i: int,
    img: Image,
) -> bool {
    exists|raw: RgbaImage|
        #[trigger] call_ensures(frame, (i as usize,), Ok::<RgbaImage, String>(raw)) && img == raw@
}

/// Whether `frame` can hand out these images for the first frames that a clip asks for.
pub open spec fn handed_in_turn<F: Fn(usize) -> Result<RgbaImage, String>>(
    frame: F,
    count: int,
    got: Seq<Image>,
) -> bool {
    &&& got.len() <= asks(count).len()
    &&& forall|k: int|
        0 <= k < got.len() ==> handed_out(frame, asks(count)[k] as int, #[trigger] got[k])
}

/// Whether the images handed out so far can make a GIF: they have one size, and hold pixels
/// once the palette's samples are all there.
pub open spec fn good_so_far(count: int, got: Seq<Image>) -> bool {
    &&& same_size(got)
    &&& got.len() >= sample_count(count) ==> got[0].width > 0 && got[0].height > 0
}

/// A sample is one of the clip's frames.
proof fn lemma_sample_frame(s: int, count: int)
    requires
        0 <= s < sample_count(count),
    ensures
        0 <= sample_frame(s, count) < count,
        0 <= s * (count - 1) <= 47 * (count - 1),
{
    assert(0 <= s * (count - 1) <= 47 * (count - 1)) by (nonlinear_arith)
        requires
            0 <= s <= 47,
            count >= 1,
    ;
    if sample_count(count) > 1 {
        let n = sample_count(count) - 1;
        assert(0 <= s * (count - 1) / n <= count - 1) by (nonlinear_arith)
            requires
                0 <= s <= n,
                n >= 1,
                count >= 1,
        ;
    }
}

/// Whether a frame was refused with this message.
pub open spec fn refused<F: Fn(usize) -> Result<RgbaImage, String>>(
    frame: F,
    i: int,
    m: Seq<char>,
) -> bool {
    exists|e: String|
        e@ == m && #[trigger] call_ensures(frame, (i as usize,), Err::<RgbaImage, String>(e))
}

/// Whether a clip cannot be encoded, for the reason that a message gives, once `n` frames
/// were asked for and these images handed out: all was good until the last of them, which was
/// refused, differs in size from the first, or is the last sample of images without pixels.
pub open spec fn clip_fault<F: Fn(usize) -> Result<RgbaImage, String>>(
    frame: F,
    count: int,
    n: int,
    got: Seq<Image>,
    m: Seq<char>,
) -> bool {
    ||| {
        &&& n == got.len() + 1 <= asks(count).len()
        &&& good_so_far(count, got)
        &&& refused(frame, asks(count)[n - 1] as int, m)
    }
    ||| {
        &&& n == got.len() >= 2
        &&& good_so_far(count, got.drop_last())
        &&& got.last().width != got[0].width || got.last().height != got[0].height
        &&& m == "frame dimensions differ"@
    }
    ||| {
        &&& n == got.len() == sample_count(count)
        &&& same_size(got)
        &&& got[0].width == 0 || got[0].height == 0
        &&& m == "zero-size frame"@
    }
}

/// Whether a clip is being encoded once `n` frames were asked for and these images handed
/// out: the palette is trained, and all images are good.
pub open spec fn under_way(count: int, n: int, got: Seq<Image>) -> bool {
    &&& n == got.len() > sample_count(count)
    &&& good_so_far(count, got)
}

/// Whether an error says why a clip could not be encoded once `n` frames were asked for:
/// there are no frames, the clip itself is at fault, or memory ran out while it was encoded.
pub open spec fn stream_fault<F: Fn(usize) -> Result<RgbaImage, String>>(
    frame: F,
    count: int,
    n: int,
    e: EncodeError,
) -> bool {
    match e {
        EncodeError::NoFrames => count == 0 && n == 0,
        EncodeError::Gif(m) => {
            &&& count > 0
            &&& exists|got: Seq<Image>| #[trigger]
                handed_in_turn(frame, count, got) && (clip_fault(frame, count, n, got, m@) || (
                under_way(count, n, got) && is_out_of_memory(e)))
        },
        _ => false,
    }
}

/// Ask for one frame.
fn pull<F: Fn(usize) -> Result<RgbaImage, String>>(source: &mut FrameSource<F>, i: usize) -> (r:
    Result<RgbaImage, EncodeError>)
    requires
        call_requires(old(source).maker(), (i,)),
    ensures
        final(source).maker() == old(source).maker(),
        final(source).asked() == old(source).asked().push(i),
        r is Err ==> r->Err_0 is Gif,
        r matches Err(EncodeError::Gif(m)) ==> call_ensures(
            old(source).maker(),
            (i,),
            Err::<RgbaImage, String>(m),
        ),
        r matches Ok(img) ==> call_ensures(
            old(source).maker(),
            (i,),
            Ok::<RgbaImage, String>(img),
        ) && handed_out(old(source).maker(), i as int, img@),
{
    match source.ask(i) {
        Ok(raw) => {
            assert(call_ensures(
                old(source).maker(),
                ((i as int) as usize,),
                Ok::<RgbaImage, String>(raw),
            ));
            Ok(raw)
        },
        Err(m) => Err(EncodeError::Gif(m)),
    }
}

/// Streaming variant of [`export_gif_native`] for long clips: frames are pulled one at a
/// time from `frames`, and only the current and the previous indexed frame stay in memory.
///
/// `frames` hands out output frames at full output resolution, and is asked for the samples
/// that the palette is trained on and then for every frame in turn, so for some frames
/// twice. `progress` hears of each of them once it is dealt with, while the palette is sampled
/// and while frames are encoded. Zero frames, a frame that is refused, frames of different
/// sizes or without pixels, and an encoder out of memory are errors.
pub fn export_gif_native_streaming<
    F: Fn(usize) -> Result<RgbaImage, String>,
    P: Fn(usize, usize),
>(
    count: usize,
    frames: &mut FrameSource<F>,
    settings: &GifSettings,
    progress: &mut ProgressSink<P>,
) -> (r: Result<Vec<u8>, EncodeError>)
    requires
        forall|i: usize| i < count ==> #[trigger] call_requires(old(frames).maker(), (i,)),
        forall|i: usize, img: RgbaImage|
            i < count && #[trigger] call_ensures(
                old(frames).maker(),
                (i,),
                Ok::<RgbaImage, String>(img),
            ) ==> img@.valid() && fits_gif(capped(img@, settings.width)),
        forall|done: usize, total: usize| #[trigger]
            call_requires(old(progress).listener(), (done, total)),
        count * delay_for(settings.fps) <= u32::MAX,
    ensures
        final(frames).maker() == old(frames).maker(),
        final(progress).listener() == old(progress).listener(),
        went_on(old(frames).asked(), final(frames).asked(), asks(count as int), r is Ok),
        went_on(old(progress).seen(), final(progress).seen(), ticks(count as int), r is Ok),
        ({
            let asked = final(frames).asked().len() - old(frames).asked().len();
            let ticked = final(progress).seen().len() - old(progress).seen().len();
            asked - 1 <= ticked <= asked
        }),
        match r {
            Ok(file) => {
                &&& count > 0
                &&& exists|got: Seq<Image>|
                    {
                        let n = sample_count(count as int);
                        &&& #[trigger] handed_in_turn(old(frames).maker(), count as int, got)
                        &&& got.len() == n + count
                        &&& good_so_far(count as int, got)
                        &&& file@ == gif_of(
                            capped_all(got.take(n), settings.width),
                            capped_all(got.skip(n), settings.width),
                            *settings,
                        )
                    }
            },
            Err(e) => stream_fault(
                old(frames).maker(),
                count as int,
                final(frames).asked().len() - old(frames).asked().len(),
                e,
            ),
        },
{
    let ghost asked = frames.asked();
    let ghost seen = progress.seen();
    let ghost maker = frames.maker();
    let ghost listener = progress.listener();
    let ghost to_ask = asks(count as int);
    let ghost to_tick = ticks(count as int);
    assert(asked =~= asked + to_ask.take(0));
    assert(seen =~= seen + to_tick.take(0));
    if count == 0 {
        return Err(EncodeError::NoFrames);
    }
    proof {
        let d = delay_for(settings.fps);
        assert(count * 2 <= count * d) by (nonlinear_arith)
            requires
                d >= 2,
                count >= 0,
        ;
    }
    let width: Option<u32> = settings.width;
    let samples_wanted: usize = if count < PALETTE_SAMPLE_FRAMES {
        count
    } else {
        PALETTE_SAMPLE_FRAMES
    };
    assert(count < 0x8000_0000);
    let total_work: usize = samples_wanted + count;
    let mut samples: Vec<RgbaImage> = Vec::with_capacity(samples_wanted);
    let ghost mut got: Seq<Image> = Seq::empty();
    let mut w: u32 = 0;
    let mut h: u32 = 0;
    let mut s: usize = 0;
    while s < samples_wanted
        invariant
            0 < count < 0x8000_0000,
            samples_wanted == sample_count(count as int),
            total_work == samples_wanted + count,
            width == settings.width,
            to_ask == asks(count as int),
            to_tick == ticks(count as int),
            frames.maker() == maker,
            progress.listener() == listener,
            frames.asked() == asked + to_ask.take(s as int),
            progress.seen() == seen + to_tick.take(s as int),
            asked == old(frames).asked(),
            seen == old(progress).seen(),
            maker == old(frames).maker(),
            listener == old(progress).listener(),
            forall|i: usize| i < count ==> #[trigger] call_requires(maker, (i,)),
            forall|i: usize, img: RgbaImage|
                i < count && #[trigger] call_ensures(maker, (i,), Ok::<RgbaImage, String>(img))
                    ==> img@.valid() && fits_gif(capped(img@, width)),
            forall|done: usize, total: usize| #[trigger] call_requires(listener, (done, total)),
            s <= samples_wanted,
            samples@.len() == s,
            got.len() == s,
            handed_in_turn(maker, count as int, got),
            forall|k: int| 0 <= k < s ==> (#[trigger] samples@[k])@ == capped(got[k], width),
            forall|k: int| 0 <= k < s ==> (#[trigger] got[k]).width == w && got[k].height == h,
        decreases samples_wanted - s,
    {
        proof {
            lemma_sample_frame(s as int, count as int);
            lemma_goes_on(asked, to_ask, s as int);
            lemma_goes_on(seen, to_tick, s as int);
            lemma_same_size(got, w, h);
        }
        let i: usize = if samples_wanted <= 1 {
            0
        } else {
            ((s as u64) * ((count - 1) as u64) / ((samples_wanted - 1) as u64)) as usize
        };
        assert(to_ask[s as int] == i);
        let img = match pull(frames, i) {
            Ok(img) => img,
            Err(e) => {
                assert(clip_fault(maker, count as int, s + 1, got, e->Gif_0@));
                return Err(e);
            },
        };
        let ghost longer = got.push(img@);
        assert(handed_in_turn(maker, count as int, longer)) by {
            lemma_handed(maker, count as int, got, img@);
        }
        assert(longer.drop_last() =~= got);
        if s == 0 {
            w = img.width;
            h = img.height;
        } else if img.width != w || img.height != h {
            proof {
                assert(got[0].width == w);
                assert(longer[0] == got[0]);
                assert(clip_fault(
                    maker,
                    count as int,
                    s + 1,
                    longer,
                    "frame dimensions differ"@,
                ));
            }
            return Err(EncodeError::Gif("frame dimensions differ".to_owned()));
        }
        proof {
            got = longer;
        }
        samples.push(cap_width(&img, width));
        s += 1;
        progress.tick(s, total_work);
    }
    proof {
        lemma_same_size(got, w, h);
        assert(got[0].width == w);
    }
    if w == 0 || h == 0 {
        assert(clip_fault(maker, count as int, s as int, got, "zero-size frame"@));
        return Err(EncodeError::Gif("zero-size frame".to_owned()));
    }
    let ghost given = got;
    let ghost sample_imgs = capped_all(given, width);
    proof {
        assert(images(samples@) =~= sample_imgs);
        lemma_capped_size(given[0], given[0], width);
    }
    let quant = GlobalQuantizer::train(&samples, quality_to_speed(settings.quality));
    let ghost network = quant.network();
    proof {
        lemma_goes_on(asked, to_ask, s as int);
        lemma_goes_on(seen, to_tick, s as int);
    }
    let first = match pull(frames, 0) {
        Ok(img) => img,
        Err(e) => {
            assert(clip_fault(maker, count as int, s + 1, got, e->Gif_0@));
            return Err(e);
        },
    };
    let ghost longer = got.push(first@);
    assert(handed_in_turn(maker, count as int, longer)) by {
        lemma_handed(maker, count as int, got, first@);
    }
    assert(longer.drop_last() =~= got);
    assert(longer[0] == got[0]);
    if first.width != w || first.height != h {
        assert(clip_fault(maker, count as int, s + 1, longer, "frame dimensions differ"@));
        return Err(EncodeError::Gif("frame dimensions differ".to_owned()));
    }
    let scaled = cap_width(&first, width);
    proof {
        got = longer;
        lemma_capped_size(first@, given[0], width);
    }
    let mut stream = match GifStream::start(quant, &scaled, settings.fps) {
        Ok(s) => s,
        Err(e) => return Err(e),
    };
    progress.tick(s + 1, total_work);
    let ghost header = stream.header@;
    assert(got.take(s as int) =~= given);
    assert(got.skip(s as int) =~= seq![first@]);
    assert(stream.shown@ =~= indexed_all(network, capped_all(got.skip(s as int), width)));
    let mut i: usize = 1;
    while i < count
        invariant
            1 <= i <= count,
            count < 0x8000_0000,
            count * delay_for(settings.fps) <= u32::MAX,
            s == sample_count(count as int),
            total_work == s + count,
            width == settings.width,
            w > 0,
            h > 0,
            to_ask == asks(count as int),
            to_tick == ticks(count as int),
            frames.maker() == maker,
            progress.listener() == listener,
            frames.asked() == asked + to_ask.take(s + i),
            progress.seen() == seen + to_tick.take(s + i),
            asked == old(frames).asked(),
            seen == old(progress).seen(),
            maker == old(frames).maker(),
            listener == old(progress).listener(),
            forall|k: usize| k < count ==> #[trigger] call_requires(maker, (k,)),
            forall|k: usize, img: RgbaImage|
                k < count && #[trigger] call_ensures(maker, (k,), Ok::<RgbaImage, String>(img))
                    ==> img@.valid() && fits_gif(capped(img@, width)),
            forall|done: usize, total: usize| #[trigger] call_requires(listener, (done, total)),
            got.len() == s + i,
            handed_in_turn(maker, count as int, got),
            forall|k: int|
                0 <= k < got.len() ==> (#[trigger] got[k]).width == w && got[k].height == h,
            got.take(s as int) == given,
            stream.wf(),
            stream.quant.network() == network,
            stream.width == capped(got[0], width).width,
            stream.height == capped(got[0], width).height,
            stream.delay == delay_for(settings.fps),
            stream.header@ == header,
            stream.shown@ == indexed_all(network, capped_all(got.skip(s as int), width)),
        decreases count - i,
    {
        proof {
            lemma_goes_on(asked, to_ask, s + i);
            lemma_goes_on(seen, to_tick, s + i);
            lemma_same_size(got, w, h);
            assert(got[0].width == w);
        }
        let img = match pull(frames, i) {
            Ok(img) => img,
            Err(e) => {
                assert(clip_fault(maker, count as int, s + i + 1, got, e->Gif_0@));
                return Err(e);
            },
        };
        let ghost longer = got.push(img@);
        assert(handed_in_turn(maker, count as int, longer)) by {
            lemma_handed(maker, count as int, got, img@);
        }
        assert(longer.drop_last() =~= got);
        assert(longer[0] == got[0]);
        if img.width != w || img.height != h {
            assert(clip_fault(
                maker,
                count as int,
                s + i + 1,
                longer,
                "frame dimensions differ"@,
            ));
            return Err(EncodeError::Gif("frame dimensions differ".to_owned()));
        }
        let scaled = cap_width(&img, width);
        proof {
            let d = delay_for(settings.fps);
            assert(i * d + d <= count * d) by (nonlinear_arith)
                requires
                    i + 1 <= count,
            ;
            lemma_capped_size(img@, got[0], width);
        }
        match stream.push(&scaled) {
            Ok(_) => {},
            Err(e) => {
                proof {
                    lemma_same_size(longer, w, h);
                    assert(under_way(count as int, s + i + 1, longer));
                }
                return Err(e);
            },
        }
        proof {
            assert(longer.skip(s as int) =~= got.skip(s as int).push(img@));
            assert(longer.take(s as int) =~= got.take(s as int));
            assert(indexed_all(network, capped_all(longer.skip(s as int), width)) =~= indexed_all(
                network,
                capped_all(got.skip(s as int), width),
            ).push(indexed(network, scaled@)));
            got = longer;
        }
        i += 1;
        progress.tick(s + i, total_work);
    }
    let done = stream.finish();
    proof {
        lemma_same_size(got, w, h);
        assert(got[0].width == w);
        let clip = capped_all(got.skip(s as int), width);
        assert(clip[0] == capped(got[s as int], width));
        assert(got[s as int].width == w);
        lemma_capped_size(got[s as int], got[0], width);
        assert(done is Ok ==> done->Ok_0@ == gif_of(sample_imgs, clip, *settings));
        assert(good_so_far(count as int, got));
        assert(under_way(count as int, s + i, got));
        assert(to_ask.take(s + i) =~= to_ask);
        assert(to_tick.take(s + i) =~= to_tick);
    }
    done
}

/// Images that all have one size have the size of the first.
proof fn lemma_same_size(imgs: Seq<Image>, w: u32, h: u32)
    requires
        forall|k: int| 0 <= k < imgs.len() ==> (#[trigger] imgs[k]).width == w && imgs[k].height == h,
    ensures
        same_size(imgs),
{
    assert forall|k: int| 0 <= k < imgs.len() implies #[trigger] imgs[k].width == imgs[0].width
        && imgs[k].height == imgs[0].height by {
        assert(imgs[0].width == w);
    }
}

/// The image handed out next goes on the list.
proof fn lemma_handed<F: Fn(usize) -> Result<RgbaImage, String>>(
    frame: F,
    count: int,
    got: Seq<Image>,
    img: Image,
)
    requires
        handed_in_turn(frame, count, got),
        got.len() < asks(count).len(),
        handed_out(frame, asks(count)[got.len() as int] as int, img),
    ensures
        handed_in_turn(frame, count, got.push(img)),
{
    let longer = got.push(img);
    assert forall|k: int| 0 <= k < longer.len() implies handed_out(
        frame,
        asks(count)[k] as int,
        #[trigger] longer[k],
    ) by {
        if k < got.len() {
            assert(longer[k] == got[k]);
        }
    }
}

/// Whether frames are always answered alike: with the same picture, or refused in the same
/// words.
pub open spec fn answers_alike<F: Fn(usize) -> Result<RgbaImage, String>>(frame: F) -> bool {
    forall|i: usize, a: Result<RgbaImage, String>, b: Result<RgbaImage, String>|
        #[trigger] call_ensures(frame, (i,), a) && #[trigger] call_ensures(frame, (i,), b) ==> {
            match (a, b) {
                (Ok(p), Ok(q)) => p@ == q@,
                (Err(p), Err(q)) => p@ == q@,
                _ => false,
            }
        }
}

/// A clip that is itself at fault is never encoded, and fails for that fault and no other:
/// whatever images were handed out, there is no other fault to report, and all of them are
/// not good. Memory can only run out before the fault is reached, so never while the palette
/// is sampled.
pub proof fn faults_are_reported<F: Fn(usize) -> Result<RgbaImage, String>>(
    frame: F,
    count: int,
    n: int,
    got: Seq<Image>,
    m: Seq<char>,
    other_n: int,
    other: Seq<Image>,
    other_m: Seq<char>,
)
    requires
        count > 0,
        answers_alike(frame),
        handed_in_turn(frame, count, got),
        clip_fault(frame, count, n, got, m),
        handed_in_turn(frame, count, other),
    ensures
        clip_fault(frame, count, other_n, other, other_m) ==> other_n == n && other_m == m,
        under_way(count, other_n, other) ==> sample_count(count) < other_n < n,
        !(good_so_far(count, other) && other.len() == asks(count).len()),
{
    lemma_agree(frame, count, got, other);
    if got.len() < other.len() {
        lemma_fault_stops(frame, count, n, got, m, other);
    }
    if clip_fault(frame, count, other_n, other, other_m) {
        lemma_agree(frame, count, other, got);
        if other.len() < got.len() {
            lemma_fault_stops(frame, count, other_n, other, other_m, got);
        }
        assert(got.len() == other.len() ==> got =~= other);
    }
    if got.len() >= 2 {
        assert(got[got.len() - 1].width == got.last().width);
        assert(got.drop_last()[0] == got[0]);
    }
    if other.len() >= got.len() && got.len() > 0 {
        assert(other[got.len() - 1].width == got.last().width);
        assert(other[0] == got[0]);
    }
    if 0 < other.len() <= got.len() {
        assert(other[0] == got[0]);
        assert(got[other.len() - 1].width == other.last().width);
    }
    if refused(frame, asks(count)[got.len() as int] as int, m) && refused(
        frame,
        asks(count)[got.len() as int] as int,
        other_m,
    ) {
        assert(m == other_m);
    }
}

/// Images handed out for the same frames are the same.
proof fn lemma_agree<F: Fn(usize) -> Result<RgbaImage, String>>(
    frame: F,
    count: int,
    got: Seq<Image>,
    other: Seq<Image>,
)
    requires
        answers_alike(frame),
        handed_in_turn(frame, count, got),
        handed_in_turn(frame, count, other),
    ensures
        forall|k: int|
            0 <= k < got.len() && k < other.len() ==> #[trigger] got[k] == #[trigger] other[k],
{
    assert forall|k: int| 0 <= k < got.len() && k < other.len() implies #[trigger] got[k]
        == #[trigger] other[k] by {
        assert(handed_out(frame, asks(count)[k] as int, got[k]));
        assert(handed_out(frame, asks(count)[k] as int, other[k]));
    }
}

/// Nothing good is handed out past a fault: a longer list is itself at fault there, and at no
/// later place.
proof fn lemma_fault_stops<F: Fn(usize) -> Result<RgbaImage, String>>(
    frame: F,
    count: int,
    n: int,
    got: Seq<Image>,
    m: Seq<char>,
    longer: Seq<Image>,
)
    requires
        count > 0,
        answers_alike(frame),
        handed_in_turn(frame, count, got),
        clip_fault(frame, count, n, got, m),
        handed_in_turn(frame, count, longer),
        got.len() < longer.len(),
    ensures
        !good_so_far(count, longer),
        !good_so_far(count, longer.drop_last()),
        longer.len() > sample_count(count) || !same_size(longer),
{
    lemma_agree(frame, count, got, longer);
    let k = got.len() as int;
    if n == k + 1 {
        assert(handed_out(frame, asks(count)[k] as int, longer[k]));
    } else {
        let shorter = longer.drop_last();
        assert(longer[0] == got[0] && shorter[0] == got[0]);
        if got.last().width != got[0].width || got.last().height != got[0].height {
            assert(longer[k - 1].width == got.last().width);
            assert(shorter[k - 1].width == got.last().width);
        }
    }
}

/// A GIF plays its frames: playing back the blocks stored for a clip shows the palette indices
/// of every frame in turn, each for its own time, whatever palette was trained.
pub proof fn a_gif_plays_its_frames(quant: NeuQuant, imgs: Seq<Image>, fps: u32, blank: Seq<u8>)
    requires
        imgs.len() > 0,
        same_size(imgs),
        forall|i: int| 0 <= i < imgs.len() ==> fits_gif(#[trigger] imgs[i]),
        imgs[0].width > 0,
        imgs[0].height > 0,
        blank.len() == imgs[0].width * imgs[0].height,
    ensures
        playback(
            blank,
            stored(
                indexed_all(quant, imgs),
                imgs[0].width as int,
                imgs[0].height as int,
                delay_for(fps),
            ),
            imgs[0].width as int,
            delay_for(fps),
        ) == indexed_all(quant, imgs),
{
    let w = imgs[0].width as int;
    let h = imgs[0].height as int;
    let frames = indexed_all(quant, imgs);
    assert forall|k: int| 0 <= k < frames.len() implies #[trigger] frames[k].len() == w * h by {
        assert(fits_gif(imgs[k]));
        assert(imgs[k].width == imgs[0].width);
    }
    assert forall|k: int, i: int|
        0 <= k < frames.len() && 0 <= i < w * h implies #[trigger] frames[k][i]
        != TRANSPARENT_INDEX by {
        indices_are_opaque(quant, imgs[k]);
        assert(frames[k].len() == w * h);
    }
    playback_restores_frames(frames, w, h, delay_for(fps), blank);
}

/// Better quality never samples faster: at worst every thirtieth color is looked at, at best
/// every one.
pub proof fn better_quality_samples_more(a: u8, b: u8)
    requires
        a <= b,
    ensures
        speed_for(b) <= speed_for(a),
        speed_for(0) == 30,
        b >= 100 ==> speed_for(b) == 1,
        a <= 100 ==> 100 * (30 - speed_for(a)) <= 29 * a < 100 * (31 - speed_for(a)),
{
}

/// A frame is shown for its share of a second, rounded to hundredths, and for two at least.
pub proof fn delays_go_with_the_rate(fps: u32)
    requires
        fps >= 1,
    ensures
        delay_for(fps) >= 2,
        delay_for(fps) > 2 ==> -(fps as int) <= 2 * (delay_for(fps) * fps - 100) <= fps,
        delay_for(fps) == 2 ==> 2 * 100 <= 5 * fps,
{
    let f = fps as int;
    let d = (100 + f / 2) / f;
    let h = f / 2;
    assert(d * f <= 100 + h < (d + 1) * f) by (nonlinear_arith)
        requires
            d == (100 + h) / f,
            f >= 1,
    ;
    assert((d + 1) * f == d * f + f) by (nonlinear_arith);
    assert(d <= 2 ==> (d + 1) * f <= 3 * f) by (nonlinear_arith)
        requires
            f >= 1,
    ;
}

/// Sampled frames are spread evenly over the clip, in order, from its first frame to its last,
/// and there are as many as aimed for, or all.
pub proof fn samples_span_the_clip(count: int, s: int, r: int)
    requires
        count >= 2,
        0 <= s <= r < sample_count(count),
    ensures
        sample_count(count) == (if count < 48 {
            count
        } else {
            48
        }),
        sample_frame(0, count) == 0,
        sample_frame(sample_count(count) - 1, count) == count - 1,
        0 <= sample_frame(s, count) <= sample_frame(r, count) < count,
        count <= 48 ==> sample_frame(s, count) == s,
        ({
            let n = sample_count(count) - 1;
            let f = sample_frame(s, count);
            f * n <= s * (count - 1) < (f + 1) * n
        }),
{
    let n = sample_count(count) - 1;
    let c = count - 1;
    lemma_spread(s, c, n);
    lemma_spread(r, c, n);
    lemma_spread(0, c, n);
    lemma_spread(n, c, n);
    let a = s * c;
    let b = r * c;
    assert(a <= b && b <= n * c) by (nonlinear_arith)
        requires
            a == s * c,
            b == r * c,
            s <= r <= n,
            c >= 0,
    ;
    vstd::arithmetic::div_mod::lemma_div_is_ordered(a, b, n);
    vstd::arithmetic::div_mod::lemma_div_is_ordered(b, n * c, n);
}

/// An even share of a length.
proof fn lemma_spread(s: int, c: int, n: int)
    requires
        0 <= s <= n,
        0 <= c,
        n >= 1,
    ensures
        (s * c / n) * n <= s * c < (s * c / n + 1) * n,
        0 <= s * c / n,
        s == 0 ==> s * c / n == 0,
        s == n ==> s * c / n == c,
        c == n ==> s * c / n == s,
{
    let a = s * c;
    let q = a / n;
    assert(a >= 0) by (nonlinear_arith)
        requires
            a == s * c,
            s >= 0,
            c >= 0,
    ;
    assert(q * n <= a < (q + 1) * n && q >= 0) by (nonlinear_arith)
        requires
            q == a / n,
            a >= 0,
            n >= 1,
    ;
    assert(s == n ==> q == c) by (nonlinear_arith)
        requires
            q * n <= a < (q + 1) * n,
            a == s * c,
            n >= 1,
    ;
    assert(c == n ==> q == s) by (nonlinear_arith)
        requires
            q * n <= a < (q + 1) * n,
            a == s * c,
            n >= 1,
    ;
    assert(s == 0 ==> q == 0) by (nonlinear_arith)
        requires
            q * n <= a < (q + 1) * n,
            a == s * c,
            n >= 1,
            q >= 0,
    ;
}

/// The frames of a clip are asked for twice: the samples first, then all in order; progress
/// counts each once, toward their number.
pub proof fn frames_are_asked_for_in_order(count: int, k: int)
    requires
        0 < count <= 0x7fff_ffff,
        0 <= k < count,
    ensures
        asks(count).len() == sample_count(count) + count,
        asks(count)[sample_count(count) + k] == k,
        k < sample_count(count) ==> asks(count)[k] == sample_frame(k, count),
        ticks(count).len() == asks(count).len(),
        ticks(count)[k].0 == k + 1,
        ticks(count)[k].1 == sample_count(count) + count,
{
    if count >= 2 && k < sample_count(count) {
        samples_span_the_clip(count, k, k);
    }
}

/// What is written of a stored frame is that frame, with the transparent index and its delay,
/// or the longest that can be written.
pub proof fn written_frames_are_the_stored_ones(b: Block)
    ensures
        ({
            let f = gif_frame(b);
            &&& f.transparent == 255
            &&& f.block.left == b.left
            &&& f.block.top == b.top
            &&& f.block.width == b.width
            &&& f.block.height == b.height
            &&& f.block.pixels == b.pixels
            &&& b.delay_cs <= 65535 ==> f.block.delay_cs == b.delay_cs
            &&& b.delay_cs > 65535 ==> f.block.delay_cs == 65535
        }),
{
}

/// A width caps the frames of a clip: each is scaled down to it on its own, and none is where
/// it is no wider or no width is set. Each frame is then indexed on its own.
pub proof fn frames_are_capped_one_by_one(
    frames: Seq<Image>,
    width: Option<u32>,
    quant: NeuQuant,
    i: int,
)
    requires
        0 <= i < frames.len(),
    ensures
        ({
            let out = capped_all(frames, width);
            let all = indexed_all(quant, out);
            &&& out.len() == frames.len()
            &&& all.len() == frames.len()
            &&& width is None ==> out[i] == frames[i]
            &&& width matches Some(w) ==> (0 < w < frames[i].width && frames[i].height > 0
                ==> out[i].width == w && out[i] == downscaled(frames[i], w)) && (frames[i].width
                <= w || w == 0 ==> out[i] == frames[i])
            &&& all[i] == indexed(quant, out[i])
        }),
{
}

/// A clip's file repeats forever, has the size of its frames and the palette that was trained
/// on the samples, and holds the stored frames, each with its delay.
pub proof fn files_hold_the_stored_frames(
    samples: Seq<Image>,
    frames: Seq<Image>,
    settings: GifSettings,
    header: GifHeader,
    blocks: Seq<GifFrame>,
)
    requires
        frames.len() > 0,
        frames[0].width <= 65535,
        frames[0].height <= 65535,
        ({
            let quant = trained_on(samples, speed_for(settings.quality));
            let kept = stored(
                indexed_all(quant, frames),
                frames[0].width as int,
                frames[0].height as int,
                delay_for(settings.fps),
            );
            &&& header.width == frames[0].width
            &&& header.height == frames[0].height
            &&& header.palette == full_palette(quant)
            &&& header.endless
            &&& blocks.len() == kept.len()
            &&& forall|k: int| 0 <= k < kept.len() ==> #[trigger] blocks[k] == gif_frame(kept[k])
        }),
    ensures
        gif_of(samples, frames, settings) == gif_file(header, blocks),
{
    let quant = trained_on(samples, speed_for(settings.quality));
    let kept = stored(
        indexed_all(quant, frames),
        frames[0].width as int,
        frames[0].height as int,
        delay_for(settings.fps),
    );
    assert(blocks =~= gif_frames_of(kept));
    let made = repeating(
        plain_header(frames[0].width as u16, frames[0].height as u16, full_palette(quant)),
    );
    assert(header == made);
}

} // verus!
