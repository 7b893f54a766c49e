//! The GIF file being written, over the `gif` crate's encoder.

use crate::encode::delta::{Block, PendingFrame};
use vstd::prelude::*;

verus! {

/// What a GIF's header holds.
#[verifier::ext_equal]
pub struct GifHeader {
    pub width: u16,
    pub height: u16,
    /// Global palette as RGB triples.
    pub palette: Seq<u8>,
    /// Whether the animation repeats forever.
    pub endless: bool,
}

/// A frame of a GIF: a block drawn over what is there, with one see-through index.
#[verifier::ext_equal]
pub struct GifFrame {
    pub block: Block,
    pub transparent: u8,
}

/// The `gif` crate's encoder over a file in memory: the frames written so far.
#[verifier::external_body]
pub struct GifEncoder {
    inner: gif::Encoder<Vec<u8>>,
}

#[verifier::external_type_specification]
#[verifier::external_body]
pub struct ExGifEncodingError(gif::EncodingError);

/// The header that an encoder has written.
pub uninterp spec fn gif_header(enc: GifEncoder) -> GifHeader;

/// The frames that an encoder has written.
pub uninterp spec fn gif_frames(enc: GifEncoder) -> Seq<GifFrame>;

/// The file that the `gif` crate makes of a header and frames.
pub uninterp spec fn gif_file(header: GifHeader, frames: Seq<GifFrame>) -> Seq<u8>;

/// A header that does not repeat.
pub open spec fn plain_header(width: u16, height: u16, palette: Seq<u8>) -> GifHeader {
    GifHeader { width, height, palette, endless: false }
}

/// The same header with endless repetition.
pub open spec fn repeating(h: GifHeader) -> GifHeader {
    GifHeader { width: h.width, height: h.height, palette: h.palette, endless: true }
}

/// A block with a given delay.
pub open spec fn with_delay(b: Block, delay: u16) -> Block {
    Block {
        left: b.left,
        top: b.top,
        width: b.width,
        height: b.height,
        pixels: b.pixels,
        delay_cs: delay as nat,
    }
}

/// `gif::Encoder::new` starts a file in memory with a global palette.
///
/// It succeeds for every palette of at most 256 colors.
#[verifier::external_body]
pub(crate) fn gif_start(width: u16, height: u16, palette: &Vec<u8>) -> (r: Result<GifEncoder, gif::EncodingError>)
    requires
        palette@.len() <= 768,
    ensures
        r is Ok,
        gif_header(r->Ok_0) == plain_header(width, height, palette@),
        gif_frames(r->Ok_0) == Seq::<GifFrame>::empty(),
{
    Ok(GifEncoder { inner: gif::Encoder::new(Vec::new(), width, height, palette)? })
}

/// `gif::Encoder::set_repeat` with infinite repetition, before the first frame.
#[verifier::external_body]
pub(crate) fn gif_repeat_forever(enc: &mut GifEncoder) -> (r: Result<
    (),
    gif::EncodingError,
>)
    requires
        gif_frames(*old(enc)).len() == 0,
        !gif_header(*old(enc)).endless,
    ensures
        r is Ok,
        gif_header(*final(enc)) == repeating(gif_header(*old(enc))),
        gif_frames(*final(enc)) == gif_frames(*old(enc)),
{
    enc.inner.set_repeat(gif::Repeat::Infinite)
}

/// `gif::Encoder::write_frame` with a frame that is drawn over what is there
/// (`DisposalMethod::Keep`).
///
/// On success the frame follows those already written. A frame with its pixels, under a
/// global palette, fails for want of memory alone; nothing is said of the encoder then. The
/// error comes as the text that the crate shows for it.
#[verifier::external_body]
pub(crate) fn gif_write(
    enc: &mut GifEncoder,
    frame: &PendingFrame,
    delay: u16,
    transparent: u8,
) -> (r: Result<(), String>)
    requires
        frame.width > 0,
        frame.height > 0,
        frame.buffer@.len() == frame.width * frame.height,
        gif_header(*old(enc)).palette.len() >= 3,
    ensures
        r is Ok ==> gif_header(*final(enc)) == gif_header(*old(enc)),
        r is Ok ==> gif_frames(*final(enc)) == gif_frames(*old(enc)).push(
            (GifFrame { block: with_delay(frame@, delay), transparent }),
        ),
        r is Err ==> r->Err_0@ == "Out of Memory"@,
{
    let written = enc.inner.write_frame(
        &gif::Frame {
            left: frame.left,
            top: frame.top,
            width: frame.width,
            height: frame.height,
            delay,
            dispose: gif::DisposalMethod::Keep,
            transparent: Some(transparent),
            buffer: std::borrow::Cow::Borrowed(&frame.buffer),
            ..gif::Frame::default()
        },
    );
    written.map_err(|e| e.to_string())
}

/// `gif::Encoder::into_inner` ends the file and hands it out.
///
/// The file depends on the header and the frames alone.
#[verifier::external_body]
pub(crate) fn gif_finish(enc: GifEncoder) -> (r: Result<Vec<u8>, gif::EncodingError>)
    ensures
        r is Ok,
        r->Ok_0@ == gif_file(gif_header(enc), gif_frames(enc)),
{
    enc.inner.into_inner()
}

} // verus!
