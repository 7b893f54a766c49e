//! RGBA frame container and its PNG form.

use crate::encode::error::EncodeError;
use crate::text::{decimal, push_decimal, shown_as};
use vstd::prelude::*;

verus! {

/// What an 8-bit RGBA image holds.
#[verifier::ext_equal]
pub struct Image {
    pub width: u32,
    pub height: u32,
    pub pixels: Seq<u8>,
}

impl Image {
    /// Whether the pixel buffer holds exactly four bytes per pixel.
    pub open spec fn valid(self) -> bool {
        self.pixels.len() == self.width * self.height * 4
    }
}

/// An 8-bit RGBA image: `pixels.len() == width * height * 4`.
#[derive(Debug)]
pub struct RgbaImage {
    pub width: u32,
    pub height: u32,
    pub pixels: Vec<u8>,
}

impl View for RgbaImage {
    type V = Image;

    open spec fn view(&self) -> Image {
        Image { width: self.width, height: self.height, pixels: self.pixels@ }
    }
}

impl Clone for RgbaImage {
    fn clone(&self) -> (r: Self)
        ensures
            r@ == self@,
    {
        let pixels = self.pixels.clone();
        assert(pixels@ =~= self.pixels@);
        RgbaImage { width: self.width, height: self.height, pixels }
    }
}

impl RgbaImage {
    /// An image over the given pixel buffer.
    pub fn new(width: u32, height: u32, pixels: Vec<u8>) -> (img: Self)
        ensures
            img@ == (Image { width, height, pixels: pixels@ }),
    {
        RgbaImage { width, height, pixels }
    }

    /// Whether the pixel buffer length matches `width * height * 4`.
    pub fn is_valid(&self) -> (r: bool)
        ensures
            r == self@.valid(),
    {
        assert(self.width * self.height <= 0xffff_ffff * 0xffff_ffff) by (nonlinear_arith)
            requires
                self.width <= 0xffff_ffff,
                self.height <= 0xffff_ffff,
        ;
        self.pixels.len() as u128 == (self.width as u128) * (self.height as u128) * 4
    }
}

/// Colour type code of a PNG with red, green and blue samples.
pub const PNG_RGB: u8 = 2;

/// Colour type code of a PNG with red, green, blue and alpha samples.
pub const PNG_RGBA: u8 = 6;

/// A decoded PNG frame. `color` and `depth` are the colour type code and the bits per
/// sample, as they stand in a PNG header.
pub struct PngFrame {
    pub width: u32,
    pub height: u32,
    pub color: u8,
    pub depth: u8,
    pub data: Vec<u8>,
}

/// What a decoded PNG frame holds.
#[verifier::ext_equal]
pub struct PngContents {
    pub width: u32,
    pub height: u32,
    pub color: u8,
    pub depth: u8,
    pub data: Seq<u8>,
}

impl View for PngFrame {
    type V = PngContents;

    open spec fn view(&self) -> PngContents {
        PngContents {
            width: self.width,
            height: self.height,
            color: self.color,
            depth: self.depth,
            data: self.data@,
        }
    }
}

#[verifier::external_type_specification]
#[verifier::external_body]
pub struct ExPngEncodingError(png::EncodingError);

#[verifier::external_type_specification]
#[verifier::external_body]
pub struct ExPngDecodingError(png::DecodingError);

/// The PNG file that the `png` crate writes for 8-bit RGBA pixels.
pub uninterp spec fn png_file(width: u32, height: u32, pixels: Seq<u8>) -> Seq<u8>;

/// The frame that the `png` crate reads from a file; `None` where it reports an error.
pub uninterp spec fn png_contents(file: Seq<u8>) -> Option<PngContents>;

/// The decoded form of 8-bit RGBA pixels.
pub open spec fn rgba_contents(width: u32, height: u32, pixels: Seq<u8>) -> PngContents {
    PngContents { width, height, color: PNG_RGBA, depth: 8, data: pixels }
}

/// Widest image whose written form is certain to be read back: its rows stay well inside
/// the allocation limit that the decoder sets itself (64 MiB).
pub const READABLE_WIDTH: u32 = 8_000_000;

/// Whether an image of these dimensions has any pixels.
pub open spec fn has_pixels(width: u32, height: u32) -> bool {
    width > 0 && height > 0
}

/// Whether the decoder gives these pixels back from the file, as far as it reads images
/// of this width.
pub open spec fn reads_back(file: Seq<u8>, width: u32, height: u32, pixels: Seq<u8>) -> bool {
    width <= READABLE_WIDTH ==> png_contents(file) == Some(rgba_contents(width, height, pixels))
}

/// `png::Encoder` set to 8-bit RGBA, `write_header` and `write_image_data`, into memory.
///
/// The bytes depend on the arguments alone. Encoding succeeds exactly when neither
/// dimension is zero, and the decoder reads the same pixels back from what was written as
/// long as a row stays inside its allocation limit.
#[verifier::external_body]
fn png_encode(width: u32, height: u32, pixels: &Vec<u8>) -> (r: Result<Vec<u8>, png::EncodingError>)
    requires
        pixels@.len() == width * height * 4,
    ensures
        r is Ok == has_pixels(width, height),
        r matches Ok(file) ==> file@ == png_file(width, height, pixels@),
        r matches Ok(file) ==> reads_back(file@, width, height, pixels@),
{
    let mut out = Vec::new();
    let mut encoder = png::Encoder::new(&mut out, width, height);
    encoder.set_color(png::ColorType::Rgba);
    encoder.set_depth(png::BitDepth::Eight);
    let mut writer = encoder.write_header()?;
    writer.write_image_data(pixels)?;
    drop(writer);
    Ok(out)
}

/// `png::Decoder::read_info` and `Reader::next_frame` over a file in memory, with the
/// output buffer cut to the frame's size.
///
/// The frame depends on the bytes alone.
#[verifier::external_body]
fn png_decode(file: &Vec<u8>) -> (r: Result<PngFrame, png::DecodingError>)
    ensures
        r matches Ok(frame) ==> png_contents(file@) == Some(frame@),
        r is Err ==> png_contents(file@) is None,
{
    let mut reader = png::Decoder::new(std::io::Cursor::new(file)).read_info()?;
    let size = reader.output_buffer_size().ok_or(png::DecodingError::LimitsExceeded)?;
    let mut data = vec![0u8; size];
    let info = reader.next_frame(&mut data)?;
    data.truncate(info.buffer_size());
    let (color, depth) = (info.color_type as u8, info.bit_depth as u8);
    Ok(PngFrame { width: info.width, height: info.height, color, depth, data })
}

/// The complaint about a buffer whose length does not match its dimensions.
pub open spec fn size_mismatch(len: nat, width: u32, height: u32) -> Seq<char> {
    "pixel buffer "@ + decimal(len) + " != "@ + decimal(width as nat) + "x"@ + decimal(
        height as nat,
    ) + "x4"@
}

/// Encode an [`RgbaImage`] to an in-memory PNG.
///
/// A buffer of the wrong size and an image without pixels are errors; the encoder describes
/// the latter.
pub fn encode_png_to_vec(img: &RgbaImage) -> (r: Result<Vec<u8>, EncodeError>)
    ensures
        match r {
            Ok(file) => {
                &&& img@.valid()
                &&& has_pixels(img.width, img.height)
                &&& file@ == png_file(img.width, img.height, img.pixels@)
                &&& reads_back(file@, img.width, img.height, img.pixels@)
            },
            Err(e) => {
                &&& e is Png
                &&& !img@.valid() || !has_pixels(img.width, img.height)
                &&& !img@.valid() ==> e->Png_0@ == size_mismatch(
                    img.pixels@.len(),
                    img.width,
                    img.height,
                )
                &&& img@.valid() ==> exists|x: png::EncodingError| #[trigger] shown_as(x, e->Png_0)
            },
        },
{
    if !img.is_valid() {
        let mut m = "pixel buffer ".to_owned();
        push_decimal(&mut m, img.pixels.len() as u128);
        m.push_str(" != ");
        push_decimal(&mut m, img.width as u128);
        m.push_str("x");
        push_decimal(&mut m, img.height as u128);
        m.push_str("x4");
        return Err(EncodeError::Png(m));
    }
    match png_encode(img.width, img.height, &img.pixels) {
        Ok(file) => Ok(file),
        Err(e) => {
            let fault = EncodeError::Png(e.to_string());
            assert(shown_as(e, fault->Png_0));
            Err(fault)
        },
    }
}

/// Red, green and blue samples with a full alpha byte after each pixel; a trailing partial
/// pixel is dropped.
pub open spec fn with_alpha(rgb: Seq<u8>) -> Seq<u8> {
    Seq::new(
        rgb.len() / 3 * 4,
        |i: int|
            if i % 4 == 3 {
                255u8
            } else {
                rgb[i / 4 * 3 + i % 4]
            },
    )
}

/// Expand RGB samples to RGBA.
fn expand_rgb(rgb: &Vec<u8>) -> (out: Vec<u8>)
    ensures
        out@ == with_alpha(rgb@),
{
    let mut out: Vec<u8> = Vec::new();
    let n: usize = rgb.len() / 3;
    let mut k: usize = 0;
    while k < n
        invariant
            k <= n,
            n == rgb.len() / 3,
            out.len() == 4 * k,
            forall|i: int| 0 <= i < 4 * k ==> out[i] == with_alpha(rgb@)[i],
        decreases n - k,
    {
        out.push(rgb[3 * k]);
        out.push(rgb[3 * k + 1]);
        out.push(rgb[3 * k + 2]);
        out.push(255);
        k += 1;
    }
    assert(out@ =~= with_alpha(rgb@));
    out
}

/// The name a PNG bit depth goes by.
pub open spec fn depth_name(depth: u8) -> Seq<char> {
    if depth == 1 {
        "One"@
    } else if depth == 2 {
        "Two"@
    } else if depth == 4 {
        "Four"@
    } else {
        "Sixteen"@
    }
}

/// The name an unsupported PNG colour type goes by.
pub open spec fn color_name(color: u8) -> Seq<char> {
    if color == 0 {
        "Grayscale"@
    } else if color == 3 {
        "Indexed"@
    } else {
        "GrayscaleAlpha"@
    }
}

/// The image that a decoded frame stands for, or the complaint about it: only 8-bit RGB
/// and RGBA frames are supported.
pub open spec fn image_of(frame: PngContents) -> Result<Image, Seq<char>> {
    if frame.depth != 8 {
        Err("unsupported PNG bit depth "@ + depth_name(frame.depth))
    } else if frame.color == PNG_RGBA {
        Ok(Image { width: frame.width, height: frame.height, pixels: frame.data })
    } else if frame.color == PNG_RGB {
        Ok(Image { width: frame.width, height: frame.height, pixels: with_alpha(frame.data) })
    } else {
        Err("unsupported PNG color type "@ + color_name(frame.color))
    }
}

/// Turn a decoded frame into an [`RgbaImage`].
pub fn image_from_frame(frame: PngFrame) -> (r: Result<RgbaImage, EncodeError>)
    ensures
        match image_of(frame@) {
            Ok(img) => r is Ok && r->Ok_0@ == img,
            Err(m) => r is Err && r->Err_0 is Png && r->Err_0->Png_0@ == m,
        },
{
    if frame.depth != 8 {
        let mut m = "unsupported PNG bit depth ".to_owned();
        m.push_str(
            if frame.depth == 1 {
                "One"
            } else if frame.depth == 2 {
                "Two"
            } else if frame.depth == 4 {
                "Four"
            } else {
                "Sixteen"
            },
        );
        return Err(EncodeError::Png(m));
    }
    if frame.color == PNG_RGBA {
        Ok(RgbaImage::new(frame.width, frame.height, frame.data))
    } else if frame.color == PNG_RGB {
        Ok(RgbaImage::new(frame.width, frame.height, expand_rgb(&frame.data)))
    } else {
        let mut m = "unsupported PNG color type ".to_owned();
        m.push_str(
            if frame.color == 0 {
                "Grayscale"
            } else if frame.color == 3 {
                "Indexed"
            } else {
                "GrayscaleAlpha"
            },
        );
        Err(EncodeError::Png(m))
    }
}

/// Read the bytes of a PNG file back into an [`RgbaImage`].
///
/// A file that the decoder rejects, in its own words, and a frame that is neither 8-bit RGB
/// nor 8-bit RGBA are errors.
pub fn read_png(file: &Vec<u8>) -> (r: Result<RgbaImage, EncodeError>)
    ensures
        match png_contents(file@) {
            Some(frame) => match image_of(frame) {
                Ok(img) => r is Ok && r->Ok_0@ == img,
                Err(m) => r is Err && r->Err_0 is Png && r->Err_0->Png_0@ == m,
            },
            None => {
                &&& r is Err
                &&& r->Err_0 is Png
                &&& exists|x: png::DecodingError| #[trigger] shown_as(x, r->Err_0->Png_0)
            },
        },
{
    match png_decode(file) {
        Ok(frame) => image_from_frame(frame),
        Err(e) => {
            let fault = EncodeError::Png(e.to_string());
            assert(shown_as(e, fault->Png_0));
            Err(fault)
        },
    }
}

/// What swapping red and blue makes of a pixel buffer; a trailing partial pixel stays.
pub open spec fn swizzled(src: Seq<u8>) -> Seq<u8> {
    Seq::new(
        src.len(),
        |i: int|
            if i / 4 * 4 + 4 > src.len() {
                src[i]
            } else if i % 4 == 0 {
                src[i + 2]
            } else if i % 4 == 2 {
                src[i - 2]
            } else {
                src[i]
            },
    )
}

/// Swap the red and blue channels of a 4-byte-per-pixel buffer (BGRA to RGBA and back).
/// A trailing partial pixel is left untouched.
pub fn swizzle_rb(src: &[u8]) -> (out: Vec<u8>)
    ensures
        out@ == swizzled(src@),
{
    let mut out: Vec<u8> = Vec::with_capacity(src.len());
    let mut i: usize = 0;
    while src.len() - i >= 4
        invariant
            i <= src.len(),
            i % 4 == 0,
            out.len() == i,
            forall|j: int| 0 <= j < i ==> out[j] == swizzled(src@)[j],
        decreases src.len() - i,
    {
        out.push(src[i + 2]);
        out.push(src[i + 1]);
        out.push(src[i]);
        out.push(src[i + 3]);
        i += 4;
    }
    let ghost whole = i as int;
    while i < src.len()
        invariant
            whole <= i <= src.len(),
            whole % 4 == 0,
            src.len() - whole < 4,
            out.len() == i,
            forall|j: int| 0 <= j < i ==> out[j] == swizzled(src@)[j],
        decreases src.len() - i,
    {
        out.push(src[i]);
        i += 1;
    }
    assert(out@ =~= swizzled(src@));
    out
}

/// Swapping red and blue twice gives the buffer back.
pub proof fn swizzle_is_an_involution(src: Seq<u8>)
    ensures
        swizzled(swizzled(src)) == src,
{
    assert(swizzled(swizzled(src)) =~= src);
}

/// Reading a PNG that was written from an image gives the image back.
pub proof fn png_round_trip(img: Image, file: Seq<u8>)
    requires
        img.valid(),
        img.width <= READABLE_WIDTH,
        reads_back(file, img.width, img.height, img.pixels),
    ensures
        png_contents(file) is Some,
        image_of(png_contents(file)->Some_0) == Ok::<Image, Seq<char>>(img),
{
}

/// Pixels without alpha keep their channels and become opaque.
pub proof fn expanded_pixels_keep_their_channels(rgb: Seq<u8>, k: int)
    requires
        0 <= k,
        3 * k + 3 <= rgb.len(),
    ensures
        ({
            let out = with_alpha(rgb);
            &&& 3 * out.len() <= 4 * rgb.len()
            &&& 4 * k + 4 <= out.len()
            &&& out[4 * k] == rgb[3 * k]
            &&& out[4 * k + 1] == rgb[3 * k + 1]
            &&& out[4 * k + 2] == rgb[3 * k + 2]
            &&& out[4 * k + 3] == 255
        }),
{
}

/// Swizzling swaps the first and third channel of each pixel and keeps the others; what is
/// left over after the last whole pixel stays.
pub proof fn swizzling_swaps_red_and_blue(src: Seq<u8>, k: int)
    requires
        0 <= k,
        4 * k < src.len(),
    ensures
        ({
            let out = swizzled(src);
            &&& out.len() == src.len()
            &&& 4 * k + 4 <= src.len() ==> out[4 * k] == src[4 * k + 2] && out[4 * k + 1] == src[4
                * k + 1] && out[4 * k + 2] == src[4 * k] && out[4 * k + 3] == src[4 * k + 3]
            &&& 4 * k + 4 > src.len() ==> forall|i: int|
                4 * k <= i < src.len() ==> #[trigger] out[i] == src[i]
        }),
{
}

/// Pictures of eight bits are read, with alpha or without; any other is refused, by its depth
/// first and then by its kind.
pub proof fn pictures_of_eight_bits_are_read(f: PngContents)
    ensures
        f.depth == 8 && f.color == 6 ==> image_of(f) == Ok::<Image, Seq<char>>(
            Image { width: f.width, height: f.height, pixels: f.data },
        ),
        f.depth == 8 && f.color == 2 ==> image_of(f) == Ok::<Image, Seq<char>>(
            Image { width: f.width, height: f.height, pixels: with_alpha(f.data) },
        ),
        f.depth == 16 ==> image_of(f) == Err::<Image, Seq<char>>(
            "unsupported PNG bit depth "@ + "Sixteen"@,
        ),
        f.depth == 4 ==> image_of(f) == Err::<Image, Seq<char>>(
            "unsupported PNG bit depth "@ + "Four"@,
        ),
        f.depth == 2 ==> image_of(f) == Err::<Image, Seq<char>>(
            "unsupported PNG bit depth "@ + "Two"@,
        ),
        f.depth == 1 ==> image_of(f) == Err::<Image, Seq<char>>(
            "unsupported PNG bit depth "@ + "One"@,
        ),
        f.depth == 8 && f.color == 0 ==> image_of(f) == Err::<Image, Seq<char>>(
            "unsupported PNG color type "@ + "Grayscale"@,
        ),
        f.depth == 8 && f.color == 3 ==> image_of(f) == Err::<Image, Seq<char>>(
            "unsupported PNG color type "@ + "Indexed"@,
        ),
        f.depth == 8 && f.color == 4 ==> image_of(f) == Err::<Image, Seq<char>>(
            "unsupported PNG color type "@ + "GrayscaleAlpha"@,
        ),
{
}

} // verus!
