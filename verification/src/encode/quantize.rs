//! One global palette for a whole clip.

use crate::encode::image::{Image, RgbaImage};
use color_quant::NeuQuant;
use vstd::prelude::*;

verus! {

/// Real colors in the global palette; the slot after them is the transparent index.
pub const PALETTE_COLORS: usize = 255;

/// Pixel budget for training the global palette, spread evenly across the whole clip so
/// late scenes get palette slots too.
pub const PALETTE_SAMPLE_PIXELS: u128 = 262_144;

#[verifier::external_type_specification]
#[verifier::external_body]
pub struct ExNeuQuant(NeuQuant);

/// The network that `NeuQuant::new` trains.
pub uninterp spec fn neuquant(samplefac: int, colors: int, pixels: Seq<u8>) -> NeuQuant;

/// The palette of a trained network, as RGB triples.
pub uninterp spec fn neuquant_colors(quant: NeuQuant) -> Seq<u8>;

/// The palette entry that a trained network maps an RGBA pixel to.
pub uninterp spec fn neuquant_index(quant: NeuQuant, pixel: Seq<u8>) -> nat;

/// `NeuQuant::new` trains a network on RGBA pixels.
///
/// The network depends on the arguments alone. The bounds are those that the crate
/// documents for its sample factor and its number of colors.
#[verifier::external_body]
fn neuquant_new(samplefac: i32, colors: usize, pixels: &Vec<u8>) -> (quant: NeuQuant)
    requires
        1 <= samplefac <= 30,
        64 <= colors <= 256,
        pixels@.len() % 4 == 0,
    ensures
        quant == neuquant(samplefac as int, colors as int, pixels@),
        neuquant_colors(quant).len() == 3 * colors,
{
    NeuQuant::new(samplefac, colors, pixels)
}

/// `NeuQuant::color_map_rgb` hands out the palette.
#[verifier::external_body]
fn neuquant_color_map(quant: &NeuQuant) -> (colors: Vec<u8>)
    ensures
        colors@ == neuquant_colors(*quant),
{
    quant.color_map_rgb()
}

/// `NeuQuant::index_of` finds the best-matching palette entry of an RGBA pixel.
#[verifier::external_body]
fn neuquant_index_of(quant: &NeuQuant, pixel: &[u8; 4]) -> (i: usize)
    ensures
        i as nat == neuquant_index(*quant, pixel@),
{
    quant.index_of(pixel)
}

/// Red, green and blue of pixel `i`.
pub open spec fn rgb(img: Image, i: int) -> (u8, u8, u8) {
    (img.pixels[4 * i], img.pixels[4 * i + 1], img.pixels[4 * i + 2])
}

/// The colors of an image, pixel by pixel.
pub open spec fn colors_of(img: Image) -> Seq<(u8, u8, u8)> {
    Seq::new(img.pixels.len() / 4, |i: int| rgb(img, i))
}

/// The colors of a clip, frame after frame.
pub open spec fn all_colors(frames: Seq<Image>) -> Seq<(u8, u8, u8)>
    decreases frames.len(),
{
    if frames.len() == 0 {
        Seq::empty()
    } else {
        all_colors(frames.drop_last()) + colors_of(frames.last())
    }
}

/// Distance between sampled pixels that keeps a clip of `total` pixels near the budget.
pub open spec fn sample_step(total: int) -> int {
    let step = total / PALETTE_SAMPLE_PIXELS as int;
    if step < 1 {
        1
    } else {
        step
    }
}

/// Byte `k` of the opaque RGBA samples taken at every `step`th pixel.
pub open spec fn sample_byte(colors: Seq<(u8, u8, u8)>, step: int, k: int) -> u8 {
    let c = colors[k / 4 * step];
    if k % 4 == 0 {
        c.0
    } else if k % 4 == 1 {
        c.1
    } else if k % 4 == 2 {
        c.2
    } else {
        255
    }
}

/// What the palette is trained on: the clip's pixels at even distances, from the first
/// one on, as opaque RGBA.
pub open spec fn palette_samples(frames: Seq<Image>) -> Seq<u8> {
    let colors = all_colors(frames);
    let step = sample_step(colors.len() as int);
    Seq::new(
        (4 * ((colors.len() + step - 1) / step)) as nat,
        |k: int| sample_byte(colors, step, k),
    )
}

/// The images behind a list of frames.
pub open spec fn images(frames: Seq<RgbaImage>) -> Seq<Image> {
    Seq::new(frames.len(), |i: int| frames[i]@)
}

/// A sample factor that the quantizer accepts.
pub open spec fn sample_factor(speed: int) -> int {
    if speed < 1 {
        1
    } else if speed > 30 {
        30
    } else {
        speed
    }
}

/// The palette network for a clip.
pub open spec fn trained_on(frames: Seq<Image>, speed: int) -> NeuQuant {
    neuquant(sample_factor(speed), PALETTE_COLORS as int, palette_samples(frames))
}

/// The palette index of a color; never the transparent one.
pub open spec fn color_index(quant: NeuQuant, c: (u8, u8, u8)) -> u8 {
    let i = neuquant_index(quant, seq![c.0, c.1, c.2, 255u8]);
    if i < PALETTE_COLORS {
        i as u8
    } else {
        (PALETTE_COLORS - 1) as u8
    }
}

/// The palette indices of an image, one per pixel.
pub open spec fn indexed(quant: NeuQuant, img: Image) -> Seq<u8> {
    Seq::new(img.pixels.len() / 4, |i: int| color_index(quant, rgb(img, i)))
}

/// The 256-entry palette of a network as RGB triples, padded with black.
pub open spec fn full_palette(quant: NeuQuant) -> Seq<u8> {
    let colors = neuquant_colors(quant);
    Seq::new(
        768,
        |i: int|
            if i < colors.len() {
                colors[i]
            } else {
                0u8
            },
    )
}

/// Position of a color in the lookup cache.
pub open spec fn cache_key(c: (u8, u8, u8)) -> int {
    c.0 * 65536 + c.1 * 256 + c.2
}

/// The colors of a clip at a frame's place are that frame's.
proof fn lemma_colors_at(frames: Seq<Image>, f: int, i: int)
    requires
        0 <= f < frames.len(),
        0 <= i < frames[f].pixels.len() / 4,
    ensures
        all_colors(frames.take(f)).len() + i < all_colors(frames).len(),
        all_colors(frames)[all_colors(frames.take(f)).len() + i] == rgb(frames[f], i),
    decreases frames.len(),
{
    if f == frames.len() - 1 {
        assert(frames.take(f) =~= frames.drop_last());
    } else {
        assert(frames.take(f) =~= frames.drop_last().take(f));
        lemma_colors_at(frames.drop_last(), f, i);
    }
}

/// One global palette for the whole clip, with an exact 24-bit lookup cache. Identical
/// colors always map to identical indices, which is what makes index-level frame diffing
/// exact.
pub struct GlobalQuantizer {
    quant: NeuQuant,
    /// One entry per RGB color; negative = unseen, else the palette index.
    cache: Vec<i16>,
}

impl GlobalQuantizer {
    /// The trained network.
    pub closed spec fn network(&self) -> NeuQuant {
        self.quant
    }

    /// The cache agrees with the network wherever it has an entry, and the palette leaves
    /// the transparent slot free.
    pub closed spec fn wf(&self) -> bool {
        &&& self.cache@.len() == 16_777_216
        &&& neuquant_colors(self.quant).len() == 3 * PALETTE_COLORS
        &&& forall|c: (u8, u8, u8)|
            #![trigger cache_key(c)]
            self.cache@[cache_key(c)] >= 0 ==> self.cache@[cache_key(c)] == color_index(
                self.quant,
                c,
            )
    }

    /// Train on the pixels sampled evenly across all frames.
    pub fn train(frames: &Vec<RgbaImage>, speed: i32) -> (q: Self)
        ensures
            q.wf(),
            q.network() == trained_on(images(frames@), speed as int),
    {
        let ghost clip = images(frames@);
        let ghost colors = all_colors(clip);
        let mut total: u128 = 0;
        let mut f: usize = 0;
        while f < frames.len()
            invariant
                f <= frames.len(),
                clip == images(frames@),
                total == all_colors(clip.take(f as int)).len(),
                total <= f * 0x3fff_ffff_ffff_ffff,
            decreases frames.len() - f,
        {
            proof {
                let next = clip.take(f + 1);
                assert(next.drop_last() =~= clip.take(f as int));
                assert(next.last() == frames[f as int]@);
                assert(f * 0x3fff_ffff_ffff_ffff <= 0xffff_ffff_ffff_ffff * 0x3fff_ffff_ffff_ffff);
            }
            total = total + (frames[f].pixels.len() / 4) as u128;
            f += 1;
        }
        assert(clip.take(f as int) =~= clip);
        let raw: u128 = total / PALETTE_SAMPLE_PIXELS;
        let step: u128 = if raw < 1 {
            1
        } else {
            raw
        };
        let ghost mut taken: int = 0;
        let mut samples: Vec<u8> = Vec::new();
        let mut next: u128 = 0;
        let mut seen: u128 = 0;
        f = 0;
        assert(clip.take(0) =~= Seq::<Image>::empty());
        assert(0 * step == 0);
        while f < frames.len()
            invariant
                f <= frames.len(),
                clip == images(frames@),
                colors == all_colors(clip),
                total == colors.len(),
                total <= 0xffff_ffff_ffff_ffff * 0x3fff_ffff_ffff_ffff,
                step == sample_step(total as int),
                1 <= step <= total + 1,
                seen == all_colors(clip.take(f as int)).len(),
                seen <= f * 0x3fff_ffff_ffff_ffff,
                taken >= 0,
                next == taken * step,
                seen <= next,
                taken == 0 || next - step < seen,
                samples@.len() == 4 * taken,
                forall|k: int|
                    0 <= k < samples@.len() ==> samples@[k] == sample_byte(colors, step as int, k),
            decreases frames.len() - f,
        {
            let n: usize = frames[f].pixels.len() / 4;
            proof {
                let upto = clip.take(f + 1);
                assert(upto.drop_last() =~= clip.take(f as int));
                assert(upto.last() == frames[f as int]@);
                assert(f * 0x3fff_ffff_ffff_ffff <= 0xffff_ffff_ffff_ffff * 0x3fff_ffff_ffff_ffff);
            }
            let end: u128 = seen + n as u128;
            while next < end
                invariant
                    f < frames.len(),
                    n == frames[f as int].pixels@.len() / 4,
                    clip == images(frames@),
                    colors == all_colors(clip),
                    total <= 0xffff_ffff_ffff_ffff * 0x3fff_ffff_ffff_ffff,
                    1 <= step <= total + 1,
                    seen == all_colors(clip.take(f as int)).len(),
                    end == seen + n,
                    end <= 0x1_0000_0000_0000_0000 * 0x3fff_ffff_ffff_ffff,
                    taken >= 0,
                    next == taken * step,
                    seen <= next,
                    taken == 0 || next - step < end,
                    samples@.len() == 4 * taken,
                    forall|k: int|
                        0 <= k < samples@.len() ==> samples@[k] == sample_byte(
                            colors,
                            step as int,
                            k,
                        ),
                decreases end + step - next,
            {
                let i: usize = (next - seen) as usize;
                let ghost before = samples@;
                proof {
                    lemma_colors_at(clip, f as int, i as int);
                    assert(clip[f as int] == frames[f as int]@);
                    assert(frames[f as int].pixels.len() <= usize::MAX);
                    assert(colors[taken * step] == rgb(frames[f as int]@, i as int));
                }
                samples.push(frames[f].pixels[4 * i]);
                samples.push(frames[f].pixels[4 * i + 1]);
                samples.push(frames[f].pixels[4 * i + 2]);
                samples.push(255);
                proof {
                    assert forall|k: int| 0 <= k < samples@.len() implies samples@[k]
                        == sample_byte(colors, step as int, k) by {
                        if k < before.len() {
                            assert(samples@[k] == before[k]);
                        } else {
                            assert(k / 4 == taken);
                        }
                    }
                    assert((taken + 1) * step == taken * step + step) by (nonlinear_arith);
                    taken = taken + 1;
                }
                next = next + step;
            }
            seen = end;
            f += 1;
        }
        proof {
            assert(clip.take(f as int) =~= clip);
            let t = colors.len() as int;
            let s = step as int;
            assert((t + s - 1) / s == taken) by (nonlinear_arith)
                requires
                    s >= 1,
                    t <= taken * s,
                    taken == 0 || taken * s - s < t,
                    taken >= 0,
                    taken == 0 ==> t == 0,
                    t >= 0,
            ;
            assert(samples@ =~= palette_samples(clip));
        }
        let factor: i32 = if speed < 1 {
            1
        } else if speed > 30 {
            30
        } else {
            speed
        };
        let quant = neuquant_new(factor, PALETTE_COLORS, &samples);
        let cache: Vec<i16> = vec![-1i16; 16_777_216];
        proof {
            assert forall|c: (u8, u8, u8)| #![trigger cache_key(c)] cache@[cache_key(c)] >= 0 implies cache@[cache_key(c)] == color_index(quant, c) by {
                assert(0 <= cache_key(c) < 16_777_216);
            }
        }
        GlobalQuantizer { quant, cache }
    }

    /// The 256-entry global palette as RGB triples.
    pub fn palette(&self) -> (p: Vec<u8>)
        requires
            self.wf(),
        ensures
            p@ == full_palette(self.network()),
    {
        let mut p = neuquant_color_map(&self.quant);
        p.resize(768, 0);
        assert(p@ =~= full_palette(self.quant));
        p
    }

    /// The palette index of a color.
    pub fn index(&mut self, r: u8, g: u8, b: u8) -> (i: u8)
        requires
            old(self).wf(),
        ensures
            final(self).wf(),
            final(self).network() == old(self).network(),
            i == color_index(old(self).network(), (r, g, b)),
    {
        let key: usize = (r as usize) * 65536 + (g as usize) * 256 + b as usize;
        assert(key == cache_key((r, g, b)));
        let cached: i16 = self.cache[key];
        if cached >= 0 {
            return cached as u8;
        }
        let pixel: [u8; 4] = [r, g, b, 255];
        let found: usize = neuquant_index_of(&self.quant, &pixel);
        assert(pixel@ =~= seq![r, g, b, 255u8]);
        let i: usize = if found < PALETTE_COLORS {
            found
        } else {
            PALETTE_COLORS - 1
        };
        self.cache.set(key, i as i16);
        proof {
            assert forall|c: (u8, u8, u8)| #![trigger cache_key(c)] self.cache@[cache_key(c)] >= 0 implies self.cache@[cache_key(c)] == color_index(self.quant, c) by {
                if cache_key(c) == key {
                    assert(c == (r, g, b));
                } else {
                    assert(0 <= cache_key(c) < 16_777_216);
                    assert(self.cache@[cache_key(c)] == old(self).cache@[cache_key(c)]);
                }
            }
        }
        i as u8
    }

    /// Quantize a frame to global-palette indices (one byte per pixel).
    pub fn index_frame(&mut self, img: &RgbaImage) -> (out: Vec<u8>)
        requires
            old(self).wf(),
        ensures
            final(self).wf(),
            final(self).network() == old(self).network(),
            out@ == indexed(old(self).network(), img@),
    {
        let n: usize = img.pixels.len() / 4;
        let mut out: Vec<u8> = Vec::with_capacity(n);
        let mut i: usize = 0;
        while i < n
            invariant
                n == img.pixels@.len() / 4,
                i <= n,
                self.wf(),
                self.network() == old(self).network(),
                out@.len() == i,
                forall|k: int|
                    0 <= k < i ==> out@[k] == color_index(old(self).network(), rgb(img@, k)),
            decreases n - i,
        {
            assert(img.pixels.len() <= usize::MAX);
            let px: u8 = self.index(img.pixels[4 * i], img.pixels[4 * i + 1], img.pixels[4 * i + 2]);
            out.push(px);
            i += 1;
        }
        assert(out@ =~= indexed(old(self).network(), img@));
        out
    }
}

/// No color maps to the transparent index.
pub proof fn indices_are_opaque(quant: NeuQuant, img: Image)
    ensures
        forall|i: int| 0 <= i < indexed(quant, img).len() ==> indexed(quant, img)[i] != 255,
{
}

/// A pixel's index is the palette entry that the network maps its opaque color to, or the last
/// opaque one; it depends on that pixel's color alone.
pub proof fn indices_go_by_color(quant: NeuQuant, img: Image, i: int)
    requires
        0 <= i,
        4 * i + 4 <= img.pixels.len(),
    ensures
        ({
            let p = img.pixels;
            let n = neuquant_index(
                quant,
                seq![p[4 * i], p[4 * i + 1], p[4 * i + 2], 255u8],
            );
            &&& indexed(quant, img).len() == p.len() / 4
            &&& n < 255 ==> indexed(quant, img)[i] == n
            &&& n >= 255 ==> indexed(quant, img)[i] == 254
        }),
{
}

/// The palette starts with the network's colors and is filled up with black.
pub proof fn palettes_hold_the_colors(quant: NeuQuant, i: int)
    requires
        0 <= i < 768,
    ensures
        full_palette(quant).len() == 768,
        i < neuquant_colors(quant).len() ==> full_palette(quant)[i] == neuquant_colors(quant)[i],
        i >= neuquant_colors(quant).len() ==> full_palette(quant)[i] == 0,
{
}

/// The colors of frames, one after the other, are those of their pixels in order.
pub proof fn colors_follow_the_frames(frames: Seq<Image>, f: int, i: int) -> (at: int)
    requires
        0 <= f < frames.len(),
        0 <= i < frames[f].pixels.len() / 4,
    ensures
        0 <= at < all_colors(frames).len(),
        all_colors(frames)[at] == (
            frames[f].pixels[4 * i],
            frames[f].pixels[4 * i + 1],
            frames[f].pixels[4 * i + 2],
        ),
        at == all_colors(frames.take(f)).len() + i,
    decreases frames.len(),
{
    let rest = frames.drop_last();
    if f < rest.len() {
        let at = colors_follow_the_frames(rest, f, i);
        assert(rest.take(f) =~= frames.take(f));
        at
    } else {
        assert(frames.take(f) =~= rest);
        all_colors(rest).len() + i
    }
}

/// The network is trained on evenly spaced pixels of all frames, opaque: each color is that of
/// the pixel so many steps on, from the first pixel on, and no step is longer than it takes to
/// look at the number of pixels aimed for.
pub proof fn samples_are_evenly_spaced(frames: Seq<Image>, k: int) -> (step: int)
    requires
        0 <= 4 * k < palette_samples(frames).len(),
    ensures
        step >= 1,
        step == 1 || step * 262_144 <= all_colors(frames).len(),
        all_colors(frames).len() < (step + 1) * 262_144,
        0 <= k * step < all_colors(frames).len(),
        palette_samples(frames).len() % 4 == 0,
        (palette_samples(frames).len() / 4) * step >= all_colors(frames).len(),
        ({
            let s = palette_samples(frames);
            let c = all_colors(frames)[k * step];
            s[4 * k] == c.0 && s[4 * k + 1] == c.1 && s[4 * k + 2] == c.2 && s[4 * k + 3] == 255
        }),
{
    let n = all_colors(frames).len() as int;
    let step = sample_step(n);
    let count = (n + step - 1) / step;
    assert(count * step >= n && (count - 1) * step < n) by (nonlinear_arith)
        requires
            count == (n + step - 1) / step,
            step >= 1,
    ;
    assert(count >= 0) by (nonlinear_arith)
        requires
            count * step >= n,
            n >= 0,
            step >= 1,
    ;
    assert(palette_samples(frames).len() == 4 * count);
    assert(k * step <= (count - 1) * step) by (nonlinear_arith)
        requires
            k <= count - 1,
            step >= 1,
    ;
    assert(0 <= k * step) by (nonlinear_arith)
        requires
            0 <= k,
            step >= 1,
    ;
    step
}

/// The sample factor is the speed, between one and thirty; the network has one color less than
/// an index can name.
pub proof fn networks_are_trained_at_the_speed(frames: Seq<Image>, speed: int)
    ensures
        1 <= speed <= 30 ==> trained_on(frames, speed) == neuquant(
            speed,
            255,
            palette_samples(frames),
        ),
        speed < 1 ==> trained_on(frames, speed) == neuquant(1, 255, palette_samples(frames)),
        speed > 30 ==> trained_on(frames, speed) == neuquant(30, 255, palette_samples(frames)),
{
}

} // verus!
