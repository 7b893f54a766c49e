//! Resolve a project at a given time into a flat draw list.
//!
//! This evaluates the camera, computes the framed layout, and resolves every annotation's
//! geometry and current fade opacity. Lengths are billionths of an output pixel, alphas
//! billionths.

use crate::project::annotation::{
    ArrowAnnotation, ArrowStyle, HighlightBox, HighlightShape, TextAnnotation,
};
use crate::project::color::Color;
use crate::project::model::{KeyTap, Project};
use crate::project::timing::opacity_is_bounded;
use crate::render::layout::{compute_layout, layout_of, CompositeLayout, NormRect, PxRect};
use crate::units::{
    floor_div, greater, how_many, lemma_how_many, saturate, saturated, BILLION,
};
use crate::zoom::camera::{pose_at, CameraTrack};
use crate::zoom::event::InputEvent;
use vstd::prelude::*;

verus! {

/// A text label resolved to output space with fade opacity baked into its alpha.
#[derive(Debug)]
pub struct ResolvedText {
    pub text: String,
    /// Top-left in output space.
    pub x: i64,
    pub y: i64,
    pub font_px: i64,
    pub color: Color,
    pub bold: bool,
    pub italic: bool,
    /// Font family name; empty = the default sans-serif.
    pub font: String,
}

/// An arrow resolved to output space.
#[derive(Debug, Clone, Copy, PartialEq, Eq, Structural)]
pub struct ResolvedArrow {
    pub from_x: i64,
    pub from_y: i64,
    pub to_x: i64,
    pub to_y: i64,
    pub thickness_px: i64,
    pub color: Color,
    /// Draw a head at the `from` end / the `to` end.
    pub head_from: bool,
    pub head_to: bool,
}

/// A highlight box resolved to output space.
#[derive(Debug, Clone, Copy, PartialEq, Eq, Structural)]
pub struct ResolvedHighlight {
    pub x: i64,
    pub y: i64,
    pub w: i64,
    pub h: i64,
    pub thickness_px: i64,
    pub filled: bool,
    /// Draw an ellipse inscribed in the rect instead of the rect itself.
    pub ellipse: bool,
    pub color: Color,
}

/// Everything the compositor draws for one output frame.
#[derive(Debug)]
pub struct Scene {
    pub layout: CompositeLayout,
    pub texts: Vec<ResolvedText>,
    pub arrows: Vec<ResolvedArrow>,
    pub highlights: Vec<ResolvedHighlight>,
    /// Click ripples (expanding fading rings), kept apart from `highlights` because the
    /// live preview clears the annotation lists but ripples must still show.
    pub ripples: Vec<ResolvedHighlight>,
    /// Keystroke-overlay chip backgrounds.
    pub key_chips: Vec<ResolvedHighlight>,
    /// Keystroke-overlay labels.
    pub key_texts: Vec<ResolvedText>,
}

/// A fraction of an extent of `n` pixels.
pub open spec fn of_extent(share: i64, n: u32) -> i64 {
    saturated(share * n)
}

/// `num / den` of a length, rounded down.
pub open spec fn portion(len: i64, num: int, den: int) -> int {
    len * num / den
}

/// A color whose alpha is scaled by an opacity.
pub open spec fn faded(c: Color, opacity: int) -> Color {
    Color { r: c.r, g: c.g, b: c.b, a: saturated(c.a * opacity / BILLION as int) }
}

/// How many characters a label counts (a label longer than a `u32` counts as that long).
pub open spec fn glyphs(s: Seq<char>) -> int {
    if s.len() > u32::MAX {
        u32::MAX as int
    } else {
        s.len() as int
    }
}

fn scale(share: i64, n: u32) -> (r: i64)
    ensures
        r == of_extent(share, n),
{
    proof {
        let a = share as int;
        let b = n as int;
        assert(-0x8000_0000_0000_0000 * 0x1_0000_0000 <= a * b <= 0x8000_0000_0000_0000
            * 0x1_0000_0000) by (nonlinear_arith)
            requires
                -0x8000_0000_0000_0000 <= a <= 0x7fff_ffff_ffff_ffff,
                0 <= b <= 0xffff_ffff,
        ;
    }
    saturate((share as i128) * (n as i128))
}

fn part(len: i64, num: i128, den: i128) -> (r: i128)
    requires
        0 <= num <= 0x1_0000_0000 * 1000,
        0 < den,
    ensures
        r == portion(len, num as int, den as int),
        -0x8000_0000_0000_0000 * (0x1_0000_0000 * 1000) <= r <= 0x8000_0000_0000_0000
            * (0x1_0000_0000 * 1000),
{
    proof {
        let a = len as int;
        let b = num as int;
        let d = den as int;
        assert(-0x8000_0000_0000_0000 * (0x1_0000_0000 * 1000) <= a * b <= 0x8000_0000_0000_0000
            * (0x1_0000_0000 * 1000)) by (nonlinear_arith)
            requires
                -0x8000_0000_0000_0000 <= a <= 0x7fff_ffff_ffff_ffff,
                0 <= b <= 0x1_0000_0000 * 1000,
        ;
        let p = a * b;
        assert(-0x8000_0000_0000_0000 * (0x1_0000_0000 * 1000) <= p / d <= 0x8000_0000_0000_0000
            * (0x1_0000_0000 * 1000)) by (nonlinear_arith)
            requires
                -0x8000_0000_0000_0000 * (0x1_0000_0000 * 1000) <= p <= 0x8000_0000_0000_0000
                    * (0x1_0000_0000 * 1000),
                d >= 1,
        ;
    }
    floor_div((len as i128) * num, den)
}

fn fade(c: Color, opacity: i64) -> (r: Color)
    requires
        0 <= opacity <= BILLION,
    ensures
        r == faded(c, opacity as int),
{
    c.with_alpha(saturate(part(c.a, opacity as i128, 1_000_000_000)))
}

fn count_glyphs(s: &str) -> (n: i128)
    ensures
        n == glyphs(s@),
        0 <= n <= u32::MAX,
{
    let n: usize = s.unicode_len();
    if n as u128 > u32::MAX as u128 {
        u32::MAX as i128
    } else {
        n as i128
    }
}

/// Near-black that plates and chips are drawn in.
pub open spec fn plate_color(opacity: int) -> Color {
    faded(Color { r: 50_000_000, g: 50_000_000, b: 60_000_000, a: 700_000_000 }, opacity)
}

/// The translucent plate behind a text: its estimated box with a margin.
pub open spec fn plate_of(ta: TextAnnotation, ow: u32, oh: u32, opacity: int) -> ResolvedHighlight {
    let font = of_extent(ta.font_size, oh);
    let pad_x = portion(font, 3, 10);
    let pad_y = portion(font, 16, 100);
    ResolvedHighlight {
        x: saturated(of_extent(ta.pos.x, ow) - pad_x),
        y: saturated(of_extent(ta.pos.y, oh) - pad_y),
        w: saturated(portion(font, glyphs(ta.text@) * 6, 10) + pad_x * 2),
        h: saturated(portion(font, 125, 100) + pad_y * 2),
        thickness_px: 0,
        filled: true,
        ellipse: false,
        color: plate_color(opacity),
    }
}

/// A text label in output space.
pub open spec fn text_of(ta: TextAnnotation, ow: u32, oh: u32, opacity: int) -> ResolvedText {
    ResolvedText {
        text: ta.text,
        x: of_extent(ta.pos.x, ow),
        y: of_extent(ta.pos.y, oh),
        font_px: of_extent(ta.font_size, oh),
        color: faded(ta.color, opacity),
        bold: ta.bold,
        italic: ta.italic,
        font: ta.font,
    }
}

/// The visible ones among the first `n` texts.
pub open spec fn texts_upto(
    ts: Seq<TextAnnotation>,
    n: int,
    ow: u32,
    oh: u32,
    t: i64,
) -> Seq<ResolvedText>
    decreases n,
{
    if n <= 0 {
        Seq::empty()
    } else {
        let before = texts_upto(ts, n - 1, ow, oh, t);
        let o = ts[n - 1].range.opacity(t);
        if o > 0 {
            before.push(text_of(ts[n - 1], ow, oh, o))
        } else {
            before
        }
    }
}

/// The plates of the visible ones among the first `n` texts.
pub open spec fn plates_upto(
    ts: Seq<TextAnnotation>,
    n: int,
    ow: u32,
    oh: u32,
    t: i64,
) -> Seq<ResolvedHighlight>
    decreases n,
{
    if n <= 0 {
        Seq::empty()
    } else {
        let before = plates_upto(ts, n - 1, ow, oh, t);
        let o = ts[n - 1].range.opacity(t);
        if o > 0 && ts[n - 1].background {
            before.push(plate_of(ts[n - 1], ow, oh, o))
        } else {
            before
        }
    }
}

/// An arrow in output space; its style says which ends have heads.
pub open spec fn arrow_of(a: ArrowAnnotation, ow: u32, oh: u32, opacity: int) -> ResolvedArrow {
    ResolvedArrow {
        from_x: of_extent(a.from.x, ow),
        from_y: of_extent(a.from.y, oh),
        to_x: of_extent(a.to.x, ow),
        to_y: of_extent(a.to.y, oh),
        thickness_px: of_extent(a.thickness, oh),
        color: faded(a.color, opacity),
        head_from: a.style is DoubleArrow,
        head_to: !(a.style is Line),
    }
}

/// The visible ones among the first `n` arrows.
pub open spec fn arrows_upto(
    xs: Seq<ArrowAnnotation>,
    n: int,
    ow: u32,
    oh: u32,
    t: i64,
) -> Seq<ResolvedArrow>
    decreases n,
{
    if n <= 0 {
        Seq::empty()
    } else {
        let before = arrows_upto(xs, n - 1, ow, oh, t);
        let o = xs[n - 1].range.opacity(t);
        if o > 0 {
            before.push(arrow_of(xs[n - 1], ow, oh, o))
        } else {
            before
        }
    }
}

/// The color of redaction blocks.
pub open spec fn mask_color() -> Color {
    Color::opaque(40_000_000, 40_000_000, 50_000_000)
}

/// A highlight in output space. A mask is an opaque redaction block: it is filled near-black
/// whatever its stored color, thickness and fill, so masked content can never leak.
pub open spec fn highlight_of(h: HighlightBox, ow: u32, oh: u32, opacity: int) -> ResolvedHighlight {
    ResolvedHighlight {
        x: of_extent(h.rect.x, ow),
        y: of_extent(h.rect.y, oh),
        w: of_extent(h.rect.w, ow),
        h: of_extent(h.rect.h, oh),
        thickness_px: if h.shape is Mask {
            0
        } else {
            of_extent(h.thickness, oh)
        },
        filled: h.filled || h.shape is Mask,
        ellipse: h.shape is Ellipse,
        color: if h.shape is Mask {
            faded(mask_color(), opacity)
        } else {
            faded(h.color, opacity)
        },
    }
}

/// The visible ones among the first `n` highlights.
pub open spec fn highlights_upto(
    xs: Seq<HighlightBox>,
    n: int,
    ow: u32,
    oh: u32,
    t: i64,
) -> Seq<ResolvedHighlight>
    decreases n,
{
    if n <= 0 {
        Seq::empty()
    } else {
        let before = highlights_upto(xs, n - 1, ow, oh, t);
        let o = xs[n - 1].range.opacity(t);
        if o > 0 {
            before.push(highlight_of(xs[n - 1], ow, oh, o))
        } else {
            before
        }
    }
}

/// How long one ripple lives.
pub const RIPPLE_LEN: i64 = 450_000_000;

/// A source coordinate in output space: mapped through the sampled region into the drawn
/// rectangle, so it stays glued to the content while zoomed.
pub open spec fn mapped(p: i64, src: i64, src_len: i64, dst: i64, dst_len: i64) -> int {
    let len = greater(src_len as int, 1);
    dst + saturated(p - src) * dst_len / len
}

/// The ring of a click of some age.
pub open spec fn ripple_of(
    x: i64,
    y: i64,
    age: int,
    oh: u32,
    src: NormRect,
    dst: PxRect,
) -> ResolvedHighlight {
    let cx = mapped(x, src.x, src.w, dst.x, dst.w);
    let cy = mapped(y, src.y, src.h, dst.y, dst.h);
    let r = (8_000_000 + age / 15) * oh;
    ResolvedHighlight {
        x: saturated(cx - r),
        y: saturated(cy - r),
        w: saturated(r * 2),
        h: saturated(r * 2),
        thickness_px: saturated(greater(3_500_000 * oh, 1_500_000_000)),
        filled: false,
        ellipse: true,
        color: Color {
            r: 1_000_000_000,
            g: 1_000_000_000,
            b: 1_000_000_000,
            a: ((RIPPLE_LEN - age) * 2) as i64,
        },
    }
}

/// The rings of the clicks among the first `n` events that are young enough.
pub open spec fn ripples_upto(
    events: Seq<InputEvent>,
    n: int,
    oh: u32,
    t: i64,
    src: NormRect,
    dst: PxRect,
) -> Seq<ResolvedHighlight>
    decreases n,
{
    if n <= 0 {
        Seq::empty()
    } else {
        let before = ripples_upto(events, n - 1, oh, t, src, dst);
        match events[n - 1] {
            InputEvent::Click { t: at, pos, .. } => if 0 <= t - at < RIPPLE_LEN {
                before.push(ripple_of(pos.x, pos.y, t - at, oh, src, dst))
            } else {
                before
            },
            _ => before,
        }
    }
}

/// How long a keystroke chip stays up.
pub const CHIP_SHOW: i64 = 1_100_000_000;

/// How long a keystroke chip fades at the end.
pub const CHIP_FADE: i64 = 250_000_000;

/// How many keystroke chips are stacked at most.
pub const CHIP_SLOTS: usize = 3;

/// Whether a key press is on screen.
pub open spec fn tap_shows(k: KeyTap, t: i64) -> bool {
    k.t <= t < k.t + CHIP_SHOW
}

/// The places of the key presses on screen among the first `n`.
pub open spec fn showing_taps(taps: Seq<KeyTap>, n: int, t: i64) -> Seq<int>
    decreases n,
{
    if n <= 0 {
        Seq::empty()
    } else {
        let before = showing_taps(taps, n - 1, t);
        if tap_shows(taps[n - 1], t) {
            before.push(n - 1)
        } else {
            before
        }
    }
}

/// The opacity of a chip of some age.
pub open spec fn chip_opacity(age: int) -> int {
    if age > CHIP_SHOW - CHIP_FADE {
        (CHIP_SHOW - age) * 4
    } else {
        BILLION as int
    }
}

/// The measures of a chip in a slot: font size, text width, chip width, chip height and top.
pub open spec fn chip_measures(label: Seq<char>, slot: int, oh: u32) -> (int, int, int, int, int) {
    let font = 34_000_000 * oh;
    let text_w = glyphs(label) * font * 62 / 100;
    let pad_x = font * 7 / 10;
    let chip_h = font * 18 / 10;
    let top = 940_000_000 * oh - chip_h - slot * (chip_h + 12_000_000 * oh);
    (font, text_w, text_w + pad_x * 2, chip_h, top)
}

/// The chip of a key press in a slot.
pub open spec fn chip_of(k: KeyTap, slot: int, ow: u32, oh: u32, t: i64) -> ResolvedHighlight {
    let m = chip_measures(k.label@, slot, oh);
    ResolvedHighlight {
        x: saturated(500_000_000 * ow - m.2 / 2),
        y: saturated(m.4),
        w: saturated(m.2),
        h: saturated(m.3),
        thickness_px: 0,
        filled: true,
        ellipse: false,
        color: faded(
            Color { r: 40_000_000, g: 40_000_000, b: 50_000_000, a: 820_000_000 },
            chip_opacity(t - k.t),
        ),
    }
}

/// Whether a text is the label of a key press in a slot, centered in its chip.
pub open spec fn is_chip_text(
    r: ResolvedText,
    k: KeyTap,
    slot: int,
    ow: u32,
    oh: u32,
    t: i64,
) -> bool {
    let m = chip_measures(k.label@, slot, oh);
    &&& r.text == k.label
    &&& r.x == saturated(500_000_000 * ow - m.1 / 2)
    &&& r.y == saturated(m.4 + (m.3 - m.0 * 125 / 100) / 2)
    &&& r.font_px == saturated(m.0)
    &&& r.color == faded(
        Color::opaque(1_000_000_000, 1_000_000_000, 1_000_000_000),
        chip_opacity(t - k.t),
    )
    &&& r.bold
    &&& !r.italic
    &&& r.font@.len() == 0
}

/// How many chips are up.
pub open spec fn chips_up(taps: Seq<KeyTap>, t: i64) -> int {
    let n = showing_taps(taps, taps.len() as int, t).len();
    if n > CHIP_SLOTS {
        CHIP_SLOTS as int
    } else {
        n as int
    }
}

/// The key press shown in a slot: the latest comes first.
pub open spec fn tap_in_slot(taps: Seq<KeyTap>, slot: int, t: i64) -> KeyTap {
    let up = showing_taps(taps, taps.len() as int, t);
    taps[up[up.len() - 1 - slot]]
}

fn resolve_texts(
    ts: &Vec<TextAnnotation>,
    ow: u32,
    oh: u32,
    t: i64,
) -> (r: (Vec<ResolvedText>, Vec<ResolvedHighlight>))
    ensures
        r.0@ == texts_upto(ts@, ts.len() as int, ow, oh, t),
        r.1@ == plates_upto(ts@, ts.len() as int, ow, oh, t),
{
    let mut texts: Vec<ResolvedText> = Vec::new();
    let mut plates: Vec<ResolvedHighlight> = Vec::new();
    let mut i: usize = 0;
    while i < ts.len()
        invariant
            i <= ts.len(),
            texts@ == texts_upto(ts@, i as int, ow, oh, t),
            plates@ == plates_upto(ts@, i as int, ow, oh, t),
        decreases ts.len() - i,
    {
        let ta = &ts[i];
        let o: i64 = ta.range.opacity_at(t);
        proof {
            opacity_is_bounded(ta.range, t);
        }
        if o > 0 {
            let font_px: i64 = scale(ta.font_size, oh);
            if ta.background {
                let glyphs: i128 = count_glyphs(&ta.text);
                let text_w: i128 = part(font_px, glyphs * 6, 10);
                let pad_x: i128 = part(font_px, 3, 10);
                let pad_y: i128 = part(font_px, 16, 100);
                plates.push(
                    ResolvedHighlight {
                        x: saturate(scale(ta.pos.x, ow) as i128 - pad_x),
                        y: saturate(scale(ta.pos.y, oh) as i128 - pad_y),
                        w: saturate(text_w + pad_x * 2),
                        h: saturate(part(font_px, 125, 100) + pad_y * 2),
                        thickness_px: 0,
                        filled: true,
                        ellipse: false,
                        color: fade(
                            Color::rgb(50_000_000, 50_000_000, 60_000_000).with_alpha(700_000_000),
                            o,
                        ),
                    },
                );
            }
            texts.push(
                ResolvedText {
                    text: ta.text.clone(),
                    x: scale(ta.pos.x, ow),
                    y: scale(ta.pos.y, oh),
                    font_px,
                    color: fade(ta.color, o),
                    bold: ta.bold,
                    italic: ta.italic,
                    font: ta.font.clone(),
                },
            );
        }
        i += 1;
    }
    (texts, plates)
}

fn resolve_arrows(xs: &Vec<ArrowAnnotation>, ow: u32, oh: u32, t: i64) -> (r: Vec<ResolvedArrow>)
    ensures
        r@ == arrows_upto(xs@, xs.len() as int, ow, oh, t),
{
    let mut out: Vec<ResolvedArrow> = Vec::new();
    let mut i: usize = 0;
    while i < xs.len()
        invariant
            i <= xs.len(),
            out@ == arrows_upto(xs@, i as int, ow, oh, t),
        decreases xs.len() - i,
    {
        let a = &xs[i];
        let o: i64 = a.range.opacity_at(t);
        proof {
            opacity_is_bounded(a.range, t);
        }
        if o > 0 {
            let (head_from, head_to) = match a.style {
                ArrowStyle::Arrow => (false, true),
                ArrowStyle::Line => (false, false),
                ArrowStyle::DoubleArrow => (true, true),
            };
            out.push(
                ResolvedArrow {
                    from_x: scale(a.from.x, ow),
                    from_y: scale(a.from.y, oh),
                    to_x: scale(a.to.x, ow),
                    to_y: scale(a.to.y, oh),
                    thickness_px: scale(a.thickness, oh),
                    color: fade(a.color, o),
                    head_from,
                    head_to,
                },
            );
        }
        i += 1;
    }
    out
}

/// Append the visible highlights to `out`.
fn resolve_highlights(
    xs: &Vec<HighlightBox>,
    ow: u32,
    oh: u32,
    t: i64,
    out: &mut Vec<ResolvedHighlight>,
)
    ensures
        final(out)@ == old(out)@ + highlights_upto(xs@, xs.len() as int, ow, oh, t),
{
    let mut i: usize = 0;
    while i < xs.len()
        invariant
            i <= xs.len(),
            out@ == old(out)@ + highlights_upto(xs@, i as int, ow, oh, t),
        decreases xs.len() - i,
    {
        let h = &xs[i];
        let o: i64 = h.range.opacity_at(t);
        proof {
            opacity_is_bounded(h.range, t);
        }
        if o > 0 {
            let is_mask = h.shape == HighlightShape::Mask;
            let r = ResolvedHighlight {
                x: scale(h.rect.x, ow),
                y: scale(h.rect.y, oh),
                w: scale(h.rect.w, ow),
                h: scale(h.rect.h, oh),
                thickness_px: if is_mask {
                    0
                } else {
                    scale(h.thickness, oh)
                },
                filled: h.filled || is_mask,
                ellipse: h.shape == HighlightShape::Ellipse,
                color: if is_mask {
                    fade(Color::rgb(40_000_000, 40_000_000, 50_000_000), o)
                } else {
                    fade(h.color, o)
                },
            };
            assert(r == highlight_of(*h, ow, oh, o as int));
            out.push(r);
        }
        i += 1;
    }
}

/// Map a source coordinate into output space.
fn map_coord(p: i64, src: i64, src_len: i64, dst: i64, dst_len: i64) -> (r: i128)
    ensures
        r == mapped(p, src, src_len, dst, dst_len),
        -0x5000_0000_0000_0000_0000_0000_0000_0000 <= r
            <= 0x5000_0000_0000_0000_0000_0000_0000_0000,
{
    let len: i128 = if src_len < 1 {
        1
    } else {
        src_len as i128
    };
    let off: i64 = saturate(p as i128 - src as i128);
    proof {
        let a = off as int;
        let b = dst_len as int;
        let d = len as int;
        assert(-0x4000_0000_0000_0000_0000_0000_0000_0000 <= a * b
            <= 0x4000_0000_0000_0000_0000_0000_0000_0000) by (nonlinear_arith)
            requires
                -0x8000_0000_0000_0000 <= a <= 0x7fff_ffff_ffff_ffff,
                -0x8000_0000_0000_0000 <= b <= 0x7fff_ffff_ffff_ffff,
        ;
        let m = a * b;
        assert(-0x4000_0000_0000_0000_0000_0000_0000_0000 <= m / d
            <= 0x4000_0000_0000_0000_0000_0000_0000_0000) by (nonlinear_arith)
            requires
                -0x4000_0000_0000_0000_0000_0000_0000_0000 <= m
                    <= 0x4000_0000_0000_0000_0000_0000_0000_0000,
                d >= 1,
        ;
    }
    dst as i128 + floor_div((off as i128) * (dst_len as i128), len)
}

fn resolve_ripple(x: i64, y: i64, age: i64, oh: u32, src: NormRect, dst: PxRect) -> (r:
    ResolvedHighlight)
    requires
        0 <= age < RIPPLE_LEN,
    ensures
        r == ripple_of(x, y, age as int, oh, src, dst),
{
    let cx: i128 = map_coord(x, src.x, src.w, dst.x, dst.w);
    let cy: i128 = map_coord(y, src.y, src.h, dst.y, dst.h);
    let share: i128 = 8_000_000 + (age / 15) as i128;
    proof {
        let s = share as int;
        let h = oh as int;
        assert(0 <= s * h <= 38_000_000 * 0x1_0000_0000) by (nonlinear_arith)
            requires
                0 <= s <= 38_000_000,
                0 <= h <= 0xffff_ffff,
        ;
    }
    let r: i128 = share * (oh as i128);
    let line: i128 = 3_500_000 * (oh as i128);
    ResolvedHighlight {
        x: saturate(cx - r),
        y: saturate(cy - r),
        w: saturate(r * 2),
        h: saturate(r * 2),
        thickness_px: saturate(
            if line < 1_500_000_000 {
                1_500_000_000
            } else {
                line
            },
        ),
        filled: false,
        ellipse: true,
        color: Color::rgb(BILLION, BILLION, BILLION).with_alpha((RIPPLE_LEN - age) * 2),
    }
}

fn resolve_ripples(events: &Vec<InputEvent>, oh: u32, t: i64, src: NormRect, dst: PxRect) -> (r: Vec<
    ResolvedHighlight,
>)
    ensures
        r@ == ripples_upto(events@, events.len() as int, oh, t, src, dst),
{
    let mut out: Vec<ResolvedHighlight> = Vec::new();
    let mut i: usize = 0;
    while i < events.len()
        invariant
            i <= events.len(),
            out@ == ripples_upto(events@, i as int, oh, t, src, dst),
        decreases events.len() - i,
    {
        if let InputEvent::Click { t: at, pos, .. } = events[i] {
            let age: i128 = t as i128 - at as i128;
            if age >= 0 && age < 450_000_000 {
                out.push(resolve_ripple(pos.x, pos.y, age as i64, oh, src, dst));
            }
        }
        i += 1;
    }
    out
}

/// The places of the key presses on screen.
fn find_showing(taps: &Vec<KeyTap>, t: i64) -> (r: Vec<usize>)
    ensures
        r.len() == showing_taps(taps@, taps.len() as int, t).len(),
        forall|j: int|
            0 <= j < r.len() ==> #[trigger] r[j] == showing_taps(taps@, taps.len() as int, t)[j]
                && r[j] < taps.len(),
{
    let mut out: Vec<usize> = Vec::new();
    let mut i: usize = 0;
    while i < taps.len()
        invariant
            i <= taps.len(),
            out.len() == showing_taps(taps@, i as int, t).len(),
            forall|j: int|
                0 <= j < out.len() ==> #[trigger] out[j] == showing_taps(taps@, i as int, t)[j]
                    && out[j] < taps.len(),
        decreases taps.len() - i,
    {
        let at: i64 = taps[i].t;
        if t >= at && (t as i128) < at as i128 + 1_100_000_000 {
            out.push(i);
        }
        i += 1;
    }
    out
}

fn resolve_chip(k: &KeyTap, slot: usize, ow: u32, oh: u32, t: i64) -> (r: (
    ResolvedHighlight,
    ResolvedText,
))
    requires
        slot < CHIP_SLOTS,
        tap_shows(*k, t),
    ensures
        r.0 == chip_of(*k, slot as int, ow, oh, t),
        is_chip_text(r.1, *k, slot as int, ow, oh, t),
{
    let age: i64 = (t as i128 - k.t as i128) as i64;
    let o: i64 = if age > CHIP_SHOW - CHIP_FADE {
        (CHIP_SHOW - age) * 4
    } else {
        BILLION
    };
    let font: i128 = 34_000_000 * (oh as i128);
    let n: i128 = count_glyphs(&k.label);
    proof {
        let a = n as int;
        let f = font as int;
        assert(0 <= a * f <= 0x1_0000_0000 * (34_000_000 * 0x1_0000_0000)) by (nonlinear_arith)
            requires
                0 <= a <= 0xffff_ffff,
                0 <= f <= 34_000_000 * 0xffff_ffff,
        ;
    }
    let text_w: i128 = n * font * 62 / 100;
    let pad_x: i128 = font * 7 / 10;
    let chip_h: i128 = font * 18 / 10;
    let chip_w: i128 = text_w + pad_x * 2;
    let step: i128 = chip_h + 12_000_000 * (oh as i128);
    proof {
        let a = slot as int;
        let b = step as int;
        assert(0 <= a * b <= 3 * b) by (nonlinear_arith)
            requires
                0 <= a <= 3,
                0 <= b,
        ;
    }
    let y: i128 = 940_000_000 * (oh as i128) - chip_h - (slot as i128) * step;
    let mid: i128 = 500_000_000 * (ow as i128);
    let chip = ResolvedHighlight {
        x: saturate(mid - chip_w / 2),
        y: saturate(y),
        w: saturate(chip_w),
        h: saturate(chip_h),
        thickness_px: 0,
        filled: true,
        ellipse: false,
        color: fade(Color::rgb(40_000_000, 40_000_000, 50_000_000).with_alpha(820_000_000), o),
    };
    let text = ResolvedText {
        text: k.label.clone(),
        x: saturate(mid - text_w / 2),
        y: saturate(y + (chip_h - font * 125 / 100) / 2),
        font_px: saturate(font),
        color: fade(Color::white(), o),
        bold: true,
        italic: false,
        font: String::new(),
    };
    (chip, text)
}

/// Whether chips and labels are those of the key presses on screen, the latest first.
pub open spec fn shows_chips(
    chips: Seq<ResolvedHighlight>,
    labels: Seq<ResolvedText>,
    taps: Seq<KeyTap>,
    count: int,
    ow: u32,
    oh: u32,
    t: i64,
) -> bool {
    &&& chips.len() == count
    &&& labels.len() == count
    &&& forall|s: int|
        0 <= s < count ==> #[trigger] chips[s] == chip_of(tap_in_slot(taps, s, t), s, ow, oh, t)
    &&& forall|s: int|
        0 <= s < count ==> is_chip_text(
            #[trigger] labels[s],
            tap_in_slot(taps, s, t),
            s,
            ow,
            oh,
            t,
        )
}

/// Every place in the list of showing key presses holds one that shows.
proof fn lemma_showing(taps: Seq<KeyTap>, n: int, t: i64, j: int)
    requires
        0 <= n <= taps.len(),
        0 <= j < showing_taps(taps, n, t).len(),
    ensures
        0 <= showing_taps(taps, n, t)[j] < n,
        tap_shows(taps[showing_taps(taps, n, t)[j]], t),
    decreases n,
{
    let before = showing_taps(taps, n - 1, t);
    if j < before.len() {
        lemma_showing(taps, n - 1, t, j);
    }
}

fn resolve_chips(taps: &Vec<KeyTap>, ow: u32, oh: u32, t: i64) -> (r: (
    Vec<ResolvedHighlight>,
    Vec<ResolvedText>,
))
    ensures
        shows_chips(r.0@, r.1@, taps@, chips_up(taps@, t), ow, oh, t),
{
    let up = find_showing(taps, t);
    let mut chips: Vec<ResolvedHighlight> = Vec::new();
    let mut labels: Vec<ResolvedText> = Vec::new();
    let mut slot: usize = 0;
    let ghost all = showing_taps(taps@, taps.len() as int, t);
    while slot < up.len() && slot < CHIP_SLOTS
        invariant
            slot <= up.len(),
            slot <= CHIP_SLOTS,
            all == showing_taps(taps@, taps.len() as int, t),
            up.len() == all.len(),
            forall|j: int| 0 <= j < up.len() ==> #[trigger] up[j] == all[j] && up[j] < taps.len(),
            shows_chips(chips@, labels@, taps@, slot as int, ow, oh, t),
        decreases CHIP_SLOTS - slot,
    {
        let k = &taps[up[up.len() - 1 - slot]];
        proof {
            lemma_showing(taps@, taps.len() as int, t, all.len() - 1 - slot);
        }
        assert(*k == tap_in_slot(taps@, slot as int, t));
        let (chip, label) = resolve_chip(k, slot, ow, oh, t);
        chips.push(chip);
        labels.push(label);
        slot += 1;
    }
    (chips, labels)
}

/// Resolve everything to draw for the output frame at `t`.
///
/// Annotations are placed in output space; fade opacity is baked into each color's alpha.
pub fn build_scene(
    project: &Project,
    camera: &CameraTrack,
    out_w: u32,
    out_h: u32,
    t: i64,
) -> (s: Scene)
    ensures
        s.layout == layout_of(
            out_w,
            out_h,
            project.frame,
            pose_at(camera.view(), camera.rate(), t),
            project.crop,
        ),
        s.texts@ == texts_upto(project.texts@, project.texts.len() as int, out_w, out_h, t),
        s.arrows@ == arrows_upto(project.arrows@, project.arrows.len() as int, out_w, out_h, t),
        s.highlights@ == plates_upto(project.texts@, project.texts.len() as int, out_w, out_h, t)
            + highlights_upto(project.highlights@, project.highlights.len() as int, out_w, out_h, t),
        s.ripples@ == (if project.show_clicks {
            ripples_upto(
                project.events@,
                project.events.len() as int,
                out_h,
                t,
                s.layout.src_rect,
                s.layout.dst_rect,
            )
        } else {
            Seq::empty()
        }),
        shows_chips(
            s.key_chips@,
            s.key_texts@,
            project.key_taps@,
            if project.show_keys {
                chips_up(project.key_taps@, t)
            } else {
                0
            },
            out_w,
            out_h,
            t,
        ),
{
    let cam = camera.at(t);
    let layout = compute_layout(out_w, out_h, &project.frame, &cam, project.crop);
    let (texts, plates) = resolve_texts(&project.texts, out_w, out_h, t);
    let mut highlights = plates;
    resolve_highlights(&project.highlights, out_w, out_h, t, &mut highlights);
    let arrows = resolve_arrows(&project.arrows, out_w, out_h, t);
    let ripples = if project.show_clicks {
        resolve_ripples(&project.events, out_h, t, layout.src_rect, layout.dst_rect)
    } else {
        Vec::new()
    };
    let (key_chips, key_texts) = if project.show_keys {
        resolve_chips(&project.key_taps, out_w, out_h, t)
    } else {
        (Vec::new(), Vec::new())
    };
    Scene { layout, texts, arrows, highlights, ripples, key_chips, key_texts }
}

/// A mask hides what is under it however it was styled: two masks over the same place, shown
/// at the same opacity, are drawn alike, as a filled block without an outline.
pub proof fn masks_ignore_their_style(a: HighlightBox, b: HighlightBox, ow: u32, oh: u32, o: int)
    requires
        a.shape is Mask,
        b.shape is Mask,
        a.rect == b.rect,
    ensures
        highlight_of(a, ow, oh, o) == highlight_of(b, ow, oh, o),
        highlight_of(a, ow, oh, o).filled,
        highlight_of(a, ow, oh, o).thickness_px == 0,
{
}

/// A fully shown mask is opaque.
pub proof fn masks_are_opaque(a: HighlightBox, ow: u32, oh: u32)
    requires
        a.shape is Mask,
    ensures
        highlight_of(a, ow, oh, BILLION as int).color == mask_color(),
{
    assert(BILLION * BILLION / BILLION as int == BILLION) by (nonlinear_arith)
        requires
            BILLION == 1_000_000_000,
    ;
}

proof fn lemma_faded_texts(xs: Seq<TextAnnotation>, n: int, ow: u32, oh: u32, t: i64)
    requires
        0 <= n <= xs.len(),
        forall|i: int| 0 <= i < xs.len() ==> (#[trigger] xs[i]).range.opacity(t) <= 0,
    ensures
        texts_upto(xs, n, ow, oh, t).len() == 0,
        plates_upto(xs, n, ow, oh, t).len() == 0,
    decreases n,
{
    if n > 0 {
        lemma_faded_texts(xs, n - 1, ow, oh, t);
    }
}

proof fn lemma_faded_arrows(xs: Seq<ArrowAnnotation>, n: int, ow: u32, oh: u32, t: i64)
    requires
        0 <= n <= xs.len(),
        forall|i: int| 0 <= i < xs.len() ==> (#[trigger] xs[i]).range.opacity(t) <= 0,
    ensures
        arrows_upto(xs, n, ow, oh, t).len() == 0,
    decreases n,
{
    if n > 0 {
        lemma_faded_arrows(xs, n - 1, ow, oh, t);
    }
}

proof fn lemma_faded_highlights(xs: Seq<HighlightBox>, n: int, ow: u32, oh: u32, t: i64)
    requires
        0 <= n <= xs.len(),
        forall|i: int| 0 <= i < xs.len() ==> (#[trigger] xs[i]).range.opacity(t) <= 0,
    ensures
        highlights_upto(xs, n, ow, oh, t).len() == 0,
    decreases n,
{
    if n > 0 {
        lemma_faded_highlights(xs, n - 1, ow, oh, t);
    }
}

/// Where every annotation has faded out, no annotation is drawn.
pub proof fn faded_annotations_are_not_drawn(p: Project, ow: u32, oh: u32, t: i64)
    requires
        forall|i: int| 0 <= i < p.texts.len() ==> (#[trigger] p.texts[i]).range.opacity(t) <= 0,
        forall|i: int| 0 <= i < p.arrows.len() ==> (#[trigger] p.arrows[i]).range.opacity(t) <= 0,
        forall|i: int|
            0 <= i < p.highlights.len() ==> (#[trigger] p.highlights[i]).range.opacity(t) <= 0,
    ensures
        texts_upto(p.texts@, p.texts.len() as int, ow, oh, t).len() == 0,
        plates_upto(p.texts@, p.texts.len() as int, ow, oh, t).len() == 0,
        arrows_upto(p.arrows@, p.arrows.len() as int, ow, oh, t).len() == 0,
        highlights_upto(p.highlights@, p.highlights.len() as int, ow, oh, t).len() == 0,
{
    lemma_faded_texts(p.texts@, p.texts.len() as int, ow, oh, t);
    lemma_faded_arrows(p.arrows@, p.arrows.len() as int, ow, oh, t);
    lemma_faded_highlights(p.highlights@, p.highlights.len() as int, ow, oh, t);
}

/// Whether a color is another whose alpha is scaled by an opacity, rounded down.
pub open spec fn is_faded(r: Color, c: Color, opacity: int) -> bool {
    &&& r.r == c.r
    &&& r.g == c.g
    &&& r.b == c.b
    &&& 0 <= c.a <= BILLION && 0 <= opacity <= BILLION ==> r.a * BILLION <= c.a * opacity < (r.a
        + 1) * BILLION
}

/// Fading a color scales its alpha.
proof fn lemma_is_faded(c: Color, opacity: int)
    ensures
        is_faded(faded(c, opacity), c, opacity),
{
    let p = c.a * opacity;
    if 0 <= c.a <= BILLION && 0 <= opacity <= BILLION {
        assert(0 <= p <= 1_000_000_000 * 1_000_000_000) by (nonlinear_arith)
            requires
                p == c.a * opacity,
                0 <= c.a <= 1_000_000_000,
                0 <= opacity <= 1_000_000_000,
        ;
    }
}

/// Whether a coordinate or length, in billionths, is on the screen or not far from it.
pub open spec fn is_close(v: i64) -> bool {
    -2 * BILLION <= v <= 2 * BILLION
}

/// A close coordinate scales to an extent without leaving the range of numbers.
proof fn lemma_extent(v: i64, n: u32)
    requires
        is_close(v),
    ensures
        of_extent(v, n) == v * n,
        -8_600_000_000_000_000_000 <= v * n <= 8_600_000_000_000_000_000,
{
    assert(-8_600_000_000_000_000_000 <= v * n <= 8_600_000_000_000_000_000) by (nonlinear_arith)
        requires
            -2_000_000_000 <= v <= 2_000_000_000,
            0 <= n <= 4_294_967_295,
    ;
}

/// The arrows among the first `n` that are visible.
proof fn lemma_drawn_arrows(xs: Seq<ArrowAnnotation>, n: int, ow: u32, oh: u32, t: i64, i: int)
    requires
        0 <= i < n <= xs.len(),
    ensures
        ({
            let seen = |j: int| xs[j].range.opacity(t) > 0;
            let out = arrows_upto(xs, n, ow, oh, t);
            &&& out.len() == how_many(seen, n)
            &&& seen(i) ==> 0 <= how_many(seen, i) < out.len() && out[how_many(seen, i)]
                == arrow_of(xs[i], ow, oh, xs[i].range.opacity(t))
        }),
    decreases n,
{
    let seen = |j: int| xs[j].range.opacity(t) > 0;
    lemma_how_many(seen, i, n);
    if i < n - 1 {
        lemma_drawn_arrows(xs, n - 1, ow, oh, t, i);
        lemma_how_many(seen, i, n - 1);
    } else if n > 1 {
        lemma_drawn_arrows(xs, n - 1, ow, oh, t, 0);
    } else {
        assert(arrows_upto(xs, 0, ow, oh, t).len() == 0);
        assert(how_many(seen, 0) == 0);
    }
}

/// Every visible arrow is drawn, in the order of the list, with its own ends, scaled to the
/// output: the tail is where it comes from and the tip where it goes to. Its style says which
/// of them have heads, and its color fades with it.
pub proof fn arrows_keep_their_ends(xs: Seq<ArrowAnnotation>, ow: u32, oh: u32, t: i64, i: int)
    requires
        0 <= i < xs.len(),
        xs[i].range.opacity(t) > 0,
        is_close(xs[i].from.x),
        is_close(xs[i].from.y),
        is_close(xs[i].to.x),
        is_close(xs[i].to.y),
        is_close(xs[i].thickness),
    ensures
        ({
            let a = xs[i];
            let seen = |j: int| xs[j].range.opacity(t) > 0;
            let out = arrows_upto(xs, xs.len() as int, ow, oh, t);
            let d = out[how_many(seen, i)];
            &&& out.len() == how_many(seen, xs.len() as int)
            &&& 0 <= how_many(seen, i) < out.len()
            &&& d.from_x == a.from.x * ow
            &&& d.from_y == a.from.y * oh
            &&& d.to_x == a.to.x * ow
            &&& d.to_y == a.to.y * oh
            &&& d.thickness_px == a.thickness * oh
            &&& is_faded(d.color, a.color, a.range.opacity(t))
            &&& match a.style {
                ArrowStyle::Line => !d.head_from && !d.head_to,
                ArrowStyle::Arrow => !d.head_from && d.head_to,
                ArrowStyle::DoubleArrow => d.head_from && d.head_to,
            }
        }),
{
    let a = xs[i];
    lemma_drawn_arrows(xs, xs.len() as int, ow, oh, t, i);
    lemma_is_faded(a.color, a.range.opacity(t));
    lemma_extent(a.from.x, ow);
    lemma_extent(a.from.y, oh);
    lemma_extent(a.to.x, ow);
    lemma_extent(a.to.y, oh);
    lemma_extent(a.thickness, oh);
}

/// An arrow that goes the other way is drawn the other way; the tip depends on where an arrow
/// goes to alone and the tail on where it comes from alone.
pub proof fn turned_arrows_are_drawn_turned(
    a: ArrowAnnotation,
    b: ArrowAnnotation,
    ow: u32,
    oh: u32,
    o: int,
)
    ensures
        ({
            let d = arrow_of(a, ow, oh, o);
            let e = arrow_of(b, ow, oh, o);
            &&& a.from == b.to ==> d.from_x == e.to_x && d.from_y == e.to_y
            &&& a.to == b.from ==> d.to_x == e.from_x && d.to_y == e.from_y
            &&& a.from == b.from ==> d.from_x == e.from_x && d.from_y == e.from_y
            &&& a.to == b.to ==> d.to_x == e.to_x && d.to_y == e.to_y
            &&& a.to.x < b.to.x && ow > 0 && is_close(a.to.x) && is_close(b.to.x) ==> d.to_x
                < e.to_x
            &&& a.to.y < b.to.y && oh > 0 && is_close(a.to.y) && is_close(b.to.y) ==> d.to_y
                < e.to_y
            &&& a.from.x < b.from.x && ow > 0 && is_close(a.from.x) && is_close(b.from.x)
                ==> d.from_x < e.from_x
            &&& a.from.y < b.from.y && oh > 0 && is_close(a.from.y) && is_close(b.from.y)
                ==> d.from_y < e.from_y
        }),
{
    lemma_extents_in_order(a.to.x, b.to.x, ow);
    lemma_extents_in_order(a.to.y, b.to.y, oh);
    lemma_extents_in_order(a.from.x, b.from.x, ow);
    lemma_extents_in_order(a.from.y, b.from.y, oh);
}

/// Close coordinates keep their order when they are scaled.
proof fn lemma_extents_in_order(v: i64, w: i64, n: u32)
    ensures
        v < w && n > 0 && is_close(v) && is_close(w) ==> of_extent(v, n) < of_extent(w, n),
{
    if v < w && n > 0 && is_close(v) && is_close(w) {
        lemma_extent(v, n);
        lemma_extent(w, n);
        assert(v * n < w * n) by (nonlinear_arith)
            requires
                v < w,
                n > 0,
        ;
    }
}

/// The highlights among the first `n` that are visible.
proof fn lemma_drawn_highlights(xs: Seq<HighlightBox>, n: int, ow: u32, oh: u32, t: i64, i: int)
    requires
        0 <= i < n <= xs.len(),
    ensures
        ({
            let seen = |j: int| xs[j].range.opacity(t) > 0;
            let out = highlights_upto(xs, n, ow, oh, t);
            &&& out.len() == how_many(seen, n)
            &&& seen(i) ==> 0 <= how_many(seen, i) < out.len() && out[how_many(seen, i)]
                == highlight_of(xs[i], ow, oh, xs[i].range.opacity(t))
        }),
    decreases n,
{
    let seen = |j: int| xs[j].range.opacity(t) > 0;
    lemma_how_many(seen, i, n);
    if i < n - 1 {
        lemma_drawn_highlights(xs, n - 1, ow, oh, t, i);
        lemma_how_many(seen, i, n - 1);
    } else if n > 1 {
        lemma_drawn_highlights(xs, n - 1, ow, oh, t, 0);
    } else {
        assert(highlights_upto(xs, 0, ow, oh, t).len() == 0);
        assert(how_many(seen, 0) == 0);
    }
}

/// Every visible highlight is drawn, in the order of the list, over its own rectangle, scaled
/// to the output, in its own shape and color, which fades with it; masks are opaque blocks.
pub proof fn highlights_keep_their_place(xs: Seq<HighlightBox>, ow: u32, oh: u32, t: i64, i: int)
    requires
        0 <= i < xs.len(),
        xs[i].range.opacity(t) > 0,
        is_close(xs[i].rect.x),
        is_close(xs[i].rect.y),
        is_close(xs[i].rect.w),
        is_close(xs[i].rect.h),
        is_close(xs[i].thickness),
    ensures
        ({
            let a = xs[i];
            let seen = |j: int| xs[j].range.opacity(t) > 0;
            let out = highlights_upto(xs, xs.len() as int, ow, oh, t);
            let d = out[how_many(seen, i)];
            let o = a.range.opacity(t);
            &&& out.len() == how_many(seen, xs.len() as int)
            &&& 0 <= how_many(seen, i) < out.len()
            &&& d.x == a.rect.x * ow
            &&& d.y == a.rect.y * oh
            &&& d.w == a.rect.w * ow
            &&& d.h == a.rect.h * oh
            &&& match a.shape {
                HighlightShape::Mask => d.filled && !d.ellipse && d.thickness_px == 0 && is_faded(
                    d.color,
                    Color { r: 40_000_000, g: 40_000_000, b: 50_000_000, a: BILLION },
                    o,
                ),
                _ => d.filled == a.filled && d.ellipse == (a.shape is Ellipse) && d.thickness_px
                    == a.thickness * oh && is_faded(d.color, a.color, o),
            }
        }),
{
    let a = xs[i];
    lemma_drawn_highlights(xs, xs.len() as int, ow, oh, t, i);
    lemma_is_faded(a.color, a.range.opacity(t));
    lemma_is_faded(mask_color(), a.range.opacity(t));
    lemma_extent(a.rect.x, ow);
    lemma_extent(a.rect.y, oh);
    lemma_extent(a.rect.w, ow);
    lemma_extent(a.rect.h, oh);
    lemma_extent(a.thickness, oh);
}

/// The texts and plates among the first `n` that are visible.
proof fn lemma_drawn_texts(xs: Seq<TextAnnotation>, n: int, ow: u32, oh: u32, t: i64, i: int)
    requires
        0 <= i < n <= xs.len(),
    ensures
        ({
            let seen = |j: int| xs[j].range.opacity(t) > 0;
            let backed = |j: int| xs[j].range.opacity(t) > 0 && xs[j].background;
            let out = texts_upto(xs, n, ow, oh, t);
            let plates = plates_upto(xs, n, ow, oh, t);
            let o = xs[i].range.opacity(t);
            &&& out.len() == how_many(seen, n)
            &&& plates.len() == how_many(backed, n)
            &&& seen(i) ==> 0 <= how_many(seen, i) < out.len() && out[how_many(seen, i)] == text_of(
                xs[i],
                ow,
                oh,
                o,
            )
            &&& backed(i) ==> 0 <= how_many(backed, i) < plates.len() && plates[how_many(backed, i)]
                == plate_of(xs[i], ow, oh, o)
        }),
    decreases n,
{
    let seen = |j: int| xs[j].range.opacity(t) > 0;
    let backed = |j: int| xs[j].range.opacity(t) > 0 && xs[j].background;
    lemma_how_many(seen, i, n);
    lemma_how_many(backed, i, n);
    if i < n - 1 {
        lemma_drawn_texts(xs, n - 1, ow, oh, t, i);
        lemma_how_many(seen, i, n - 1);
        lemma_how_many(backed, i, n - 1);
    } else if n > 1 {
        lemma_drawn_texts(xs, n - 1, ow, oh, t, 0);
    } else {
        assert(texts_upto(xs, 0, ow, oh, t).len() == 0);
        assert(plates_upto(xs, 0, ow, oh, t).len() == 0);
        assert(how_many(seen, 0) == 0);
        assert(how_many(backed, 0) == 0);
    }
}

/// Every visible text is drawn, in the order of the list, at its own place, scaled to the
/// output, with its words and style; its size goes with the output's height and its color
/// fades with it. A text with a background has a dark plate behind it, which is wider than its
/// letters by three tenths of their size on either side, and higher than them by sixteen
/// hundredths above and below.
pub proof fn texts_keep_their_place(xs: Seq<TextAnnotation>, ow: u32, oh: u32, t: i64, i: int)
    requires
        0 <= i < xs.len(),
        xs[i].range.opacity(t) > 0,
        is_close(xs[i].pos.x),
        is_close(xs[i].pos.y),
        0 <= xs[i].font_size <= BILLION,
        ow <= 1_000_000,
        oh <= 1_000_000,
        xs[i].text@.len() <= 1000,
    ensures
        ({
            let a = xs[i];
            let o = a.range.opacity(t);
            let seen = |j: int| xs[j].range.opacity(t) > 0;
            let backed = |j: int| xs[j].range.opacity(t) > 0 && xs[j].background;
            let out = texts_upto(xs, xs.len() as int, ow, oh, t);
            let plates = plates_upto(xs, xs.len() as int, ow, oh, t);
            let d = out[how_many(seen, i)];
            let font = a.font_size * oh;
            &&& out.len() == how_many(seen, xs.len() as int)
            &&& plates.len() == how_many(backed, xs.len() as int)
            &&& 0 <= how_many(seen, i) < out.len()
            &&& d.text@ == a.text@
            &&& d.font@ == a.font@
            &&& d.x == a.pos.x * ow
            &&& d.y == a.pos.y * oh
            &&& d.font_px == font
            &&& is_faded(d.color, a.color, o)
            &&& d.bold == a.bold
            &&& d.italic == a.italic
            &&& a.background ==> {
                let p = plates[how_many(backed, i)];
                &&& 0 <= how_many(backed, i) < plates.len()
                &&& p.x == d.x - font * 3 / 10
                &&& p.y == d.y - font * 16 / 100
                &&& p.w == font * (a.text@.len() * 6) / 10 + 2 * (font * 3 / 10)
                &&& p.h == font * 125 / 100 + 2 * (font * 16 / 100)
                &&& p.filled
                &&& !p.ellipse
                &&& p.thickness_px == 0
                &&& is_faded(
                    p.color,
                    Color { r: 50_000_000, g: 50_000_000, b: 60_000_000, a: 700_000_000 },
                    o,
                )
            }
        }),
{
    let a = xs[i];
    let o = a.range.opacity(t);
    lemma_drawn_texts(xs, xs.len() as int, ow, oh, t, i);
    lemma_is_faded(a.color, o);
    lemma_is_faded(
        Color { r: 50_000_000, g: 50_000_000, b: 60_000_000, a: 700_000_000 },
        o,
    );
    lemma_extent(a.pos.x, ow);
    lemma_extent(a.pos.y, oh);
    lemma_extent(a.font_size, oh);
    let font = a.font_size * oh;
    let k = a.text@.len() * 6;
    assert(0 <= font <= 1_000_000_000_000_000) by (nonlinear_arith)
        requires
            font == a.font_size * oh,
            0 <= a.font_size <= 1_000_000_000,
            0 <= oh <= 1_000_000,
    ;
    assert(0 <= font * k <= 6_000_000_000_000_000_000) by (nonlinear_arith)
        requires
            0 <= font <= 1_000_000_000_000_000,
            0 <= k <= 6000,
    ;
    assert(-2_000_000_000_000_000 <= a.pos.x * ow <= 2_000_000_000_000_000) by (nonlinear_arith)
        requires
            -2_000_000_000 <= a.pos.x <= 2_000_000_000,
            0 <= ow <= 1_000_000,
    ;
    assert(-2_000_000_000_000_000 <= a.pos.y * oh <= 2_000_000_000_000_000) by (nonlinear_arith)
        requires
            -2_000_000_000 <= a.pos.y <= 2_000_000_000,
            0 <= oh <= 1_000_000,
    ;
}

/// Whether an event is a click that is less than a ripple's life old.
pub open spec fn rings(e: InputEvent, t: i64) -> bool {
    e is Click && 0 <= t - e.time() < 450_000_000
}

/// The ripples of the young clicks among the first `n` events.
proof fn lemma_drawn_ripples(
    events: Seq<InputEvent>,
    n: int,
    oh: u32,
    t: i64,
    src: NormRect,
    dst: PxRect,
    i: int,
)
    requires
        0 <= i < n <= events.len(),
    ensures
        ({
            let young = |j: int| rings(events[j], t);
            let out = ripples_upto(events, n, oh, t, src, dst);
            &&& out.len() == how_many(young, n)
            &&& young(i) ==> {
                let pos = events[i].place()->Some_0;
                &&& 0 <= how_many(young, i) < out.len()
                &&& out[how_many(young, i)] == ripple_of(
                    pos.x,
                    pos.y,
                    t - events[i].time(),
                    oh,
                    src,
                    dst,
                )
            }
        }),
    decreases n,
{
    let young = |j: int| rings(events[j], t);
    lemma_how_many(young, i, n);
    if i < n - 1 {
        lemma_drawn_ripples(events, n - 1, oh, t, src, dst, i);
        lemma_how_many(young, i, n - 1);
    } else if n > 1 {
        lemma_drawn_ripples(events, n - 1, oh, t, src, dst, 0);
    } else {
        assert(ripples_upto(events, 0, oh, t, src, dst).len() == 0);
        assert(how_many(young, 0) == 0);
    }
}

/// A coordinate between the ends of the sampled region maps to between the ends of the drawn
/// one, in proportion and rounded down.
proof fn lemma_mapped(p: i64, src: i64, src_len: i64, dst: i64, dst_len: i64)
    requires
        src_len > 0,
        0 <= p - src <= src_len,
        dst_len >= 0,
    ensures
        ({
            let c = mapped(p, src, src_len, dst, dst_len) - dst;
            &&& 0 <= c <= dst_len
            &&& c * src_len <= (p - src) * dst_len < (c + 1) * src_len
        }),
{
    let a = (p - src) * dst_len;
    let d = src_len as int;
    let q = a / d;
    vstd::arithmetic::div_mod::lemma_fundamental_div_mod(a, d);
    assert(q * d <= a < (q + 1) * d) by (nonlinear_arith)
        requires
            a == d * q + a % d,
            0 <= a % d < d,
    ;
    assert(0 <= q <= dst_len) by (nonlinear_arith)
        requires
            q == a / d,
            a == (p - src) * dst_len,
            0 <= p - src <= d,
            dst_len >= 0,
            d > 0,
    ;
}

/// A click in view is followed, for its life, by one white ring around where it was: the ring
/// stays glued to the content, grows evenly with its age and the output's height, and fades
/// out evenly. Clicks ring in the order of the log, and nothing else rings.
pub proof fn ripples_surround_their_clicks(
    events: Seq<InputEvent>,
    oh: u32,
    t: i64,
    src: NormRect,
    dst: PxRect,
    i: int,
)
    requires
        0 <= i < events.len(),
        events[i] is Click,
        0 <= t - events[i].time() < 450_000_000,
        src.w > 0,
        src.h > 0,
        events[i].place() matches Some(p) && 0 <= p.x - src.x <= src.w && 0 <= p.y - src.y <= src.h,
        0 <= dst.x <= 4_294_967_295 * BILLION,
        0 <= dst.y <= 4_294_967_295 * BILLION,
        0 <= dst.w <= 4_294_967_295 * BILLION,
        0 <= dst.h <= 4_294_967_295 * BILLION,
    ensures
        ({
            let young = |j: int| rings(events[j], t);
            let out = ripples_upto(events, events.len() as int, oh, t, src, dst);
            let d = out[how_many(young, i)];
            let p = events[i].place()->Some_0;
            let age = t - events[i].time();
            let cx = d.x + d.w / 2 - dst.x;
            let cy = d.y + d.h / 2 - dst.y;
            &&& out.len() == how_many(young, events.len() as int)
            &&& 0 <= how_many(young, i) < out.len()
            &&& cx * src.w <= (p.x - src.x) * dst.w < (cx + 1) * src.w
            &&& cy * src.h <= (p.y - src.y) * dst.h < (cy + 1) * src.h
            &&& d.w == 2 * (8_000_000 + age / 15) * oh
            &&& d.h == d.w
            &&& d.ellipse
            &&& !d.filled
            &&& d.color == (Color {
                r: BILLION,
                g: BILLION,
                b: BILLION,
                a: ((450_000_000 - age) * 2) as i64,
            })
            &&& d.thickness_px == greater(3_500_000 * oh, 1_500_000_000)
        }),
{
    let p = events[i].place()->Some_0;
    let age = t - events[i].time();
    lemma_drawn_ripples(events, events.len() as int, oh, t, src, dst, i);
    lemma_mapped(p.x, src.x, src.w, dst.x, dst.w);
    lemma_mapped(p.y, src.y, src.h, dst.y, dst.h);
    let k = 8_000_000 + age / 15;
    let r = k * oh;
    assert(0 <= r <= 165_000_000_000_000_000) by (nonlinear_arith)
        requires
            r == k * oh,
            0 <= k <= 38_000_000,
            0 <= oh <= 4_294_967_295,
    ;
    assert(2 * k * oh == 2 * r) by (nonlinear_arith)
        requires
            r == k * oh,
    ;
}

/// The places of showing key presses are theirs in order.
proof fn lemma_showing_order(taps: Seq<KeyTap>, n: int, t: i64, i: int)
    requires
        0 <= i < n <= taps.len(),
    ensures
        ({
            let up = |j: int| taps[j].t <= t < taps[j].t + 1_100_000_000;
            let out = showing_taps(taps, n, t);
            &&& out.len() == how_many(up, n)
            &&& up(i) ==> 0 <= how_many(up, i) < out.len() && out[how_many(up, i)] == i
        }),
    decreases n,
{
    let up = |j: int| taps[j].t <= t < taps[j].t + 1_100_000_000;
    lemma_how_many(up, i, n);
    if i < n - 1 {
        lemma_showing_order(taps, n - 1, t, i);
        lemma_how_many(up, i, n - 1);
    } else if n > 1 {
        lemma_showing_order(taps, n - 1, t, 0);
    } else {
        assert(showing_taps(taps, 0, t).len() == 0);
        assert(how_many(up, 0) == 0);
    }
}

/// The measures of a chip stay in the range of numbers.
proof fn lemma_chip_measures(label: Seq<char>, slot: int, oh: u32)
    requires
        oh <= 1_000_000,
        label.len() <= 1000,
        0 <= slot <= 2,
    ensures
        ({
            let m = chip_measures(label, slot, oh);
            let font = 34_000_000 * oh;
            let h = font * 18 / 10;
            &&& m.0 == font
            &&& m.1 == label.len() * font * 62 / 100
            &&& m.2 == m.1 + 2 * (font * 7 / 10)
            &&& m.3 == h
            &&& m.4 + h + slot * (h + 12_000_000 * oh) == 940_000_000 * oh
            &&& 0 <= m.0 <= 100_000_000_000_000_000
            &&& 0 <= m.1 <= 100_000_000_000_000_000
            &&& 0 <= m.2 <= 200_000_000_000_000_000
            &&& 0 <= m.3 <= 100_000_000_000_000_000
            &&& -400_000_000_000_000_000 <= m.4 <= 400_000_000_000_000_000
        }),
{
    let k = label.len() as int;
    let font = 34_000_000 * oh;
    assert(0 <= k * font <= 34_000_000_000_000_000) by (nonlinear_arith)
        requires
            0 <= k <= 1000,
            0 <= font <= 34_000_000_000_000,
    ;
    let step = font * 18 / 10 + 12_000_000 * oh;
    assert(0 <= slot * step <= 2 * step) by (nonlinear_arith)
        requires
            0 <= slot <= 2,
            0 <= step,
    ;
}

/// The chip of a key press and its label.
proof fn lemma_chip(k: KeyTap, slot: int, ow: u32, oh: u32, t: i64, l: ResolvedText)
    requires
        is_chip_text(l, k, slot, ow, oh, t),
        ow <= 1_000_000,
        oh <= 1_000_000,
        k.label@.len() <= 1000,
        0 <= slot <= 2,
    ensures
        ({
            let c = chip_of(k, slot, ow, oh, t);
            let font = 34_000_000 * oh;
            let h = font * 18 / 10;
            let w = k.label@.len() * font * 62 / 100;
            &&& l.text@ == k.label@
            &&& l.font_px == font
            &&& -1 <= 2 * c.x + c.w - BILLION * ow <= 1
            &&& c.y + c.h + slot * (h + 12_000_000 * oh) == 940_000_000 * oh
            &&& c.h == h
            &&& c.w - 2 * (font * 7 / 10) == w
            &&& -1 <= 2 * l.x + w - BILLION * ow <= 1
            &&& -1 <= 2 * l.y + font * 125 / 100 - (2 * c.y + c.h) <= 1
        }),
{
    lemma_chip_measures(k.label@, slot, oh);
}

/// A key press stays on screen for its time as a chip with its label, as long as fewer than
/// three later ones are up. The latest chip is the lowest, its bottom at ninety-four hundredths
/// of the height; each earlier one is above it, twelve thousandths apart. Chips are centered,
/// and so are the labels in them; both fade out at the end.
pub proof fn chips_stack_up(
    chips: Seq<ResolvedHighlight>,
    labels: Seq<ResolvedText>,
    taps: Seq<KeyTap>,
    ow: u32,
    oh: u32,
    t: i64,
    i: int,
)
    requires
        shows_chips(chips, labels, taps, chips_up(taps, t), ow, oh, t),
        0 <= i < taps.len(),
        taps[i].t <= t < taps[i].t + 1_100_000_000,
        ow <= 1_000_000,
        oh <= 1_000_000,
        taps[i].label@.len() <= 1000,
        ({
            let up = |j: int| taps[j].t <= t < taps[j].t + 1_100_000_000;
            how_many(up, taps.len() as int) - how_many(up, i) <= 3
        }),
    ensures
        ({
            let up = |j: int| taps[j].t <= t < taps[j].t + 1_100_000_000;
            let all = how_many(up, taps.len() as int);
            let slot = all - how_many(up, i) - 1;
            let c = chips[slot];
            let l = labels[slot];
            let age = t - taps[i].t;
            let o = if age <= 850_000_000 {
                BILLION as int
            } else {
                (1_100_000_000 - age) * 4
            };
            let h = 34_000_000 * oh * 18 / 10;
            &&& chips.len() == labels.len()
            &&& chips.len() == (if all > 3 {
                3
            } else {
                all
            })
            &&& 0 <= slot < chips.len()
            &&& l.text@ == taps[i].label@
            &&& l.font_px == 34_000_000 * oh
            &&& -1 <= 2 * c.x + c.w - BILLION * ow <= 1
            &&& c.y + c.h + slot * (h + 12_000_000 * oh) == 940_000_000 * oh
            &&& c.h == h
            &&& c.w - 2 * (34_000_000 * oh * 7 / 10) == l.text@.len() * (34_000_000 * oh) * 62 / 100
            &&& -1 <= 2 * l.x + l.text@.len() * (34_000_000 * oh) * 62 / 100 - BILLION * ow <= 1
            &&& -1 <= 2 * l.y + 34_000_000 * oh * 125 / 100 - (2 * c.y + c.h) <= 1
            &&& c.filled && !c.ellipse && c.thickness_px == 0
            &&& is_faded(
                c.color,
                Color { r: 40_000_000, g: 40_000_000, b: 50_000_000, a: 820_000_000 },
                o,
            )
            &&& is_faded(l.color, Color { r: BILLION, g: BILLION, b: BILLION, a: BILLION }, o)
        }),
{
    let up = |j: int| taps[j].t <= t < taps[j].t + 1_100_000_000;
    let n = taps.len() as int;
    lemma_showing_order(taps, n, t, i);
    lemma_how_many(up, i, n);
    let slot = how_many(up, n) - how_many(up, i) - 1;
    assert(tap_in_slot(taps, slot, t) == taps[i]);
    assert(chips[slot] == chip_of(taps[i], slot, ow, oh, t));
    assert(is_chip_text(labels[slot], taps[i], slot, ow, oh, t));
    let o = chip_opacity(t - taps[i].t);
    lemma_is_faded(Color { r: 40_000_000, g: 40_000_000, b: 50_000_000, a: 820_000_000 }, o);
    lemma_is_faded(Color { r: BILLION, g: BILLION, b: BILLION, a: BILLION }, o);
    lemma_chip(taps[i], slot, ow, oh, t, labels[slot]);
}

} // verus!
