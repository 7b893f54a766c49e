//! Cropping, framing and overlay switches, and what the editor shows of a clip.

use crate::project::annotation::{ArrowAnnotation, HighlightBox, TextAnnotation};
use crate::project::color::{Color, Rect};
use crate::project::crop::CropRect;
use crate::project::frame::{
    dims_for, preset_names, preset_of, shadow_of, unframed, Background, FrameStyle, Shadow,
};
use crate::project::model::{source_dims, ProjectModel};
use crate::project::timeline::{SpeedRegion, Trim};
use crate::session::error::EditError;
use crate::session::state::{did, Session};
use crate::text::same_text;
use crate::units::{clamped, floor_div, BILLION};
use crate::zoom::event::Point;
use crate::zoom::keyframe::ZoomKeyframe;
use vstd::prelude::*;

verus! {

/// A pair of sizes in pixels.
pub open spec fn dims(d: (u32, u32)) -> (int, int) {
    (d.0 as int, d.1 as int)
}

/// The output size of a project.
pub open spec fn out_dims(p: ProjectModel) -> (int, int) {
    let s = source_dims(p.source, p.crop);
    dims_for(p.aspect, s.0 as u32, s.1 as u32)
}

/// A coordinate after the output went from `was` to `is` pixels, held to the frame.
pub open spec fn rescaled(v: i64, is: int, was: int) -> i64 {
    clamped(v * is / was, 0, BILLION as int) as i64
}

/// A point after the output changed its size.
pub open spec fn rescaled_point(p: Point, is: (int, int), was: (int, int)) -> Point {
    Point { x: rescaled(p.x, is.0, was.0), y: rescaled(p.y, is.1, was.1) }
}

/// A text after the output changed its size.
pub open spec fn rescaled_text(a: TextAnnotation, is: (int, int), was: (int, int)) -> TextAnnotation {
    TextAnnotation { pos: rescaled_point(a.pos, is, was), ..a }
}

/// An arrow after the output changed its size.
pub open spec fn rescaled_arrow(a: ArrowAnnotation, is: (int, int), was: (int, int)) -> ArrowAnnotation {
    ArrowAnnotation {
        from: rescaled_point(a.from, is, was),
        to: rescaled_point(a.to, is, was),
        ..a
    }
}

/// A highlight after the output changed its size.
pub open spec fn rescaled_box(b: HighlightBox, is: (int, int), was: (int, int)) -> HighlightBox {
    HighlightBox {
        rect: Rect {
            x: rescaled(b.rect.x, is.0, was.0),
            y: rescaled(b.rect.y, is.1, was.1),
            w: rescaled(b.rect.w, is.0, was.0),
            h: rescaled(b.rect.h, is.1, was.1),
        },
        ..b
    }
}

/// A project whose annotations were rescaled.
pub open spec fn rescaled_all(p: ProjectModel, is: (int, int), was: (int, int)) -> ProjectModel {
    ProjectModel {
        texts: Seq::new(p.texts.len(), |i: int| rescaled_text(p.texts[i], is, was)),
        arrows: Seq::new(p.arrows.len(), |i: int| rescaled_arrow(p.arrows[i], is, was)),
        highlights: Seq::new(p.highlights.len(), |i: int| rescaled_box(p.highlights[i], is, was)),
        ..p
    }
}

/// The crop that is asked for, fitted to the frame; none where it covers everything.
pub open spec fn usable_crop(crop: Option<CropRect>) -> Option<CropRect> {
    match crop {
        Some(c) => if c.fitted().covers_all() {
            None
        } else {
            Some(c.fitted())
        },
        None => None,
    }
}

/// What cropping does: annotations live in output space, so they are rescaled where the
/// output changes its size.
pub open spec fn cropped(p: ProjectModel, crop: Option<CropRect>) -> ProjectModel {
    let q = ProjectModel { crop: usable_crop(crop), ..p };
    let was = out_dims(p);
    let is = out_dims(q);
    if is == was || was.0 <= 0 || was.1 <= 0 {
        q
    } else {
        rescaled_all(q, is, was)
    }
}

/// Cropping to what is cropped already changes nothing.
pub proof fn cropping_again_changes_nothing(p: ProjectModel, crop: Option<CropRect>)
    requires
        p.crop == usable_crop(crop),
    ensures
        cropped(p, crop) == p,
{
}

fn rescale(v: i64, is: u32, was: u32) -> (r: i64)
    requires
        was > 0,
    ensures
        r == rescaled(v, is as int, was as int),
{
    proof {
        let a = v as int;
        let b = is as int;
        assert(-0x8000_0000_0000_0000 * 0x1_0000_0000 <= a * b <= 0x8000_0000_0000_0000
            * 0x1_0000_0000) by (nonlinear_arith)
            requires
                -0x8000_0000_0000_0000 <= a <= 0x7fff_ffff_ffff_ffff,
                0 <= b <= 0xffff_ffff,
        ;
    }
    let q: i128 = floor_div(v as i128 * is as i128, was as i128);
    if q < 0 {
        0
    } else if q > 1_000_000_000 {
        BILLION
    } else {
        q as i64
    }
}

fn rescale_point(p: Point, is: (u32, u32), was: (u32, u32)) -> (r: Point)
    requires
        was.0 > 0,
        was.1 > 0,
    ensures
        r == rescaled_point(p, dims(is), dims(was)),
{
    Point { x: rescale(p.x, is.0, was.0), y: rescale(p.y, is.1, was.1) }
}

fn rescale_texts(v: &mut Vec<TextAnnotation>, is: (u32, u32), was: (u32, u32))
    requires
        was.0 > 0,
        was.1 > 0,
    ensures
        final(v)@ == Seq::new(
            old(v)@.len(),
            |i: int| rescaled_text(old(v)@[i], dims(is), dims(was)),
        ),
{
    let ghost before = v@;
    let mut i: usize = 0;
    while i < v.len()
        invariant
            was.0 > 0,
            was.1 > 0,
            i <= v@.len(),
            v@.len() == before.len(),
            forall|j: int|
                0 <= j < i ==> #[trigger] v@[j] == rescaled_text(before[j], dims(is), dims(was)),
            forall|j: int| i <= j < before.len() ==> #[trigger] v@[j] == before[j],
        decreases v@.len() - i,
    {
        let mut a = v[i].clone();
        a.pos = rescale_point(a.pos, is, was);
        v.set(i, a);
        i += 1;
    }
    assert(v@ =~= Seq::new(before.len(), |i: int| rescaled_text(before[i], dims(is), dims(was))));
}

fn rescale_arrows(v: &mut Vec<ArrowAnnotation>, is: (u32, u32), was: (u32, u32))
    requires
        was.0 > 0,
        was.1 > 0,
    ensures
        final(v)@ == Seq::new(
            old(v)@.len(),
            |i: int| rescaled_arrow(old(v)@[i], dims(is), dims(was)),
        ),
{
    let ghost before = v@;
    let mut i: usize = 0;
    while i < v.len()
        invariant
            was.0 > 0,
            was.1 > 0,
            i <= v@.len(),
            v@.len() == before.len(),
            forall|j: int|
                0 <= j < i ==> #[trigger] v@[j] == rescaled_arrow(before[j], dims(is), dims(was)),
            forall|j: int| i <= j < before.len() ==> #[trigger] v@[j] == before[j],
        decreases v@.len() - i,
    {
        let mut a = v[i];
        a.from = rescale_point(a.from, is, was);
        a.to = rescale_point(a.to, is, was);
        v.set(i, a);
        i += 1;
    }
    assert(v@ =~= Seq::new(before.len(), |i: int| rescaled_arrow(before[i], dims(is), dims(was))));
}

fn rescale_boxes(v: &mut Vec<HighlightBox>, is: (u32, u32), was: (u32, u32))
    requires
        was.0 > 0,
        was.1 > 0,
    ensures
        final(v)@ == Seq::new(
            old(v)@.len(),
            |i: int| rescaled_box(old(v)@[i], dims(is), dims(was)),
        ),
{
    let ghost before = v@;
    let mut i: usize = 0;
    while i < v.len()
        invariant
            was.0 > 0,
            was.1 > 0,
            i <= v@.len(),
            v@.len() == before.len(),
            forall|j: int|
                0 <= j < i ==> #[trigger] v@[j] == rescaled_box(before[j], dims(is), dims(was)),
            forall|j: int| i <= j < before.len() ==> #[trigger] v@[j] == before[j],
        decreases v@.len() - i,
    {
        let mut b = v[i];
        b.rect = Rect::new(
            rescale(b.rect.x, is.0, was.0),
            rescale(b.rect.y, is.1, was.1),
            rescale(b.rect.w, is.0, was.0),
            rescale(b.rect.h, is.1, was.1),
        );
        v.set(i, b);
        i += 1;
    }
    assert(v@ =~= Seq::new(before.len(), |i: int| rescaled_box(before[i], dims(is), dims(was))));
}

/// The backdrop of a framed recording: the one that was picked, or a tasteful gradient where
/// none was, so the padding does not read as a black void.
pub open spec fn framed_backdrop(b: Background) -> Background {
    if b == Background::Solid(Color::opaque(0, 0, 0)) {
        match preset_of("graphite"@) {
            Some(g) => g,
            None => Background::Solid(Color::opaque(0, 0, 0)),
        }
    } else {
        b
    }
}

/// The frame that a preset names; no frame where it names none. The backdrop is chosen
/// separately and kept.
pub open spec fn framed(f: FrameStyle, preset: Seq<char>) -> FrameStyle {
    if preset == "subtle"@ {
        FrameStyle {
            background: framed_backdrop(f.background),
            padding: 40_000_000,
            corner_radius: 12_000_000,
            shadow: shadow_of(300_000_000),
        }
    } else if preset == "studio"@ {
        FrameStyle {
            background: framed_backdrop(f.background),
            padding: 75_000_000,
            corner_radius: 20_000_000,
            shadow: shadow_of(500_000_000),
        }
    } else {
        FrameStyle { background: f.background, ..unframed() }
    }
}

fn is_black(b: &Background) -> (r: bool)
    ensures
        r == (*b == Background::Solid(Color::opaque(0, 0, 0))),
{
    match b {
        Background::Solid(c) => *c == Color::black(),
        _ => false,
    }
}

fn backdrop_for_frame(b: &Background) -> (r: Background)
    ensures
        r == framed_backdrop(*b),
{
    if is_black(b) {
        match Background::preset("graphite") {
            Some(g) => g,
            None => Background::Solid(Color::black()),
        }
    } else {
        b.clone()
    }
}

fn shadow_with(strength: i64) -> (s: Shadow)
    ensures
        s == shadow_of(strength),
{
    let mut s = Shadow::default();
    s.strength = strength;
    s
}

/// What choosing a backdrop does.
pub open spec fn backdrop_set(p: ProjectModel, b: Background) -> (
    Result<(), EditError>,
    ProjectModel,
) {
    (Ok(()), ProjectModel { frame: FrameStyle { background: b, ..p.frame }, ..p })
}

impl Session {
    /// Set or clear the crop.
    pub fn set_crop(&mut self, crop: Option<CropRect>) -> (r: Result<(), EditError>)
        ensures
            did(
                old(self)@,
                final(self)@,
                "crop"@,
                r,
                |p: ProjectModel| (Ok::<(), EditError>(()), cropped(p, crop)),
            ),
    {
        match self.begin("crop") {
            None => Err(EditError::NoRecording),
            Some(p) => {
                let mut p = p;
                let ghost before = p@;
                let was = p.output_dims();
                p.crop = match crop {
                    Some(c) => c.sanitized(),
                    None => None,
                };
                let is = p.output_dims();
                let ghost mid = p@;
                assert(mid =~= ProjectModel { crop: usable_crop(crop), ..before });
                assert(dims(was) == out_dims(before));
                assert(dims(is) == out_dims(mid));
                if (was.0 != is.0 || was.1 != is.1) && was.0 > 0 && was.1 > 0 {
                    rescale_texts(&mut p.texts, is, was);
                    rescale_arrows(&mut p.arrows, is, was);
                    rescale_boxes(&mut p.highlights, is, was);
                    assert(p@ =~= rescaled_all(mid, dims(is), dims(was)));
                }
                assert(p@ =~= cropped(before, crop));
                self.commit(p);
                Ok(())
            },
        }
    }

    /// Switch click ripples on or off.
    pub fn set_show_clicks(&mut self, on: bool) -> (r: Result<(), EditError>)
        ensures
            did(
                old(self)@,
                final(self)@,
                Seq::empty(),
                r,
                |p: ProjectModel|
                    (Ok::<(), EditError>(()), ProjectModel { show_clicks: on, ..p }),
            ),
    {
        match self.begin_discrete() {
            None => Err(EditError::NoRecording),
            Some(p) => {
                let mut p = p;
                let ghost before = p@;
                p.show_clicks = on;
                assert(p@ =~= ProjectModel { show_clicks: on, ..before });
                self.commit(p);
                Ok(())
            },
        }
    }

    /// Switch the keystroke overlay on or off.
    pub fn set_show_keys(&mut self, on: bool) -> (r: Result<(), EditError>)
        ensures
            did(
                old(self)@,
                final(self)@,
                Seq::empty(),
                r,
                |p: ProjectModel| (Ok::<(), EditError>(()), ProjectModel { show_keys: on, ..p }),
            ),
    {
        match self.begin_discrete() {
            None => Err(EditError::NoRecording),
            Some(p) => {
                let mut p = p;
                let ghost before = p@;
                p.show_keys = on;
                assert(p@ =~= ProjectModel { show_keys: on, ..before });
                self.commit(p);
                Ok(())
            },
        }
    }

    /// Apply a framing preset: `"none"` (edge to edge), `"subtle"` (slim mat) or `"studio"`
    /// (generous mat and shadow).
    pub fn set_frame_preset(&mut self, preset: &str) -> (r: Result<(), EditError>)
        ensures
            did(
                old(self)@,
                final(self)@,
                Seq::empty(),
                r,
                |p: ProjectModel|
                    (
                        Ok::<(), EditError>(()),
                        ProjectModel { frame: framed(p.frame, preset@), ..p },
                    ),
            ),
    {
        match self.begin_discrete() {
            None => Err(EditError::NoRecording),
            Some(p) => {
                let mut p = p;
                let ghost before = p@;
                p.frame = if same_text(preset, "subtle") {
                    FrameStyle {
                        background: backdrop_for_frame(&p.frame.background),
                        padding: 40_000_000,
                        corner_radius: 12_000_000,
                        shadow: shadow_with(300_000_000),
                    }
                } else if same_text(preset, "studio") {
                    FrameStyle {
                        background: backdrop_for_frame(&p.frame.background),
                        padding: 75_000_000,
                        corner_radius: 20_000_000,
                        shadow: shadow_with(500_000_000),
                    }
                } else {
                    let mut f = FrameStyle::default();
                    f.background = p.frame.background.clone();
                    f
                };
                assert(p@ =~= ProjectModel { frame: framed(before.frame, preset@), ..before });
                self.commit(p);
                Ok(())
            },
        }
    }

    /// Set the backdrop to a named preset. An unknown name is refused before anything else.
    pub fn set_background_preset(&mut self, name: &str) -> (r: Result<(), EditError>)
        ensures
            match preset_of(name@) {
                None => r == Err::<(), EditError>(EditError::UnknownBackground) && final(self)@
                    == old(self)@,
                Some(b) => did(
                    old(self)@,
                    final(self)@,
                    Seq::empty(),
                    r,
                    |p: ProjectModel| backdrop_set(p, b),
                ),
            },
    {
        let b = match Background::preset(name) {
            Some(b) => b,
            None => {
                return Err(EditError::UnknownBackground);
            },
        };
        match self.begin_discrete() {
            None => Err(EditError::NoRecording),
            Some(p) => {
                let mut p = p;
                let ghost before = p@;
                let ghost picked = b;
                p.frame.background = b;
                assert(p@ =~= backdrop_set(before, picked).1);
                self.commit(p);
                Ok(())
            },
        }
    }
}

/// All annotations of a project, for the editor's overlay.
#[derive(Debug)]
pub struct AnnotationSet {
    pub texts: Vec<TextAnnotation>,
    pub arrows: Vec<ArrowAnnotation>,
    pub highlights: Vec<HighlightBox>,
}

/// Everything the editor timeline shows.
#[derive(Debug)]
pub struct ClipState {
    pub duration: i64,
    pub trim: Option<Trim>,
    pub speed_regions: Vec<SpeedRegion>,
    pub cuts: Vec<Trim>,
    pub zooms: Vec<ZoomKeyframe>,
    pub show_clicks: bool,
    pub show_keys: bool,
    /// Active framing preset, derived from the padding.
    pub frame_preset: String,
    /// Active backdrop preset; empty if the backdrop matches none.
    pub background_preset: String,
}

/// The name of the framing preset with some padding.
pub open spec fn frame_name(padding: i64) -> Seq<char> {
    if padding <= 0 {
        "none"@
    } else if padding < 60_000_000 {
        "subtle"@
    } else {
        "studio"@
    }
}

/// Whether a text is the name of the preset that a backdrop is; empty where it is none.
pub open spec fn is_backdrop_name(name: Seq<char>, b: Background) -> bool {
    if exists|k: int|
        0 <= k < preset_names().len() && preset_of(#[trigger] preset_names()[k]) == Some(b) {
        exists|k: int|
            {
                &&& 0 <= k < preset_names().len()
                &&& name == #[trigger] preset_names()[k]
                &&& preset_of(name) == Some(b)
            }
    } else {
        name.len() == 0
    }
}

/// The name of a framing preset is recognized from the frame it makes.
pub proof fn frame_presets_are_recognized(f: FrameStyle, preset: Seq<char>)
    requires
        preset == "subtle"@ || preset == "studio"@ || preset == "none"@,
    ensures
        frame_name(framed(f, preset).padding) == preset,
{
    reveal_strlit("subtle");
    reveal_strlit("studio");
    reveal_strlit("none");
    assert("none"@.len() == 4 && "subtle"@.len() == 6);
    assert("subtle"@[1] != "studio"@[1]);
}

impl Session {
    /// Everything the editor timeline shows.
    pub fn clip_state(&self) -> (r: Result<ClipState, EditError>)
        ensures
            match self@.project {
                None => r == Err::<ClipState, EditError>(EditError::NoRecording),
                Some(p) => r matches Ok(c) && {
                    &&& c.duration == p.source.duration
                    &&& c.trim == p.trim
                    &&& c.speed_regions@ == p.speed_regions
                    &&& c.cuts@ == p.cuts
                    &&& c.zooms@ == p.zooms
                    &&& c.show_clicks == p.show_clicks
                    &&& c.show_keys == p.show_keys
                    &&& c.frame_preset@ == frame_name(p.frame.padding)
                    &&& is_backdrop_name(c.background_preset@, p.frame.background)
                },
            },
    {
        match self.project() {
            None => Err(EditError::NoRecording),
            Some(p) => {
                let speed_regions = p.speed_regions.clone();
                let cuts = p.cuts.clone();
                let zooms = p.zooms.clone();
                assert(speed_regions@ =~= p.speed_regions@);
                assert(cuts@ =~= p.cuts@);
                assert(zooms@ =~= p.zooms@);
                let frame_preset = if p.frame.padding <= 0 {
                    "none".to_owned()
                } else if p.frame.padding < 60_000_000 {
                    "subtle".to_owned()
                } else {
                    "studio".to_owned()
                };
                let background_preset = match p.frame.background.preset_name() {
                    Some(n) => n.to_owned(),
                    None => String::new(),
                };
                Ok(
                    ClipState {
                        duration: p.source.duration,
                        trim: p.trim,
                        speed_regions,
                        cuts,
                        zooms,
                        show_clicks: p.show_clicks,
                        show_keys: p.show_keys,
                        frame_preset,
                        background_preset,
                    },
                )
            },
        }
    }

    /// All annotations of the project.
    pub fn annotations(&self) -> (r: Result<AnnotationSet, EditError>)
        ensures
            match self@.project {
                None => r == Err::<AnnotationSet, EditError>(EditError::NoRecording),
                Some(p) => r matches Ok(a) && {
                    &&& a.texts@ == p.texts
                    &&& a.arrows@ == p.arrows
                    &&& a.highlights@ == p.highlights
                },
            },
    {
        match self.project() {
            None => Err(EditError::NoRecording),
            Some(p) => {
                let a = AnnotationSet {
                    texts: p.texts.clone(),
                    arrows: p.arrows.clone(),
                    highlights: p.highlights.clone(),
                };
                assert(a.texts@ =~= p.texts@);
                assert(a.arrows@ =~= p.arrows@);
                assert(a.highlights@ =~= p.highlights@);
                Ok(a)
            },
        }
    }
}

/// Whether a length is another scaled by the change of a side, rounded down, and no more than
/// the whole.
pub open spec fn is_scaled(b: i64, a: i64, is: int, was: int) -> bool {
    &&& 0 <= b <= BILLION
    &&& b < BILLION ==> b * was <= a * is < (b + 1) * was
    &&& b == BILLION ==> a * is >= BILLION * was
}

/// One length as a side changes.
proof fn lemma_rescaled(v: i64, is: int, was: int)
    requires
        v >= 0,
        is >= 0,
        was > 0,
    ensures
        is_scaled(rescaled(v, is, was), v, is, was),
{
    let a = v * is;
    let q = a / was;
    assert(a >= 0) by (nonlinear_arith)
        requires
            a == v * is,
            v >= 0,
            is >= 0,
    ;
    assert(q * was <= a < (q + 1) * was && q >= 0) by (nonlinear_arith)
        requires
            q == a / was,
            was > 0,
            a >= 0,
    ;
    assert(q >= 1_000_000_000 ==> a >= 1_000_000_000 * was) by (nonlinear_arith)
        requires
            q * was <= a,
            was > 0,
    ;
}

/// When a crop changes the output's size, annotations are scaled with it, each axis on its own;
/// nothing else about them changes, nor about the project.
pub proof fn annotations_scale_with_the_output(
    p: ProjectModel,
    is: (int, int),
    was: (int, int),
    i: int,
)
    requires
        is.0 >= 0,
        is.1 >= 0,
        was.0 > 0,
        was.1 > 0,
    ensures
        ({
            let q = rescaled_all(p, is, was);
            &&& q == ProjectModel {
                texts: q.texts,
                arrows: q.arrows,
                highlights: q.highlights,
                ..p
            }
            &&& q.texts.len() == p.texts.len()
            &&& q.arrows.len() == p.arrows.len()
            &&& q.highlights.len() == p.highlights.len()
            &&& 0 <= i < p.texts.len() && p.texts[i].pos.x >= 0 && p.texts[i].pos.y >= 0 ==> {
                let a = p.texts[i];
                let b = q.texts[i];
                &&& b == TextAnnotation { pos: b.pos, ..a }
                &&& is_scaled(b.pos.x, a.pos.x, is.0, was.0)
                &&& is_scaled(b.pos.y, a.pos.y, is.1, was.1)
            }
            &&& 0 <= i < p.arrows.len() && p.arrows[i].from.x >= 0 && p.arrows[i].from.y >= 0
                && p.arrows[i].to.x >= 0 && p.arrows[i].to.y >= 0 ==> {
                let a = p.arrows[i];
                let b = q.arrows[i];
                &&& b == ArrowAnnotation { from: b.from, to: b.to, ..a }
                &&& is_scaled(b.from.x, a.from.x, is.0, was.0)
                &&& is_scaled(b.from.y, a.from.y, is.1, was.1)
                &&& is_scaled(b.to.x, a.to.x, is.0, was.0)
                &&& is_scaled(b.to.y, a.to.y, is.1, was.1)
            }
            &&& 0 <= i < p.highlights.len() && p.highlights[i].rect.x >= 0 && p.highlights[i].rect.y
                >= 0 && p.highlights[i].rect.w >= 0 && p.highlights[i].rect.h >= 0 ==> {
                let a = p.highlights[i];
                let b = q.highlights[i];
                &&& b == HighlightBox { rect: b.rect, ..a }
                &&& is_scaled(b.rect.x, a.rect.x, is.0, was.0)
                &&& is_scaled(b.rect.y, a.rect.y, is.1, was.1)
                &&& is_scaled(b.rect.w, a.rect.w, is.0, was.0)
                &&& is_scaled(b.rect.h, a.rect.h, is.1, was.1)
            }
        }),
{
    if 0 <= i < p.texts.len() && p.texts[i].pos.x >= 0 && p.texts[i].pos.y >= 0 {
        lemma_rescaled(p.texts[i].pos.x, is.0, was.0);
        lemma_rescaled(p.texts[i].pos.y, is.1, was.1);
    }
    if 0 <= i < p.arrows.len() && p.arrows[i].from.x >= 0 && p.arrows[i].from.y >= 0
        && p.arrows[i].to.x >= 0 && p.arrows[i].to.y >= 0 {
        lemma_rescaled(p.arrows[i].from.x, is.0, was.0);
        lemma_rescaled(p.arrows[i].from.y, is.1, was.1);
        lemma_rescaled(p.arrows[i].to.x, is.0, was.0);
        lemma_rescaled(p.arrows[i].to.y, is.1, was.1);
    }
    if 0 <= i < p.highlights.len() && p.highlights[i].rect.x >= 0 && p.highlights[i].rect.y >= 0
        && p.highlights[i].rect.w >= 0 && p.highlights[i].rect.h >= 0 {
        lemma_rescaled(p.highlights[i].rect.x, is.0, was.0);
        lemma_rescaled(p.highlights[i].rect.y, is.1, was.1);
        lemma_rescaled(p.highlights[i].rect.w, is.0, was.0);
        lemma_rescaled(p.highlights[i].rect.h, is.1, was.1);
    }
}

/// Cropping sets the crop, scales the annotations if the output's size changed, and keeps the
/// rest of the project.
pub proof fn cropping_keeps_the_rest(p: ProjectModel, crop: Option<CropRect>)
    ensures
        ({
            let q = cropped(p, crop);
            let bare = ProjectModel { crop: q.crop, ..p };
            &&& q == ProjectModel {
                crop: q.crop,
                texts: q.texts,
                arrows: q.arrows,
                highlights: q.highlights,
                ..p
            }
            &&& crop is None ==> q.crop is None
            &&& crop matches Some(c) ==> q.crop == (if c.fitted().covers_all() {
                None
            } else {
                Some(c.fitted())
            })
            &&& out_dims(bare) == out_dims(p) ==> q == bare
            &&& out_dims(bare) != out_dims(p) && out_dims(p).0 > 0 && out_dims(p).1 > 0 ==> q
                == rescaled_all(bare, out_dims(bare), out_dims(p))
        }),
{
}

/// The studio frame is larger, rounder and deeper than the subtle one, which is so compared to
/// none; a backdrop that was chosen is kept, and a black one is replaced only under a frame.
pub proof fn frames_keep_the_backdrop(f: FrameStyle)
    ensures
        ({
            let none = framed(f, "none"@);
            let subtle = framed(f, "subtle"@);
            let studio = framed(f, "studio"@);
            &&& none.padding == 0 && none.corner_radius == 0 && none.shadow.strength == 0
            &&& subtle.padding == 40_000_000 && studio.padding == 75_000_000
            &&& subtle.corner_radius == 12_000_000 && studio.corner_radius == 20_000_000
            &&& subtle.shadow.strength == 300_000_000 && studio.shadow.strength == 500_000_000
            &&& none.background == f.background
            &&& subtle.background == studio.background
            &&& f.background != Background::Solid(Color { r: 0, g: 0, b: 0, a: BILLION })
                ==> subtle.background == f.background
        }),
{
    reveal_strlit("none");
    reveal_strlit("subtle");
    reveal_strlit("studio");
    assert("none"@.len() == 4);
    assert("subtle"@[1] == 'u' && "studio"@[1] == 't');
}

/// A frame is told by its padding: none without, studio from six hundredths on, and subtle in
/// between.
pub proof fn frames_are_told_by_their_padding(padding: i64)
    ensures
        padding <= 0 ==> frame_name(padding) == "none"@,
        0 < padding < 60_000_000 ==> frame_name(padding) == "subtle"@,
        padding >= 60_000_000 ==> frame_name(padding) == "studio"@,
{
}

} // verus!
