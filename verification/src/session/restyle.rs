//! Changing annotations that are there.

use crate::project::annotation::{
    ArrowAnnotation, ArrowStyle, HighlightBox, HighlightShape, TextAnnotation,
};
use crate::project::color::{Color, Rect};
use crate::project::model::ProjectModel;
use crate::project::timing::TimeRange;
use crate::session::annotate::{hold, in_frame, item_tag, tag_for};
use crate::session::error::EditError;
use crate::session::ids::{find, found, is_absent, is_first, the_first_match_is_found};
use crate::session::state::{did, Session};
use crate::text::{decimal, same_text};
use crate::units::{clamp_i64, clamped, greater, lesser};
use crate::zoom::event::Point;
use vstd::prelude::*;

verus! {

/// A value that an edit may leave as it is.
pub open spec fn or_kept<T>(new: Option<T>, kept: T) -> T {
    match new {
        Some(v) => v,
        None => kept,
    }
}

/// What a text label changes to; a missing value stays as it is.
#[derive(Debug)]
pub struct TextChange {
    pub x: Option<i64>,
    pub y: Option<i64>,
    pub text: Option<String>,
    pub font_size: Option<i64>,
    pub bold: Option<bool>,
    pub italic: Option<bool>,
    pub background: Option<bool>,
    pub font: Option<String>,
}

impl TextChange {
    /// The undo tag: typing, the size slider and position drags each join while they last;
    /// style toggles stay single steps.
    pub open spec fn tag(self, id: u32) -> Seq<char> {
        if self.text is Some {
            item_tag("text:"@, id)
        } else if self.font_size is Some {
            item_tag("font:"@, id)
        } else if self.x is Some || self.y is Some {
            item_tag("geo:text:"@, id)
        } else {
            Seq::empty()
        }
    }

    /// The changed label: positions are held to the frame, the size between a hundredth and a
    /// half of the output height.
    pub open spec fn applied(self, a: TextAnnotation) -> TextAnnotation {
        TextAnnotation {
            id: a.id,
            text: or_kept(self.text, a.text),
            pos: Point {
                x: match self.x {
                    Some(v) => in_frame(v),
                    None => a.pos.x,
                },
                y: match self.y {
                    Some(v) => in_frame(v),
                    None => a.pos.y,
                },
            },
            font_size: match self.font_size {
                Some(v) => clamped(v as int, 10_000_000, 500_000_000) as i64,
                None => a.font_size,
            },
            color: a.color,
            bold: or_kept(self.bold, a.bold),
            italic: or_kept(self.italic, a.italic),
            background: or_kept(self.background, a.background),
            font: or_kept(self.font, a.font),
            range: a.range,
        }
    }
}

/// What changing a text label does.
pub open spec fn text_changed(p: ProjectModel, id: u32, c: TextChange) -> (
    Result<(), EditError>,
    ProjectModel,
) {
    match found(p.texts, id) {
        Some(i) => (
            Ok(()),
            ProjectModel { texts: p.texts.update(i, c.applied(p.texts[i])), ..p },
        ),
        None => (Err(EditError::NoSuchText), p),
    }
}

/// What moving an arrow does.
pub open spec fn arrow_moved(p: ProjectModel, id: u32, from: Point, to: Point) -> (
    Result<(), EditError>,
    ProjectModel,
) {
    match found(p.arrows, id) {
        Some(i) => (
            Ok(()),
            ProjectModel {
                arrows: p.arrows.update(i, ArrowAnnotation { from, to, ..p.arrows[i] }),
                ..p
            },
        ),
        None => (Err(EditError::NoSuchArrow), p),
    }
}

/// What moving or resizing a highlight does.
pub open spec fn box_moved(p: ProjectModel, id: u32, rect: Rect) -> (
    Result<(), EditError>,
    ProjectModel,
) {
    match found(p.highlights, id) {
        Some(i) => (
            Ok(()),
            ProjectModel {
                highlights: p.highlights.update(i, HighlightBox { rect, ..p.highlights[i] }),
                ..p
            },
        ),
        None => (Err(EditError::NoSuchBox), p),
    }
}

/// How a color changes.
#[derive(Debug, Clone, Copy, PartialEq, Eq, Structural)]
pub enum Recolor {
    /// Another color with the same alpha, so recoloring a marker keeps its opacity.
    Tint { r: i64, g: i64, b: i64 },
    /// Another alpha.
    Alpha(i64),
}

impl Recolor {
    /// The changed color.
    pub open spec fn applied(self, c: Color) -> Color {
        match self {
            Recolor::Tint { r, g, b } => Color { r, g, b, a: c.a },
            Recolor::Alpha(a) => Color { a: in_frame(a), ..c },
        }
    }

    fn apply(&self, c: Color) -> (r: Color)
        ensures
            r == self.applied(c),
    {
        match *self {
            Recolor::Tint { r, g, b } => Color::rgba(r, g, b, c.a),
            Recolor::Alpha(a) => c.with_alpha(hold(a)),
        }
    }
}

/// What recoloring an annotation does: the first one with the id, texts before arrows before
/// highlights.
pub open spec fn recolored(p: ProjectModel, id: u32, how: Recolor) -> (
    Result<(), EditError>,
    ProjectModel,
) {
    match (found(p.texts, id), found(p.arrows, id), found(p.highlights, id)) {
        (Some(i), _, _) => (
            Ok(()),
            ProjectModel {
                texts: p.texts.update(
                    i,
                    TextAnnotation { color: how.applied(p.texts[i].color), ..p.texts[i] },
                ),
                ..p
            },
        ),
        (None, Some(i), _) => (
            Ok(()),
            ProjectModel {
                arrows: p.arrows.update(
                    i,
                    ArrowAnnotation { color: how.applied(p.arrows[i].color), ..p.arrows[i] },
                ),
                ..p
            },
        ),
        (None, None, Some(i)) => (
            Ok(()),
            ProjectModel {
                highlights: p.highlights.update(
                    i,
                    HighlightBox { color: how.applied(p.highlights[i].color), ..p.highlights[i] },
                ),
                ..p
            },
        ),
        (None, None, None) => (Err(EditError::NoSuchAnnotation), p),
    }
}

/// What switching a highlight's shape does.
pub open spec fn reshaped(p: ProjectModel, id: u32, ellipse: bool) -> (
    Result<(), EditError>,
    ProjectModel,
) {
    match found(p.highlights, id) {
        Some(i) => (
            Ok(()),
            ProjectModel {
                highlights: p.highlights.update(
                    i,
                    HighlightBox {
                        shape: if ellipse {
                            HighlightShape::Ellipse
                        } else {
                            HighlightShape::Rect
                        },
                        ..p.highlights[i]
                    },
                ),
                ..p
            },
        ),
        None => (Err(EditError::NoSuchHighlight), p),
    }
}

/// The arrow style that a label names; a single head where it names none.
pub open spec fn style_named(label: Seq<char>) -> ArrowStyle {
    if label == "line"@ {
        ArrowStyle::Line
    } else if label == "double"@ {
        ArrowStyle::DoubleArrow
    } else {
        ArrowStyle::Arrow
    }
}

/// What changing an arrow's heads does.
pub open spec fn arrow_styled(p: ProjectModel, id: u32, label: Seq<char>) -> (
    Result<(), EditError>,
    ProjectModel,
) {
    match found(p.arrows, id) {
        Some(i) => (
            Ok(()),
            ProjectModel {
                arrows: p.arrows.update(
                    i,
                    ArrowAnnotation { style: style_named(label), ..p.arrows[i] },
                ),
                ..p
            },
        ),
        None => (Err(EditError::NoSuchArrow), p),
    }
}

/// A stroke thickness held between a thousandth and a twentieth of the output height.
pub open spec fn stroke(new: Option<i64>, kept: i64) -> i64 {
    match new {
        Some(t) => clamped(t as int, 1_000_000, 50_000_000) as i64,
        None => kept,
    }
}

/// What restyling an arrow or a highlight does. Only highlights can be filled.
pub open spec fn restyled(
    p: ProjectModel,
    id: u32,
    thickness: Option<i64>,
    filled: Option<bool>,
) -> (Result<(), EditError>, ProjectModel) {
    match (found(p.arrows, id), found(p.highlights, id)) {
        (Some(i), _) => (
            Ok(()),
            ProjectModel {
                arrows: p.arrows.update(
                    i,
                    ArrowAnnotation {
                        thickness: stroke(thickness, p.arrows[i].thickness),
                        ..p.arrows[i]
                    },
                ),
                ..p
            },
        ),
        (None, Some(i)) => (
            Ok(()),
            ProjectModel {
                highlights: p.highlights.update(
                    i,
                    HighlightBox {
                        thickness: stroke(thickness, p.highlights[i].thickness),
                        filled: or_kept(filled, p.highlights[i].filled),
                        ..p.highlights[i]
                    },
                ),
                ..p
            },
        ),
        (None, None) => (Err(EditError::NoSuchArrowOrHighlight), p),
    }
}

/// The shortest window of an annotation.
pub const MIN_WINDOW: i64 = 100_000_000;

/// A window moved into the clip: it starts before the clip's last moment and lasts at least
/// the minimum.
pub open spec fn window_in(start: i64, end: i64, duration: i64) -> (int, int) {
    let s = clamped(start as int, 0, greater(duration - MIN_WINDOW, 0));
    let e = clamped(end as int, s + MIN_WINDOW, greater(duration as int, s + MIN_WINDOW));
    (s, e)
}

/// A window with other ends; fades are kept to half of it each.
pub open spec fn respanned(r: TimeRange, s: int, e: int) -> TimeRange {
    TimeRange {
        start: s as i64,
        end: e as i64,
        fade_in: lesser(r.fade_in as int, (e - s) / 2) as i64,
        fade_out: lesser(r.fade_out as int, (e - s) / 2) as i64,
    }
}

/// The window of an annotation that is retimed in a clip.
pub open spec fn retimed(r: TimeRange, start: i64, end: i64, duration: i64) -> TimeRange {
    let w = window_in(start, end, duration);
    respanned(r, w.0, w.1)
}

/// What retiming an annotation does.
pub open spec fn range_changed(p: ProjectModel, id: u32, start: i64, end: i64) -> (
    Result<(), EditError>,
    ProjectModel,
) {
    let d = p.source.duration;
    match (found(p.texts, id), found(p.arrows, id), found(p.highlights, id)) {
        (Some(i), _, _) => (
            Ok(()),
            ProjectModel {
                texts: p.texts.update(
                    i,
                    TextAnnotation { range: retimed(p.texts[i].range, start, end, d), ..p.texts[i] },
                ),
                ..p
            },
        ),
        (None, Some(i), _) => (
            Ok(()),
            ProjectModel {
                arrows: p.arrows.update(
                    i,
                    ArrowAnnotation {
                        range: retimed(p.arrows[i].range, start, end, d),
                        ..p.arrows[i]
                    },
                ),
                ..p
            },
        ),
        (None, None, Some(i)) => (
            Ok(()),
            ProjectModel {
                highlights: p.highlights.update(
                    i,
                    HighlightBox {
                        range: retimed(p.highlights[i].range, start, end, d),
                        ..p.highlights[i]
                    },
                ),
                ..p
            },
        ),
        (None, None, None) => (Err(EditError::NoSuchAnnotation), p),
    }
}

/// A retimed window lies in a clip that can hold one, and its fades do not overlap.
pub proof fn retimed_windows_fit(r: TimeRange, start: i64, end: i64, duration: i64)
    requires
        duration >= MIN_WINDOW,
    ensures
        ({
            let w = retimed(r, start, end, duration);
            &&& 0 <= w.start
            &&& w.start + MIN_WINDOW <= w.end
            &&& w.end <= duration
            &&& w.fade_in + w.fade_out <= w.end - w.start
        }),
{
}

pub(crate) fn respan(r: TimeRange, s: i64, e: i64) -> (w: TimeRange)
    requires
        0 <= s <= e,
    ensures
        w == respanned(r, s as int, e as int),
{
    let half: i64 = (e - s) / 2;
    TimeRange {
        start: s,
        end: e,
        fade_in: if half < r.fade_in {
            half
        } else {
            r.fade_in
        },
        fade_out: if half < r.fade_out {
            half
        } else {
            r.fade_out
        },
    }
}

fn retime(r: TimeRange, start: i64, end: i64, duration: i64) -> (w: TimeRange)
    ensures
        w == retimed(r, start, end, duration),
{
    let room: i64 = if duration < MIN_WINDOW {
        0
    } else {
        duration - MIN_WINDOW
    };
    let s: i64 = clamp_i64(start, 0, room);
    let soonest: i64 = s + MIN_WINDOW;
    let last: i64 = if soonest > duration {
        soonest
    } else {
        duration
    };
    let e: i64 = clamp_i64(end, soonest, last);
    respan(r, s, e)
}

fn restroke(new: Option<i64>, kept: i64) -> (r: i64)
    ensures
        r == stroke(new, kept),
{
    match new {
        Some(t) => clamp_i64(t, 1_000_000, 50_000_000),
        None => kept,
    }
}

impl Session {
    /// Move or edit a text label.
    pub fn update_text(&mut self, id: u32, c: TextChange) -> (r: Result<(), EditError>)
        ensures
            did(
                old(self)@,
                final(self)@,
                c.tag(id),
                r,
                |p: ProjectModel| text_changed(p, id, c),
            ),
    {
        let tag = if c.text.is_some() {
            tag_for("text:", id)
        } else if c.font_size.is_some() {
            tag_for("font:", id)
        } else if c.x.is_some() || c.y.is_some() {
            tag_for("geo:text:", id)
        } else {
            let empty = String::new();
            assert(empty@ =~= Seq::<char>::empty());
            empty
        };
        match self.begin(tag.as_str()) {
            None => Err(EditError::NoRecording),
            Some(p) => {
                let mut p = p;
                let ghost before = p@;
                let r = match find(&p.texts, id) {
                    None => Err(EditError::NoSuchText),
                    Some(i) => {
                        let mut a = p.texts[i].clone();
                        let ghost was = a;
                        let ghost change = c;
                        if let Some(x) = c.x {
                            a.pos.x = hold(x);
                        }
                        if let Some(y) = c.y {
                            a.pos.y = hold(y);
                        }
                        if let Some(text) = c.text {
                            a.text = text;
                        }
                        if let Some(size) = c.font_size {
                            a.font_size = clamp_i64(size, 10_000_000, 500_000_000);
                        }
                        if let Some(b) = c.bold {
                            a.bold = b;
                        }
                        if let Some(b) = c.italic {
                            a.italic = b;
                        }
                        if let Some(b) = c.background {
                            a.background = b;
                        }
                        if let Some(f) = c.font {
                            a.font = f;
                        }
                        assert(a == change.applied(was));
                        p.texts.set(i, a);
                        Ok(())
                    },
                };
                assert(p@ =~= text_changed(before, id, c).1);
                self.commit(p);
                assert(self@ =~= old(self)@.edited(c.tag(id), text_changed(before, id, c).1));
                r
            },
        }
    }

    /// Move an arrow's endpoints, held to the frame.
    pub fn update_arrow(&mut self, id: u32, fx: i64, fy: i64, tx: i64, ty: i64) -> (r: Result<(), EditError>)
        ensures
            did(
                old(self)@,
                final(self)@,
                item_tag("geo:arrow:"@, id),
                r,
                |p: ProjectModel| arrow_moved(p, id, Point { x: in_frame(fx), y: in_frame(fy) }, Point { x: in_frame(tx), y: in_frame(ty) }),
            ),
    {
        let tag = tag_for("geo:arrow:", id);
        match self.begin(tag.as_str()) {
            None => Err(EditError::NoRecording),
            Some(p) => {
                let mut p = p;
                let ghost before = p@;
                let r = match find(&p.arrows, id) {
                    None => Err(EditError::NoSuchArrow),
                    Some(i) => {
                        let mut a = p.arrows[i];
                        a.from = Point { x: hold(fx), y: hold(fy) };
                        a.to = Point { x: hold(tx), y: hold(ty) };
                        p.arrows.set(i, a);
                        Ok(())
                    },
                };
                assert(p@ =~= arrow_moved(before, id, Point { x: in_frame(fx), y: in_frame(fy) }, Point { x: in_frame(tx), y: in_frame(ty) }).1);
                self.commit(p);
                r
            },
        }
    }

    /// Move or resize a highlight: its corner is held to the frame, its size is never negative.
    pub fn update_box(&mut self, id: u32, x: i64, y: i64, w: i64, h: i64) -> (r: Result<(), EditError>)
        ensures
            did(
                old(self)@,
                final(self)@,
                item_tag("geo:box:"@, id),
                r,
                |p: ProjectModel| box_moved(p, id, Rect { x: in_frame(x), y: in_frame(y), w: greater(w as int, 0) as i64, h: greater(h as int, 0) as i64 }),
            ),
    {
        let tag = tag_for("geo:box:", id);
        match self.begin(tag.as_str()) {
            None => Err(EditError::NoRecording),
            Some(p) => {
                let mut p = p;
                let ghost before = p@;
                let r = match find(&p.highlights, id) {
                    None => Err(EditError::NoSuchBox),
                    Some(i) => {
                        let mut a = p.highlights[i];
                        a.rect = Rect::new(
                            hold(x),
                            hold(y),
                            if w < 0 {
                                0
                            } else {
                                w
                            },
                            if h < 0 {
                                0
                            } else {
                                h
                            },
                        );
                        p.highlights.set(i, a);
                        Ok(())
                    },
                };
                assert(p@ =~= box_moved(before, id, Rect { x: in_frame(x), y: in_frame(y), w: greater(w as int, 0) as i64, h: greater(h as int, 0) as i64 }).1);
                self.commit(p);
                r
            },
        }
    }

    /// Tint any annotation by id.
    pub fn set_annotation_color(&mut self, id: u32, red: i64, green: i64, blue: i64) -> (r: Result<(), EditError>)
        ensures
            did(
                old(self)@,
                final(self)@,
                item_tag("color:"@, id),
                r,
                |p: ProjectModel| recolored(p, id, Recolor::Tint { r: red, g: green, b: blue }),
            ),
    {
        let how = Recolor::Tint { r: red, g: green, b: blue };
        let tag = tag_for("color:", id);
        match self.begin(tag.as_str()) {
            None => Err(EditError::NoRecording),
            Some(p) => {
                let mut p = p;
                let ghost before = p@;
                let r = if let Some(i) = find(&p.texts, id) {
                    let mut a = p.texts[i].clone();
                    a.color = how.apply(a.color);
                    p.texts.set(i, a);
                    Ok(())
                } else if let Some(i) = find(&p.arrows, id) {
                    let mut a = p.arrows[i];
                    a.color = how.apply(a.color);
                    p.arrows.set(i, a);
                    Ok(())
                } else if let Some(i) = find(&p.highlights, id) {
                    let mut a = p.highlights[i];
                    a.color = how.apply(a.color);
                    p.highlights.set(i, a);
                    Ok(())
                } else {
                    Err(EditError::NoSuchAnnotation)
                };
                assert(p@ =~= recolored(before, id, how).1);
                self.commit(p);
                r
            },
        }
    }

    /// Set the alpha of any annotation's color, held between zero and one.
    pub fn set_annotation_opacity(&mut self, id: u32, alpha: i64) -> (r: Result<(), EditError>)
        ensures
            did(
                old(self)@,
                final(self)@,
                item_tag("opacity:"@, id),
                r,
                |p: ProjectModel| recolored(p, id, Recolor::Alpha(alpha)),
            ),
    {
        let how = Recolor::Alpha(alpha);
        let tag = tag_for("opacity:", id);
        match self.begin(tag.as_str()) {
            None => Err(EditError::NoRecording),
            Some(p) => {
                let mut p = p;
                let ghost before = p@;
                let r = if let Some(i) = find(&p.texts, id) {
                    let mut a = p.texts[i].clone();
                    a.color = how.apply(a.color);
                    p.texts.set(i, a);
                    Ok(())
                } else if let Some(i) = find(&p.arrows, id) {
                    let mut a = p.arrows[i];
                    a.color = how.apply(a.color);
                    p.arrows.set(i, a);
                    Ok(())
                } else if let Some(i) = find(&p.highlights, id) {
                    let mut a = p.highlights[i];
                    a.color = how.apply(a.color);
                    p.highlights.set(i, a);
                    Ok(())
                } else {
                    Err(EditError::NoSuchAnnotation)
                };
                assert(p@ =~= recolored(before, id, how).1);
                self.commit(p);
                r
            },
        }
    }

    /// Switch a highlight between rectangle and ellipse.
    pub fn set_highlight_shape(&mut self, id: u32, ellipse: bool) -> (r: Result<(), EditError>)
        ensures
            did(
                old(self)@,
                final(self)@,
                item_tag("shape:"@, id),
                r,
                |p: ProjectModel| reshaped(p, id, ellipse),
            ),
    {
        let tag = tag_for("shape:", id);
        match self.begin(tag.as_str()) {
            None => Err(EditError::NoRecording),
            Some(p) => {
                let mut p = p;
                let ghost before = p@;
                let r = match find(&p.highlights, id) {
                    None => Err(EditError::NoSuchHighlight),
                    Some(i) => {
                        let mut a = p.highlights[i];
                        a.shape = if ellipse {
                            HighlightShape::Ellipse
                        } else {
                            HighlightShape::Rect
                        };
                        p.highlights.set(i, a);
                        Ok(())
                    },
                };
                assert(p@ =~= reshaped(before, id, ellipse).1);
                self.commit(p);
                r
            },
        }
    }

    /// Set an arrow's head style: `"arrow"` (single), `"line"` (none), or `"double"` (both
    /// ends).
    pub fn set_arrow_style(&mut self, id: u32, style: &str) -> (r: Result<(), EditError>)
        ensures
            did(
                old(self)@,
                final(self)@,
                item_tag("arrowstyle:"@, id),
                r,
                |p: ProjectModel| arrow_styled(p, id, style@),
            ),
    {
        let tag = tag_for("arrowstyle:", id);
        match self.begin(tag.as_str()) {
            None => Err(EditError::NoRecording),
            Some(p) => {
                let mut p = p;
                let ghost before = p@;
                let r = match find(&p.arrows, id) {
                    None => Err(EditError::NoSuchArrow),
                    Some(i) => {
                        let mut a = p.arrows[i];
                        a.style = if same_text(style, "line") {
                            ArrowStyle::Line
                        } else if same_text(style, "double") {
                            ArrowStyle::DoubleArrow
                        } else {
                            ArrowStyle::Arrow
                        };
                        p.arrows.set(i, a);
                        Ok(())
                    },
                };
                assert(p@ =~= arrow_styled(before, id, style@).1);
                self.commit(p);
                r
            },
        }
    }

    /// Restyle an arrow or highlight: stroke thickness and, for highlights, filled or outlined.
    /// A missing value stays as it is.
    pub fn set_annotation_style(&mut self, id: u32, thickness: Option<i64>, filled: Option<bool>) -> (r: Result<(), EditError>)
        ensures
            did(
                old(self)@,
                final(self)@,
                item_tag("style:"@, id),
                r,
                |p: ProjectModel| restyled(p, id, thickness, filled),
            ),
    {
        let tag = tag_for("style:", id);
        match self.begin(tag.as_str()) {
            None => Err(EditError::NoRecording),
            Some(p) => {
                let mut p = p;
                let ghost before = p@;
                let r = if let Some(i) = find(&p.arrows, id) {
                    let mut a = p.arrows[i];
                    a.thickness = restroke(thickness, a.thickness);
                    p.arrows.set(i, a);
                    Ok(())
                } else if let Some(i) = find(&p.highlights, id) {
                    let mut a = p.highlights[i];
                    a.thickness = restroke(thickness, a.thickness);
                    if let Some(f) = filled {
                        a.filled = f;
                    }
                    p.highlights.set(i, a);
                    Ok(())
                } else {
                    Err(EditError::NoSuchArrowOrHighlight)
                };
                assert(p@ =~= restyled(before, id, thickness, filled).1);
                self.commit(p);
                r
            },
        }
    }

    /// Retime any annotation: set when it appears and disappears.
    pub fn update_annotation_range(&mut self, id: u32, start: i64, end: i64) -> (r: Result<(), EditError>)
        ensures
            did(
                old(self)@,
                final(self)@,
                item_tag("range:"@, id),
                r,
                |p: ProjectModel| range_changed(p, id, start, end),
            ),
    {
        let tag = tag_for("range:", id);
        match self.begin(tag.as_str()) {
            None => Err(EditError::NoRecording),
            Some(p) => {
                let mut p = p;
                let ghost before = p@;
                let duration: i64 = p.source.duration;
                let r = if let Some(i) = find(&p.texts, id) {
                    let mut a = p.texts[i].clone();
                    a.range = retime(a.range, start, end, duration);
                    p.texts.set(i, a);
                    Ok(())
                } else if let Some(i) = find(&p.arrows, id) {
                    let mut a = p.arrows[i];
                    a.range = retime(a.range, start, end, duration);
                    p.arrows.set(i, a);
                    Ok(())
                } else if let Some(i) = find(&p.highlights, id) {
                    let mut a = p.highlights[i];
                    a.range = retime(a.range, start, end, duration);
                    p.highlights.set(i, a);
                    Ok(())
                } else {
                    Err(EditError::NoSuchAnnotation)
                };
                assert(p@ =~= range_changed(before, id, start, end).1);
                self.commit(p);
                r
            },
        }
    }
}

/// A change of a text sets what it names and keeps the rest: its place is moved into the frame,
/// its size into one to fifty hundredths of the height.
pub proof fn text_changes_set_what_they_name(c: TextChange, a: TextAnnotation)
    ensures
        ({
            let b = c.applied(a);
            &&& b.id == a.id
            &&& b.color == a.color
            &&& b.range == a.range
            &&& c.text is None ==> b.text == a.text
            &&& c.text matches Some(v) ==> b.text == v
            &&& c.font is None ==> b.font == a.font
            &&& c.font matches Some(v) ==> b.font == v
            &&& c.bold is None ==> b.bold == a.bold
            &&& c.bold matches Some(v) ==> b.bold == v
            &&& c.italic is None ==> b.italic == a.italic
            &&& c.italic matches Some(v) ==> b.italic == v
            &&& c.background is None ==> b.background == a.background
            &&& c.background matches Some(v) ==> b.background == v
            &&& c.x is None ==> b.pos.x == a.pos.x
            &&& c.y is None ==> b.pos.y == a.pos.y
            &&& c.x matches Some(v) ==> 0 <= b.pos.x <= 1_000_000_000 && (0 <= v <= 1_000_000_000
                ==> b.pos.x == v) && (v < 0 ==> b.pos.x == 0)
            &&& c.y matches Some(v) ==> 0 <= b.pos.y <= 1_000_000_000 && (0 <= v <= 1_000_000_000
                ==> b.pos.y == v) && (v < 0 ==> b.pos.y == 0)
            &&& c.font_size is None ==> b.font_size == a.font_size
            &&& c.font_size matches Some(v) ==> 10_000_000 <= b.font_size <= 500_000_000 && (
            10_000_000 <= v <= 500_000_000 ==> b.font_size == v) && (v < 10_000_000 ==> b.font_size
                == 10_000_000)
        }),
{
}

/// Moving an arrow or a box moves that one alone, keeps its look, and changes nothing else;
/// without one of that id nothing happens.
pub proof fn moves_touch_one_annotation(
    p: ProjectModel,
    id: u32,
    from: Point,
    to: Point,
    rect: Rect,
    i: int,
    j: int,
)
    ensures
        is_first(p.arrows, id, i) ==> ({
            let (r, q) = arrow_moved(p, id, from, to);
            &&& r is Ok
            &&& q == ProjectModel { arrows: q.arrows, ..p }
            &&& q.arrows.len() == p.arrows.len()
            &&& q.arrows[i].from == from
            &&& q.arrows[i].to == to
            &&& q.arrows[i] == ArrowAnnotation { from, to, ..p.arrows[i] }
            &&& 0 <= j < p.arrows.len() && j != i ==> q.arrows[j] == p.arrows[j]
        }),
        is_absent(p.arrows, id) ==> arrow_moved(p, id, from, to).0 is Err && arrow_moved(
            p,
            id,
            from,
            to,
        ).1 == p,
        is_first(p.highlights, id, i) ==> ({
            let (r, q) = box_moved(p, id, rect);
            &&& r is Ok
            &&& q == ProjectModel { highlights: q.highlights, ..p }
            &&& q.highlights.len() == p.highlights.len()
            &&& q.highlights[i] == HighlightBox { rect, ..p.highlights[i] }
            &&& 0 <= j < p.highlights.len() && j != i ==> q.highlights[j] == p.highlights[j]
        }),
        is_absent(p.highlights, id) ==> box_moved(p, id, rect).0 is Err && box_moved(p, id, rect).1
            == p,
{
    the_first_match_is_found(p.arrows, id, i);
    the_first_match_is_found(p.highlights, id, i);
}

/// Recoloring changes the color of one annotation alone: a tint keeps its alpha, an alpha its
/// tint.
pub proof fn recoloring_touches_one_color(p: ProjectModel, id: u32, how: Recolor, i: int, j: int)
    ensures
        ({
            let (r, q) = recolored(p, id, how);
            let same = |a: Color, b: Color|
                match how {
                    Recolor::Tint { r, g, b: blue } => b == Color { r, g, b: blue, a: a.a },
                    Recolor::Alpha(v) => b.r == a.r && b.g == a.g && b.b == a.b && 0 <= b.a
                        <= 1_000_000_000 && (0 <= v <= 1_000_000_000 ==> b.a == v),
                };
            &&& is_first(p.texts, id, i) ==> r is Ok && q == ProjectModel { texts: q.texts, ..p }
                && q.texts.len() == p.texts.len() && same(p.texts[i].color, q.texts[i].color)
                && q.texts[i] == TextAnnotation { color: q.texts[i].color, ..p.texts[i] } && (0 <= j
                < p.texts.len() && j != i ==> q.texts[j] == p.texts[j])
            &&& is_absent(p.texts, id) && is_first(p.arrows, id, i) ==> r is Ok && q
                == ProjectModel { arrows: q.arrows, ..p } && q.arrows.len() == p.arrows.len()
                && same(p.arrows[i].color, q.arrows[i].color) && q.arrows[i]
                == ArrowAnnotation { color: q.arrows[i].color, ..p.arrows[i] } && (0 <= j
                < p.arrows.len() && j != i ==> q.arrows[j] == p.arrows[j])
            &&& is_absent(p.texts, id) && is_absent(p.arrows, id) && is_first(p.highlights, id, i)
                ==> r is Ok && q == ProjectModel { highlights: q.highlights, ..p }
                && q.highlights.len() == p.highlights.len() && same(
                p.highlights[i].color,
                q.highlights[i].color,
            ) && q.highlights[i] == HighlightBox {
                color: q.highlights[i].color,
                ..p.highlights[i]
            } && (0 <= j < p.highlights.len() && j != i ==> q.highlights[j] == p.highlights[j])
            &&& is_absent(p.texts, id) && is_absent(p.arrows, id) && is_absent(p.highlights, id)
                ==> r is Err && q == p
        }),
{
    the_first_match_is_found(p.texts, id, i);
    the_first_match_is_found(p.arrows, id, i);
    the_first_match_is_found(p.highlights, id, i);
}

/// Restyling changes the shape, style or stroke of one annotation alone: strokes are between
/// one and fifty thousandths of the height, and arrows are not filled.
pub proof fn restyling_touches_one_annotation(
    p: ProjectModel,
    id: u32,
    ellipse: bool,
    label: Seq<char>,
    thickness: Option<i64>,
    filled: Option<bool>,
    i: int,
    j: int,
)
    ensures
        is_first(p.highlights, id, i) ==> ({
            let (r, q) = reshaped(p, id, ellipse);
            &&& r is Ok
            &&& q == ProjectModel { highlights: q.highlights, ..p }
            &&& q.highlights.len() == p.highlights.len()
            &&& q.highlights[i] == HighlightBox { shape: q.highlights[i].shape, ..p.highlights[i] }
            &&& ellipse ==> q.highlights[i].shape is Ellipse
            &&& !ellipse ==> q.highlights[i].shape is Rect
            &&& 0 <= j < p.highlights.len() && j != i ==> q.highlights[j] == p.highlights[j]
        }),
        is_first(p.arrows, id, i) ==> ({
            let (r, q) = arrow_styled(p, id, label);
            &&& r is Ok
            &&& q == ProjectModel { arrows: q.arrows, ..p }
            &&& q.arrows.len() == p.arrows.len()
            &&& q.arrows[i] == ArrowAnnotation { style: q.arrows[i].style, ..p.arrows[i] }
            &&& q.arrows[i].style is Line <==> label == "line"@
            &&& q.arrows[i].style is DoubleArrow <==> label == "double"@
            &&& 0 <= j < p.arrows.len() && j != i ==> q.arrows[j] == p.arrows[j]
        }),
        is_first(p.arrows, id, i) ==> ({
            let (r, q) = restyled(p, id, thickness, filled);
            let n = q.arrows[i].thickness;
            &&& r is Ok
            &&& q == ProjectModel { arrows: q.arrows, ..p }
            &&& q.arrows.len() == p.arrows.len()
            &&& q.arrows[i] == ArrowAnnotation { thickness: n, ..p.arrows[i] }
            &&& thickness is None ==> n == p.arrows[i].thickness
            &&& thickness matches Some(v) ==> 1_000_000 <= n <= 50_000_000 && (1_000_000 <= v
                <= 50_000_000 ==> n == v)
            &&& 0 <= j < p.arrows.len() && j != i ==> q.arrows[j] == p.arrows[j]
        }),
        is_absent(p.arrows, id) && is_first(p.highlights, id, i) ==> ({
            let (r, q) = restyled(p, id, thickness, filled);
            let n = q.highlights[i].thickness;
            let f = q.highlights[i].filled;
            &&& r is Ok
            &&& q == ProjectModel { highlights: q.highlights, ..p }
            &&& q.highlights.len() == p.highlights.len()
            &&& q.highlights[i] == HighlightBox { thickness: n, filled: f, ..p.highlights[i] }
            &&& thickness is None ==> n == p.highlights[i].thickness
            &&& thickness matches Some(v) ==> 1_000_000 <= n <= 50_000_000 && (1_000_000 <= v
                <= 50_000_000 ==> n == v)
            &&& filled is None ==> f == p.highlights[i].filled
            &&& filled matches Some(v) ==> f == v
            &&& 0 <= j < p.highlights.len() && j != i ==> q.highlights[j] == p.highlights[j]
        }),
{
    the_first_match_is_found(p.arrows, id, i);
    the_first_match_is_found(p.highlights, id, i);
    reveal_strlit("line");
    reveal_strlit("double");
    assert("line"@.len() == 4 && "double"@.len() == 6);
}

/// A window in time that fits the clip is set as it was asked for, and fades that fit in half
/// of it stay as they are.
pub proof fn windows_are_set_as_asked(r: TimeRange, start: i64, end: i64, duration: i64)
    requires
        0 <= start,
        start + 100_000_000 <= end <= duration,
    ensures
        ({
            let w = retimed(r, start, end, duration);
            &&& w.start == start
            &&& w.end == end
            &&& 2 * r.fade_in <= end - start ==> w.fade_in == r.fade_in
            &&& 2 * r.fade_out <= end - start ==> w.fade_out == r.fade_out
            &&& 2 * r.fade_in > end - start ==> w.fade_in == (end - start) / 2
            &&& 2 * r.fade_out > end - start ==> w.fade_out == (end - start) / 2
        }),
{
}

/// Retiming changes the window of one annotation alone.
pub proof fn retiming_touches_one_window(
    p: ProjectModel,
    id: u32,
    start: i64,
    end: i64,
    i: int,
    j: int,
)
    ensures
        ({
            let (r, q) = range_changed(p, id, start, end);
            let d = p.source.duration;
            &&& is_first(p.texts, id, i) ==> r is Ok && q == ProjectModel { texts: q.texts, ..p }
                && q.texts.len() == p.texts.len() && q.texts[i] == TextAnnotation {
                range: retimed(p.texts[i].range, start, end, d),
                ..p.texts[i]
            } && (0 <= j < p.texts.len() && j != i ==> q.texts[j] == p.texts[j])
            &&& is_absent(p.texts, id) && is_first(p.arrows, id, i) ==> r is Ok && q
                == ProjectModel { arrows: q.arrows, ..p } && q.arrows.len() == p.arrows.len()
                && q.arrows[i] == ArrowAnnotation {
                range: retimed(p.arrows[i].range, start, end, d),
                ..p.arrows[i]
            } && (0 <= j < p.arrows.len() && j != i ==> q.arrows[j] == p.arrows[j])
            &&& is_absent(p.texts, id) && is_absent(p.arrows, id) && is_first(p.highlights, id, i)
                ==> r is Ok && q == ProjectModel { highlights: q.highlights, ..p }
                && q.highlights.len() == p.highlights.len() && q.highlights[i] == HighlightBox {
                range: retimed(p.highlights[i].range, start, end, d),
                ..p.highlights[i]
            } && (0 <= j < p.highlights.len() && j != i ==> q.highlights[j] == p.highlights[j])
            &&& is_absent(p.texts, id) && is_absent(p.arrows, id) && is_absent(p.highlights, id)
                ==> r is Err && q == p
        }),
{
    the_first_match_is_found(p.texts, id, i);
    the_first_match_is_found(p.arrows, id, i);
    the_first_match_is_found(p.highlights, id, i);
}

/// A change of a text goes on with others of its kind: retyping it, resizing it and moving it
/// each have a tag of their own, and a change of style alone is a step of its own.
pub proof fn text_changes_go_on_by_kind(c: TextChange, id: u32)
    ensures
        c.text is Some ==> c.tag(id) == "text:"@ + decimal(id as nat),
        c.text is None && c.font_size is Some ==> c.tag(id) == "font:"@ + decimal(id as nat),
        c.text is None && c.font_size is None && (c.x is Some || c.y is Some) ==> c.tag(id)
            == "geo:text:"@ + decimal(id as nat),
        c.text is None && c.font_size is None && c.x is None && c.y is None ==> c.tag(id).len()
            == 0,
{
}

} // verus!
