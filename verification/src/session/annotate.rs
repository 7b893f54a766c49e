//! Adding and changing annotations.

use crate::project::annotation::{
    ArrowAnnotation, ArrowStyle, HighlightBox, HighlightShape, TextAnnotation,
};
use crate::project::color::{Color, Rect};
use crate::project::model::ProjectModel;
use crate::project::timing::TimeRange;
use crate::session::error::EditError;
use crate::session::ids::{max_id, next_id};
use crate::session::state::{did, Session, SessionModel};
use crate::text::{decimal, decimals_tell_numbers_apart, push_decimal};
use crate::units::{clamp_i64, clamped, greater, lesser, saturate, saturated, BILLION};
use crate::zoom::event::Point;
use vstd::prelude::*;

verus! {

/// A tag for edits of one item: they join while only that item is edited in that way.
pub open spec fn item_tag(what: Seq<char>, id: u32) -> Seq<char> {
    what + decimal(id as nat)
}

pub(crate) fn tag_for(what: &str, id: u32) -> (s: String)
    ensures
        s@ == item_tag(what@, id),
{
    let mut s = what.to_owned();
    push_decimal(&mut s, id as u128);
    s
}

/// A coordinate held to the frame.
pub open spec fn in_frame(v: i64) -> i64 {
    clamped(v as int, 0, BILLION as int) as i64
}

pub(crate) fn hold(v: i64) -> (r: i64)
    ensures
        r == in_frame(v),
{
    clamp_i64(v, 0, BILLION)
}

/// When an annotation added at `t` disappears: after three seconds or at the clip's end, but
/// not before half a second.
pub open spec fn default_end_of(t: i64, duration: i64) -> i64 {
    saturated(lesser(t + 3_000_000_000, greater(duration as int, t + 500_000_000)))
}

/// When an annotation added at `t` disappears.
pub fn default_end(t: i64, duration: i64) -> (e: i64)
    ensures
        e == default_end_of(t, duration),
{
    let usual: i128 = t as i128 + 3_000_000_000;
    let soonest: i128 = t as i128 + 500_000_000;
    let last: i128 = if soonest > duration as i128 {
        soonest
    } else {
        duration as i128
    };
    saturate(
        if last < usual {
            last
        } else {
            usual
        },
    )
}

/// The window of an annotation added at `t`.
pub open spec fn new_range(t: i64, duration: i64, fade: i64) -> TimeRange {
    TimeRange { start: t, end: default_end_of(t, duration), fade_in: fade, fade_out: fade }
}

/// Fade of new annotations.
pub const NEW_FADE: i64 = 200_000_000;

/// Whether another annotation can get an id of its own.
pub open spec fn ids_left(m: SessionModel, n: int) -> bool {
    match m.project {
        Some(p) => max_id(p) + n <= u32::MAX,
        None => true,
    }
}

/// Whether a text is one that was just added.
pub open spec fn is_new_text(a: TextAnnotation, id: u32, text: String, pos: Point, range: TimeRange) -> bool {
    &&& a.id == id
    &&& a.text == text
    &&& a.pos == pos
    &&& a.font_size == 50_000_000
    &&& a.color == Color::opaque(1_000_000_000, 1_000_000_000, 1_000_000_000)
    &&& a.bold
    &&& !a.italic
    &&& !a.background
    &&& a.font@.len() == 0
    &&& a.range == range
}

/// The kinds of highlights that can be added.
#[derive(Debug, Clone, Copy, PartialEq, Eq, Structural)]
pub enum NewHighlight {
    /// An outlined rectangle.
    Box,
    /// An outlined ellipse.
    Ellipse,
    /// A translucent filled marker.
    Highlighter,
    /// An opaque redaction block with hard edges in time, so nothing leaks during a fade.
    Mask,
}

/// A highlight that was just added.
pub open spec fn new_highlight(kind: NewHighlight, id: u32, rect: Rect, t: i64, duration: i64) -> HighlightBox {
    match kind {
        NewHighlight::Box => HighlightBox {
            id,
            rect,
            color: Color::opaque(1_000_000_000, 820_000_000, 100_000_000),
            thickness: 5_000_000,
            filled: false,
            shape: HighlightShape::Rect,
            range: new_range(t, duration, NEW_FADE),
        },
        NewHighlight::Ellipse => HighlightBox {
            id,
            rect,
            color: Color::opaque(1_000_000_000, 820_000_000, 100_000_000),
            thickness: 5_000_000,
            filled: false,
            shape: HighlightShape::Ellipse,
            range: new_range(t, duration, NEW_FADE),
        },
        NewHighlight::Highlighter => HighlightBox {
            id,
            rect,
            color: Color { r: 1_000_000_000, g: 860_000_000, b: 180_000_000, a: 350_000_000 },
            thickness: 5_000_000,
            filled: true,
            shape: HighlightShape::Rect,
            range: new_range(t, duration, NEW_FADE),
        },
        NewHighlight::Mask => HighlightBox {
            id,
            rect,
            color: Color::opaque(40_000_000, 40_000_000, 50_000_000),
            thickness: 0,
            filled: true,
            shape: HighlightShape::Mask,
            range: new_range(t, duration, 0),
        },
    }
}

/// A mask shows from its first instant to its last in full.
pub proof fn new_masks_never_fade(id: u32, rect: Rect, t: i64, duration: i64, at: i64)
    requires
        new_highlight(NewHighlight::Mask, id, rect, t, duration).range.shows(at),
    ensures
        new_highlight(NewHighlight::Mask, id, rect, t, duration).range.opacity(at) == BILLION,
{
}

/// The arrow that was just added.
pub open spec fn new_arrow(id: u32, from: Point, to: Point, t: i64, duration: i64) -> ArrowAnnotation {
    ArrowAnnotation {
        id,
        from,
        to,
        color: Color::opaque(950_000_000, 250_000_000, 250_000_000),
        thickness: 6_000_000,
        style: ArrowStyle::Arrow,
        range: new_range(t, duration, NEW_FADE),
    }
}

impl Session {
    /// Whether `n` more annotations can get ids of their own.
    pub fn has_ids_left(&self, n: u32) -> (r: bool)
        ensures
            r == ids_left(self@, n as int),
    {
        match self.project() {
            Some(p) => crate::session::ids::highest_id(p) as u64 + n as u64 <= u32::MAX as u64,
            None => true,
        }
    }

    /// Add a text label at a position, visible for about three seconds from `t`. Returns its
    /// id.
    pub fn add_text(&mut self, text: String, x: i64, y: i64, t: i64) -> (r: Result<u32, EditError>)
        requires
            ids_left(old(self)@, 1),
        ensures
            match old(self)@.project {
                None => r == Err::<u32, EditError>(EditError::NoRecording) && final(self)@
                    == old(self)@,
                Some(p) => {
                    &&& r == Ok::<u32, EditError>((max_id(p) + 1) as u32)
                    &&& exists|a: TextAnnotation|
                        {
                            &&& #[trigger] is_new_text(
                                a,
                                (max_id(p) + 1) as u32,
                                text,
                                Point { x, y },
                                new_range(t, p.source.duration, NEW_FADE),
                            )
                            &&& final(self)@ == old(self)@.edited(
                                Seq::empty(),
                                ProjectModel { texts: p.texts.push(a), ..p },
                            )
                        }
                },
            },
    {
        match self.begin_discrete() {
            None => Err(EditError::NoRecording),
            Some(p) => {
                let mut p = p;
                let ghost before = p@;
                let id: u32 = next_id(&p);
                let range = TimeRange::with_fade(
                    t,
                    default_end(t, p.source.duration),
                    NEW_FADE,
                );
                let a = TextAnnotation {
                    id,
                    text,
                    pos: Point { x, y },
                    font_size: 50_000_000,
                    color: Color::white(),
                    bold: true,
                    italic: false,
                    background: false,
                    font: String::new(),
                    range,
                };
                let ghost added = a;
                p.texts.push(a);
                assert(p@ =~= ProjectModel { texts: before.texts.push(added), ..before });
                self.commit(p);
                assert(is_new_text(
                    added,
                    (max_id(before) + 1) as u32,
                    text,
                    Point { x, y },
                    new_range(t, before.source.duration, NEW_FADE),
                ));
                assert(self@ =~= old(self)@.edited(
                    Seq::empty(),
                    ProjectModel { texts: before.texts.push(added), ..before },
                ));
                Ok(id)
            },
        }
    }

    /// Add an arrow between two points, visible for about three seconds from `t`. Returns its
    /// id.
    pub fn add_arrow(&mut self, fx: i64, fy: i64, tx: i64, ty: i64, t: i64) -> (r: Result<
        u32,
        EditError,
    >)
        requires
            ids_left(old(self)@, 1),
        ensures
            did(
                old(self)@,
                final(self)@,
                Seq::empty(),
                r,
                |p: ProjectModel|
                    {
                        let id = (max_id(p) + 1) as u32;
                        let a = new_arrow(
                            id,
                            Point { x: fx, y: fy },
                            Point { x: tx, y: ty },
                            t,
                            p.source.duration,
                        );
                        (
                            Ok::<u32, EditError>(id),
                            ProjectModel { arrows: p.arrows.push(a), ..p },
                        )
                    },
            ),
    {
        match self.begin_discrete() {
            None => Err(EditError::NoRecording),
            Some(p) => {
                let mut p = p;
                let ghost before = p@;
                let id: u32 = next_id(&p);
                let range = TimeRange::with_fade(
                    t,
                    default_end(t, p.source.duration),
                    NEW_FADE,
                );
                let a = ArrowAnnotation {
                    id,
                    from: Point { x: fx, y: fy },
                    to: Point { x: tx, y: ty },
                    color: Color::rgb(950_000_000, 250_000_000, 250_000_000),
                    thickness: 6_000_000,
                    style: ArrowStyle::Arrow,
                    range,
                };
                p.arrows.push(a);
                assert(p@ =~= ProjectModel { arrows: before.arrows.push(a), ..before });
                self.commit(p);
                Ok(id)
            },
        }
    }

    fn add_highlight(&mut self, kind: NewHighlight, rect: Rect, t: i64) -> (r: Result<
        u32,
        EditError,
    >)
        requires
            ids_left(old(self)@, 1),
        ensures
            did(
                old(self)@,
                final(self)@,
                Seq::empty(),
                r,
                |p: ProjectModel| highlight_added(p, kind, rect, t),
            ),
    {
        match self.begin_discrete() {
            None => Err(EditError::NoRecording),
            Some(p) => {
                let mut p = p;
                let ghost before = p@;
                let id: u32 = next_id(&p);
                let end: i64 = default_end(t, p.source.duration);
                let h = match kind {
                    NewHighlight::Box => HighlightBox {
                        id,
                        rect,
                        color: Color::rgb(1_000_000_000, 820_000_000, 100_000_000),
                        thickness: 5_000_000,
                        filled: false,
                        shape: HighlightShape::Rect,
                        range: TimeRange::with_fade(t, end, NEW_FADE),
                    },
                    NewHighlight::Ellipse => HighlightBox {
                        id,
                        rect,
                        color: Color::rgb(1_000_000_000, 820_000_000, 100_000_000),
                        thickness: 5_000_000,
                        filled: false,
                        shape: HighlightShape::Ellipse,
                        range: TimeRange::with_fade(t, end, NEW_FADE),
                    },
                    NewHighlight::Highlighter => HighlightBox {
                        id,
                        rect,
                        color: Color::rgba(1_000_000_000, 860_000_000, 180_000_000, 350_000_000),
                        thickness: 5_000_000,
                        filled: true,
                        shape: HighlightShape::Rect,
                        range: TimeRange::with_fade(t, end, NEW_FADE),
                    },
                    NewHighlight::Mask => HighlightBox {
                        id,
                        rect,
                        color: Color::rgb(40_000_000, 40_000_000, 50_000_000),
                        thickness: 0,
                        filled: true,
                        shape: HighlightShape::Mask,
                        range: TimeRange::with_fade(t, end, 0),
                    },
                };
                p.highlights.push(h);
                assert(p@ =~= ProjectModel { highlights: before.highlights.push(h), ..before });
                self.commit(p);
                Ok(id)
            },
        }
    }

    /// Add an outlined box, visible for about three seconds from `t`. Returns its id.
    pub fn add_box(&mut self, x: i64, y: i64, w: i64, h: i64, t: i64) -> (r: Result<u32, EditError>)
        requires
            ids_left(old(self)@, 1),
        ensures
            did(
                old(self)@,
                final(self)@,
                Seq::empty(),
                r,
                |p: ProjectModel| highlight_added(p, NewHighlight::Box, Rect { x, y, w, h }, t),
            ),
    {
        self.add_highlight(NewHighlight::Box, Rect::new(x, y, w, h), t)
    }

    /// Add an outlined ellipse inscribed in a rectangle. Returns its id.
    pub fn add_ellipse(&mut self, x: i64, y: i64, w: i64, h: i64, t: i64) -> (r: Result<
        u32,
        EditError,
    >)
        requires
            ids_left(old(self)@, 1),
        ensures
            did(
                old(self)@,
                final(self)@,
                Seq::empty(),
                r,
                |p: ProjectModel| highlight_added(p, NewHighlight::Ellipse, Rect { x, y, w, h }, t),
            ),
    {
        self.add_highlight(NewHighlight::Ellipse, Rect::new(x, y, w, h), t)
    }

    /// Add a translucent filled marker. Returns its id.
    pub fn add_highlighter(&mut self, x: i64, y: i64, w: i64, h: i64, t: i64) -> (r: Result<
        u32,
        EditError,
    >)
        requires
            ids_left(old(self)@, 1),
        ensures
            did(
                old(self)@,
                final(self)@,
                Seq::empty(),
                r,
                |p: ProjectModel|
                    highlight_added(p, NewHighlight::Highlighter, Rect { x, y, w, h }, t),
            ),
    {
        self.add_highlight(NewHighlight::Highlighter, Rect::new(x, y, w, h), t)
    }

    /// Add an opaque redaction mask. Returns its id.
    pub fn add_mask(&mut self, x: i64, y: i64, w: i64, h: i64, t: i64) -> (r: Result<
        u32,
        EditError,
    >)
        requires
            ids_left(old(self)@, 1),
        ensures
            did(
                old(self)@,
                final(self)@,
                Seq::empty(),
                r,
                |p: ProjectModel| highlight_added(p, NewHighlight::Mask, Rect { x, y, w, h }, t),
            ),
    {
        self.add_highlight(NewHighlight::Mask, Rect::new(x, y, w, h), t)
    }
}

/// What adding a highlight does.
pub open spec fn highlight_added(p: ProjectModel, kind: NewHighlight, rect: Rect, t: i64) -> (
    Result<u32, EditError>,
    ProjectModel,
) {
    let id = (max_id(p) + 1) as u32;
    let h = new_highlight(kind, id, rect, t, p.source.duration);
    (Ok(id), ProjectModel { highlights: p.highlights.push(h), ..p })
}

/// A new annotation lasts three seconds, or to the end of the clip if that comes first, but
/// half a second at least; it fades as it was asked to.
pub proof fn new_annotations_last(t: i64, duration: i64, fade: i64)
    requires
        -4_000_000_000_000_000_000 <= t <= 4_000_000_000_000_000_000,
    ensures
        ({
            let r = new_range(t, duration, fade);
            &&& r.start == t
            &&& r.fade_in == fade
            &&& r.fade_out == fade
            &&& t + 3_000_000_000 <= duration ==> r.end == t + 3_000_000_000
            &&& t + 500_000_000 <= duration < t + 3_000_000_000 ==> r.end == duration
            &&& duration < t + 500_000_000 ==> r.end == t + 500_000_000
        }),
{
}

/// New annotations are where they were drawn, under their own number: an arrow from its tail to
/// its tip with a head there, a mark over its rectangle in the shape that was chosen. Markers
/// are see-through, masks are not, and only these two are filled.
pub proof fn new_annotations_are_where_drawn(
    kind: NewHighlight,
    id: u32,
    rect: Rect,
    from: Point,
    to: Point,
    t: i64,
    duration: i64,
)
    ensures
        ({
            let a = new_arrow(id, from, to, t, duration);
            let h = new_highlight(kind, id, rect, t, duration);
            &&& a.id == id
            &&& a.from == from
            &&& a.to == to
            &&& a.style is Arrow
            &&& a.range.start == t
            &&& h.id == id
            &&& h.rect == rect
            &&& h.range.start == t
            &&& h.shape is Ellipse <==> kind is Ellipse
            &&& h.shape is Mask <==> kind is Mask
            &&& h.filled <==> kind is Highlighter || kind is Mask
            &&& h.color.a < BILLION <==> kind is Highlighter
            &&& kind is Mask <==> h.range.fade_in == 0
            &&& kind is Mask <==> h.range.fade_out == 0
            &&& h.thickness == 0 <==> kind is Mask
        }),
{
}

/// Edits of different annotations have different tags, so one never goes on with the other.
pub proof fn tags_tell_annotations_apart(what: Seq<char>, a: u32, b: u32)
    requires
        item_tag(what, a) == item_tag(what, b),
    ensures
        a == b,
{
    decimals_tell_numbers_apart(a as nat, b as nat, what);
}

} // verus!
