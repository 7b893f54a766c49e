//! Duplicating, pasting, stacking and deleting annotations.

use crate::project::annotation::{ArrowAnnotation, HighlightBox, TextAnnotation};
use crate::project::color::Rect;
use crate::project::model::{Project, ProjectModel};
use crate::project::timing::TimeRange;
use crate::session::annotate::ids_left;
use crate::session::error::EditError;
use crate::session::ids::{
    find, found, is_absent, is_first, max_id, next_id, remove_all, removing_removes,
    the_first_match_is_found, without, Keyed,
};
use crate::session::restyle::{respan, respanned, MIN_WINDOW};
use crate::session::state::{did, Session};
use crate::text::same_text;
use crate::units::{clamp_i64, clamped, greater, lesser, saturate, BILLION};
use crate::zoom::event::Point;
use vstd::prelude::*;

verus! {

/// How far a copy is moved down and to the right, so it is visible next to the original.
pub const NUDGE: i64 = 30_000_000;

/// A coordinate of a copy.
pub open spec fn nudged(v: i64) -> i64 {
    clamped(v + NUDGE, 0, BILLION as int) as i64
}

/// A point of a copy.
pub open spec fn nudged_point(p: Point) -> Point {
    Point { x: nudged(p.x), y: nudged(p.y) }
}

fn nudge(v: i64) -> (r: i64)
    ensures
        r == nudged(v),
{
    clamp_i64(saturate(v as i128 + NUDGE as i128), 0, BILLION)
}

/// What duplicating an annotation does: the first one with the id, texts before arrows before
/// highlights.
pub open spec fn duplicated(p: ProjectModel, id: u32) -> (Result<u32, EditError>, ProjectModel) {
    let new = (max_id(p) + 1) as u32;
    match (found(p.texts, id), found(p.arrows, id), found(p.highlights, id)) {
        (Some(i), _, _) => (
            Ok(new),
            ProjectModel {
                texts: p.texts.push(
                    TextAnnotation {
                        id: new,
                        pos: nudged_point(p.texts[i].pos),
                        ..p.texts[i]
                    },
                ),
                ..p
            },
        ),
        (None, Some(i), _) => (
            Ok(new),
            ProjectModel {
                arrows: p.arrows.push(
                    ArrowAnnotation {
                        id: new,
                        from: nudged_point(p.arrows[i].from),
                        to: nudged_point(p.arrows[i].to),
                        ..p.arrows[i]
                    },
                ),
                ..p
            },
        ),
        (None, None, Some(i)) => {
            let r = p.highlights[i].rect;
            (
                Ok(new),
                ProjectModel {
                    highlights: p.highlights.push(
                        HighlightBox {
                            id: new,
                            rect: Rect { x: nudged(r.x), y: nudged(r.y), w: r.w, h: r.h },
                            ..p.highlights[i]
                        },
                    ),
                    ..p
                },
            )
        },
        (None, None, None) => (Err(EditError::NoSuchAnnotation), p),
    }
}

/// One copied annotation.
#[derive(Debug)]
pub enum PasteItem {
    Text(TextAnnotation),
    Arrow(ArrowAnnotation),
    Box(HighlightBox),
}

impl PasteItem {
    /// When it appears.
    pub open spec fn range_of(self) -> TimeRange {
        match self {
            PasteItem::Text(t) => t.range,
            PasteItem::Arrow(a) => a.range,
            PasteItem::Box(b) => b.range,
        }
    }

    /// What it is called.
    pub open spec fn kind_of(self) -> Seq<char> {
        match self {
            PasteItem::Text(_) => "text"@,
            PasteItem::Arrow(_) => "arrow"@,
            PasteItem::Box(_) => "box"@,
        }
    }

    fn range(&self) -> (r: TimeRange)
        ensures
            r == self.range_of(),
    {
        match self {
            PasteItem::Text(t) => t.range,
            PasteItem::Arrow(a) => a.range,
            PasteItem::Box(b) => b.range,
        }
    }

    fn kind(&self) -> (s: String)
        ensures
            s@ == self.kind_of(),
    {
        match self {
            PasteItem::Text(_) => "text".to_owned(),
            PasteItem::Arrow(_) => "arrow".to_owned(),
            PasteItem::Box(_) => "box".to_owned(),
        }
    }
}

impl Clone for PasteItem {
    fn clone(&self) -> (r: Self)
        ensures
            r == *self,
    {
        match self {
            PasteItem::Text(t) => PasteItem::Text(t.clone()),
            PasteItem::Arrow(a) => PasteItem::Arrow(*a),
            PasteItem::Box(b) => PasteItem::Box(*b),
        }
    }
}

/// A pasted annotation: what it is called and its new id.
#[derive(Debug)]
pub struct PastedRef {
    pub kind: String,
    pub id: u32,
}

/// The earliest start among the first `n` items.
pub open spec fn earliest_of(items: Seq<PasteItem>, n: int) -> i64
    decreases n,
{
    if n <= 1 {
        items[0].range_of().start
    } else {
        lesser(earliest_of(items, n - 1) as int, items[n - 1].range_of().start as int) as i64
    }
}

/// A window re-anchored so that the earliest of its set starts at `at`: it keeps its offset
/// and its length (at least the minimum), but ends with the clip.
pub open spec fn reanchored(r: TimeRange, at: i64, earliest: i64, duration: i64) -> TimeRange {
    let len = greater(r.end - r.start, MIN_WINDOW as int);
    let s = clamped(at + (r.start - earliest), 0, greater(duration - MIN_WINDOW, 0));
    let e = lesser(s + len, greater(duration as int, s + MIN_WINDOW));
    respanned(r, s, e)
}

/// The project with one more item, which gets a new id.
pub open spec fn with_item(p: ProjectModel, item: PasteItem, at: i64, earliest: i64) -> ProjectModel {
    let id = (max_id(p) + 1) as u32;
    let range = reanchored(item.range_of(), at, earliest, p.source.duration);
    match item {
        PasteItem::Text(t) => ProjectModel {
            texts: p.texts.push(TextAnnotation { id, range, ..t }),
            ..p
        },
        PasteItem::Arrow(a) => ProjectModel {
            arrows: p.arrows.push(ArrowAnnotation { id, range, ..a }),
            ..p
        },
        PasteItem::Box(b) => ProjectModel {
            highlights: p.highlights.push(HighlightBox { id, range, ..b }),
            ..p
        },
    }
}

/// The project with the first `n` items pasted.
pub open spec fn pasted(p: ProjectModel, items: Seq<PasteItem>, n: int, at: i64, earliest: i64) -> ProjectModel
    decreases n,
{
    if n <= 0 {
        p
    } else {
        with_item(pasted(p, items, n - 1, at, earliest), items[n - 1], at, earliest)
    }
}

/// Whether references name the first `n` items, with consecutive ids.
pub open spec fn refer_to(refs: Seq<PastedRef>, items: Seq<PasteItem>, n: int, first: int) -> bool {
    &&& refs.len() == n
    &&& forall|i: int|
        0 <= i < n ==> {
            &&& (#[trigger] refs[i]).kind@ == items[i].kind_of()
            &&& refs[i].id == first + i
        }
}

/// Each pasted item raises the highest id by one, and the clip stays as long as it was.
proof fn lemma_pasted(p: ProjectModel, items: Seq<PasteItem>, n: int, at: i64, earliest: i64)
    requires
        0 <= n,
        max_id(p) + n <= u32::MAX,
    ensures
        max_id(pasted(p, items, n, at, earliest)) == max_id(p) + n,
        pasted(p, items, n, at, earliest).source == p.source,
    decreases n,
{
    if n > 0 {
        lemma_pasted(p, items, n - 1, at, earliest);
        let q = pasted(p, items, n - 1, at, earliest);
        let next = with_item(q, items[n - 1], at, earliest);
        let id = (max_id(q) + 1) as u32;
        match items[n - 1] {
            PasteItem::Text(t) => {
                let x = next.texts.last();
                assert(next.texts =~= q.texts.push(x));
                assert(next.texts.drop_last() =~= q.texts);
                assert(x.key() == id);
            },
            PasteItem::Arrow(a) => {
                let x = next.arrows.last();
                assert(next.arrows =~= q.arrows.push(x));
                assert(next.arrows.drop_last() =~= q.arrows);
                assert(x.key() == id);
            },
            PasteItem::Box(b) => {
                let x = next.highlights.last();
                assert(next.highlights =~= q.highlights.push(x));
                assert(next.highlights.drop_last() =~= q.highlights);
                assert(x.key() == id);
            },
        }
    }
}

/// Pasted annotations keep their lengths and their offsets among each other wherever the clip
/// has room for them.
pub proof fn pasting_keeps_offsets(
    a: TimeRange,
    b: TimeRange,
    at: i64,
    earliest: i64,
    duration: i64,
)
    requires
        a.start + MIN_WINDOW <= a.end,
        b.start + MIN_WINDOW <= b.end,
        earliest <= a.start,
        earliest <= b.start,
        0 <= at,
        at + (a.end - earliest) <= duration,
        at + (b.end - earliest) <= duration,
    ensures
        ({
            let x = reanchored(a, at, earliest, duration);
            let y = reanchored(b, at, earliest, duration);
            &&& x.end - x.start == a.end - a.start
            &&& y.end - y.start == b.end - b.start
            &&& y.start - x.start == b.start - a.start
            &&& a.start == earliest ==> x.start == at
        }),
{
}

fn reanchor(r: TimeRange, at: i64, earliest: i64, duration: i64) -> (w: TimeRange)
    ensures
        w == reanchored(r, at, earliest, duration),
{
    let asked: i128 = r.end as i128 - r.start as i128;
    let len: i128 = if asked < MIN_WINDOW as i128 {
        MIN_WINDOW as i128
    } else {
        asked
    };
    let room: i64 = if duration < MIN_WINDOW {
        0
    } else {
        duration - MIN_WINDOW
    };
    let want: i128 = at as i128 + (r.start as i128 - earliest as i128);
    let s: i64 = if want < 0 {
        0
    } else if want > room as i128 {
        room
    } else {
        want as i64
    };
    let soonest: i64 = s + MIN_WINDOW;
    let last: i64 = if soonest > duration {
        soonest
    } else {
        duration
    };
    let e: i64 = if (last as i128) < s as i128 + len {
        last
    } else {
        (s as i128 + len) as i64
    };
    respan(r, s, e)
}

fn find_earliest(items: &Vec<PasteItem>) -> (t: i64)
    requires
        items@.len() > 0,
    ensures
        t == earliest_of(items@, items@.len() as int),
{
    let mut t: i64 = items[0].range().start;
    let mut i: usize = 1;
    while i < items.len()
        invariant
            1 <= i <= items@.len(),
            t == earliest_of(items@, i as int),
        decreases items@.len() - i,
    {
        let s: i64 = items[i].range().start;
        if s < t {
            t = s;
        }
        i += 1;
    }
    t
}

fn paste_item(p: &mut Project, item: &PasteItem, at: i64, earliest: i64) -> (id: u32)
    requires
        max_id(old(p)@) < u32::MAX,
    ensures
        id == max_id(old(p)@) + 1,
        final(p)@ == with_item(old(p)@, *item, at, earliest),
{
    let id: u32 = next_id(p);
    let range = reanchor(item.range(), at, earliest, p.source.duration);
    let ghost before = p@;
    match item {
        PasteItem::Text(t) => {
            let mut t = t.clone();
            t.id = id;
            t.range = range;
            p.texts.push(t);
        },
        PasteItem::Arrow(a) => {
            let mut a = *a;
            a.id = id;
            a.range = range;
            p.arrows.push(a);
        },
        PasteItem::Box(b) => {
            let mut b = *b;
            b.id = id;
            b.range = range;
            p.highlights.push(b);
        },
    }
    assert(p@ =~= with_item(before, *item, at, earliest));
    id
}

/// Where an annotation moves in the stack of its kind.
#[derive(Debug, Clone, Copy, PartialEq, Eq, Structural)]
pub enum Restack {
    Forward,
    Backward,
    Front,
    Back,
}

/// The move that a direction names.
pub open spec fn restack_named(dir: Seq<char>) -> Option<Restack> {
    if dir == "forward"@ {
        Some(Restack::Forward)
    } else if dir == "backward"@ {
        Some(Restack::Backward)
    } else if dir == "front"@ {
        Some(Restack::Front)
    } else if dir == "back"@ {
        Some(Restack::Back)
    } else {
        None
    }
}

fn parse_restack(dir: &str) -> (r: Option<Restack>)
    ensures
        r == restack_named(dir@),
{
    if same_text(dir, "forward") {
        Some(Restack::Forward)
    } else if same_text(dir, "backward") {
        Some(Restack::Backward)
    } else if same_text(dir, "front") {
        Some(Restack::Front)
    } else if same_text(dir, "back") {
        Some(Restack::Back)
    } else {
        None
    }
}

/// The place that item `i` of `len` moves to; `None` where it is there already.
pub open spec fn place_after_move(how: Restack, i: int, len: int) -> Option<int> {
    match how {
        Restack::Forward => if i + 1 < len {
            Some(i + 1)
        } else {
            None
        },
        Restack::Backward => if i > 0 {
            Some(i - 1)
        } else {
            None
        },
        Restack::Front => if i + 1 < len {
            Some(len - 1)
        } else {
            None
        },
        Restack::Back => if i > 0 {
            Some(0int)
        } else {
            None
        },
    }
}

fn target_place(how: Restack, i: usize, len: usize) -> (r: Option<usize>)
    requires
        i < len,
    ensures
        match r {
            Some(j) => j < len && place_after_move(how, i as int, len as int) == Some(j as int),
            None => place_after_move(how, i as int, len as int) is None,
        },
{
    match how {
        Restack::Forward => if i + 1 < len {
            Some(i + 1)
        } else {
            None
        },
        Restack::Backward => if i > 0 {
            Some(i - 1)
        } else {
            None
        },
        Restack::Front => if i + 1 < len {
            Some(len - 1)
        } else {
            None
        },
        Restack::Back => if i > 0 {
            Some(0)
        } else {
            None
        },
    }
}

/// A list with item `i` moved to place `j`; the rest keeps its order.
pub open spec fn moved_to<T>(s: Seq<T>, i: int, j: int) -> Seq<T> {
    s.remove(i).insert(j, s[i])
}

/// Moving an item only reorders a list: the same items are there, the moved one is where it
/// was sent, and the others keep their order.
pub proof fn moving_only_reorders<T>(s: Seq<T>, i: int, j: int)
    requires
        0 <= i < s.len(),
        0 <= j < s.len(),
    ensures
        moved_to(s, i, j).len() == s.len(),
        moved_to(s, i, j)[j] == s[i],
        moved_to(s, i, j).remove(j) == s.remove(i),
        moved_to(s, i, j).to_multiset() == s.to_multiset(),
{
    broadcast use vstd::seq_lib::group_to_multiset_ensures;

    assert(moved_to(s, i, j).remove(j) =~= s.remove(i));
    vstd::seq_lib::to_multiset_insert(s.remove(i), j, s[i]);
    assert(s.to_multiset() =~= s.remove(i).to_multiset().insert(s[i])) by {
        assert(s.remove(i).insert(i, s[i]) =~= s);
        vstd::seq_lib::to_multiset_insert(s.remove(i), i, s[i]);
    }
}

/// Where an annotation stands: which list, and where in it.
pub enum Spot {
    Text(int),
    Arrow(int),
    Highlight(int),
}

/// Where the first annotation with an id stands.
pub open spec fn spot_of(p: ProjectModel, id: u32) -> Option<Spot> {
    match (found(p.texts, id), found(p.arrows, id), found(p.highlights, id)) {
        (Some(i), _, _) => Some(Spot::Text(i)),
        (None, Some(i), _) => Some(Spot::Arrow(i)),
        (None, None, Some(i)) => Some(Spot::Highlight(i)),
        (None, None, None) => None,
    }
}

/// The project with an annotation restacked in the list of its kind; `None` where it is there
/// already.
pub open spec fn restacked(p: ProjectModel, spot: Spot, how: Restack) -> Option<ProjectModel> {
    match spot {
        Spot::Text(i) => match place_after_move(how, i, p.texts.len() as int) {
            Some(j) => Some(ProjectModel { texts: moved_to(p.texts, i, j), ..p }),
            None => None,
        },
        Spot::Arrow(i) => match place_after_move(how, i, p.arrows.len() as int) {
            Some(j) => Some(ProjectModel { arrows: moved_to(p.arrows, i, j), ..p }),
            None => None,
        },
        Spot::Highlight(i) => match place_after_move(how, i, p.highlights.len() as int) {
            Some(j) => Some(ProjectModel { highlights: moved_to(p.highlights, i, j), ..p }),
            None => None,
        },
    }
}

/// The project without the annotations that have an id.
pub open spec fn deleted(p: ProjectModel, id: u32) -> ProjectModel {
    ProjectModel {
        texts: without(p.texts, id),
        arrows: without(p.arrows, id),
        highlights: without(p.highlights, id),
        ..p
    }
}

impl Session {
    /// Duplicate any annotation: same style and timing, nudged down and to the right. Returns
    /// the new id.
    pub fn duplicate_annotation(&mut self, id: u32) -> (r: Result<u32, EditError>)
        requires
            ids_left(old(self)@, 1),
        ensures
            did(old(self)@, final(self)@, Seq::empty(), r, |p: ProjectModel| duplicated(p, id)),
    {
        match self.begin_discrete() {
            None => Err(EditError::NoRecording),
            Some(p) => {
                let mut p = p;
                let ghost before = p@;
                let new: u32 = next_id(&p);
                let r = if let Some(i) = find(&p.texts, id) {
                    let mut c = p.texts[i].clone();
                    c.id = new;
                    c.pos = Point { x: nudge(c.pos.x), y: nudge(c.pos.y) };
                    p.texts.push(c);
                    Ok(new)
                } else if let Some(i) = find(&p.arrows, id) {
                    let mut c = p.arrows[i];
                    c.id = new;
                    c.from = Point { x: nudge(c.from.x), y: nudge(c.from.y) };
                    c.to = Point { x: nudge(c.to.x), y: nudge(c.to.y) };
                    p.arrows.push(c);
                    Ok(new)
                } else if let Some(i) = find(&p.highlights, id) {
                    let mut c = p.highlights[i];
                    c.id = new;
                    c.rect.x = nudge(c.rect.x);
                    c.rect.y = nudge(c.rect.y);
                    p.highlights.push(c);
                    Ok(new)
                } else {
                    Err(EditError::NoSuchAnnotation)
                };
                assert(p@ =~= duplicated(before, id).1);
                self.commit(p);
                r
            },
        }
    }

    /// Paste copied annotations at time `at`. The set is re-anchored so that the earliest one
    /// starts at `at`; geometry and style are kept. The whole paste is one undo step. Returns
    /// the new items in paste order. Pasting nothing does nothing.
    pub fn paste_annotations(&mut self, items: &Vec<PasteItem>, at: i64) -> (r: Result<
        Vec<PastedRef>,
        EditError,
    >)
        requires
            ids_left(old(self)@, items@.len() as int),
        ensures
            if items@.len() == 0 {
                &&& final(self)@ == old(self)@
                &&& r matches Ok(refs) && refs@.len() == 0
            } else {
                match old(self)@.project {
                    None => {
                        &&& r == Err::<Vec<PastedRef>, EditError>(EditError::NoRecording)
                        &&& final(self)@ == old(self)@
                    },
                    Some(p) => {
                        let n = items@.len() as int;
                        &&& final(self)@ == old(self)@.edited(
                            Seq::empty(),
                            pasted(p, items@, n, at, earliest_of(items@, n)),
                        )
                        &&& r matches Ok(refs) && refer_to(refs@, items@, n, max_id(p) + 1)
                    },
                }
            },
    {
        if items.len() == 0 {
            return Ok(Vec::new());
        }
        match self.begin_discrete() {
            None => Err(EditError::NoRecording),
            Some(p) => {
                let mut p = p;
                let ghost before = p@;
                let earliest: i64 = find_earliest(items);
                let mut refs: Vec<PastedRef> = Vec::new();
                let mut i: usize = 0;
                while i < items.len()
                    invariant
                        i <= items@.len(),
                        max_id(before) + items@.len() <= u32::MAX,
                        p@ == pasted(before, items@, i as int, at, earliest),
                        refer_to(refs@, items@, i as int, max_id(before) + 1),
                    decreases items@.len() - i,
                {
                    proof {
                        lemma_pasted(before, items@, i as int, at, earliest);
                    }
                    let id: u32 = paste_item(&mut p, &items[i], at, earliest);
                    refs.push(PastedRef { kind: items[i].kind(), id });
                    i += 1;
                }
                self.commit(p);
                Ok(refs)
            },
        }
    }

    /// Change an annotation's stacking order within its kind: `"forward"`, `"backward"`,
    /// `"front"` or `"back"`. A move that changes nothing leaves no undo step.
    pub fn reorder_annotation(&mut self, id: u32, dir: &str) -> (r: Result<(), EditError>)
        ensures
            match old(self)@.project {
                None => r == Err::<(), EditError>(EditError::NoRecording) && final(self)@
                    == old(self)@,
                Some(p) => match spot_of(p, id) {
                    None => r == Err::<(), EditError>(EditError::NoSuchAnnotation) && final(self)@
                        == old(self)@,
                    Some(spot) => match restack_named(dir@) {
                        None => {
                            &&& r matches Err(EditError::BadReorder(d)) && d@ == dir@
                            &&& final(self)@ == old(self)@
                        },
                        Some(how) => {
                            &&& r is Ok
                            &&& match restacked(p, spot, how) {
                                Some(q) => final(self)@ == old(self)@.edited(Seq::empty(), q),
                                None => final(self)@ == old(self)@,
                            }
                        },
                    },
                },
            },
    {
        let (kind, i, len) = match self.project() {
            None => {
                return Err(EditError::NoRecording);
            },
            Some(p) => {
                if let Some(i) = find(&p.texts, id) {
                    (0u8, i, p.texts.len())
                } else if let Some(i) = find(&p.arrows, id) {
                    (1u8, i, p.arrows.len())
                } else if let Some(i) = find(&p.highlights, id) {
                    (2u8, i, p.highlights.len())
                } else {
                    return Err(EditError::NoSuchAnnotation);
                }
            },
        };
        let how = match parse_restack(dir) {
            Some(how) => how,
            None => {
                return Err(EditError::BadReorder(dir.to_owned()));
            },
        };
        let j: usize = match target_place(how, i, len) {
            Some(j) => j,
            None => {
                return Ok(());
            },
        };
        match self.begin_discrete() {
            None => Err(EditError::NoRecording),
            Some(p) => {
                let mut p = p;
                let ghost before = p@;
                let ghost spot = spot_of(before, id).unwrap();
                if kind == 0 {
                    let item = p.texts.remove(i);
                    p.texts.insert(j, item);
                } else if kind == 1 {
                    let item = p.arrows.remove(i);
                    p.arrows.insert(j, item);
                } else {
                    let item = p.highlights.remove(i);
                    p.highlights.insert(j, item);
                }
                assert(p@ =~= restacked(before, spot, how).unwrap());
                self.commit(p);
                Ok(())
            },
        }
    }

    /// Delete any annotation by id. A shared non-empty `tag` folds a whole group of deletes
    /// into one undo step.
    pub fn delete_annotation(&mut self, id: u32, tag: &str) -> (r: Result<(), EditError>)
        ensures
            did(
                old(self)@,
                final(self)@,
                tag@,
                r,
                |p: ProjectModel| (Ok::<(), EditError>(()), deleted(p, id)),
            ),
    {
        match self.begin(tag) {
            None => Err(EditError::NoRecording),
            Some(p) => {
                let mut p = p;
                let ghost before = p@;
                remove_all(&mut p.texts, id);
                remove_all(&mut p.arrows, id);
                remove_all(&mut p.highlights, id);
                assert(p@ =~= deleted(before, id));
                self.commit(p);
                Ok(())
            },
        }
    }
}

/// Whether a coordinate is another three hundredths on, or at the far edge if that is nearer.
pub open spec fn is_nudged(b: i64, a: i64) -> bool {
    &&& 0 <= a <= 970_000_000 ==> b == a + 30_000_000
    &&& a > 970_000_000 ==> b == 1_000_000_000
}

/// A duplicate is a new annotation of the same kind, under a new id and after all others, that
/// looks as the first, a little to the right and below; the first stays.
pub proof fn duplicates_are_nudged(p: ProjectModel, id: u32, i: int)
    requires
        max_id(p) < u32::MAX,
    ensures
        ({
            let (r, q) = duplicated(p, id);
            let new = max_id(p) + 1;
            &&& is_first(p.texts, id, i) ==> {
                let a = p.texts[i];
                let b = q.texts[p.texts.len() as int];
                &&& r is Ok && r->Ok_0 == new
                &&& q == ProjectModel { texts: p.texts.push(b), ..p }
                &&& b == TextAnnotation { id: b.id, pos: b.pos, ..a }
                &&& b.id == new
                &&& is_nudged(b.pos.x, a.pos.x) && is_nudged(b.pos.y, a.pos.y)
            }
            &&& is_absent(p.texts, id) && is_first(p.arrows, id, i) ==> {
                let a = p.arrows[i];
                let b = q.arrows[p.arrows.len() as int];
                &&& r is Ok && r->Ok_0 == new
                &&& q == ProjectModel { arrows: p.arrows.push(b), ..p }
                &&& b == ArrowAnnotation { id: b.id, from: b.from, to: b.to, ..a }
                &&& b.id == new
                &&& is_nudged(b.from.x, a.from.x) && is_nudged(b.from.y, a.from.y)
                &&& is_nudged(b.to.x, a.to.x) && is_nudged(b.to.y, a.to.y)
            }
            &&& is_absent(p.texts, id) && is_absent(p.arrows, id) && is_first(p.highlights, id, i)
                ==> {
                let a = p.highlights[i];
                let b = q.highlights[p.highlights.len() as int];
                &&& r is Ok && r->Ok_0 == new
                &&& q == ProjectModel { highlights: p.highlights.push(b), ..p }
                &&& b == HighlightBox { id: b.id, rect: b.rect, ..a }
                &&& b.id == new
                &&& is_nudged(b.rect.x, a.rect.x) && is_nudged(b.rect.y, a.rect.y)
                &&& b.rect.w == a.rect.w && b.rect.h == a.rect.h
            }
            &&& is_absent(p.texts, id) && is_absent(p.arrows, id) && is_absent(p.highlights, id)
                ==> r is Err && q == p
        }),
{
    the_first_match_is_found(p.texts, id, i);
    the_first_match_is_found(p.arrows, id, i);
    the_first_match_is_found(p.highlights, id, i);
}

/// What is pasted is what was copied, in a new window and under a new id, after all others of
/// its kind.
pub proof fn pasting_adds_one_annotation(
    p: ProjectModel,
    item: PasteItem,
    at: i64,
    earliest: i64,
)
    requires
        max_id(p) < u32::MAX,
    ensures
        ({
            let q = with_item(p, item, at, earliest);
            let id = (max_id(p) + 1) as u32;
            let range = reanchored(item.range_of(), at, earliest, p.source.duration);
            match item {
                PasteItem::Text(t) => q == ProjectModel {
                    texts: p.texts.push(TextAnnotation { id, range, ..t }),
                    ..p
                },
                PasteItem::Arrow(a) => q == ProjectModel {
                    arrows: p.arrows.push(ArrowAnnotation { id, range, ..a }),
                    ..p
                },
                PasteItem::Box(b) => q == ProjectModel {
                    highlights: p.highlights.push(HighlightBox { id, range, ..b }),
                    ..p
                },
            }
        }),
        item matches PasteItem::Text(t) ==> item.range_of() == t.range,
        item matches PasteItem::Arrow(a) ==> item.range_of() == a.range,
        item matches PasteItem::Box(b) ==> item.range_of() == b.range,
{
}

/// The earliest start of what is pasted is one of their starts, and none is earlier.
pub proof fn pastes_count_from_the_earliest(items: Seq<PasteItem>, n: int, j: int) -> (i: int)
    requires
        0 <= j < n <= items.len(),
    ensures
        0 <= i < n,
        earliest_of(items, n) == items[i].range_of().start,
        earliest_of(items, n) <= items[j].range_of().start,
    decreases n,
{
    if n <= 1 {
        0
    } else {
        let k = if j < n - 1 {
            pastes_count_from_the_earliest(items, n - 1, j)
        } else {
            pastes_count_from_the_earliest(items, n - 1, 0)
        };
        if earliest_of(items, n - 1) <= items[n - 1].range_of().start {
            k
        } else {
            n - 1
        }
    }
}

/// Forward is one place later in the list, which is drawn later and so above, backward one
/// place earlier; front is the last place and back the first. What is there already stays.
pub proof fn restacking_goes_its_way(i: int, len: int)
    requires
        0 <= i < len,
    ensures
        restack_named("forward"@) == Some(Restack::Forward),
        restack_named("backward"@) == Some(Restack::Backward),
        restack_named("front"@) == Some(Restack::Front),
        restack_named("back"@) == Some(Restack::Back),
        i < len - 1 ==> place_after_move(Restack::Forward, i, len) == Some(i + 1),
        i < len - 1 ==> place_after_move(Restack::Front, i, len) == Some(len - 1),
        i > 0 ==> place_after_move(Restack::Backward, i, len) == Some(i - 1),
        i > 0 ==> place_after_move(Restack::Back, i, len) == Some(0int),
        i == len - 1 ==> place_after_move(Restack::Forward, i, len) is None && place_after_move(
            Restack::Front,
            i,
            len,
        ) is None,
        i == 0 ==> place_after_move(Restack::Backward, i, len) is None && place_after_move(
            Restack::Back,
            i,
            len,
        ) is None,
{
    reveal_strlit("forward");
    reveal_strlit("backward");
    reveal_strlit("front");
    reveal_strlit("back");
    assert("forward"@.len() == 7 && "backward"@.len() == 8 && "front"@.len() == 5 && "back"@.len()
        == 4);
}

/// Deleting an id removes all annotations that have it, whatever their kind, and keeps all
/// others in order.
pub proof fn deleting_keeps_the_others(p: ProjectModel, id: u32)
    ensures
        ({
            let q = deleted(p, id);
            &&& q == ProjectModel {
                texts: p.texts.filter(|x: TextAnnotation| x.id != id),
                arrows: p.arrows.filter(|x: ArrowAnnotation| x.id != id),
                highlights: p.highlights.filter(|x: HighlightBox| x.id != id),
                ..p
            }
        }),
{
    removing_removes(p.texts, id);
    removing_removes(p.arrows, id);
    removing_removes(p.highlights, id);
    assert((|x: TextAnnotation| x.key() != id) =~= (|x: TextAnnotation| x.id != id));
    assert((|x: ArrowAnnotation| x.key() != id) =~= (|x: ArrowAnnotation| x.id != id));
    assert((|x: HighlightBox| x.key() != id) =~= (|x: HighlightBox| x.id != id));
}

/// Whether a project holds a pasted item, as it was copied but for its id and its window.
pub open spec fn holds_item(p: ProjectModel, item: PasteItem, id: u32, range: TimeRange) -> bool {
    match item {
        PasteItem::Text(t) => p.texts.contains(TextAnnotation { id, range, ..t }),
        PasteItem::Arrow(a) => p.arrows.contains(ArrowAnnotation { id, range, ..a }),
        PasteItem::Box(b) => p.highlights.contains(HighlightBox { id, range, ..b }),
    }
}

/// Pasting puts every item into the project, numbered on from the highest id in the order of
/// the items, and keeps what was there.
pub proof fn pasting_numbers_the_items_in_order(
    p: ProjectModel,
    items: Seq<PasteItem>,
    n: int,
    at: i64,
    earliest: i64,
    i: int,
)
    requires
        0 <= i < n <= items.len(),
        max_id(p) + n <= u32::MAX,
    ensures
        ({
            let q = pasted(p, items, n, at, earliest);
            &&& holds_item(
                q,
                items[i],
                (max_id(p) + 1 + i) as u32,
                reanchored(items[i].range_of(), at, earliest, p.source.duration),
            )
            &&& q == ProjectModel {
                texts: q.texts,
                arrows: q.arrows,
                highlights: q.highlights,
                ..p
            }
            &&& q.texts.len() + q.arrows.len() + q.highlights.len() == p.texts.len()
                + p.arrows.len() + p.highlights.len() + n
        }),
    decreases n,
{
    let q = pasted(p, items, n - 1, at, earliest);
    let out = pasted(p, items, n, at, earliest);
    let item = items[n - 1];
    lemma_pasted(p, items, n - 1, at, earliest);
    if n > 1 {
        pasting_numbers_the_items_in_order(p, items, n - 1, at, earliest, if i < n - 1 {
            i
        } else {
            0
        });
    } else {
        assert(q == p);
    }
    let id = (max_id(q) + 1) as u32;
    let range = reanchored(item.range_of(), at, earliest, p.source.duration);
    match item {
        PasteItem::Text(t) => {
            assert(out.texts[q.texts.len() as int] == TextAnnotation { id, range, ..t });
        },
        PasteItem::Arrow(a) => {
            assert(out.arrows[q.arrows.len() as int] == ArrowAnnotation { id, range, ..a });
        },
        PasteItem::Box(b) => {
            assert(out.highlights[q.highlights.len() as int] == HighlightBox { id, range, ..b });
        },
    }
    if i < n - 1 {
        let j = (max_id(p) + 1 + i) as u32;
        let r = reanchored(items[i].range_of(), at, earliest, p.source.duration);
        match items[i] {
            PasteItem::Text(t) => {
                let k = choose|k: int|
                    0 <= k < q.texts.len() && q.texts[k] == TextAnnotation { id: j, range: r, ..t };
                assert(out.texts[k] == q.texts[k]);
            },
            PasteItem::Arrow(a) => {
                let k = choose|k: int|
                    0 <= k < q.arrows.len() && q.arrows[k] == ArrowAnnotation {
                        id: j,
                        range: r,
                        ..a
                    };
                assert(out.arrows[k] == q.arrows[k]);
            },
            PasteItem::Box(b) => {
                let k = choose|k: int|
                    0 <= k < q.highlights.len() && q.highlights[k] == HighlightBox {
                        id: j,
                        range: r,
                        ..b
                    };
                assert(out.highlights[k] == q.highlights[k]);
            },
        }
    }
}

} // verus!
