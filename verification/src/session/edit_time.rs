//! Trimming, speeding up and cutting a clip.

use crate::project::model::ProjectModel;
use crate::project::timeline::{SpeedRegion, Trim};
use crate::session::error::EditError;
use crate::session::state::{did, did_list, Session};
use crate::sort::{in_order, sort_by_time, sorted, sorting_keeps_the_items, sorting_sorts};
use crate::text::{decimal, decimals_tell_numbers_apart, push_decimal};
use crate::units::{clamp_i64, clamped, greater, lesser};
use crate::zoom::event::InputEvent;
use vstd::prelude::*;

verus! {

/// A tag for edits of one entry of a list.
pub open spec fn entry_tag(what: Seq<char>, index: usize) -> Seq<char> {
    what + decimal(index as nat)
}

pub(crate) fn tag_for_entry(what: &str, index: usize) -> (s: String)
    ensures
        s@ == entry_tag(what@, index),
{
    let mut s = what.to_owned();
    push_decimal(&mut s, index as u128);
    s
}

/// The shortest trimmed clip.
pub const MIN_TRIM: i64 = 200_000_000;

/// A trim this close to the clip's ends is none.
pub const TRIM_SLACK: i64 = 1_000;

/// What trimming a clip does: the range is held to the clip; one that covers all of it clears
/// the trim, and one that is too short is refused.
pub open spec fn trimmed(p: ProjectModel, start: i64, end: i64) -> (
    Result<(), EditError>,
    ProjectModel,
) {
    let d = p.source.duration as int;
    let s = clamped(start as int, 0, d);
    let e = clamped(end as int, 0, d);
    if e - s < MIN_TRIM {
        (Err(EditError::TrimTooShort), p)
    } else if s <= TRIM_SLACK && e >= d - TRIM_SLACK {
        (Ok(()), ProjectModel { trim: None, ..p })
    } else {
        (Ok(()), ProjectModel { trim: Some(Trim { start: s as i64, end: e as i64 }), ..p })
    }
}

/// An idle gap must be at least this long to be worth skimming.
pub const MIN_GAP: i64 = 2_500_000_000;

/// Normal speed is kept this long after an action.
pub const LEAD: i64 = 600_000_000;

/// Normal speed is kept this long before an action.
pub const TAIL: i64 = 400_000_000;

/// A skimmed stretch is longer than this.
pub const MIN_SKIM: i64 = 500_000_000;

/// The times of the first `n` events that are activity.
pub open spec fn activity_times(events: Seq<InputEvent>, n: int) -> Seq<i64>
    decreases n,
{
    if n <= 0 {
        Seq::empty()
    } else if events[n - 1] is Move {
        activity_times(events, n - 1)
    } else {
        activity_times(events, n - 1).push(events[n - 1].time())
    }
}

/// When the last of the first `n` marks was, from the clip's start on.
pub open spec fn last_mark(marks: Seq<i64>, n: int) -> int
    decreases n,
{
    if n <= 0 {
        0
    } else {
        greater(last_mark(marks, n - 1), marks[n - 1] as int)
    }
}

/// The stretches to skim in front of the first `n` marks.
pub open spec fn idle_before(marks: Seq<i64>, n: int, duration: i64, factor: i64) -> Seq<SpeedRegion>
    decreases n,
{
    if n <= 0 {
        Seq::empty()
    } else {
        let before = idle_before(marks, n - 1, duration, factor);
        let prev = last_mark(marks, n - 1);
        let start = prev + LEAD;
        let end = lesser(marks[n - 1] - TAIL, duration as int);
        if marks[n - 1] - prev >= MIN_GAP && end - start > MIN_SKIM {
            before.push(SpeedRegion { start: start as i64, end: end as i64, factor })
        } else {
            before
        }
    }
}

/// The stretches of a clip without activity, to play at a factor.
pub open spec fn idle_stretches(events: Seq<InputEvent>, duration: i64, factor: i64) -> Seq<
    SpeedRegion,
> {
    let marks = in_order(activity_times(events, events.len() as int)).push(duration);
    idle_before(marks, marks.len() as int, duration, factor)
}

fn gather_activity(events: &Vec<InputEvent>) -> (out: Vec<i64>)
    ensures
        out@ == activity_times(events@, events@.len() as int),
{
    let mut out: Vec<i64> = Vec::new();
    let mut i: usize = 0;
    while i < events.len()
        invariant
            i <= events@.len(),
            out@ == activity_times(events@, i as int),
        decreases events@.len() - i,
    {
        if events[i].is_activity() {
            out.push(events[i].t());
        }
        i += 1;
    }
    out
}

fn find_idle(events: &Vec<InputEvent>, duration: i64, factor: i64) -> (out: Vec<SpeedRegion>)
    ensures
        out@ == idle_stretches(events@, duration, factor),
{
    let mut marks = gather_activity(events);
    sort_by_time(&mut marks);
    marks.push(duration);
    let mut out: Vec<SpeedRegion> = Vec::new();
    let mut prev: i64 = 0;
    let mut i: usize = 0;
    while i < marks.len()
        invariant
            i <= marks@.len(),
            prev >= 0,
            prev == last_mark(marks@, i as int),
            out@ == idle_before(marks@, i as int, duration, factor),
        decreases marks@.len() - i,
    {
        let m: i64 = marks[i];
        if m as i128 - prev as i128 >= MIN_GAP as i128 {
            let start: i64 = prev + LEAD;
            let close: i64 = m - TAIL;
            let end: i64 = if duration < close {
                duration
            } else {
                close
            };
            if end as i128 - start as i128 > MIN_SKIM as i128 {
                out.push(SpeedRegion { start, end, factor });
            }
        }
        if m > prev {
            prev = m;
        }
        i += 1;
    }
    out
}

/// Skimmed stretches lie in the clip, in order and apart from each other.
pub proof fn idle_stretches_are_apart(marks: Seq<i64>, n: int, duration: i64, factor: i64)
    requires
        0 <= n <= marks.len(),
    ensures
        ({
            let rs = idle_before(marks, n, duration, factor);
            &&& forall|i: int|
                0 <= i < rs.len() ==> {
                    &&& LEAD <= (#[trigger] rs[i]).start
                    &&& rs[i].start + MIN_SKIM < rs[i].end
                    &&& rs[i].end <= duration
                    &&& rs[i].end + TAIL <= last_mark(marks, n)
                }
            &&& forall|i: int, j: int|
                0 <= i < j < rs.len() ==> (#[trigger] rs[i]).end < (#[trigger] rs[j]).start
        }),
    decreases n,
{
    if n > 0 {
        idle_stretches_are_apart(marks, n - 1, duration, factor);
        lemma_last_mark(marks, n - 1);
        let rs = idle_before(marks, n, duration, factor);
        let before = idle_before(marks, n - 1, duration, factor);
        assert forall|i: int| 0 <= i < rs.len() implies {
            &&& LEAD <= (#[trigger] rs[i]).start
            &&& rs[i].start + MIN_SKIM < rs[i].end
            &&& rs[i].end <= duration
            &&& rs[i].end + TAIL <= last_mark(marks, n)
        } by {
            if i < before.len() {
                assert(rs[i] == before[i]);
            }
        }
        assert forall|i: int, j: int| 0 <= i < j < rs.len() implies (#[trigger] rs[i]).end
            < (#[trigger] rs[j]).start by {
            assert(rs[i] == before[i]);
            if j < before.len() {
                assert(rs[j] == before[j]);
            }
        }
    }
}

proof fn lemma_last_mark(marks: Seq<i64>, n: int)
    ensures
        last_mark(marks, n) >= 0,
    decreases n,
{
    if n > 0 {
        lemma_last_mark(marks, n - 1);
    }
}

/// A span with its ends put in order and moved into a clip, at least `least` long.
pub open spec fn span_in(a: i64, b: i64, duration: i64, least: i64) -> (int, int) {
    let s = clamped(lesser(a as int, b as int), 0, greater(duration - least, 0));
    let e = clamped(
        greater(b as int, a as int),
        s + least,
        greater(duration as int, s + least),
    );
    (s, e)
}

fn fit_span(a: i64, b: i64, duration: i64, least: i64) -> (r: (i64, i64))
    requires
        0 <= least <= 1_000_000_000,
    ensures
        (r.0 as int, r.1 as int) == span_in(a, b, duration, least),
{
    let (lo, hi) = if b < a {
        (b, a)
    } else {
        (a, b)
    };
    let room: i64 = if duration < least {
        0
    } else {
        duration - least
    };
    let s: i64 = clamp_i64(lo, 0, room);
    let soonest: i64 = s + least;
    let last: i64 = if soonest > duration {
        soonest
    } else {
        duration
    };
    (s, clamp_i64(hi, soonest, last))
}

/// The shortest speed region.
pub const MIN_SPEED_SPAN: i64 = 200_000_000;

/// The shortest cut.
pub const MIN_CUT: i64 = 100_000_000;

/// A speed region of a clip: between one and a quarter and sixteen times as fast.
pub open spec fn speed_region(start: i64, end: i64, factor: i64, duration: i64) -> SpeedRegion {
    let w = span_in(start, end, duration, MIN_SPEED_SPAN);
    SpeedRegion {
        start: w.0 as i64,
        end: w.1 as i64,
        factor: clamped(factor as int, 1_250_000_000, 16_000_000_000) as i64,
    }
}

/// A cut of a clip.
pub open spec fn cut_span(start: i64, end: i64, duration: i64) -> Trim {
    let w = span_in(start, end, duration, MIN_CUT);
    Trim { start: w.0 as i64, end: w.1 as i64 }
}

/// A span moved into a clip that can hold it lies in the clip.
pub proof fn spans_fit_the_clip(a: i64, b: i64, duration: i64, least: i64)
    requires
        0 <= least <= duration,
    ensures
        ({
            let w = span_in(a, b, duration, least);
            0 <= w.0 && w.0 + least <= w.1 && w.1 <= duration
        }),
{
}

fn make_region(start: i64, end: i64, factor: i64, duration: i64) -> (r: SpeedRegion)
    ensures
        r == speed_region(start, end, factor, duration),
{
    let (s, e) = fit_span(start, end, duration, MIN_SPEED_SPAN);
    SpeedRegion { start: s, end: e, factor: clamp_i64(factor, 1_250_000_000, 16_000_000_000) }
}

fn make_cut(start: i64, end: i64, duration: i64) -> (c: Trim)
    ensures
        c == cut_span(start, end, duration),
{
    let (s, e) = fit_span(start, end, duration, MIN_CUT);
    Trim { start: s, end: e }
}

/// What setting the speed regions does.
pub open spec fn with_speeds(p: ProjectModel, rs: Seq<SpeedRegion>) -> (
    Result<Seq<SpeedRegion>, EditError>,
    ProjectModel,
) {
    (Ok(rs), ProjectModel { speed_regions: rs, ..p })
}

/// What setting the cuts does.
pub open spec fn with_cuts(p: ProjectModel, cs: Seq<Trim>) -> (
    Result<Seq<Trim>, EditError>,
    ProjectModel,
) {
    (Ok(cs), ProjectModel { cuts: cs, ..p })
}

/// What adding a speed region does.
pub open spec fn speed_added(p: ProjectModel, start: i64, end: i64, factor: i64) -> (
    Result<Seq<SpeedRegion>, EditError>,
    ProjectModel,
) {
    with_speeds(
        p,
        in_order(p.speed_regions.push(speed_region(start, end, factor, p.source.duration))),
    )
}

/// What changing a speed region does.
pub open spec fn speed_changed(p: ProjectModel, index: usize, start: i64, end: i64, factor: i64) -> (
    Result<Seq<SpeedRegion>, EditError>,
    ProjectModel,
) {
    if index < p.speed_regions.len() {
        with_speeds(
            p,
            in_order(
                p.speed_regions.update(
                    index as int,
                    speed_region(start, end, factor, p.source.duration),
                ),
            ),
        )
    } else {
        (Err(EditError::NoSuchSpeedRegion), p)
    }
}

/// What deleting a speed region does.
pub open spec fn speed_deleted(p: ProjectModel, index: usize) -> (
    Result<Seq<SpeedRegion>, EditError>,
    ProjectModel,
) {
    if index < p.speed_regions.len() {
        with_speeds(p, p.speed_regions.remove(index as int))
    } else {
        (Err(EditError::NoSuchSpeedRegion), p)
    }
}

/// What adding a cut does.
pub open spec fn cut_added(p: ProjectModel, start: i64, end: i64) -> (
    Result<Seq<Trim>, EditError>,
    ProjectModel,
) {
    with_cuts(p, in_order(p.cuts.push(cut_span(start, end, p.source.duration))))
}

/// What changing a cut does.
pub open spec fn cut_changed(p: ProjectModel, index: usize, start: i64, end: i64) -> (
    Result<Seq<Trim>, EditError>,
    ProjectModel,
) {
    if index < p.cuts.len() {
        with_cuts(
            p,
            in_order(p.cuts.update(index as int, cut_span(start, end, p.source.duration))),
        )
    } else {
        (Err(EditError::NoSuchCut), p)
    }
}

/// What restoring a cut does.
pub open spec fn cut_deleted(p: ProjectModel, index: usize) -> (
    Result<Seq<Trim>, EditError>,
    ProjectModel,
) {
    if index < p.cuts.len() {
        with_cuts(p, p.cuts.remove(index as int))
    } else {
        (Err(EditError::NoSuchCut), p)
    }
}

impl Session {
    /// Set the trim range.
    pub fn set_trim(&mut self, start: i64, end: i64) -> (r: Result<(), EditError>)
        ensures
            did(
                old(self)@,
                final(self)@,
                "trim"@,
                r,
                |p: ProjectModel| trimmed(p, start, end),
            ),
    {
        match self.begin("trim") {
            None => Err(EditError::NoRecording),
            Some(p) => {
                let mut p = p;
                let ghost before = p@;
                let d: i64 = p.source.duration;
                let s: i64 = clamp_i64(start, 0, d);
                let e: i64 = clamp_i64(end, 0, d);
                let r = if (e as i128 - s as i128) < MIN_TRIM as i128 {
                    Err(EditError::TrimTooShort)
                } else {
                    p.trim = if s <= TRIM_SLACK && e as i128 >= d as i128 - TRIM_SLACK as i128 {
                        None
                    } else {
                        Some(Trim { start: s, end: e })
                    };
                    Ok(())
                };
                assert(p@ =~= trimmed(before, start, end).1);
                self.commit(p);
                r
            },
        }
    }

    /// Mark the stretches without clicks, keys or scrolls to play at `factor` times the
    /// speed, held between one and a half and sixteen. Replaces any speed regions; returns
    /// the new list.
    pub fn auto_speed(&mut self, factor: i64) -> (r: Result<Vec<SpeedRegion>, EditError>)
        ensures
            did_list(
                old(self)@,
                final(self)@,
                Seq::empty(),
                r,
                |p: ProjectModel|
                    with_speeds(
                        p,
                        idle_stretches(
                            p.events,
                            p.source.duration,
                            clamped(factor as int, 1_500_000_000, 16_000_000_000) as i64,
                        ),
                    ),
            ),
    {
        match self.begin_discrete() {
            None => Err(EditError::NoRecording),
            Some(p) => {
                let mut p = p;
                let ghost before = p@;
                let f: i64 = clamp_i64(factor, 1_500_000_000, 16_000_000_000);
                let regions = find_idle(&p.events, p.source.duration, f);
                let out = regions.clone();
                assert(out@ =~= regions@);
                p.speed_regions = regions;
                assert(p@ =~= with_speeds(before, out@).1);
                self.commit(p);
                Ok(out)
            },
        }
    }

    /// Remove all speed regions.
    pub fn clear_speed(&mut self) -> (r: Result<(), EditError>)
        ensures
            did(
                old(self)@,
                final(self)@,
                Seq::empty(),
                r,
                |p: ProjectModel|
                    (
                        Ok::<(), EditError>(()),
                        ProjectModel { speed_regions: Seq::empty(), ..p },
                    ),
            ),
    {
        match self.begin_discrete() {
            None => Err(EditError::NoRecording),
            Some(p) => {
                let mut p = p;
                let ghost before = p@;
                p.speed_regions = Vec::new();
                assert(p@ =~= ProjectModel { speed_regions: Seq::empty(), ..before });
                self.commit(p);
                Ok(())
            },
        }
    }

    /// Mark a span to play faster. Returns the updated, sorted list.
    pub fn add_speed_region(&mut self, start: i64, end: i64, factor: i64) -> (r: Result<Vec<SpeedRegion>, EditError>)
        ensures
            did_list(
                old(self)@,
                final(self)@,
                Seq::empty(),
                r,
                |p: ProjectModel| speed_added(p, start, end, factor),
            ),
    {
        match self.begin_discrete() {
            None => Err(EditError::NoRecording),
            Some(p) => {
                let mut p = p;
                let ghost before = p@;
                let region = make_region(start, end, factor, p.source.duration);
                p.speed_regions.push(region);
                sort_by_time(&mut p.speed_regions);
                let out = p.speed_regions.clone();
                assert(out@ =~= p.speed_regions@);
                let r = Ok(out);
                assert(p@ =~= speed_added(before, start, end, factor).1);
                self.commit(p);
                r
            },
        }
    }

    /// Retime or re-level the speed region at `index`. Returns the updated, sorted list.
    pub fn update_speed_region(&mut self, index: usize, start: i64, end: i64, factor: i64) -> (r: Result<Vec<SpeedRegion>, EditError>)
        ensures
            did_list(
                old(self)@,
                final(self)@,
                entry_tag("speed:"@, index),
                r,
                |p: ProjectModel| speed_changed(p, index, start, end, factor),
            ),
    {
        let tag = tag_for_entry("speed:", index);
        match self.begin(tag.as_str()) {
            None => Err(EditError::NoRecording),
            Some(p) => {
                let mut p = p;
                let ghost before = p@;
                let r = if index < p.speed_regions.len() {
                    let region = make_region(start, end, factor, p.source.duration);
                    p.speed_regions.set(index, region);
                    sort_by_time(&mut p.speed_regions);
                    let out = p.speed_regions.clone();
                    assert(out@ =~= p.speed_regions@);
                    Ok(out)
                } else {
                    Err(EditError::NoSuchSpeedRegion)
                };
                assert(p@ =~= speed_changed(before, index, start, end, factor).1);
                self.commit(p);
                r
            },
        }
    }

    /// Delete the speed region at `index`. Returns the updated list.
    pub fn delete_speed_region(&mut self, index: usize) -> (r: Result<Vec<SpeedRegion>, EditError>)
        ensures
            did_list(
                old(self)@,
                final(self)@,
                Seq::empty(),
                r,
                |p: ProjectModel| speed_deleted(p, index),
            ),
    {
        match self.begin_discrete() {
            None => Err(EditError::NoRecording),
            Some(p) => {
                let mut p = p;
                let ghost before = p@;
                let r = if index < p.speed_regions.len() {
                    p.speed_regions.remove(index);
                    let out = p.speed_regions.clone();
                    assert(out@ =~= p.speed_regions@);
                    Ok(out)
                } else {
                    Err(EditError::NoSuchSpeedRegion)
                };
                assert(p@ =~= speed_deleted(before, index).1);
                self.commit(p);
                r
            },
        }
    }

    /// Remove a span from the output entirely. Returns the updated, sorted list.
    pub fn add_cut(&mut self, start: i64, end: i64) -> (r: Result<Vec<Trim>, EditError>)
        ensures
            did_list(
                old(self)@,
                final(self)@,
                Seq::empty(),
                r,
                |p: ProjectModel| cut_added(p, start, end),
            ),
    {
        match self.begin_discrete() {
            None => Err(EditError::NoRecording),
            Some(p) => {
                let mut p = p;
                let ghost before = p@;
                let cut = make_cut(start, end, p.source.duration);
                p.cuts.push(cut);
                sort_by_time(&mut p.cuts);
                let out = p.cuts.clone();
                assert(out@ =~= p.cuts@);
                let r = Ok(out);
                assert(p@ =~= cut_added(before, start, end).1);
                self.commit(p);
                r
            },
        }
    }

    /// Retime the cut at `index`. Returns the updated, sorted list.
    pub fn update_cut(&mut self, index: usize, start: i64, end: i64) -> (r: Result<Vec<Trim>, EditError>)
        ensures
            did_list(
                old(self)@,
                final(self)@,
                entry_tag("cut:"@, index),
                r,
                |p: ProjectModel| cut_changed(p, index, start, end),
            ),
    {
        let tag = tag_for_entry("cut:", index);
        match self.begin(tag.as_str()) {
            None => Err(EditError::NoRecording),
            Some(p) => {
                let mut p = p;
                let ghost before = p@;
                let r = if index < p.cuts.len() {
                    let cut = make_cut(start, end, p.source.duration);
                    p.cuts.set(index, cut);
                    sort_by_time(&mut p.cuts);
                    let out = p.cuts.clone();
                    assert(out@ =~= p.cuts@);
                    Ok(out)
                } else {
                    Err(EditError::NoSuchCut)
                };
                assert(p@ =~= cut_changed(before, index, start, end).1);
                self.commit(p);
                r
            },
        }
    }

    /// Restore the cut at `index` (the section plays again). Returns the updated list.
    pub fn delete_cut(&mut self, index: usize) -> (r: Result<Vec<Trim>, EditError>)
        ensures
            did_list(
                old(self)@,
                final(self)@,
                Seq::empty(),
                r,
                |p: ProjectModel| cut_deleted(p, index),
            ),
    {
        match self.begin_discrete() {
            None => Err(EditError::NoRecording),
            Some(p) => {
                let mut p = p;
                let ghost before = p@;
                let r = if index < p.cuts.len() {
                    p.cuts.remove(index);
                    let out = p.cuts.clone();
                    assert(out@ =~= p.cuts@);
                    Ok(out)
                } else {
                    Err(EditError::NoSuchCut)
                };
                assert(p@ =~= cut_deleted(before, index).1);
                self.commit(p);
                r
            },
        }
    }
}

/// A trim that lies in the clip and is long enough is set as it was asked for; one that covers
/// the clip clears it, and one that is too short is refused and changes nothing.
pub proof fn trims_are_set_as_asked(p: ProjectModel, start: i64, end: i64)
    requires
        0 <= start,
        end <= p.source.duration,
    ensures
        ({
            let (r, q) = trimmed(p, start, end);
            let d = p.source.duration;
            let whole = start <= 1_000 && end >= d - 1_000;
            &&& start <= end && end - start < 200_000_000 ==> r is Err && q == p
            &&& start <= end && end - start >= 200_000_000 ==> r is Ok && q == ProjectModel {
                trim: q.trim,
                ..p
            }
            &&& start <= end && end - start >= 200_000_000 && whole ==> q.trim is None
            &&& start <= end && end - start >= 200_000_000 && !whole ==> q.trim == Some(
                Trim { start, end },
            )
        }),
{
}

/// A span that lies in the clip and is long enough is taken as it is, in whichever order its
/// ends were given; a factor within the limits is taken as it is, and a limit beyond them.
pub proof fn spans_are_taken_as_asked(a: i64, b: i64, factor: i64, duration: i64)
    requires
        0 <= a,
        a + 200_000_000 <= b <= duration,
    ensures
        ({
            let r = speed_region(a, b, factor, duration);
            let c = cut_span(a, b, duration);
            &&& r.start == a && r.end == b
            &&& c.start == a && c.end == b
            &&& speed_region(b, a, factor, duration) == r
            &&& cut_span(b, a, duration) == c
            &&& 1_250_000_000 <= factor <= 16_000_000_000 ==> r.factor == factor
            &&& factor < 1_250_000_000 ==> r.factor == 1_250_000_000
            &&& factor > 16_000_000_000 ==> r.factor == 16_000_000_000
        }),
{
}

/// Adding, changing and deleting a speed touches that entry of the list alone, which stays in
/// order of time; nothing else in the project changes.
pub proof fn speeds_are_edited_one_by_one(
    p: ProjectModel,
    index: usize,
    start: i64,
    end: i64,
    factor: i64,
)
    ensures
        ({
            let r = speed_region(start, end, factor, p.source.duration);
            let added = speed_added(p, start, end, factor).1;
            let changed = speed_changed(p, index, start, end, factor).1;
            let deleted = speed_deleted(p, index).1;
            let rs = p.speed_regions;
            &&& added == ProjectModel { speed_regions: added.speed_regions, ..p }
            &&& changed == ProjectModel { speed_regions: changed.speed_regions, ..p }
            &&& deleted == ProjectModel { speed_regions: deleted.speed_regions, ..p }
            &&& sorted(added.speed_regions)
            &&& added.speed_regions.to_multiset() == rs.push(r).to_multiset()
            &&& index < rs.len() ==> sorted(changed.speed_regions)
                && changed.speed_regions.to_multiset() == rs.update(index as int, r).to_multiset()
                && deleted.speed_regions == rs.remove(index as int)
            &&& index >= rs.len() ==> changed == p && deleted == p && speed_changed(
                p,
                index,
                start,
                end,
                factor,
            ).0 is Err && speed_deleted(p, index).0 is Err
        }),
{
    let r = speed_region(start, end, factor, p.source.duration);
    sorting_sorts(p.speed_regions.push(r));
    if index < p.speed_regions.len() {
        sorting_sorts(p.speed_regions.update(index as int, r));
    }
}

/// Adding, changing and deleting a cut touches that entry of the list alone, which stays in
/// order of time; nothing else in the project changes.
pub proof fn cuts_are_edited_one_by_one(p: ProjectModel, index: usize, start: i64, end: i64)
    ensures
        ({
            let c = cut_span(start, end, p.source.duration);
            let added = cut_added(p, start, end).1;
            let changed = cut_changed(p, index, start, end).1;
            let deleted = cut_deleted(p, index).1;
            let cs = p.cuts;
            &&& added == ProjectModel { cuts: added.cuts, ..p }
            &&& changed == ProjectModel { cuts: changed.cuts, ..p }
            &&& deleted == ProjectModel { cuts: deleted.cuts, ..p }
            &&& sorted(added.cuts)
            &&& added.cuts.to_multiset() == cs.push(c).to_multiset()
            &&& index < cs.len() ==> sorted(changed.cuts) && changed.cuts.to_multiset() == cs.update(
                index as int,
                c,
            ).to_multiset() && deleted.cuts == cs.remove(index as int)
            &&& index >= cs.len() ==> changed == p && deleted == p && cut_changed(
                p,
                index,
                start,
                end,
            ).0 is Err && cut_deleted(p, index).0 is Err
        }),
{
    let c = cut_span(start, end, p.source.duration);
    sorting_sorts(p.cuts.push(c));
    if index < p.cuts.len() {
        sorting_sorts(p.cuts.update(index as int, c));
    }
}

/// The times of activity are those of the events other than moves.
proof fn lemma_activity_times(events: Seq<InputEvent>, n: int, i: int) -> (k: int)
    requires
        0 <= i < n <= events.len(),
        !(events[i] is Move),
    ensures
        0 <= k < activity_times(events, n).len(),
        activity_times(events, n)[k] == events[i].time(),
    decreases n,
{
    if i < n - 1 {
        lemma_activity_times(events, n - 1, i)
    } else {
        activity_times(events, n - 1).len() as int
    }
}

/// Each time of activity is that of an event other than a move.
proof fn lemma_activity_event(events: Seq<InputEvent>, n: int, k: int) -> (i: int)
    requires
        n <= events.len(),
        0 <= k < activity_times(events, n).len(),
    ensures
        0 <= i < n,
        !(events[i] is Move),
        activity_times(events, n)[k] == events[i].time(),
    decreases n,
{
    if n <= 0 {
        0
    } else if k < activity_times(events, n - 1).len() {
        lemma_activity_event(events, n - 1, k)
    } else {
        n - 1
    }
}

/// The last of the first marks is the latest of them, or the start of the clip.
proof fn lemma_latest_mark(marks: Seq<i64>, n: int)
    requires
        0 <= n <= marks.len(),
    ensures
        last_mark(marks, n) >= 0,
        forall|j: int| 0 <= j < n ==> #[trigger] marks[j] <= last_mark(marks, n),
        last_mark(marks, n) == 0 || exists|j: int|
            0 <= j < n && #[trigger] marks[j] == last_mark(marks, n),
    decreases n,
{
    if n > 0 {
        lemma_latest_mark(marks, n - 1);
        if last_mark(marks, n - 1) < marks[n - 1] {
            assert(marks[n - 1] == last_mark(marks, n));
        } else if last_mark(marks, n) != 0 {
            let j = choose|j: int| 0 <= j < n - 1 && #[trigger] marks[j] == last_mark(marks, n - 1);
            assert(marks[j] == last_mark(marks, n));
        }
    }
}

/// Whether regions hold one over a span at a factor.
pub open spec fn skims(rs: Seq<SpeedRegion>, start: int, end: int, factor: i64) -> bool {
    exists|k: int|
        0 <= k < rs.len() && (#[trigger] rs[k]).start == start && rs[k].end == end && rs[k].factor
            == factor
}

/// The gap before a mark is skimmed if it is long enough.
proof fn lemma_gap(marks: Seq<i64>, n: int, m: int, duration: i64, factor: i64)
    requires
        0 <= m < n <= marks.len(),
        marks[m] - last_mark(marks, m) >= MIN_GAP,
        marks[m] <= duration,
        last_mark(marks, m) >= 0,
    ensures
        skims(
            idle_before(marks, n, duration, factor),
            last_mark(marks, m) + LEAD,
            marks[m] - TAIL,
            factor,
        ),
    decreases n,
{
    let before = idle_before(marks, n - 1, duration, factor);
    let out = idle_before(marks, n, duration, factor);
    let start = last_mark(marks, m) + LEAD;
    let end = marks[m] - TAIL;
    if m < n - 1 {
        lemma_gap(marks, n - 1, m, duration, factor);
        let k = choose|k: int|
            0 <= k < before.len() && (#[trigger] before[k]).start == start && before[k].end == end
                && before[k].factor == factor;
        assert(out[k] == before[k]);
    } else {
        assert(out[out.len() - 1].start == start);
    }
}

/// The first place of a value among sorted marks.
proof fn lemma_first_place(marks: Seq<i64>, k: int, b: i64) -> (m: int)
    requires
        0 <= k < marks.len(),
        marks[k] == b,
    ensures
        0 <= m <= k,
        marks[m] == b,
        forall|j: int| 0 <= j < m ==> #[trigger] marks[j] != b,
    decreases k,
{
    if exists|j: int| 0 <= j < k && #[trigger] marks[j] == b {
        let j = choose|j: int| 0 <= j < k && #[trigger] marks[j] == b;
        lemma_first_place(marks, j, b)
    } else {
        k
    }
}

/// A stretch without activity of two and a half seconds or more, between the start of the clip
/// or some activity and the next, is played at the factor: from six tenths of a second after
/// the one to four tenths before the other.
pub proof fn gaps_in_activity_are_skimmed(
    events: Seq<InputEvent>,
    duration: i64,
    factor: i64,
    a: i64,
    j: int,
)
    requires
        0 <= j < events.len(),
        !(events[j] is Move),
        a == 0 || exists|i: int|
            0 <= i < events.len() && !((#[trigger] events[i]) is Move) && events[i].time() == a,
        0 <= a,
        a + 2_500_000_000 <= events[j].time() <= duration,
        forall|i: int|
            0 <= i < events.len() && !((#[trigger] events[i]) is Move) ==> events[i].time() <= a
                || events[i].time() >= events[j].time(),
    ensures
        skims(
            idle_stretches(events, duration, factor),
            a + 600_000_000,
            events[j].time() - 400_000_000,
            factor,
        ),
{
    let n = events.len() as int;
    let times = activity_times(events, n);
    let order = in_order(times);
    let marks = order.push(duration);
    let b = events[j].time();
    sorting_sorts(times);
    let t = lemma_activity_times(events, n, j);
    let at = sorting_keeps_the_items(times, t, 0);
    assert(marks[at.0] == b);
    let m = lemma_first_place(marks, at.0, b);
    lemma_latest_mark(marks, m);
    assert forall|k: int| 0 <= k < m implies #[trigger] marks[k] <= a by {
        assert(marks[k] == order[k]);
        assert(order[k] <= order[m]);
        let back = sorting_keeps_the_items(times, 0, k);
        let e = lemma_activity_event(events, n, back.1);
        assert(events[e].time() == marks[k]);
    }
    if a > 0 {
        let i = choose|i: int|
            0 <= i < events.len() && !((#[trigger] events[i]) is Move) && events[i].time() == a;
        let u = lemma_activity_times(events, n, i);
        let place = sorting_keeps_the_items(times, u, 0);
        assert(order[place.0] == a);
        if place.0 >= m {
            assert(order[m] <= order[place.0]);
        }
        assert(marks[place.0] == a);
    }
    assert(last_mark(marks, m) == a);
    lemma_gap(marks, marks.len() as int, m, duration, factor);
}

/// What plays faster holds no activity: from six tenths of a second before it to four tenths
/// after it nothing but moves happens. Nothing is played at another factor.
pub proof fn skimmed_stretches_are_quiet(
    events: Seq<InputEvent>,
    duration: i64,
    factor: i64,
    r: int,
    i: int,
)
    requires
        0 <= r < idle_stretches(events, duration, factor).len(),
        0 <= i < events.len(),
        !(events[i] is Move),
        events[i].time() <= duration,
    ensures
        ({
            let s = idle_stretches(events, duration, factor)[r];
            let t = events[i].time();
            &&& s.factor == factor
            &&& t <= s.start - 600_000_000 || t >= s.end + 400_000_000
        }),
{
    let n = events.len() as int;
    let times = activity_times(events, n);
    let order = in_order(times);
    let marks = order.push(duration);
    let t = events[i].time();
    sorting_sorts(times);
    let u = lemma_activity_times(events, n, i);
    let at = sorting_keeps_the_items(times, u, 0);
    let m = lemma_stretch(marks, marks.len() as int, duration, factor, r);
    lemma_latest_mark(marks, m);
    if at.0 < m {
        assert(marks[at.0] <= last_mark(marks, m));
    } else if m < order.len() {
        assert(order[m] <= order[at.0]);
    }
    assert(marks[at.0] == t);
}

/// A stretch lies before some mark.
proof fn lemma_stretch(marks: Seq<i64>, n: int, duration: i64, factor: i64, r: int) -> (m: int)
    requires
        n <= marks.len(),
        0 <= r < idle_before(marks, n, duration, factor).len(),
    ensures
        ({
            let s = idle_before(marks, n, duration, factor)[r];
            &&& 0 <= m < n
            &&& s.factor == factor
            &&& s.start == last_mark(marks, m) + LEAD
            &&& s.end == lesser(marks[m] - TAIL, duration as int)
        }),
    decreases n,
{
    if n <= 0 {
        0
    } else {
        let before = idle_before(marks, n - 1, duration, factor);
        let out = idle_before(marks, n, duration, factor);
        if r < before.len() {
            assert(out[r] == before[r]);
            lemma_stretch(marks, n - 1, duration, factor, r)
        } else {
            lemma_latest_mark(marks, n - 1);
            n - 1
        }
    }
}

/// Edits of different entries have different tags, so one never goes on with the other.
pub proof fn tags_tell_entries_apart(what: Seq<char>, a: usize, b: usize)
    requires
        entry_tag(what, a) == entry_tag(what, b),
    ensures
        a == b,
{
    decimals_tell_numbers_apart(a as nat, b as nat, what);
}

} // verus!
