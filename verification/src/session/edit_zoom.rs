//! Editing zoom segments.

use crate::project::model::{Project, ProjectModel};
use crate::session::annotate::{hold, in_frame};
use crate::session::edit_time::{entry_tag, tag_for_entry};
use crate::session::error::EditError;
use crate::session::state::{
    camera_follows, camera_kept, did_list, Session, SessionModel,
};
use crate::sort::{in_order, place_after, sorted, sorting_sorts};
use crate::units::{clamp_i64, clamped, greater};
use crate::zoom::camera::{
    is_simulation, simulate, simulations_are_sound, single_valued, takes_any_step, CameraTrack,
    TrackModel,
};
use crate::zoom::config::ZoomConfig;
use crate::zoom::edit::{
    end_before, fitted, gap_width, has_room, insert_sorted, remove, resize, resized, sort_by_start,
    MIN_LEN,
};
use crate::zoom::event::Point;
use crate::zoom::keyframe::{ZoomKeyframe, ZoomMode, ZoomStyle};
use crate::zoom::planner::{click_plan, manual_plan, plan_zooms};
use vstd::prelude::*;

verus! {

/// The length of a zoom segment that is inserted by hand.
pub const DEFAULT_LEN: i64 = 2_000_000_000;

/// The multiplier of a segment inserted by hand: that of the recording, unless zoom was off.
pub open spec fn manual_amount(cfg: ZoomConfig) -> i64 {
    if cfg.amount > 1_050_000_000 {
        cfg.amount
    } else {
        1_800_000_000
    }
}

/// The segment that is inserted by hand at `t`.
pub open spec fn manual_segment(p: ProjectModel, t: i64) -> ZoomKeyframe {
    let d = p.source.duration;
    let start = clamped(t as int, 0, greater(d - MIN_LEN, 0));
    let end = clamped(start + DEFAULT_LEN, start + MIN_LEN, greater(d as int, start + MIN_LEN));
    ZoomKeyframe {
        start: start as i64,
        end: end as i64,
        amount: manual_amount(p.zoom_config),
        mode: ZoomMode::Auto,
        edge_snap_ratio: p.zoom_config.edge_snap_ratio,
        style: ZoomStyle::Smooth,
    }
}

/// What setting the zoom segments does.
pub open spec fn with_zooms(p: ProjectModel, z: Seq<ZoomKeyframe>) -> (
    Result<Seq<ZoomKeyframe>, EditError>,
    ProjectModel,
) {
    (Ok(z), ProjectModel { zooms: z, ..p })
}

/// What inserting a segment does: it is fitted into the gap it falls in, and refused where
/// that is too small.
pub open spec fn zoom_added(p: ProjectModel, t: i64) -> (
    Result<Seq<ZoomKeyframe>, EditError>,
    ProjectModel,
) {
    let k = manual_segment(p, t);
    let at = place_after(p.zooms, k.start);
    if has_room(p.zooms, at) {
        with_zooms(
            p,
            p.zooms.insert(at, fitted(k, end_before(p.zooms, at), gap_width(p.zooms, at))),
        )
    } else {
        (Err(EditError::NoRoomForZoom), p)
    }
}

/// What retiming and re-leveling a segment does.
pub open spec fn zoom_changed(p: ProjectModel, index: usize, start: i64, end: i64, amount: i64) -> (
    Result<Seq<ZoomKeyframe>, EditError>,
    ProjectModel,
) {
    let d = p.source.duration;
    if d >= MIN_LEN && index < p.zooms.len() {
        let k = resized(p.zooms, index as int, start, end, d);
        let leveled = ZoomKeyframe {
            amount: clamped(amount as int, 1_100_000_000, 4_000_000_000) as i64,
            ..k
        };
        with_zooms(p, in_order(p.zooms.update(index as int, leveled)))
    } else {
        (Err(EditError::NoSuchZoom), p)
    }
}

/// The focus of a segment: a fixed point held to the frame, or the cursor.
pub open spec fn focus_mode(focus: Option<(i64, i64)>) -> ZoomMode {
    match focus {
        Some((x, y)) => ZoomMode::Manual { pos: Point { x: in_frame(x), y: in_frame(y) } },
        None => ZoomMode::Auto,
    }
}

/// What replacing one segment does.
pub open spec fn zoom_replaced(p: ProjectModel, index: usize, k: ZoomKeyframe) -> (
    Result<Seq<ZoomKeyframe>, EditError>,
    ProjectModel,
) {
    if index < p.zooms.len() {
        with_zooms(p, p.zooms.update(index as int, k))
    } else {
        (Err(EditError::NoSuchZoom), p)
    }
}

/// What changing a segment's focus does.
pub open spec fn zoom_focused(p: ProjectModel, index: usize, focus: Option<(i64, i64)>) -> (
    Result<Seq<ZoomKeyframe>, EditError>,
    ProjectModel,
) {
    zoom_replaced(
        p,
        index,
        ZoomKeyframe { mode: focus_mode(focus), ..p.zooms[index as int] },
    )
}

/// What changing a segment's feel does.
pub open spec fn zoom_styled(p: ProjectModel, index: usize, style: ZoomStyle) -> (
    Result<Seq<ZoomKeyframe>, EditError>,
    ProjectModel,
) {
    zoom_replaced(p, index, ZoomKeyframe { style, ..p.zooms[index as int] })
}

/// What deleting a segment does.
pub open spec fn zoom_deleted(p: ProjectModel, index: usize) -> (
    Result<Seq<ZoomKeyframe>, EditError>,
    ProjectModel,
) {
    if index < p.zooms.len() {
        with_zooms(p, p.zooms.remove(index as int))
    } else {
        (Err(EditError::NoSuchZoom), p)
    }
}

/// The settings of automatic planning: a multiplier held between one and a fifth and four,
/// and every click a trigger.
pub open spec fn auto_config(cfg: ZoomConfig, amount: i64) -> ZoomConfig {
    ZoomConfig {
        amount: clamped(amount as int, 1_200_000_000, 4_000_000_000) as i64,
        auto_zoom_on_click: true,
        ..cfg
    }
}

/// What planning zooms anew does: all segments are replaced.
pub open spec fn zooms_planned(p: ProjectModel, amount: i64) -> (
    Result<Seq<ZoomKeyframe>, EditError>,
    ProjectModel,
) {
    let cfg = auto_config(p.zoom_config, amount);
    let d = p.source.duration;
    let z = in_order(manual_plan(p.events, d, cfg) + click_plan(p.events, d, cfg));
    (Ok(z), ProjectModel { zooms: z, zoom_config: cfg, ..p })
}

impl Session {
    /// Insert a zoom segment at time `t` and simulate the camera anew. Returns the updated
    /// list.
    pub fn add_zoom<S: Fn(i64, i64, i64, i64, i64) -> (i64, i64)>(
        &mut self,
        spring: &S,
        t: i64,
    ) -> (r: Result<Vec<ZoomKeyframe>, EditError>)
        requires
            takes_any_step(*spring),
        ensures
            camera_kept(*spring, old(self)@, final(self)@, r is Ok),
            did_list(
                old(self)@,
                final(self)@.with_track(old(self)@.track),
                Seq::empty(),
                r,
                |p: ProjectModel| zoom_added(p, t),
            ),
    {
        match self.begin_discrete() {
            None => Err(EditError::NoRecording),
            Some(p) => {
                let mut p = p;
                let ghost before = p@;
                let d: i64 = p.source.duration;
                let room: i64 = if d < MIN_LEN {
                    0
                } else {
                    d - MIN_LEN
                };
                let start: i64 = clamp_i64(t, 0, room);
                let soonest: i64 = start + MIN_LEN;
                let last: i64 = if soonest > d {
                    soonest
                } else {
                    d
                };
                let want: i128 = start as i128 + DEFAULT_LEN as i128;
                let end: i64 = if want > last as i128 {
                    last
                } else {
                    want as i64
                };
                let amount: i64 = if p.zoom_config.amount > 1_050_000_000 {
                    p.zoom_config.amount
                } else {
                    1_800_000_000
                };
                let kf = ZoomKeyframe {
                    start,
                    end,
                    amount,
                    mode: ZoomMode::Auto,
                    edge_snap_ratio: p.zoom_config.edge_snap_ratio,
                    style: ZoomStyle::default(),
                };
                assert(kf == manual_segment(before, t));
                let r = if insert_sorted(&mut p.zooms, kf).is_some() {
                    let out = p.zooms.clone();
                    assert(out@ =~= p.zooms@);
                    Ok(out)
                } else {
                    Err(EditError::NoRoomForZoom)
                };
                assert(p@ =~= zoom_added(before, t).1);
                self.commit(p);
                if r.is_ok() {
                    self.follow(spring);
                }
                r
            },
        }
    }

    /// Retime or re-level the zoom segment at `index` and simulate the camera anew. Returns the
    /// updated list.
    pub fn update_zoom<S: Fn(i64, i64, i64, i64, i64) -> (i64, i64)>(
        &mut self,
        spring: &S,
        index: usize,
        start: i64,
        end: i64,
        amount: i64,
    ) -> (r: Result<Vec<ZoomKeyframe>, EditError>)
        requires
            takes_any_step(*spring),
        ensures
            camera_kept(*spring, old(self)@, final(self)@, r is Ok),
            did_list(
                old(self)@,
                final(self)@.with_track(old(self)@.track),
                entry_tag("zoom:"@, index),
                r,
                |p: ProjectModel| zoom_changed(p, index, start, end, amount),
            ),
    {
        let tag = tag_for_entry("zoom:", index);
        match self.begin(tag.as_str()) {
            None => Err(EditError::NoRecording),
            Some(p) => {
                let mut p = p;
                let ghost before = p@;
                let d: i64 = p.source.duration;
                let r = if resize(&mut p.zooms, index, start, end, d) {
                    let mut kf = p.zooms[index];
                    kf.amount = clamp_i64(amount, 1_100_000_000, 4_000_000_000);
                    p.zooms.set(index, kf);
                    proof {
                        let k = resized(before.zooms, index as int, start, end, d);
                        assert(p.zooms@ =~= before.zooms.update(
                            index as int,
                            ZoomKeyframe { amount: kf.amount, ..k },
                        ));
                    }
                    sort_by_start(&mut p.zooms);
                    let out = p.zooms.clone();
                    assert(out@ =~= p.zooms@);
                    Ok(out)
                } else {
                    Err(EditError::NoSuchZoom)
                };
                assert(p@ =~= zoom_changed(before, index, start, end, amount).1);
                self.commit(p);
                if r.is_ok() {
                    self.follow(spring);
                }
                r
            },
        }
    }

    /// Set how the zoom segment at `index` picks its focus: a fixed point, or the cursor.
    /// The camera is simulated anew. Returns the updated list.
    pub fn set_zoom_focus<S: Fn(i64, i64, i64, i64, i64) -> (i64, i64)>(
        &mut self,
        spring: &S,
        index: usize,
        focus: Option<(i64, i64)>,
    ) -> (r: Result<Vec<ZoomKeyframe>, EditError>)
        requires
            takes_any_step(*spring),
        ensures
            camera_kept(*spring, old(self)@, final(self)@, r is Ok),
            did_list(
                old(self)@,
                final(self)@.with_track(old(self)@.track),
                entry_tag("focus:"@, index),
                r,
                |p: ProjectModel| zoom_focused(p, index, focus),
            ),
    {
        let tag = tag_for_entry("focus:", index);
        match self.begin(tag.as_str()) {
            None => Err(EditError::NoRecording),
            Some(p) => {
                let mut p = p;
                let ghost before = p@;
                let r = if index < p.zooms.len() {
                    let mut kf = p.zooms[index];
                    kf.mode = match focus {
                        Some((x, y)) => ZoomMode::Manual {
                            pos: Point { x: hold(x), y: hold(y) },
                        },
                        None => ZoomMode::Auto,
                    };
                    p.zooms.set(index, kf);
                    let out = p.zooms.clone();
                    assert(out@ =~= p.zooms@);
                    Ok(out)
                } else {
                    Err(EditError::NoSuchZoom)
                };
                assert(p@ =~= zoom_focused(before, index, focus).1);
                self.commit(p);
                if r.is_ok() {
                    self.follow(spring);
                }
                r
            },
        }
    }

    /// Set the feel of the zoom segment at `index` and simulate the camera anew. Returns the
    /// updated list.
    pub fn set_zoom_style<S: Fn(i64, i64, i64, i64, i64) -> (i64, i64)>(
        &mut self,
        spring: &S,
        index: usize,
        style: ZoomStyle,
    ) -> (r: Result<Vec<ZoomKeyframe>, EditError>)
        requires
            takes_any_step(*spring),
        ensures
            camera_kept(*spring, old(self)@, final(self)@, r is Ok),
            did_list(
                old(self)@,
                final(self)@.with_track(old(self)@.track),
                Seq::empty(),
                r,
                |p: ProjectModel| zoom_styled(p, index, style),
            ),
    {
        match self.begin_discrete() {
            None => Err(EditError::NoRecording),
            Some(p) => {
                let mut p = p;
                let ghost before = p@;
                let r = if index < p.zooms.len() {
                    let mut kf = p.zooms[index];
                    kf.style = style;
                    p.zooms.set(index, kf);
                    let out = p.zooms.clone();
                    assert(out@ =~= p.zooms@);
                    Ok(out)
                } else {
                    Err(EditError::NoSuchZoom)
                };
                assert(p@ =~= zoom_styled(before, index, style).1);
                self.commit(p);
                if r.is_ok() {
                    self.follow(spring);
                }
                r
            },
        }
    }

    /// Delete the zoom segment at `index` and simulate the camera anew. Returns the updated
    /// list.
    pub fn delete_zoom<S: Fn(i64, i64, i64, i64, i64) -> (i64, i64)>(
        &mut self,
        spring: &S,
        index: usize,
    ) -> (r: Result<Vec<ZoomKeyframe>, EditError>)
        requires
            takes_any_step(*spring),
        ensures
            camera_kept(*spring, old(self)@, final(self)@, r is Ok),
            did_list(
                old(self)@,
                final(self)@.with_track(old(self)@.track),
                Seq::empty(),
                r,
                |p: ProjectModel| zoom_deleted(p, index),
            ),
    {
        match self.begin_discrete() {
            None => Err(EditError::NoRecording),
            Some(p) => {
                let mut p = p;
                let ghost before = p@;
                let r = if remove(&mut p.zooms, index).is_some() {
                    let out = p.zooms.clone();
                    assert(out@ =~= p.zooms@);
                    Ok(out)
                } else {
                    Err(EditError::NoSuchZoom)
                };
                assert(p@ =~= zoom_deleted(before, index).1);
                self.commit(p);
                if r.is_ok() {
                    self.follow(spring);
                }
                r
            },
        }
    }

    /// Plan zooms anew from the input log with click-driven zooms, replacing all segments.
    /// The camera is simulated anew. Returns the new list.
    pub fn plan_zoom_auto<S: Fn(i64, i64, i64, i64, i64) -> (i64, i64)>(
        &mut self,
        spring: &S,
        amount: i64,
    ) -> (r: Result<Vec<ZoomKeyframe>, EditError>)
        requires
            takes_any_step(*spring),
        ensures
            camera_kept(*spring, old(self)@, final(self)@, r is Ok),
            did_list(
                old(self)@,
                final(self)@.with_track(old(self)@.track),
                "zoomplan"@,
                r,
                |p: ProjectModel| zooms_planned(p, amount),
            ),
    {
        match self.begin("zoomplan") {
            None => Err(EditError::NoRecording),
            Some(p) => {
                let mut p = p;
                let ghost before = p@;
                let mut cfg = p.zoom_config;
                cfg.amount = clamp_i64(amount, 1_200_000_000, 4_000_000_000);
                cfg.auto_zoom_on_click = true;
                assert(cfg == auto_config(before.zoom_config, amount));
                let zooms = plan_zooms(p.events.as_slice(), p.source.duration, &cfg);
                p.zooms = zooms;
                p.zoom_config = cfg;
                let out = p.zooms.clone();
                assert(out@ =~= p.zooms@);
                assert(p@ =~= zooms_planned(before, amount).1);
                self.commit(p);
                self.follow(spring);
                Ok(out)
            },
        }
    }
}

/// Thousandths of a frame per second, from billionths: rounded down, and at least one frame
/// per second.
pub open spec fn camera_rate(fps: i64) -> int {
    let n = fps as int / 1_000_000;
    if n < 1000 {
        1000
    } else if n > u32::MAX {
        u32::MAX as int
    } else {
        n
    }
}

/// The rate that a camera is simulated at for a source.
pub fn rate_for(fps: i64) -> (mfps: u32)
    ensures
        mfps == camera_rate(fps),
{
    if fps < 1_000_000_000 {
        1000
    } else {
        let n: i64 = fps / 1_000_000;
        if n > u32::MAX as i64 {
            u32::MAX
        } else {
            n as u32
        }
    }
}

/// Whether a track is the camera of a project: at its rate, over its whole length, and
/// following its input log and zoom segments.
pub open spec fn is_camera_of<S: Fn(i64, i64, i64, i64, i64) -> (i64, i64)>(
    spring: S,
    p: ProjectModel,
    track: TrackModel,
) -> bool {
    is_simulation(
        spring,
        p.events,
        p.zooms,
        p.source.duration,
        camera_rate(p.source.fps) as u32,
        p.zoom_config,
        track,
    )
}

/// A project has one camera over a spring that always does the same.
pub proof fn projects_have_one_camera<S: Fn(i64, i64, i64, i64, i64) -> (i64, i64)>(
    spring: S,
    p: ProjectModel,
    a: TrackModel,
    b: TrackModel,
)
    requires
        single_valued(spring),
        is_camera_of(spring, p, a),
        is_camera_of(spring, p, b),
    ensures
        a == b,
{
    simulations_are_sound(
        spring,
        p.events,
        p.zooms,
        p.source.duration,
        camera_rate(p.source.fps) as u32,
        p.zoom_config,
        a,
        b,
    );
}

/// An edit that leaves the source, the input log, the zoom segments and the zoom settings
/// alone leaves the camera right: it is still the camera of the project.
pub proof fn other_edits_leave_the_camera_right<S: Fn(i64, i64, i64, i64, i64) -> (i64, i64)>(
    spring: S,
    p: ProjectModel,
    q: ProjectModel,
    track: TrackModel,
)
    requires
        q.source == p.source,
        q.events == p.events,
        q.zooms == p.zooms,
        q.zoom_config == p.zoom_config,
    ensures
        is_camera_of(spring, q, track) == is_camera_of(spring, p, track),
{
}

/// Undoing an edit brings the camera back to what it was before the edit, and redoing the
/// edit brings it forward again: the camera of the project that comes back is the one that
/// was simulated from it.
pub proof fn undo_restores_the_camera<S: Fn(i64, i64, i64, i64, i64) -> (i64, i64)>(
    spring: S,
    m: SessionModel,
    tag: Seq<char>,
    q: ProjectModel,
    before: TrackModel,
    edited: TrackModel,
    undone: SessionModel,
    redone: SessionModel,
)
    requires
        single_valued(spring),
        m.project is Some,
        !m.coalesces(tag),
        is_camera_of(spring, m.project->Some_0, before),
        is_camera_of(spring, q, edited),
        undone.with_track(None) == m.edited(tag, q).undone().with_track(None),
        camera_follows(spring, undone),
        redone.with_track(None) == undone.redone().with_track(None),
        camera_follows(spring, redone),
    ensures
        undone.project == m.project,
        undone.track == Some(before),
        redone.project == Some(q),
        redone.track == Some(edited),
{
    let stepped = m.edited(tag, q).undone();
    assert(stepped.with_track(None).project == stepped.project);
    assert(undone.with_track(None).project == undone.project);
    assert(stepped.with_track(None).redo == stepped.redo);
    assert(undone.with_track(None).redo == undone.redo);
    assert(undone.redo.last() == q);
    assert(redone.with_track(None).project == undone.redone().with_track(None).project);
    projects_have_one_camera(spring, m.project->Some_0, before, undone.track->Some_0);
    projects_have_one_camera(spring, q, edited, redone.track->Some_0);
}

/// Simulate the camera of a project anew, so that preview and export follow its edited zoom
/// segments.
pub fn resimulate<S: Fn(i64, i64, i64, i64, i64) -> (i64, i64)>(spring: &S, p: &Project) -> (track:
    CameraTrack)
    requires
        takes_any_step(*spring),
    ensures
        is_camera_of(*spring, p@, track.model()),
{
    simulate(
        spring,
        p.events.as_slice(),
        p.zooms.as_slice(),
        p.source.duration,
        rate_for(p.source.fps),
        &p.zoom_config,
    )
}

/// A zoom that is put in by hand begins where it was asked for and lasts two seconds, as far as
/// the clip allows; it follows the cursor, as strongly as is configured, or by eight tenths if
/// that is hardly at all.
pub proof fn manual_zooms_start_where_asked(p: ProjectModel, t: i64)
    requires
        200_000_000 <= p.source.duration <= 4_000_000_000_000_000_000,
    ensures
        ({
            let k = manual_segment(p, t);
            let d = p.source.duration;
            &&& 0 <= t <= d - 200_000_000 ==> k.start == t
            &&& t < 0 ==> k.start == 0
            &&& t > d - 200_000_000 ==> k.end == d && k.end - k.start == 200_000_000
            &&& k.start + 2_000_000_000 <= d ==> k.end == k.start + 2_000_000_000
            &&& k.start + 2_000_000_000 > d ==> k.end == d
            &&& k.mode is Auto
            &&& k.style is Smooth
            &&& k.edge_snap_ratio == p.zoom_config.edge_snap_ratio
            &&& p.zoom_config.amount > 1_050_000_000 ==> k.amount == p.zoom_config.amount
            &&& p.zoom_config.amount <= 1_050_000_000 ==> k.amount == 1_800_000_000
        }),
{
}

/// Editing a zoom touches that one alone: its focus, style or place; what is not named stays,
/// for it, the others and the project.
pub proof fn zooms_are_edited_one_by_one(
    p: ProjectModel,
    index: usize,
    focus: Option<(i64, i64)>,
    style: ZoomStyle,
    j: int,
)
    ensures
        ({
            let i = index as int;
            let focused = zoom_focused(p, index, focus).1;
            let styled = zoom_styled(p, index, style).1;
            let deleted = zoom_deleted(p, index).1;
            &&& index < p.zooms.len() ==> {
                &&& focused == ProjectModel { zooms: focused.zooms, ..p }
                &&& focused.zooms.len() == p.zooms.len()
                &&& focused.zooms[i] == ZoomKeyframe { mode: focused.zooms[i].mode, ..p.zooms[i] }
                &&& focus is None ==> focused.zooms[i].mode is Auto
                &&& focus matches Some(f) ==> focused.zooms[i].mode matches ZoomMode::Manual { pos }
                    && (0 <= f.0 <= 1_000_000_000 ==> pos.x == f.0) && (0 <= f.1 <= 1_000_000_000
                    ==> pos.y == f.1) && 0 <= pos.x <= 1_000_000_000 && 0 <= pos.y <= 1_000_000_000
                &&& styled == ProjectModel { zooms: styled.zooms, ..p }
                &&& styled.zooms.len() == p.zooms.len()
                &&& styled.zooms[i] == ZoomKeyframe { style, ..p.zooms[i] }
                &&& 0 <= j < p.zooms.len() && j != i ==> focused.zooms[j] == p.zooms[j]
                    && styled.zooms[j] == p.zooms[j]
                &&& deleted == ProjectModel { zooms: p.zooms.remove(i), ..p }
            }
            &&& index >= p.zooms.len() ==> focused == p && styled == p && deleted == p
        }),
{
}

/// Changing a zoom resizes it and sets its strength, within a tenth and three times more than
/// none, and keeps the others, in order of time.
pub proof fn zooms_are_changed_as_asked(
    p: ProjectModel,
    index: usize,
    start: i64,
    end: i64,
    amount: i64,
)
    requires
        index < p.zooms.len(),
        p.source.duration >= 200_000_000,
    ensures
        ({
            let q = zoom_changed(p, index, start, end, amount).1;
            let k = ZoomKeyframe {
                amount: if amount < 1_100_000_000 {
                    1_100_000_000
                } else if amount > 4_000_000_000 {
                    4_000_000_000
                } else {
                    amount
                },
                ..resized(p.zooms, index as int, start, end, p.source.duration)
            };
            &&& q == ProjectModel { zooms: q.zooms, ..p }
            &&& sorted(q.zooms)
            &&& q.zooms.to_multiset() == p.zooms.update(index as int, k).to_multiset()
        }),
{
    let k = ZoomKeyframe {
        amount: clamped(amount as int, 1_100_000_000, 4_000_000_000) as i64,
        ..resized(p.zooms, index as int, start, end, p.source.duration)
    };
    sorting_sorts(p.zooms.update(index as int, k));
}

/// Planning zooms turns click-to-zoom on at a strength between two tenths and three times more
/// than none, replaces the zooms, and keeps the rest of the project and of its tunables.
pub proof fn planning_replaces_the_zooms(p: ProjectModel, amount: i64)
    ensures
        ({
            let q = zooms_planned(p, amount).1;
            let c = q.zoom_config;
            &&& q == ProjectModel { zooms: q.zooms, zoom_config: c, ..p }
            &&& c == ZoomConfig { amount: c.amount, auto_zoom_on_click: true, ..p.zoom_config }
            &&& 1_200_000_000 <= amount <= 4_000_000_000 ==> c.amount == amount
            &&& amount < 1_200_000_000 ==> c.amount == 1_200_000_000
            &&& amount > 4_000_000_000 ==> c.amount == 4_000_000_000
            &&& sorted(q.zooms)
            &&& q.zooms.to_multiset() == (manual_plan(p.events, p.source.duration, c) + click_plan(
                p.events,
                p.source.duration,
                c,
            )).to_multiset()
        }),
{
    let c = auto_config(p.zoom_config, amount);
    sorting_sorts(
        manual_plan(p.events, p.source.duration, c) + click_plan(p.events, p.source.duration, c),
    );
}

/// The camera runs at the recording's rate, in thousandths of a frame, and at one frame per
/// second at least.
pub proof fn cameras_run_at_the_recorded_rate(fps: i64)
    requires
        1_000_000_000 <= fps <= 4_000_000_000_000_000,
    ensures
        camera_rate(fps) * 1_000_000 <= fps < (camera_rate(fps) + 1) * 1_000_000,
{
}

} // verus!
