//! From a finished recording to an editable project.

use crate::capture::CropRegion;
use crate::desktop::chord::ChordMark;
use crate::input::clock::{nanos_between, ticks_to_nanos};
use crate::input::event::RawEvent;
use crate::input::normalize::{
    fraction, fraction_along, marks_of, normalize, position, positions_are_shares_of_the_region,
    zoom_event, zoom_marks, CaptureRegion,
};
use crate::project::model::{Project, SourceInfo, SCHEMA};
use crate::project::frame::unframed;
use crate::project::timeline::Trim;
use crate::session::space::{dropped_frames_warning, dropped_text, is_shortfall};
use crate::session::state::{camera_follows, Session, SessionModel};
use crate::session::take::{chars, NotRecording, Pause, Take, TakeModel};
use crate::session::taps::{extract_key_taps, taps_of, taps_view};
use crate::sort::{in_order, sort_by_time, sorting_keeps_the_items, sorting_sorts, Timed};
use crate::store::frames::FrameRec;
use crate::text::{decimal, push_decimal};
use crate::units::{
    clamp_i64, clamped, greater, how_many, lemma_how_many, lesser, saturate, saturated, BILLION,
};
use crate::zoom::camera::takes_any_step;
use crate::zoom::config::{default_config, ZoomConfig};
use crate::zoom::event::{InputEvent, Point};
use crate::zoom::planner::{manual_plan, plan_zooms};
use vstd::prelude::*;

verus! {

/// Whether a captured area has 32-bit desktop coordinates.
pub open spec fn fits_desktop(
    origin: (i32, i32),
    region: Option<CropRegion>,
    full_w: u32,
    full_h: u32,
) -> bool {
    match region {
        Some(r) => {
            &&& r.x <= i32::MAX && origin.0 + r.x <= i32::MAX
            &&& r.y <= i32::MAX && origin.1 + r.y <= i32::MAX
            &&& r.w <= i32::MAX && r.h <= i32::MAX
        },
        None => full_w <= i32::MAX && full_h <= i32::MAX,
    }
}

/// Whether a captured area has 32-bit desktop coordinates.
pub fn desktop_fits(
    origin: (i32, i32),
    region: Option<CropRegion>,
    full_w: u32,
    full_h: u32,
) -> (r: bool)
    ensures
        r == fits_desktop(origin, region, full_w, full_h),
{
    match region {
        Some(r) => r.x <= i32::MAX as u32 && origin.0 as i64 + r.x as i64 <= i32::MAX as i64 && r.y
            <= i32::MAX as u32 && origin.1 as i64 + r.y as i64 <= i32::MAX as i64 && r.w
            <= i32::MAX as u32 && r.h <= i32::MAX as u32,
        None => full_w <= i32::MAX as u32 && full_h <= i32::MAX as u32,
    }
}

/// The captured area on the virtual desktop.
pub open spec fn composed(
    origin: (i32, i32),
    region: Option<CropRegion>,
    full_w: u32,
    full_h: u32,
) -> CaptureRegion {
    match region {
        Some(r) => CaptureRegion {
            x: (origin.0 + r.x) as i32,
            y: (origin.1 + r.y) as i32,
            w: r.w as i32,
            h: r.h as i32,
        },
        None => CaptureRegion { x: origin.0, y: origin.1, w: full_w as i32, h: full_h as i32 },
    }
}

/// Place the captured area on the virtual desktop: the monitor-relative crop is offset by the
/// monitor's origin, so cursor events map into the same space. Without a crop it is the full
/// monitor at its origin.
pub fn compose_capture_region(
    mon_origin: (i32, i32),
    region: Option<CropRegion>,
    full_w: u32,
    full_h: u32,
) -> (c: CaptureRegion)
    requires
        fits_desktop(mon_origin, region, full_w, full_h),
    ensures
        c == composed(mon_origin, region, full_w, full_h),
{
    let (mx, my) = mon_origin;
    match region {
        Some(r) => CaptureRegion {
            x: mx + r.x as i32,
            y: my + r.y as i32,
            w: r.w as i32,
            h: r.h as i32,
        },
        None => CaptureRegion { x: mx, y: my, w: full_w as i32, h: full_h as i32 },
    }
}

/// Polled chord presses this close to a detected mark are the same press.
pub const SAME_PRESS: i64 = 300_000_000;

/// Whether a time is close to one of some marks.
pub open spec fn near_a_mark(times: Seq<i64>, t: i64) -> bool {
    exists|k: int|
        0 <= k < times.len() && -SAME_PRESS < #[trigger] times[k] - t && times[k] - t < SAME_PRESS
}

/// The zoom mark of a polled chord press, if it is inside the clip and no mark was detected
/// for it already. The position is moved inside the captured area.
pub open spec fn poll_mark(
    m: ChordMark,
    times: Seq<i64>,
    region: CaptureRegion,
    freq: i64,
    start_qpc: i64,
    duration: i64,
) -> Option<InputEvent> {
    let t = ticks_to_nanos(m.qpc - start_qpc, freq);
    if t < 0 || t > duration || near_a_mark(times, t) {
        None
    } else {
        Some(
            InputEvent::ZoomMark {
                t,
                pos: Point {
                    x: clamped(
                        fraction(m.x as int, region.x as int, region.w as int),
                        0,
                        BILLION as int,
                    ) as i64,
                    y: clamped(
                        fraction(m.y as int, region.y as int, region.h as int),
                        0,
                        BILLION as int,
                    ) as i64,
                },
            },
        )
    }
}

/// The zoom marks of the first `n` polled chord presses.
pub open spec fn poll_marks(
    marks: Seq<ChordMark>,
    n: int,
    times: Seq<i64>,
    region: CaptureRegion,
    freq: i64,
    start_qpc: i64,
    duration: i64,
) -> Seq<InputEvent>
    decreases n,
{
    if n <= 0 {
        Seq::empty()
    } else {
        let before = poll_marks(marks, n - 1, times, region, freq, start_qpc, duration);
        match poll_mark(marks[n - 1], times, region, freq, start_qpc, duration) {
            Some(e) => before.push(e),
            None => before,
        }
    }
}

fn is_near(times: &[i64], t: i64) -> (r: bool)
    ensures
        r == near_a_mark(times@, t),
{
    let mut k: usize = 0;
    while k < times.len()
        invariant
            k <= times@.len(),
            forall|j: int|
                0 <= j < k ==> !(-SAME_PRESS < #[trigger] times@[j] - t && times@[j] - t
                    < SAME_PRESS),
        decreases times@.len() - k,
    {
        let d: i128 = times[k] as i128 - t as i128;
        if -(SAME_PRESS as i128) < d && d < SAME_PRESS as i128 {
            assert(-SAME_PRESS < times@[k as int] - t);
            return true;
        }
        k += 1;
    }
    false
}

/// Turn polled chord presses into zoom marks next to the detected ones: a press outside the
/// clip is dropped, and one close to a detected mark is a duplicate (the detected mark wins).
pub fn merge_poll_chord_marks(
    marks: &[ChordMark],
    hook_mark_times: &[i64],
    region: &CaptureRegion,
    freq: i64,
    start_qpc: i64,
    duration: i64,
) -> (out: Vec<InputEvent>)
    ensures
        out@ == poll_marks(
            marks@,
            marks@.len() as int,
            hook_mark_times@,
            *region,
            freq,
            start_qpc,
            duration,
        ),
{
    let mut out: Vec<InputEvent> = Vec::new();
    let mut i: usize = 0;
    while i < marks.len()
        invariant
            i <= marks@.len(),
            out@ == poll_marks(
                marks@,
                i as int,
                hook_mark_times@,
                *region,
                freq,
                start_qpc,
                duration,
            ),
        decreases marks@.len() - i,
    {
        let m = marks[i];
        let t: i64 = nanos_between(start_qpc, m.qpc, freq);
        if t >= 0 && t <= duration && !is_near(hook_mark_times, t) {
            let x: i64 = fraction_along(m.x as i64, region.x, region.w);
            let y: i64 = fraction_along(m.y as i64, region.y, region.h);
            out.push(
                InputEvent::ZoomMark {
                    t,
                    pos: Point { x: clamp_i64(x, 0, BILLION), y: clamp_i64(y, 0, BILLION) },
                },
            );
        }
        i += 1;
    }
    out
}

/// The shortest pause that becomes a cut.
pub const MIN_PAUSE: i64 = 50_000_000;

/// The cut of a paused span: held to the clip (an open span runs to its end), unless it is a
/// slip of the finger.
pub open spec fn pause_cut(p: Pause, freq: i64, start_qpc: i64, duration: i64) -> Option<Trim> {
    let start = greater(ticks_to_nanos(p.start - start_qpc, freq) as int, 0);
    let end = match p.end {
        Some(e) => lesser(ticks_to_nanos(e - start_qpc, freq) as int, duration as int),
        None => duration as int,
    };
    if end - start > MIN_PAUSE {
        Some(Trim { start: start as i64, end: end as i64 })
    } else {
        None
    }
}

/// The cuts of the first `n` paused spans.
pub open spec fn pause_cuts(
    pauses: Seq<Pause>,
    n: int,
    freq: i64,
    start_qpc: i64,
    duration: i64,
) -> Seq<Trim>
    decreases n,
{
    if n <= 0 {
        Seq::empty()
    } else {
        let before = pause_cuts(pauses, n - 1, freq, start_qpc, duration);
        match pause_cut(pauses[n - 1], freq, start_qpc, duration) {
            Some(c) => before.push(c),
            None => before,
        }
    }
}

/// Convert paused spans into cuts in timeline order.
pub fn pauses_to_cuts(pauses: &[Pause], freq: i64, start_qpc: i64, duration: i64) -> (cuts: Vec<Trim>)
    ensures
        cuts@ == in_order(pause_cuts(pauses@, pauses@.len() as int, freq, start_qpc, duration)),
{
    let mut cuts: Vec<Trim> = Vec::new();
    let mut i: usize = 0;
    while i < pauses.len()
        invariant
            i <= pauses@.len(),
            cuts@ == pause_cuts(pauses@, i as int, freq, start_qpc, duration),
        decreases pauses@.len() - i,
    {
        let p = pauses[i];
        let at: i64 = nanos_between(start_qpc, p.start, freq);
        let start: i64 = if at < 0 {
            0
        } else {
            at
        };
        let end: i64 = match p.end {
            Some(e) => {
                let t: i64 = nanos_between(start_qpc, e, freq);
                if duration < t {
                    duration
                } else {
                    t
                }
            },
            None => duration,
        };
        if end as i128 - start as i128 > MIN_PAUSE as i128 {
            cuts.push(Trim { start, end });
        }
        i += 1;
    }
    sort_by_time(&mut cuts);
    cuts
}

/// Every cut made of a pause lies in the clip and is no slip of the finger.
pub proof fn pause_cuts_lie_in_the_clip(p: Pause, freq: i64, start_qpc: i64, duration: i64)
    requires
        pause_cut(p, freq, start_qpc, duration) is Some,
    ensures
        ({
            let c = pause_cut(p, freq, start_qpc, duration).unwrap();
            0 <= c.start && c.start + MIN_PAUSE < c.end && c.end <= duration
        }),
{
}

/// The events that raw events stand for.
pub open spec fn normalized(
    raw: Seq<RawEvent>,
    n: int,
    region: CaptureRegion,
    start_qpc: i64,
    freq: i64,
) -> Seq<InputEvent>
    decreases n,
{
    if n <= 0 {
        Seq::empty()
    } else {
        let before = normalized(raw, n - 1, region, start_qpc, freq);
        match zoom_event(raw[n - 1], region, start_qpc, freq) {
            Some(e) => before.push(e),
            None => before,
        }
    }
}

fn normalize_all(raw: &[RawEvent], region: &CaptureRegion, start_qpc: i64, freq: i64) -> (out: Vec<
    InputEvent,
>)
    ensures
        out@ == normalized(raw@, raw@.len() as int, *region, start_qpc, freq),
{
    let mut out: Vec<InputEvent> = Vec::new();
    let mut i: usize = 0;
    while i < raw.len()
        invariant
            i <= raw@.len(),
            out@ == normalized(raw@, i as int, *region, start_qpc, freq),
        decreases raw@.len() - i,
    {
        if let Some(e) = normalize(&raw[i], region, start_qpc, freq) {
            out.push(e);
        }
        i += 1;
    }
    out
}

/// The times of the zoom marks among the first `n` events.
pub open spec fn mark_times(events: Seq<InputEvent>, n: int) -> Seq<i64>
    decreases n,
{
    if n <= 0 {
        Seq::empty()
    } else if events[n - 1] is ZoomMark {
        mark_times(events, n - 1).push(events[n - 1].time())
    } else {
        mark_times(events, n - 1)
    }
}

fn times_of_marks(events: &Vec<InputEvent>) -> (out: Vec<i64>)
    ensures
        out@ == mark_times(events@, events@.len() as int),
{
    let mut out: Vec<i64> = Vec::new();
    let mut i: usize = 0;
    while i < events.len()
        invariant
            i <= events@.len(),
            out@ == mark_times(events@, i as int),
        decreases events@.len() - i,
    {
        if events[i].is_zoom_mark() {
            out.push(events[i].t());
        }
        i += 1;
    }
    out
}

/// The input log of a clip: the normalized events, the hotkey's marks and the polled marks
/// that were not detected otherwise, in the order of their times.
pub open spec fn input_log(
    raw: Seq<RawEvent>,
    polled: Seq<ChordMark>,
    region: CaptureRegion,
    start_qpc: i64,
    freq: i64,
    duration: i64,
) -> Seq<InputEvent> {
    let seen = normalized(raw, raw.len() as int, region, start_qpc, freq) + marks_of(
        raw,
        raw.len() as int,
        region,
        start_qpc,
        freq,
    );
    in_order(
        seen + poll_marks(
            polled,
            polled.len() as int,
            mark_times(seen, seen.len() as int),
            region,
            freq,
            start_qpc,
            duration,
        ),
    )
}

/// Collect the input log of a clip.
pub fn collect_input(
    raw: &[RawEvent],
    polled: &[ChordMark],
    region: &CaptureRegion,
    start_qpc: i64,
    freq: i64,
    duration: i64,
) -> (events: Vec<InputEvent>)
    ensures
        events@ == input_log(raw@, polled@, *region, start_qpc, freq, duration),
{
    let mut events = normalize_all(raw, region, start_qpc, freq);
    let mut marks = zoom_marks(raw, region, start_qpc, freq);
    events.append(&mut marks);
    let times = times_of_marks(&events);
    let mut more = merge_poll_chord_marks(
        polled,
        times.as_slice(),
        region,
        freq,
        start_qpc,
        duration,
    );
    events.append(&mut more);
    sort_by_time(&mut events);
    events
}

/// Frames per second (in billionths) of so many frames over a duration; a usual rate where
/// there is no duration.
pub open spec fn rate_of(frames: int, duration: i64) -> i64 {
    if duration > 0 {
        saturated(frames * 1_000_000_000_000_000_000 / duration as int)
    } else {
        60_000_000_000
    }
}

fn frame_rate(frames: usize, duration: i64) -> (fps: i64)
    ensures
        fps == rate_of(frames as int, duration),
{
    if duration > 0 {
        let n: i128 = frames as i128 * 1_000_000_000_000_000_000;
        saturate(n / duration as i128)
    } else {
        60_000_000_000
    }
}

/// The duration implied by stored frames: from the first to the last.
pub open spec fn stored_duration(recs: Seq<FrameRec>, freq: i64) -> i64 {
    if recs.len() == 0 {
        0
    } else {
        ticks_to_nanos(recs.last().qpc - recs[0].qpc, freq)
    }
}

/// The duration implied by stored frames.
pub fn store_duration(recs: &[FrameRec], freq: i64) -> (d: i64)
    ensures
        d == stored_duration(recs@, freq),
{
    if recs.len() == 0 {
        0
    } else {
        nanos_between(recs[0].qpc, recs[recs.len() - 1].qpc, freq)
    }
}

/// A recording that produced no frames.
#[derive(Debug, Clone, Copy, PartialEq, Eq, Structural)]
pub struct NoFramesCaptured;

impl NoFramesCaptured {
    /// The text shown to the user.
    pub fn message(&self) -> (s: String)
        ensures
            s@ == "No frames were captured, screen capture failed to start."@,
    {
        "No frames were captured, screen capture failed to start.".to_owned()
    }
}

/// The zoom settings of a recording made with a zoom multiplier.
pub open spec fn recorded_config(zoom: i64) -> ZoomConfig {
    ZoomConfig { amount: zoom, ..default_config() }
}

/// Whether a project is what a recording makes.
pub open spec fn is_recorded(
    p: Project,
    take: TakeModel,
    recs: Seq<FrameRec>,
    raw: Seq<RawEvent>,
    polled: Seq<ChordMark>,
    freq: i64,
    zoom: i64,
) -> bool {
    let duration = ticks_to_nanos(recs.last().qpc - take.start_qpc, freq);
    let region = composed(take.origin, take.region, recs[0].w, recs[0].h);
    let log = input_log(raw, polled, region, take.start_qpc, freq, duration);
    &&& p.schema == SCHEMA
    &&& p.source.path@.len() == 0
    &&& p.source.width == recs[0].w
    &&& p.source.height == recs[0].h
    &&& p.source.fps == rate_of(recs.len() as int, duration)
    &&& p.source.duration == duration
    &&& p.zoom_config == recorded_config(zoom)
    &&& p.events@ == log
    &&& p.zooms@ == in_order(manual_plan(log, duration, recorded_config(zoom)))
    &&& taps_view(p.key_taps@) == taps_of(raw, raw.len() as int, freq, take.start_qpc, duration)
    &&& p.cuts@ == in_order(
        pause_cuts(take.pauses, take.pauses.len() as int, freq, take.start_qpc, duration),
    )
    &&& p.texts@.len() == 0 && p.arrows@.len() == 0 && p.highlights@.len() == 0
    &&& p.trim is None
    &&& p.speed_regions@.len() == 0
    &&& !p.show_clicks && !p.show_keys
    &&& p.crop is None
    &&& p.frame == unframed()
    &&& p.aspect is Original
}

/// Build the editable project of a finished recording from its frame records, the raw input
/// log and the polled chord presses.
pub fn build_project(
    take: &Take,
    recs: &[FrameRec],
    raw: &[RawEvent],
    polled: &[ChordMark],
    freq: i64,
    zoom: i64,
) -> (r: Result<Project, NoFramesCaptured>)
    requires
        recs@.len() > 0 ==> fits_desktop(take@.origin, take@.region, recs@[0].w, recs@[0].h),
    ensures
        match r {
            Err(_) => recs@.len() == 0,
            Ok(p) => recs@.len() > 0 && is_recorded(p, take@, recs@, raw@, polled@, freq, zoom),
        },
{
    if recs.len() == 0 {
        return Err(NoFramesCaptured);
    }
    let first = recs[0];
    let last = recs[recs.len() - 1];
    let duration: i64 = nanos_between(take.start_qpc, last.qpc, freq);
    let region = compose_capture_region(take.origin, take.region, first.w, first.h);
    let events = collect_input(raw, polled, &region, take.start_qpc, freq, duration);
    let mut cfg = ZoomConfig::default();
    cfg.amount = zoom;
    let zooms = plan_zooms(events.as_slice(), duration, &cfg);
    let mut project = Project::new(
        SourceInfo {
            path: String::new(),
            width: first.w,
            height: first.h,
            fps: frame_rate(recs.len(), duration),
            duration,
        },
    );
    project.zoom_config = cfg;
    project.zooms = zooms;
    project.events = events;
    project.key_taps = extract_key_taps(raw, freq, take.start_qpc, duration);
    project.cuts = pauses_to_cuts(take.pauses.as_slice(), freq, take.start_qpc, duration);
    Ok(project)
}

/// The text of a recording that was cut short.
pub open spec fn cut_short_text(why: Seq<char>, kept: usize) -> Seq<char> {
    "Recording was cut short to protect your disk, "@ + why + ". Kept the "@ + decimal(kept as nat)
        + " frames captured before that."@
}

/// The text of a capture that ended on its own.
pub open spec fn ended_text() -> Seq<char> {
    "Capture ended unexpectedly (monitor disconnected?). Kept the frames recorded up to that point."@
}

/// The warning of a finished recording, the most specific cause first: writing stopped, then
/// capture ended on its own, then frames were dropped, then the disk was low at the start.
pub open spec fn stop_text(
    write: Option<Seq<char>>,
    ended_early: bool,
    dropped: u64,
    kept: usize,
    space: Option<Seq<char>>,
) -> Option<Seq<char>> {
    match write {
        Some(why) => Some(cut_short_text(why, kept)),
        None => if ended_early {
            Some(ended_text())
        } else if is_shortfall(dropped, kept) {
            Some(dropped_text(dropped, kept))
        } else {
            space
        },
    }
}

/// The warning of a finished recording, if anything went wrong.
pub fn stop_warning(
    write: Option<String>,
    ended_early: bool,
    dropped: u64,
    kept: usize,
    space: Option<String>,
) -> (w: Option<String>)
    requires
        dropped + kept <= u64::MAX,
    ensures
        chars(w) == stop_text(chars(write), ended_early, dropped, kept, chars(space)),
{
    match write {
        Some(why) => {
            let mut s = "Recording was cut short to protect your disk, ".to_owned();
            s.push_str(why.as_str());
            s.push_str(". Kept the ");
            push_decimal(&mut s, kept as u128);
            s.push_str(" frames captured before that.");
            Some(s)
        },
        None => {
            if ended_early {
                return Some(
                    "Capture ended unexpectedly (monitor disconnected?). Kept the frames recorded up to that point.".to_owned(),
                );
            }
            match dropped_frames_warning(dropped, kept) {
                Some(s) => Some(s),
                None => space,
            }
        },
    }
}

/// Summary shown when a recording stops or a clip is opened.
#[derive(Debug)]
pub struct RecordingSummary {
    /// Nanoseconds.
    pub duration: i64,
    pub frames: usize,
    pub zooms: usize,
    /// Set where something went wrong that left the clip usable.
    pub warning: Option<String>,
}

/// Summarize a clip.
pub fn summarize(project: &Project, frames: usize, warning: Option<String>) -> (s: RecordingSummary)
    ensures
        s.duration == project.source.duration,
        s.frames == frames,
        s.zooms == project.zooms@.len(),
        s.warning == warning,
{
    RecordingSummary {
        duration: project.source.duration,
        frames,
        zooms: project.zooms.len(),
        warning,
    }
}

/// Why a recording could not be turned into a clip.
#[derive(Debug, Clone, Copy, PartialEq, Eq, Structural)]
pub enum StopError {
    NotRecording,
    NoFrames,
}

impl StopError {
    /// The text shown to the user.
    pub fn message(&self) -> (s: String)
        ensures
            s@ == (match *self {
                StopError::NotRecording => "not recording"@,
                StopError::NoFrames => "No frames were captured, screen capture failed to start."@,
            }),
    {
        match self {
            StopError::NotRecording => NotRecording.message(),
            StopError::NoFrames => NoFramesCaptured.message(),
        }
    }
}

/// What was left of a recording when capture stopped.
#[derive(Debug)]
pub struct Captured<'a> {
    /// The records of the stored frames.
    pub recs: &'a [FrameRec],
    pub raw: &'a [RawEvent],
    pub polled: &'a [ChordMark],
    /// Why writing stopped before the end, if it did.
    pub write_err: Option<String>,
    /// Whether capture ended on its own.
    pub ended_early: bool,
    /// Frames that capture had to drop.
    pub dropped: u64,
}

impl Session {
    /// End the recording under way and load the clip it makes, with a fresh history and its
    /// camera. The recording is over even where it left no frames.
    pub fn stop_recording<S: Fn(i64, i64, i64, i64, i64) -> (i64, i64)>(
        &mut self,
        spring: &S,
        c: Captured<'_>,
        freq: i64,
    ) -> (r: Result<RecordingSummary, StopError>)
        requires
            takes_any_step(*spring),
            match old(self)@.take {
                Some(t) => c.recs@.len() > 0 ==> fits_desktop(
                    t.origin,
                    t.region,
                    c.recs@[0].w,
                    c.recs@[0].h,
                ),
                None => true,
            },
            c.dropped + c.recs@.len() <= u64::MAX,
        ensures
            match old(self)@.take {
                None => {
                    &&& r == Err::<RecordingSummary, StopError>(StopError::NotRecording)
                    &&& final(self)@ == old(self)@
                },
                Some(t) => {
                    let over = SessionModel { take: None, ..old(self)@ };
                    if c.recs@.len() == 0 {
                        &&& r == Err::<RecordingSummary, StopError>(StopError::NoFrames)
                        &&& final(self)@ == over
                    } else {
                        &&& exists|p: Project|
                            {
                                &&& #[trigger] is_recorded(
                                    p,
                                    t,
                                    c.recs@,
                                    c.raw@,
                                    c.polled@,
                                    freq,
                                    old(self)@.pending.zoom,
                                )
                                &&& final(self)@.with_track(None) == over.loaded(Some(p@))
                                &&& camera_follows(*spring, final(self)@)
                                &&& r matches Ok(s) && s.duration == p.source.duration
                                    && s.zooms == p.zooms@.len()
                            }
                        &&& r matches Ok(s) && {
                            &&& s.frames == c.recs@.len()
                            &&& chars(s.warning) == stop_text(
                                chars(c.write_err),
                                c.ended_early,
                                c.dropped,
                                c.recs@.len() as usize,
                                t.space_warning,
                            )
                        }
                    }
                },
            },
    {
        let zoom: i64 = self.pending().zoom;
        let take = match self.replace_take(None) {
            Some(t) => t,
            None => {
                return Err(StopError::NotRecording);
            },
        };
        let project = match build_project(&take, c.recs, c.raw, c.polled, freq, zoom) {
            Ok(p) => p,
            Err(_) => {
                return Err(StopError::NoFrames);
            },
        };
        let warning = stop_warning(
            c.write_err,
            c.ended_early,
            c.dropped,
            c.recs.len(),
            take.space_warning,
        );
        let summary = summarize(&project, c.recs.len(), warning);
        let ghost made = project;
        self.load(spring, project);
        assert(is_recorded(
            made,
            old(self)@.take.unwrap(),
            c.recs@,
            c.raw@,
            c.polled@,
            freq,
            zoom,
        ));
        Ok(summary)
    }
}

/// A clip that a hard crash left with only a placeholder manifest.
pub open spec fn is_placeholder(s: SourceInfo) -> bool {
    s.duration <= 0 || s.width == 0
}

/// The source of a recovered clip: as its manifest says, or rebuilt from the frames that
/// survived where the manifest is a placeholder.
pub open spec fn recovered_source(s: SourceInfo, recs: Seq<FrameRec>, freq: i64) -> SourceInfo {
    if is_placeholder(s) {
        let duration = stored_duration(recs, freq);
        SourceInfo {
            width: recs[0].w,
            height: recs[0].h,
            duration,
            fps: rate_of(recs.len() as int, duration),
            ..s
        }
    } else {
        s
    }
}

/// Rebuild the source metadata of a recovered clip where its manifest is a placeholder. The
/// first frame's counter value is the epoch of its timeline. `None` if no frame survived.
pub fn recover_source(project: &mut Project, recs: &[FrameRec], freq: i64) -> (epoch: Option<i64>)
    ensures
        match epoch {
            None => recs@.len() == 0 && *final(project) == *old(project),
            Some(q) => {
                &&& recs@.len() > 0
                &&& q == recs@[0].qpc
                &&& *final(project) == (Project {
                    source: recovered_source(old(project).source, recs@, freq),
                    ..*old(project)
                })
            },
        },
{
    if recs.len() == 0 {
        return None;
    }
    let first = recs[0];
    if project.source.duration <= 0 || project.source.width == 0 {
        let duration: i64 = store_duration(recs, freq);
        project.source.width = first.w;
        project.source.height = first.h;
        project.source.duration = duration;
        project.source.fps = frame_rate(recs.len(), duration);
    }
    Some(first.qpc)
}

/// The duration shown for a clip that can be recovered: that of its manifest, or the one its
/// frames imply; `None` if it has no frames.
pub fn recoverable_duration(manifest: i64, recs: &[FrameRec], freq: i64) -> (d: Option<i64>)
    ensures
        d == (if recs@.len() == 0 {
            None::<i64>
        } else if manifest > 0 {
            Some(manifest)
        } else {
            Some(stored_duration(recs@, freq))
        }),
{
    if recs.len() == 0 {
        None
    } else if manifest > 0 {
        Some(manifest)
    } else {
        Some(store_duration(recs, freq))
    }
}

/// The captured area is the chosen region, counted from the monitor's corner, or the whole
/// monitor.
pub proof fn captured_areas_start_at_their_corner(
    origin: (i32, i32),
    region: Option<CropRegion>,
    full_w: u32,
    full_h: u32,
)
    requires
        fits_desktop(origin, region, full_w, full_h),
    ensures
        ({
            let c = composed(origin, region, full_w, full_h);
            &&& region matches Some(r) ==> c.x - origin.0 == r.x && c.y - origin.1 == r.y && c.w
                == r.w && c.h == r.h
            &&& region is None ==> c.x == origin.0 && c.y == origin.1 && c.w == full_w && c.h
                == full_h
        }),
{
}

/// A polled mark in the clip is kept, at its time and its share of the region, unless a mark is
/// known less than three tenths of a second before or after it.
pub proof fn polled_marks_fill_gaps(
    m: ChordMark,
    times: Seq<i64>,
    region: CaptureRegion,
    freq: i64,
    start_qpc: i64,
    duration: i64,
    k: int,
)
    requires
        region.w >= 1,
        region.h >= 1,
    ensures
        ({
            let t = ticks_to_nanos(m.qpc - start_qpc, freq);
            let e = poll_mark(m, times, region, freq, start_qpc, duration);
            let p = position(region, m.x as int, m.y as int);
            &&& t < 0 || t > duration ==> e is None
            &&& 0 <= k < times.len() && -300_000_000 < times[k] - t < 300_000_000 ==> e is None
            &&& 0 <= t <= duration && (forall|j: int|
                0 <= j < times.len() ==> (#[trigger] times[j] - t >= 300_000_000 || t - times[j]
                    >= 300_000_000)) ==> e is Some
            &&& e matches Some(z) ==> z is ZoomMark && z.time() == t
            &&& e is Some ==> (e->Some_0.place() matches Some(q) && (0 <= p.x <= BILLION ==> q.x
                == p.x) && (0 <= p.y <= BILLION ==> q.y == p.y) && 0 <= q.x <= BILLION && 0 <= q.y
                <= BILLION)
        }),
{
    positions_are_shares_of_the_region(region, m.x as int, m.y as int);
}

/// A pause of more than a twentieth of a second is cut, from where it began to where it ended
/// or the clip did.
pub proof fn pauses_are_cut(p: Pause, freq: i64, start_qpc: i64, duration: i64)
    ensures
        ({
            let s = ticks_to_nanos(p.start - start_qpc, freq);
            let c = pause_cut(p, freq, start_qpc, duration);
            let e = match p.end {
                Some(q) => ticks_to_nanos(q - start_qpc, freq),
                None => duration,
            };
            &&& 0 <= s && e <= duration && e - s > 50_000_000 ==> c == Some(
                Trim { start: s, end: e },
            )
            &&& 0 <= s && e <= duration && e - s <= 50_000_000 ==> c is None
            &&& s < 0 && c is Some ==> c->Some_0.start == 0
            &&& e > duration && c is Some ==> c->Some_0.end == duration
        }),
{
}

/// The events of the first `n` raw events, in order.
proof fn lemma_normalized(
    raw: Seq<RawEvent>,
    n: int,
    region: CaptureRegion,
    start_qpc: i64,
    freq: i64,
    i: int,
)
    requires
        0 <= i < n <= raw.len(),
    ensures
        ({
            let counts = |j: int| zoom_event(raw[j], region, start_qpc, freq) is Some;
            let out = normalized(raw, n, region, start_qpc, freq);
            &&& out.len() == how_many(counts, n)
            &&& counts(i) ==> 0 <= how_many(counts, i) < out.len() && Some(
                out[how_many(counts, i)],
            ) == zoom_event(raw[i], region, start_qpc, freq)
        }),
    decreases n,
{
    let counts = |j: int| zoom_event(raw[j], region, start_qpc, freq) is Some;
    lemma_how_many(counts, i, n);
    if i < n - 1 {
        lemma_normalized(raw, n - 1, region, start_qpc, freq, i);
        lemma_how_many(counts, i, n - 1);
    } else if n > 1 {
        lemma_normalized(raw, n - 1, region, start_qpc, freq, 0);
    } else {
        assert(normalized(raw, 0, region, start_qpc, freq).len() == 0);
        assert(how_many(counts, 0) == 0);
    }
}

/// The input log holds every raw event that counts as one of its kind, and every mark of the
/// hotkey, in the order of their times.
pub proof fn the_log_holds_every_event(
    raw: Seq<RawEvent>,
    polled: Seq<ChordMark>,
    region: CaptureRegion,
    start_qpc: i64,
    freq: i64,
    duration: i64,
    i: int,
    m: int,
)
    ensures
        ({
            let log = input_log(raw, polled, region, start_qpc, freq, duration);
            let marks = marks_of(raw, raw.len() as int, region, start_qpc, freq);
            &&& forall|a: int, b: int|
                0 <= a <= b < log.len() ==> (#[trigger] log[a]).time() <= (#[trigger] log[b]).time()
            &&& 0 <= i < raw.len() && !(raw[i].kind is ButtonUp) && !(raw[i].kind is KeyUp)
                ==> zoom_event(raw[i], region, start_qpc, freq) is Some && log.contains(
                zoom_event(raw[i], region, start_qpc, freq)->Some_0,
            )
            &&& 0 <= m < marks.len() ==> log.contains(marks[m])
        }),
{
    let n = raw.len() as int;
    let head = normalized(raw, n, region, start_qpc, freq);
    let marks = marks_of(raw, n, region, start_qpc, freq);
    let seen = head + marks;
    let all = seen + poll_marks(
        polled,
        polled.len() as int,
        mark_times(seen, seen.len() as int),
        region,
        freq,
        start_qpc,
        duration,
    );
    let log = in_order(all);
    sorting_sorts(all);
    assert forall|a: int, b: int| 0 <= a <= b < log.len() implies (#[trigger] log[a]).time() <= (
    #[trigger] log[b]).time() by {
        assert(log[a].at() <= log[b].at());
    }
    if 0 <= i < n && zoom_event(raw[i], region, start_qpc, freq) is Some {
        lemma_normalized(raw, n, region, start_qpc, freq, i);
        let counts = |j: int| zoom_event(raw[j], region, start_qpc, freq) is Some;
        let k = how_many(counts, i);
        assert(all[k] == head[k]);
        let at = sorting_keeps_the_items(all, k, 0);
        assert(log[at.0] == head[k]);
    }
    if 0 <= m < marks.len() {
        assert(all[head.len() + m] == marks[m]);
        let at = sorting_keeps_the_items(all, head.len() + m, 0);
        assert(log[at.0] == marks[m]);
    }
}

/// A recording's rate is its frames over its length.
pub proof fn rates_are_frames_over_time(frames: int, duration: i64)
    requires
        0 <= frames <= 9_000_000_000,
        duration >= 1_000_000_000,
    ensures
        rate_of(frames, duration) * duration <= frames * 1_000_000_000_000_000_000 < (rate_of(
            frames,
            duration,
        ) + 1) * duration,
{
    let n = frames * 1_000_000_000_000_000_000;
    let d = duration as int;
    let q = n / d;
    assert(q * d <= n < (q + 1) * d) by (nonlinear_arith)
        requires
            q == n / d,
            d > 0,
    ;
    assert(0 <= q <= 9_000_000_000_000_000_000) by (nonlinear_arith)
        requires
            q == n / d,
            d >= 1_000_000_000,
            0 <= n <= 9_000_000_000_000_000_000_000_000_000,
    ;
}

/// A project that never was finished is given the size, length and rate of what was stored; one
/// that was keeps its own.
pub proof fn recovery_reads_the_frames(s: SourceInfo, recs: Seq<FrameRec>, freq: i64)
    requires
        recs.len() > 0,
    ensures
        ({
            let r = recovered_source(s, recs, freq);
            &&& s.duration > 0 && s.width > 0 ==> r == s
            &&& s.duration <= 0 || s.width == 0 ==> {
                &&& r.path == s.path
                &&& r.width == recs[0].w
                &&& r.height == recs[0].h
                &&& r.duration == ticks_to_nanos(recs[recs.len() - 1].qpc - recs[0].qpc, freq)
                &&& r.fps == rate_of(recs.len() as int, r.duration)
            }
        }),
{
}

/// What is warned of after a recording: that writing failed, else that capture ended early,
/// else that frames were lost, else what was warned of the disk's space.
pub proof fn the_worst_is_warned_of(
    write: Option<Seq<char>>,
    ended_early: bool,
    dropped: u64,
    kept: usize,
    space: Option<Seq<char>>,
)
    ensures
        ({
            let w = stop_text(write, ended_early, dropped, kept, space);
            &&& write matches Some(why) ==> w == Some(cut_short_text(why, kept))
            &&& write is None && ended_early ==> w == Some(ended_text())
            &&& write is None && !ended_early && is_shortfall(dropped, kept) ==> w == Some(
                dropped_text(dropped, kept),
            )
            &&& write is None && !ended_early && !is_shortfall(dropped, kept) ==> w == space
        }),
{
}

/// The times of the marks of a log are those of its marks, and no others.
pub proof fn known_marks_are_those_of_the_log(events: Seq<InputEvent>, n: int, i: int)
    requires
        0 <= n <= events.len(),
    ensures
        0 <= i < n && events[i] is ZoomMark ==> mark_times(events, n).contains(events[i].time()),
        forall|k: int|
            0 <= k < mark_times(events, n).len() ==> is_mark_time(
                events,
                #[trigger] mark_times(events, n)[k],
            ),
    decreases n,
{
    if n > 0 {
        known_marks_are_those_of_the_log(events, n - 1, i);
        let before = mark_times(events, n - 1);
        let out = mark_times(events, n);
        let e = events[n - 1];
        if 0 <= i < n && events[i] is ZoomMark {
            if i < n - 1 {
                let k = choose|k: int| 0 <= k < before.len() && before[k] == events[i].time();
                assert(out[k] == before[k]);
            } else {
                assert(out[out.len() - 1] == e.time());
            }
        }
        assert forall|k: int| 0 <= k < out.len() implies is_mark_time(events, #[trigger] out[k]) by {
            if k < before.len() {
                assert(out[k] == before[k]);
            } else {
                assert(events[n - 1] is ZoomMark && events[n - 1].time() == out[k]);
            }
        }
    }
}

/// Whether a time is that of a mark in a log.
pub open spec fn is_mark_time(events: Seq<InputEvent>, t: i64) -> bool {
    exists|i: int| 0 <= i < events.len() && (#[trigger] events[i]) is ZoomMark && events[i].time() == t
}

/// Every polled mark that counts is added, in order, and no other.
pub proof fn polled_marks_are_added_in_order(
    marks: Seq<ChordMark>,
    n: int,
    times: Seq<i64>,
    region: CaptureRegion,
    freq: i64,
    start_qpc: i64,
    duration: i64,
    i: int,
)
    requires
        0 <= i < n <= marks.len(),
    ensures
        ({
            let counts = |j: int|
                poll_mark(marks[j], times, region, freq, start_qpc, duration) is Some;
            let out = poll_marks(marks, n, times, region, freq, start_qpc, duration);
            &&& out.len() == how_many(counts, n)
            &&& counts(i) ==> 0 <= how_many(counts, i) < out.len() && Some(
                out[how_many(counts, i)],
            ) == poll_mark(marks[i], times, region, freq, start_qpc, duration)
        }),
    decreases n,
{
    let counts = |j: int| poll_mark(marks[j], times, region, freq, start_qpc, duration) is Some;
    lemma_how_many(counts, i, n);
    if i < n - 1 {
        polled_marks_are_added_in_order(marks, n - 1, times, region, freq, start_qpc, duration, i);
        lemma_how_many(counts, i, n - 1);
    } else if n > 1 {
        polled_marks_are_added_in_order(marks, n - 1, times, region, freq, start_qpc, duration, 0);
    } else {
        assert(poll_marks(marks, 0, times, region, freq, start_qpc, duration).len() == 0);
        assert(how_many(counts, 0) == 0);
    }
}

/// Every pause that is long enough is cut, in order, and no other.
pub proof fn every_pause_is_cut(
    pauses: Seq<Pause>,
    n: int,
    freq: i64,
    start_qpc: i64,
    duration: i64,
    i: int,
)
    requires
        0 <= i < n <= pauses.len(),
    ensures
        ({
            let counts = |j: int| pause_cut(pauses[j], freq, start_qpc, duration) is Some;
            let out = pause_cuts(pauses, n, freq, start_qpc, duration);
            &&& out.len() == how_many(counts, n)
            &&& counts(i) ==> 0 <= how_many(counts, i) < out.len() && Some(
                out[how_many(counts, i)],
            ) == pause_cut(pauses[i], freq, start_qpc, duration)
        }),
    decreases n,
{
    let counts = |j: int| pause_cut(pauses[j], freq, start_qpc, duration) is Some;
    lemma_how_many(counts, i, n);
    if i < n - 1 {
        every_pause_is_cut(pauses, n - 1, freq, start_qpc, duration, i);
        lemma_how_many(counts, i, n - 1);
    } else if n > 1 {
        every_pause_is_cut(pauses, n - 1, freq, start_qpc, duration, 0);
    } else {
        assert(pause_cuts(pauses, 0, freq, start_qpc, duration).len() == 0);
        assert(how_many(counts, 0) == 0);
    }
}

/// A recording lasts from its start to its last frame, is as large as its first, and sees the
/// input over the area that was captured; it has the zooms of its marks alone.
pub proof fn recordings_last_to_their_last_frame(
    p: Project,
    take: TakeModel,
    recs: Seq<FrameRec>,
    raw: Seq<RawEvent>,
    polled: Seq<ChordMark>,
    freq: i64,
    zoom: i64,
)
    requires
        recs.len() > 0,
        is_recorded(p, take, recs, raw, polled, freq, zoom),
    ensures
        ({
            let d = ticks_to_nanos(recs[recs.len() - 1].qpc - take.start_qpc, freq);
            let area = composed(take.origin, take.region, recs[0].w, recs[0].h);
            &&& p.source.duration == d
            &&& p.source.width == recs[0].w
            &&& p.source.height == recs[0].h
            &&& p.source.fps == rate_of(recs.len() as int, d)
            &&& p.events@ == input_log(raw, polled, area, take.start_qpc, freq, d)
            &&& p.zoom_config == ZoomConfig { amount: zoom, ..p.zoom_config }
            &&& !p.zoom_config.auto_zoom_on_click
            &&& p.zooms@ == in_order(manual_plan(p.events@, d, p.zoom_config))
            &&& p.trim is None && p.crop is None
        }),
{
}

} // verus!
