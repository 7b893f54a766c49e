//! The auto-zoom planner: turns a timestamped input log into editable zoom segments.
//!
//! Click-driven, debounced, hold-extended, and frequency-limited. Input events are assumed
//! chronological (a capture log always is).

use crate::units::{floor_div, greater, lesser, saturate, saturated};
use crate::zoom::config::ZoomConfig;
use crate::sort::{in_order, sorting_sorts};
use crate::zoom::edit::sort_by_start;
use crate::zoom::event::{InputEvent, Point};
use crate::zoom::keyframe::{ZoomKeyframe, ZoomMode, ZoomStyle};
use vstd::prelude::*;

verus! {

/// A point of interest: when and where.
#[derive(Debug, Clone, Copy, PartialEq, Eq, Structural)]
pub struct Trigger {
    pub t: i64,
    pub pos: Point,
}

/// How many triggers come no later than `t`.
pub open spec fn count_until(s: Seq<Trigger>, t: i64) -> int
    decreases s.len(),
{
    if s.len() == 0 {
        0
    } else {
        count_until(s.drop_last(), t) + (if s.last().t <= t {
            1int
        } else {
            0
        })
    }
}

/// Whether triggers stand in the order of their times.
pub open spec fn chronological(s: Seq<Trigger>) -> bool {
    forall|i: int, j: int| 0 <= i <= j < s.len() ==> (#[trigger] s[i]).t <= (#[trigger] s[j]).t
}

/// Which events are of interest.
#[derive(Debug, Clone, Copy, PartialEq, Eq, Structural)]
pub enum Interest {
    /// Manual zoom marks.
    Mark,
    /// Clicks and drag starts.
    Click,
    /// Whatever has a position.
    Position,
}

/// Whether an event is of the kind asked for.
pub open spec fn is_trigger(e: InputEvent, kind: Interest) -> bool {
    match kind {
        Interest::Mark => e is ZoomMark,
        Interest::Click => e is Click || e is DragStart,
        Interest::Position => e.place() is Some,
    }
}

/// The triggers of one kind among the first `n` events, in the order of their times; equal
/// times keep their order.
pub open spec fn triggers(events: Seq<InputEvent>, n: int, kind: Interest) -> Seq<Trigger>
    decreases n,
{
    if n <= 0 {
        Seq::empty()
    } else {
        let before = triggers(events, n - 1, kind);
        let e = events[n - 1];
        if is_trigger(e, kind) {
            let t = Trigger { t: e.time(), pos: e.place()->Some_0 };
            before.insert(count_until(before, t.t), t)
        } else {
            before
        }
    }
}

/// In chronological triggers, those no later than `t` come first.
pub proof fn lemma_count_until(s: Seq<Trigger>, t: i64)
    requires
        chronological(s),
    ensures
        0 <= count_until(s, t) <= s.len(),
        forall|i: int|
            0 <= i < s.len() ==> ((#[trigger] s[i]).t <= t <==> i < count_until(s, t)),
    decreases s.len(),
{
    if s.len() > 0 {
        let rest = s.drop_last();
        assert forall|i: int, j: int| 0 <= i <= j < rest.len() implies (#[trigger] rest[i]).t
            <= (#[trigger] rest[j]).t by {
            assert(s[i].t <= s[j].t);
        }
        lemma_count_until(rest, t);
        assert forall|i: int| 0 <= i < s.len() implies ((#[trigger] s[i]).t <= t <==> i
            < count_until(s, t)) by {
            if i < rest.len() {
                assert(s[i] == rest[i]);
                assert(s[i].t <= s[s.len() - 1].t);
            } else if rest.len() > 0 {
                assert(rest[rest.len() - 1] == s[s.len() - 2]);
                assert(s[s.len() - 2].t <= s[s.len() - 1].t);
            }
        }
    }
}

/// Inserting after the triggers that come no later keeps the order.
proof fn lemma_insert_trigger(s: Seq<Trigger>, x: Trigger)
    requires
        chronological(s),
    ensures
        0 <= count_until(s, x.t) <= s.len(),
        chronological(s.insert(count_until(s, x.t), x)),
{
    lemma_count_until(s, x.t);
    let at = count_until(s, x.t);
    let out = s.insert(at, x);
    assert forall|i: int, j: int| 0 <= i <= j < out.len() implies (#[trigger] out[i]).t
        <= (#[trigger] out[j]).t by {
        let bi = if i < at {
            i
        } else {
            i - 1
        };
        let bj = if j < at {
            j
        } else {
            j - 1
        };
        if i != at && j != at {
            assert(out[i] == s[bi] && out[j] == s[bj]);
            assert(s[bi].t <= s[bj].t);
        } else if i != at {
            assert(out[i] == s[bi]);
        } else if j != at {
            assert(out[j] == s[bj]);
        }
    }
}

/// Gather the triggers of one kind, in the order of their times.
pub fn gather(events: &[InputEvent], kind: Interest) -> (out: Vec<Trigger>)
    ensures
        out@ == triggers(events@, events@.len() as int, kind),
        chronological(out@),
        out@.len() <= events@.len(),
{
    let mut out: Vec<Trigger> = Vec::new();
    let mut n: usize = 0;
    while n < events.len()
        invariant
            n <= events@.len(),
            out@ == triggers(events@, n as int, kind),
            chronological(out@),
            out@.len() <= n,
        decreases events@.len() - n,
    {
        let e: InputEvent = events[n];
        let wanted = match kind {
            Interest::Mark => e.is_zoom_mark(),
            Interest::Click => e.is_click_trigger() && !e.is_zoom_mark(),
            Interest::Position => true,
        };
        if wanted {
            match e.pos() {
                Some(pos) => {
                    let x = Trigger { t: e.t(), pos };
                    let mut at: usize = out.len();
                    proof {
                        lemma_count_until(out@, x.t);
                        lemma_insert_trigger(out@, x);
                    }
                    while at > 0 && out[at - 1].t > x.t
                        invariant
                            at <= out@.len(),
                            count_until(out@, x.t) <= at,
                            forall|i: int|
                                0 <= i < out@.len() ==> ((#[trigger] out@[i]).t <= x.t <==> i
                                    < count_until(out@, x.t)),
                        decreases at,
                    {
                        at -= 1;
                    }
                    if at > 0 {
                        assert(out@[at - 1].t <= x.t);
                    }
                    out.insert(at, x);
                },
                None => {},
            }
        }
        n += 1;
    }
    out
}

/// A planned segment with the configured look.
pub open spec fn planned(start: i64, end: i64, cfg: ZoomConfig) -> ZoomKeyframe {
    ZoomKeyframe {
        start,
        end,
        amount: cfg.amount,
        mode: ZoomMode::Auto,
        edge_snap_ratio: cfg.edge_snap_ratio,
        style: ZoomStyle::Smooth,
    }
}

/// When a zoom for a trigger at `t` begins: ahead of it, but not before the clip.
pub open spec fn zoom_start(t: i64, cfg: ZoomConfig) -> i64 {
    saturated(greater(t - cfg.pre_roll, 0))
}

fn start_for(t: i64, cfg: &ZoomConfig) -> (s: i64)
    ensures
        s == zoom_start(t, *cfg),
{
    let s: i128 = t as i128 - cfg.pre_roll as i128;
    if s < 0 {
        0
    } else {
        saturate(s)
    }
}

fn make_segment(start: i64, end: i64, cfg: &ZoomConfig) -> (k: ZoomKeyframe)
    ensures
        k == planned(start, end, *cfg),
{
    ZoomKeyframe {
        start,
        end,
        amount: cfg.amount,
        mode: ZoomMode::Auto,
        edge_snap_ratio: cfg.edge_snap_ratio,
        style: ZoomStyle::Smooth,
    }
}

/// When the zoom that mark `i` opens closes: at the next mark, or with the clip.
pub open spec fn toggle_end(marks: Seq<Trigger>, i: int, duration: i64) -> i64 {
    if i + 1 < marks.len() && marks[i + 1].t < duration {
        marks[i + 1].t
    } else {
        duration
    }
}

/// The segments that the first `n` pairs of marks stand for: each odd press zooms in and
/// the next one out. Empty segments are left out.
pub open spec fn toggles(marks: Seq<Trigger>, n: int, duration: i64, cfg: ZoomConfig) -> Seq<
    ZoomKeyframe,
>
    decreases n,
{
    if n <= 0 {
        Seq::empty()
    } else {
        let before = toggles(marks, n - 1, duration, cfg);
        let i = 2 * (n - 1);
        let start = zoom_start(marks[i].t, cfg);
        let end = toggle_end(marks, i, duration);
        if end > start {
            before.push(planned(start, end, cfg))
        } else {
            before
        }
    }
}

/// How many zooms a number of marks opens.
pub open spec fn pairs(marks: int) -> int {
    (marks + 1) / 2
}

/// Pair up manual zoom marks into in-and-out segments: the first two are one zoom, the next
/// two another. A final unpaired press holds the zoom to the end of the clip.
pub fn manual_toggle_segments(events: &[InputEvent], duration: i64, cfg: &ZoomConfig) -> (out: Vec<
    ZoomKeyframe,
>)
    ensures
        ({
            let marks = triggers(events@, events@.len() as int, Interest::Mark);
            out@ == toggles(marks, pairs(marks.len() as int), duration, *cfg)
        }),
{
    let marks = gather(events, Interest::Mark);
    let mut out: Vec<ZoomKeyframe> = Vec::new();
    let mut i: usize = 0;
    let ghost mut n: int = 0;
    while i < marks.len()
        invariant
            marks@ == triggers(events@, events@.len() as int, Interest::Mark),
            i == 2 * n,
            0 <= n <= pairs(marks@.len() as int),
            out@ == toggles(marks@, n, duration, *cfg),
        decreases marks@.len() - i,
    {
        let start: i64 = start_for(marks[i].t, cfg);
        let mut end: i64 = duration;
        if marks.len() - i > 1 {
            let t: i64 = marks[i + 1].t;
            if t < end {
                end = t;
            }
        }
        if end > start {
            out.push(make_segment(start, end, cfg));
        }
        proof {
            n = n + 1;
        }
        if marks.len() - i <= 1 {
            return out;
        }
        i += 2;
    }
    out
}

/// A cluster of triggers: its times, and the sum and number of its positions.
#[derive(Debug, Clone, Copy, PartialEq, Eq, Structural)]
pub struct Cluster {
    pub first_t: i64,
    pub last_t: i64,
    pub sum_x: i128,
    pub sum_y: i128,
    pub count: u64,
}

/// The middle of a cluster, rounded down.
pub open spec fn centroid(c: Cluster) -> (int, int) {
    (c.sum_x as int / c.count as int, c.sum_y as int / c.count as int)
}

/// Square of the distance between a point and a centre.
pub open spec fn square_distance(p: Point, c: (int, int)) -> int {
    (p.x - c.0) * (p.x - c.0) + (p.y - c.1) * (p.y - c.1)
}

/// Whether a point lies within a radius around a centre, or within one and a half times
/// the radius.
pub open spec fn within(p: Point, c: (int, int), radius: i64, wide: bool) -> bool {
    let square = radius * radius;
    radius >= 0 && if wide {
        4 * square_distance(p, c) <= 9 * square
    } else {
        square_distance(p, c) <= square
    }
}

/// Whether a trigger joins a cluster: soon enough after its last one and near enough to its
/// middle.
pub open spec fn joins(c: Cluster, x: Trigger, cfg: ZoomConfig) -> bool {
    x.t - c.last_t <= cfg.merge_gap && within(x.pos, centroid(c), cfg.merge_radius, false)
}

/// A cluster of one trigger.
pub open spec fn singleton(x: Trigger) -> Cluster {
    Cluster {
        first_t: x.t,
        last_t: x.t,
        sum_x: x.pos.x as i128,
        sum_y: x.pos.y as i128,
        count: 1,
    }
}

/// A cluster with one more trigger.
pub open spec fn joined(c: Cluster, x: Trigger) -> Cluster {
    Cluster {
        first_t: c.first_t,
        last_t: x.t,
        sum_x: (c.sum_x + x.pos.x) as i128,
        sum_y: (c.sum_y + x.pos.y) as i128,
        count: (c.count + 1) as u64,
    }
}

/// The clusters of triggers: each trigger joins the last cluster if it can, else it starts
/// one (this debounces rapid, co-located clicks).
pub open spec fn clusters(xs: Seq<Trigger>, cfg: ZoomConfig) -> Seq<Cluster>
    decreases xs.len(),
{
    if xs.len() == 0 {
        Seq::empty()
    } else {
        let before = clusters(xs.drop_last(), cfg);
        if before.len() > 0 && joins(before.last(), xs.last(), cfg) {
            before.drop_last().push(joined(before.last(), xs.last()))
        } else {
            before.push(singleton(xs.last()))
        }
    }
}

/// Whether `p` lies within `radius` (or one and a half times that) of a centre.
fn is_within(p: Point, cx: i128, cy: i128, radius: i64, wide: bool) -> (r: bool)
    requires
        -0x1_0000_0000_0000_0000 <= cx <= 0x1_0000_0000_0000_0000,
        -0x1_0000_0000_0000_0000 <= cy <= 0x1_0000_0000_0000_0000,
    ensures
        r == within(p, (cx as int, cy as int), radius, wide),
{
    if radius < 0 {
        return false;
    }
    let dx: i128 = if p.x as i128 >= cx {
        p.x as i128 - cx
    } else {
        cx - p.x as i128
    };
    let dy: i128 = if p.y as i128 >= cy {
        p.y as i128 - cy
    } else {
        cy - p.y as i128
    };
    let ghost sx = p.x - cx;
    let ghost sy = p.y - cy;
    let ghost rr = radius as int;
    proof {
        assert(sx * sx == dx * dx) by (nonlinear_arith)
            requires
                sx == dx || sx == -dx,
        ;
        assert(sy * sy == dy * dy) by (nonlinear_arith)
            requires
                sy == dy || sy == -dy,
        ;
    }
    let r2: i128 = 2 * (radius as i128);
    let far: i128 = if wide {
        3 * (radius as i128)
    } else {
        r2
    };
    if 2 * dx > far || 2 * dy > far {
        proof {
            let a = dx as int;
            let b = dy as int;
            if wide {
                assert(4 * (a * a + b * b) > 9 * (rr * rr)) by (nonlinear_arith)
                    requires
                        2 * a > 3 * rr || 2 * b > 3 * rr,
                        rr >= 0,
                        a >= 0,
                        b >= 0,
                ;
            } else {
                assert(a * a + b * b > rr * rr) by (nonlinear_arith)
                    requires
                        a > rr || b > rr,
                        rr >= 0,
                        a >= 0,
                        b >= 0,
                ;
            }
        }
        return false;
    }
    let ux: u128 = dx as u128;
    let uy: u128 = dy as u128;
    let ur: u128 = radius as u128;
    proof {
        let a = dx as int;
        let b = dy as int;
        let top = 0xc000_0000_0000_0000int;
        assert(0 <= a * a <= top * top) by (nonlinear_arith)
            requires
                0 <= a <= top,
        ;
        assert(0 <= b * b <= top * top) by (nonlinear_arith)
            requires
                0 <= b <= top,
        ;
        assert(0 <= rr * rr <= 0x7fff_ffff_ffff_ffff * 0x7fff_ffff_ffff_ffff) by (nonlinear_arith)
            requires
                0 <= rr <= 0x7fff_ffff_ffff_ffff,
        ;
        if wide {
            assert(4 * (b * b) <= 9 * (rr * rr)) by (nonlinear_arith)
                requires
                    2 * b <= 3 * rr,
                    b >= 0,
            ;
        } else {
            assert(b * b <= rr * rr) by (nonlinear_arith)
                requires
                    b <= rr,
                    b >= 0,
            ;
        }
        assert(ux * ux == a * a && uy * uy == b * b && ur * ur == rr * rr) by (nonlinear_arith)
            requires
                ux == a,
                uy == b,
                ur == rr,
        ;
    }
    let square: u128 = ur * ur;
    let limit: u128 = if wide {
        2 * square + square / 4
    } else {
        square
    };
    assert(square_distance(p, (cx as int, cy as int)) == ux * ux + uy * uy);
    ux * ux <= limit - uy * uy
}

/// Whether a cluster holds between one and `n` positions.
pub open spec fn sound(c: Cluster, n: int) -> bool {
    &&& 1 <= c.count <= n
    &&& -0x8000_0000_0000_0000 * c.count <= c.sum_x <= 0x7fff_ffff_ffff_ffff * c.count
    &&& -0x8000_0000_0000_0000 * c.count <= c.sum_y <= 0x7fff_ffff_ffff_ffff * c.count
}

/// The middle of a sound cluster.
fn middle(c: &Cluster) -> (m: (i128, i128))
    requires
        sound(*c, u64::MAX as int),
    ensures
        (m.0 as int, m.1 as int) == centroid(*c),
        -0x8000_0000_0000_0000 <= m.0 <= 0x7fff_ffff_ffff_ffff,
        -0x8000_0000_0000_0000 <= m.1 <= 0x7fff_ffff_ffff_ffff,
{
    let n: i128 = c.count as i128;
    proof {
        let x = c.sum_x as int;
        let y = c.sum_y as int;
        let k = c.count as int;
        assert(-0x8000_0000_0000_0000 <= x / k <= 0x7fff_ffff_ffff_ffff) by (nonlinear_arith)
            requires
                k >= 1,
                -0x8000_0000_0000_0000 * k <= x <= 0x7fff_ffff_ffff_ffff * k,
        ;
        assert(-0x8000_0000_0000_0000 <= y / k <= 0x7fff_ffff_ffff_ffff) by (nonlinear_arith)
            requires
                k >= 1,
                -0x8000_0000_0000_0000 * k <= y <= 0x7fff_ffff_ffff_ffff * k,
        ;
    }
    (floor_div(c.sum_x, n), floor_div(c.sum_y, n))
}

/// Group triggers into clusters.
fn cluster_up(xs: &Vec<Trigger>, cfg: &ZoomConfig) -> (out: Vec<Cluster>)
    ensures
        out@ == clusters(xs@, *cfg),
        forall|i: int| 0 <= i < out@.len() ==> sound(#[trigger] out@[i], xs@.len() as int),
{
    let mut out: Vec<Cluster> = Vec::new();
    let mut n: usize = 0;
    assert(xs@.take(0) =~= Seq::<Trigger>::empty());
    while n < xs.len()
        invariant
            n <= xs@.len(),
            out@ == clusters(xs@.take(n as int), *cfg),
            forall|i: int| 0 <= i < out@.len() ==> sound(#[trigger] out@[i], n as int),
        decreases xs@.len() - n,
    {
        let x: Trigger = xs[n];
        let ghost before = out@;
        proof {
            let more = xs@.take(n + 1);
            assert(more.drop_last() =~= xs@.take(n as int));
            assert(more.last() == x);
        }
        let mut join = false;
        if out.len() > 0 {
            let c: Cluster = out[out.len() - 1];
            assert(sound(before[before.len() - 1], n as int));
            let (cx, cy) = middle(&c);
            let gap: i128 = x.t as i128 - c.last_t as i128;
            join = gap <= cfg.merge_gap as i128 && is_within(x.pos, cx, cy, cfg.merge_radius, false);
            assert(join == joins(c, x, *cfg));
        }
        if join {
            let last: usize = out.len() - 1;
            let c: Cluster = out[last];
            assert(sound(before[before.len() - 1], n as int));
            let grown = Cluster {
                first_t: c.first_t,
                last_t: x.t,
                sum_x: c.sum_x + x.pos.x as i128,
                sum_y: c.sum_y + x.pos.y as i128,
                count: c.count + 1,
            };
            out.set(last, grown);
            proof {
                assert(out@ =~= before.drop_last().push(grown));
                assert forall|i: int| 0 <= i < out@.len() implies sound(
                    #[trigger] out@[i],
                    n + 1,
                ) by {
                    assert(sound(before[i], n as int));
                }
            }
        } else {
            let c = Cluster {
                first_t: x.t,
                last_t: x.t,
                sum_x: x.pos.x as i128,
                sum_y: x.pos.y as i128,
                count: 1,
            };
            out.push(c);
            proof {
                assert forall|i: int| 0 <= i < out@.len() implies sound(
                    #[trigger] out@[i],
                    n + 1,
                ) by {
                    if i < before.len() {
                        assert(sound(before[i], n as int));
                    }
                }
            }
        }
        n += 1;
    }
    assert(xs@.take(n as int) =~= xs@);
    out
}

/// Whether an event sustains a zoom on a cluster whose last activity was at `last`: it is
/// activity, it follows within the hold, and it is near (typing sustains anywhere).
pub open spec fn sustains(e: InputEvent, c: Cluster, last: i64, cfg: ZoomConfig) -> bool {
    &&& !(e is Move)
    &&& last < e.time() <= last + cfg.hold
    &&& match e.place() {
        Some(p) => within(p, centroid(c), cfg.merge_radius, true),
        None => true,
    }
}

/// When a cluster's last activity among the first `n` events is: each event that sustains
/// it carries it on.
pub open spec fn last_activity(events: Seq<InputEvent>, n: int, c: Cluster, cfg: ZoomConfig) -> i64
    decreases n,
{
    if n <= 0 {
        c.last_t
    } else {
        let last = last_activity(events, n - 1, c, cfg);
        if sustains(events[n - 1], c, last, cfg) {
            events[n - 1].time()
        } else {
            last
        }
    }
}

/// When a cluster's zoom ends: a hold after its last activity, or with the clip.
pub open spec fn cluster_end(
    events: Seq<InputEvent>,
    c: Cluster,
    duration: i64,
    cfg: ZoomConfig,
) -> i64 {
    saturated(
        lesser(last_activity(events, events.len() as int, c, cfg) + cfg.hold, duration as int),
    )
}

/// The segments of the clusters; empty ones are left out.
pub open spec fn cluster_segments(
    events: Seq<InputEvent>,
    cs: Seq<Cluster>,
    duration: i64,
    cfg: ZoomConfig,
) -> Seq<ZoomKeyframe>
    decreases cs.len(),
{
    if cs.len() == 0 {
        Seq::empty()
    } else {
        let before = cluster_segments(events, cs.drop_last(), duration, cfg);
        let start = zoom_start(cs.last().first_t, cfg);
        let end = cluster_end(events, cs.last(), duration, cfg);
        if end > start {
            before.push(planned(start, end, cfg))
        } else {
            before
        }
    }
}

/// A segment that ends no earlier than `end`.
pub open spec fn extended(k: ZoomKeyframe, end: i64) -> ZoomKeyframe {
    ZoomKeyframe {
        start: k.start,
        end: if end > k.end {
            end
        } else {
            k.end
        },
        amount: k.amount,
        mode: k.mode,
        edge_snap_ratio: k.edge_snap_ratio,
        style: k.style,
    }
}

/// Segments merged where they follow each other too soon, so that the result never feels
/// like motion sickness.
pub open spec fn spaced(segs: Seq<ZoomKeyframe>, cfg: ZoomConfig) -> Seq<ZoomKeyframe>
    decreases segs.len(),
{
    if segs.len() == 0 {
        Seq::empty()
    } else {
        let before = spaced(segs.drop_last(), cfg);
        let seg = segs.last();
        if before.len() > 0 && seg.start < before.last().end + cfg.min_rezoom_interval {
            before.drop_last().push(extended(before.last(), seg.end))
        } else {
            before.push(seg)
        }
    }
}

/// The click-driven segments of a log.
pub open spec fn click_plan(events: Seq<InputEvent>, duration: i64, cfg: ZoomConfig) -> Seq<
    ZoomKeyframe,
> {
    let cs = clusters(triggers(events, events.len() as int, Interest::Click), cfg);
    spaced(cluster_segments(events, cs, duration, cfg), cfg)
}

/// The manually toggled segments of a log.
pub open spec fn manual_plan(events: Seq<InputEvent>, duration: i64, cfg: ZoomConfig) -> Seq<
    ZoomKeyframe,
> {
    let marks = triggers(events, events.len() as int, Interest::Mark);
    toggles(marks, pairs(marks.len() as int), duration, cfg)
}

/// A cluster's last activity.
fn find_last_activity(events: &[InputEvent], c: &Cluster, cfg: &ZoomConfig) -> (last: i64)
    requires
        sound(*c, u64::MAX as int),
    ensures
        last == last_activity(events@, events@.len() as int, *c, *cfg),
{
    let (cx, cy) = middle(c);
    let mut last: i64 = c.last_t;
    let mut n: usize = 0;
    while n < events.len()
        invariant
            n <= events@.len(),
            (cx as int, cy as int) == centroid(*c),
            -0x8000_0000_0000_0000 <= cx <= 0x7fff_ffff_ffff_ffff,
            -0x8000_0000_0000_0000 <= cy <= 0x7fff_ffff_ffff_ffff,
            last == last_activity(events@, n as int, *c, *cfg),
        decreases events@.len() - n,
    {
        let e: InputEvent = events[n];
        let te: i64 = e.t();
        if e.is_activity() && te > last && te as i128 <= last as i128 + cfg.hold as i128 {
            let near = match e.pos() {
                Some(p) => is_within(p, cx, cy, cfg.merge_radius, true),
                None => true,
            };
            if near {
                last = te;
            }
        }
        n += 1;
    }
    last
}

/// Merge segments that follow each other too soon.
fn space_out(segs: &Vec<ZoomKeyframe>, cfg: &ZoomConfig) -> (out: Vec<ZoomKeyframe>)
    ensures
        out@ == spaced(segs@, *cfg),
{
    let mut out: Vec<ZoomKeyframe> = Vec::new();
    let mut n: usize = 0;
    assert(segs@.take(0) =~= Seq::<ZoomKeyframe>::empty());
    while n < segs.len()
        invariant
            n <= segs@.len(),
            out@ == spaced(segs@.take(n as int), *cfg),
        decreases segs@.len() - n,
    {
        let seg: ZoomKeyframe = segs[n];
        let ghost before = out@;
        proof {
            let more = segs@.take(n + 1);
            assert(more.drop_last() =~= segs@.take(n as int));
            assert(more.last() == seg);
        }
        let mut merge = false;
        if out.len() > 0 {
            let prev: ZoomKeyframe = out[out.len() - 1];
            merge = (seg.start as i128) < prev.end as i128 + cfg.min_rezoom_interval as i128;
        }
        if merge {
            let last: usize = out.len() - 1;
            let mut prev: ZoomKeyframe = out[last];
            if seg.end > prev.end {
                prev.end = seg.end;
            }
            out.set(last, prev);
            assert(out@ =~= before.drop_last().push(extended(before.last(), seg.end)));
        } else {
            out.push(seg);
        }
        n += 1;
    }
    assert(segs@.take(n as int) =~= segs@);
    out
}

/// Click-driven auto-zoom: debounced, hold-extended, frequency-limited clustering.
pub fn click_segments(events: &[InputEvent], duration: i64, cfg: &ZoomConfig) -> (out: Vec<
    ZoomKeyframe,
>)
    ensures
        out@ == click_plan(events@, duration, *cfg),
{
    let xs = gather(events, Interest::Click);
    let cs = cluster_up(&xs, cfg);
    let mut segs: Vec<ZoomKeyframe> = Vec::new();
    let mut n: usize = 0;
    assert(cs@.take(0) =~= Seq::<Cluster>::empty());
    assert(xs.len() <= u64::MAX);
    while n < cs.len()
        invariant
            n <= cs@.len(),
            xs@.len() <= u64::MAX,
            forall|i: int| 0 <= i < cs@.len() ==> sound(#[trigger] cs@[i], xs@.len() as int),
            segs@ == cluster_segments(events@, cs@.take(n as int), duration, *cfg),
        decreases cs@.len() - n,
    {
        let c: Cluster = cs[n];
        proof {
            let more = cs@.take(n + 1);
            assert(more.drop_last() =~= cs@.take(n as int));
            assert(more.last() == c);
            assert(sound(cs@[n as int], xs@.len() as int));
        }
        let start: i64 = start_for(c.first_t, cfg);
        let last: i64 = find_last_activity(events, &c, cfg);
        let held: i128 = last as i128 + cfg.hold as i128;
        let end: i64 = if held > duration as i128 {
            duration
        } else {
            saturate(held)
        };
        if end > start {
            segs.push(make_segment(start, end, cfg));
        }
        n += 1;
    }
    assert(cs@.take(n as int) =~= cs@);
    space_out(&segs, cfg)
}

/// Plan zoom segments from an input event log over a clip of `duration`.
///
/// Returns editable segments in start order. The manual hotkey is an explicit toggle: the
/// first press zooms in (and the camera follows the cursor), the next press zooms back out,
/// and so on. Click-to-zoom (opt-in) adds the debounced auto-clustering.
pub fn plan_zooms(events: &[InputEvent], duration: i64, cfg: &ZoomConfig) -> (out: Vec<ZoomKeyframe>)
    ensures
        out@ == in_order(
            if cfg.auto_zoom_on_click {
                manual_plan(events@, duration, *cfg) + click_plan(events@, duration, *cfg)
            } else {
                manual_plan(events@, duration, *cfg)
            },
        ),
{
    let mut segments = manual_toggle_segments(events, duration, cfg);
    if cfg.auto_zoom_on_click {
        let mut clicks = click_segments(events, duration, cfg);
        segments.append(&mut clicks);
    }
    sort_by_start(&mut segments);
    segments
}

/// Whether a segment is not empty and lies in the clip.
pub open spec fn in_clip(k: ZoomKeyframe, duration: i64) -> bool {
    0 <= k.start < k.end <= duration
}

/// Planned segments are not empty and lie in the clip.
pub proof fn manual_segments_lie_in_the_clip(
    marks: Seq<Trigger>,
    n: int,
    duration: i64,
    cfg: ZoomConfig,
)
    ensures
        forall|i: int|
            0 <= i < toggles(marks, n, duration, cfg).len() ==> in_clip(
                #[trigger] toggles(marks, n, duration, cfg)[i],
                duration,
            ),
    decreases n,
{
    if n > 0 {
        manual_segments_lie_in_the_clip(marks, n - 1, duration, cfg);
        let before = toggles(marks, n - 1, duration, cfg);
        let out = toggles(marks, n, duration, cfg);
        assert forall|i: int| 0 <= i < out.len() implies in_clip(#[trigger] out[i], duration) by {
            if i < before.len() {
                assert(out[i] == before[i]);
            }
        }
    }
}

/// Segments of clusters are not empty and lie in the clip.
proof fn lemma_cluster_segments_in_clip(
    events: Seq<InputEvent>,
    cs: Seq<Cluster>,
    duration: i64,
    cfg: ZoomConfig,
)
    ensures
        forall|i: int|
            0 <= i < cluster_segments(events, cs, duration, cfg).len() ==> in_clip(
                #[trigger] cluster_segments(events, cs, duration, cfg)[i],
                duration,
            ),
    decreases cs.len(),
{
    if cs.len() > 0 {
        lemma_cluster_segments_in_clip(events, cs.drop_last(), duration, cfg);
        let before = cluster_segments(events, cs.drop_last(), duration, cfg);
        let out = cluster_segments(events, cs, duration, cfg);
        assert forall|i: int| 0 <= i < out.len() implies in_clip(#[trigger] out[i], duration) by {
            if i < before.len() {
                assert(out[i] == before[i]);
            }
        }
    }
}

/// Whether segment `i` starts at least `gap` after the one before it ends.
pub open spec fn keeps_distance(z: Seq<ZoomKeyframe>, i: int, gap: i64) -> bool {
    z[i].start >= z[i - 1].end + gap
}

/// Whether all segments lie in the clip and keep a distance from each other.
pub open spec fn well_spaced(z: Seq<ZoomKeyframe>, duration: i64, gap: i64) -> bool {
    &&& forall|i: int| 0 <= i < z.len() ==> in_clip(#[trigger] z[i], duration)
    &&& forall|i: int| 0 < i < z.len() ==> #[trigger] keeps_distance(z, i, gap)
}

/// Spacing segments out keeps them in the clip and at a distance.
proof fn lemma_spaced(segs: Seq<ZoomKeyframe>, duration: i64, cfg: ZoomConfig)
    requires
        forall|i: int| 0 <= i < segs.len() ==> in_clip(#[trigger] segs[i], duration),
    ensures
        well_spaced(spaced(segs, cfg), duration, cfg.min_rezoom_interval),
    decreases segs.len(),
{
    let gap = cfg.min_rezoom_interval;
    let out = spaced(segs, cfg);
    if segs.len() > 0 {
        let rest = segs.drop_last();
        let seg = segs.last();
        assert forall|i: int| 0 <= i < rest.len() implies in_clip(#[trigger] rest[i], duration) by {
            assert(in_clip(segs[i], duration));
        }
        assert(in_clip(segs[segs.len() - 1], duration));
        lemma_spaced(rest, duration, cfg);
        let before = spaced(rest, cfg);
        let merges = before.len() > 0 && seg.start < before.last().end + gap;
        let n = before.len() as int;
        if merges {
            assert(out == before.drop_last().push(extended(before.last(), seg.end)));
            assert(in_clip(before[n - 1], duration));
        } else {
            assert(out == before.push(seg));
        }
        assert forall|i: int| 0 <= i < out.len() implies in_clip(#[trigger] out[i], duration) by {
            if i < n - 1 || (!merges && i < n) {
                assert(out[i] == before[i]);
            }
        }
        assert forall|i: int| 0 < i < out.len() implies #[trigger] keeps_distance(out, i, gap) by {
            if i < n {
                assert(keeps_distance(before, i, gap));
                assert(out[i - 1] == before[i - 1]);
                assert(out[i].start == before[i].start);
            } else {
                assert(out[i - 1] == before[n - 1]);
            }
        }
    }
}

/// Click-driven segments are not empty, lie in the clip, and leave at least the minimum
/// interval between the end of one and the start of the next.
pub proof fn click_segments_are_spaced(events: Seq<InputEvent>, duration: i64, cfg: ZoomConfig)
    ensures
        well_spaced(click_plan(events, duration, cfg), duration, cfg.min_rezoom_interval),
{
    let cs = clusters(triggers(events, events.len() as int, Interest::Click), cfg);
    lemma_cluster_segments_in_clip(events, cs, duration, cfg);
    lemma_spaced(cluster_segments(events, cs, duration, cfg), duration, cfg);
}

/// Triggers stand in the order of their times, and every event of the kind is among them.
proof fn lemma_triggers(events: Seq<InputEvent>, n: int, kind: Interest)
    requires
        0 <= n <= events.len(),
    ensures
        chronological(triggers(events, n, kind)),
        forall|i: int|
            0 <= i < n && is_trigger(#[trigger] events[i], kind) ==> exists|k: int|
                0 <= k < triggers(events, n, kind).len() && (#[trigger] triggers(
                    events,
                    n,
                    kind,
                )[k]).t == events[i].time(),
    decreases n,
{
    if n > 0 {
        lemma_triggers(events, n - 1, kind);
        let before = triggers(events, n - 1, kind);
        let out = triggers(events, n, kind);
        let e = events[n - 1];
        let x = Trigger { t: e.time(), pos: e.place()->Some_0 };
        let at = count_until(before, x.t);
        if is_trigger(e, kind) {
            lemma_insert_trigger(before, x);
        }
        assert forall|i: int| 0 <= i < n && is_trigger(#[trigger] events[i], kind) implies exists|
            k: int,
        | 0 <= k < out.len() && (#[trigger] out[k]).t == events[i].time() by {
            if i == n - 1 {
                assert(out[at].t == events[i].time());
            } else {
                let k = choose|k: int|
                    0 <= k < before.len() && (#[trigger] before[k]).t == events[i].time();
                if is_trigger(e, kind) && k >= at {
                    assert(out[k + 1] == before[k]);
                } else {
                    assert(out[k] == before[k]);
                }
            }
        }
    }
}

/// Whether a time lies between a cluster's first trigger and its last.
spec fn spans(c: Cluster, t: i64) -> bool {
    c.first_t <= t <= c.last_t
}

/// Whether a time lies in a cluster.
spec fn clustered(cs: Seq<Cluster>, t: i64) -> bool {
    exists|i: int| 0 <= i < cs.len() && #[trigger] spans(cs[i], t)
}

/// Whether a time lies in a segment.
pub open spec fn covered(z: Seq<ZoomKeyframe>, t: i64) -> bool {
    exists|i: int| 0 <= i < z.len() && (#[trigger] z[i]).covers(t)
}

/// Clusters begin in the order of their times, and every trigger lies in one.
proof fn lemma_clusters(xs: Seq<Trigger>, cfg: ZoomConfig)
    requires
        chronological(xs),
    ensures
        xs.len() > 0 ==> clusters(xs, cfg).len() > 0 && clusters(xs, cfg).last().last_t
            == xs.last().t,
        forall|i: int|
            0 <= i < clusters(xs, cfg).len() ==> (#[trigger] clusters(xs, cfg)[i]).first_t
                <= xs.last().t,
        forall|i: int, j: int|
            0 <= i <= j < clusters(xs, cfg).len() ==> (#[trigger] clusters(xs, cfg)[i]).first_t <= (
            #[trigger] clusters(xs, cfg)[j]).first_t,
        forall|k: int|
            0 <= k < xs.len() ==> clustered(clusters(xs, cfg), (#[trigger] xs[k]).t),
    decreases xs.len(),
{
    if xs.len() > 0 {
        let rest = xs.drop_last();
        let x = xs.last();
        assert forall|i: int, j: int| 0 <= i <= j < rest.len() implies (#[trigger] rest[i]).t <= (
        #[trigger] rest[j]).t by {
            assert(xs[i].t <= xs[j].t);
        }
        lemma_clusters(rest, cfg);
        let before = clusters(rest, cfg);
        let out = clusters(xs, cfg);
        let n = before.len() as int;
        if rest.len() > 0 {
            assert(rest.last() == xs[xs.len() - 2]);
            assert(xs[xs.len() - 2].t <= xs[xs.len() - 1].t);
        }
        assert forall|i: int| 0 <= i < out.len() implies (#[trigger] out[i]).first_t <= x.t by {
            if i < n {
                assert(out[i].first_t == before[i].first_t);
            }
        }
        assert forall|i: int, j: int| 0 <= i <= j < out.len() implies (#[trigger] out[i]).first_t
            <= (#[trigger] out[j]).first_t by {
            if j < n {
                assert(out[i].first_t == before[i].first_t && out[j].first_t == before[j].first_t);
            }
        }
        assert forall|k: int| 0 <= k < xs.len() implies clustered(out, (#[trigger] xs[k]).t) by {
            if k == xs.len() - 1 {
                assert(spans(out[out.len() - 1], xs[k].t));
            } else {
                assert(rest[k] == xs[k]);
                let i = choose|i: int| 0 <= i < before.len() && #[trigger] spans(before[i], rest[k].t);
                assert(xs[k].t <= x.t);
                assert(spans(out[i], xs[k].t));
            }
        }
    }
}

/// A cluster's activity lasts at least to its last trigger.
proof fn lemma_last_activity(events: Seq<InputEvent>, n: int, c: Cluster, cfg: ZoomConfig)
    ensures
        last_activity(events, n, c, cfg) >= c.last_t,
    decreases n,
{
    if n > 0 {
        lemma_last_activity(events, n - 1, c, cfg);
    }
}

/// Segments of clusters begin in the order of their times, and cover their triggers.
proof fn lemma_cluster_segments(
    events: Seq<InputEvent>,
    cs: Seq<Cluster>,
    duration: i64,
    cfg: ZoomConfig,
    t: i64,
)
    requires
        forall|i: int, j: int|
            0 <= i <= j < cs.len() ==> (#[trigger] cs[i]).first_t <= (#[trigger] cs[j]).first_t,
        0 <= t < duration,
        cfg.pre_roll >= 0,
        cfg.hold > 0,
    ensures
        forall|i: int|
            0 <= i < cluster_segments(events, cs, duration, cfg).len() ==> (
            #[trigger] cluster_segments(events, cs, duration, cfg)[i]).start <= zoom_start(
                cs.last().first_t,
                cfg,
            ),
        forall|i: int, j: int|
            0 <= i <= j < cluster_segments(events, cs, duration, cfg).len() ==> (
            #[trigger] cluster_segments(events, cs, duration, cfg)[i]).start <= (
            #[trigger] cluster_segments(events, cs, duration, cfg)[j]).start,
        clustered(cs, t) ==> covered(cluster_segments(events, cs, duration, cfg), t),
    decreases cs.len(),
{
    if cs.len() > 0 {
        let rest = cs.drop_last();
        let c = cs.last();
        assert forall|i: int, j: int| 0 <= i <= j < rest.len() implies (#[trigger] rest[i]).first_t
            <= (#[trigger] rest[j]).first_t by {
            assert(cs[i].first_t <= cs[j].first_t);
        }
        lemma_cluster_segments(events, rest, duration, cfg, t);
        let before = cluster_segments(events, rest, duration, cfg);
        let out = cluster_segments(events, cs, duration, cfg);
        if rest.len() > 0 {
            assert(rest.last() == cs[cs.len() - 2]);
            assert(cs[cs.len() - 2].first_t <= cs[cs.len() - 1].first_t);
        }
        assert forall|i: int| 0 <= i < out.len() implies (#[trigger] out[i]).start <= zoom_start(
            c.first_t,
            cfg,
        ) by {
            if i < before.len() {
                assert(out[i] == before[i]);
            }
        }
        assert forall|i: int, j: int| 0 <= i <= j < out.len() implies (#[trigger] out[i]).start <= (
        #[trigger] out[j]).start by {
            if j < before.len() {
                assert(out[i] == before[i] && out[j] == before[j]);
            }
        }
        if clustered(cs, t) {
            let i = choose|i: int| 0 <= i < cs.len() && #[trigger] spans(cs[i], t);
            if i < rest.len() {
                assert(spans(rest[i], t));
                let j = choose|j: int| 0 <= j < before.len() && (#[trigger] before[j]).covers(t);
                assert(out[j] == before[j]);
            } else {
                lemma_last_activity(events, events.len() as int, c, cfg);
                assert(out[out.len() - 1].covers(t));
            }
        }
    }
}

/// Spacing segments out still covers what they covered.
proof fn lemma_spaced_covers(segs: Seq<ZoomKeyframe>, cfg: ZoomConfig, t: i64)
    requires
        forall|i: int, j: int|
            0 <= i <= j < segs.len() ==> (#[trigger] segs[i]).start <= (#[trigger] segs[j]).start,
    ensures
        segs.len() > 0 ==> spaced(segs, cfg).len() > 0 && spaced(segs, cfg).last().start
            <= segs.last().start,
        covered(segs, t) ==> covered(spaced(segs, cfg), t),
    decreases segs.len(),
{
    if segs.len() > 0 {
        let rest = segs.drop_last();
        let seg = segs.last();
        assert forall|i: int, j: int| 0 <= i <= j < rest.len() implies (#[trigger] rest[i]).start
            <= (#[trigger] rest[j]).start by {
            assert(segs[i].start <= segs[j].start);
        }
        lemma_spaced_covers(rest, cfg, t);
        let before = spaced(rest, cfg);
        let out = spaced(segs, cfg);
        if rest.len() > 0 {
            assert(rest.last() == segs[segs.len() - 2]);
            assert(segs[segs.len() - 2].start <= segs[segs.len() - 1].start);
        }
        if covered(segs, t) {
            let i = choose|i: int| 0 <= i < segs.len() && (#[trigger] segs[i]).covers(t);
            if i < rest.len() {
                assert(rest[i].covers(t));
                let j = choose|j: int| 0 <= j < before.len() && (#[trigger] before[j]).covers(t);
                assert(out[j].covers(t));
            } else {
                assert(out[out.len() - 1].covers(t));
            }
        }
    }
}

/// With click-to-zoom, every click and drag start inside the clip lies in a zoom.
pub proof fn clicks_are_zoomed(events: Seq<InputEvent>, duration: i64, cfg: ZoomConfig, i: int)
    requires
        0 <= i < events.len(),
        is_trigger(events[i], Interest::Click),
        0 <= events[i].time() < duration,
        cfg.pre_roll >= 0,
        cfg.hold > 0,
    ensures
        covered(click_plan(events, duration, cfg), events[i].time()),
        covered(
            in_order(manual_plan(events, duration, cfg) + click_plan(events, duration, cfg)),
            events[i].time(),
        ),
{
    let t = events[i].time();
    let n = events.len() as int;
    let xs = triggers(events, n, Interest::Click);
    let cs = clusters(xs, cfg);
    let segs = cluster_segments(events, cs, duration, cfg);
    lemma_triggers(events, n, Interest::Click);
    let k = choose|k: int| 0 <= k < xs.len() && (#[trigger] xs[k]).t == t;
    lemma_clusters(xs, cfg);
    assert(clustered(cs, xs[k].t));
    lemma_cluster_segments(events, cs, duration, cfg, t);
    lemma_spaced_covers(segs, cfg, t);
    let manual = manual_plan(events, duration, cfg);
    let clicks = click_plan(events, duration, cfg);
    let j = choose|j: int| 0 <= j < clicks.len() && (#[trigger] clicks[j]).covers(t);
    let all = manual + clicks;
    assert(all[manual.len() + j] == clicks[j]);
    lemma_sorted_covers(all, manual.len() + j, t);
}

/// Sorting segments still covers what one of them covers.
proof fn lemma_sorted_covers(z: Seq<ZoomKeyframe>, j: int, t: i64)
    requires
        0 <= j < z.len(),
        z[j].covers(t),
    ensures
        covered(in_order(z), t),
{
    let out = in_order(z);
    sorting_sorts(z);
    z.to_multiset_ensures();
    out.to_multiset_ensures();
    assert(z.to_multiset().count(z[j]) > 0);
    assert(out.contains(z[j]));
    let k = choose|k: int| 0 <= k < out.len() && out[k] == z[j];
    assert(out[k].covers(t));
}

/// A log without marks, clicks and drags plans no zooms: moving the cursor alone never
/// zooms.
pub proof fn no_triggers_no_zooms(events: Seq<InputEvent>, duration: i64, cfg: ZoomConfig)
    requires
        forall|i: int|
            0 <= i < events.len() ==> !is_trigger(#[trigger] events[i], Interest::Mark)
                && !is_trigger(events[i], Interest::Click),
    ensures
        manual_plan(events, duration, cfg) == Seq::<ZoomKeyframe>::empty(),
        click_plan(events, duration, cfg) == Seq::<ZoomKeyframe>::empty(),
{
    lemma_no_triggers(events, events.len() as int, Interest::Mark);
    lemma_no_triggers(events, events.len() as int, Interest::Click);
}

/// A log without triggers of a kind has none.
proof fn lemma_no_triggers(events: Seq<InputEvent>, n: int, kind: Interest)
    requires
        n <= events.len(),
        forall|i: int| 0 <= i < events.len() ==> !is_trigger(#[trigger] events[i], kind),
    ensures
        triggers(events, n, kind) == Seq::<Trigger>::empty(),
    decreases n,
{
    if n > 0 {
        lemma_no_triggers(events, n - 1, kind);
    }
}

/// Whether one zoom lasts from one instant to another.
pub open spec fn stays_zoomed(z: Seq<ZoomKeyframe>, from: int, until: int) -> bool {
    exists|k: int| 0 <= k < z.len() && (#[trigger] z[k]).start <= from && until <= z[k].end
}

/// When the activity at place `m` of a chain is, or when the chain begins.
pub open spec fn chain_time(events: Seq<InputEvent>, t: i64, js: Seq<int>, m: int) -> i64 {
    if m < 0 {
        t
    } else {
        events[js[m]].time()
    }
}

/// Whether events at the places `js`, in the order of the log, follow an instant and each
/// other within a hold.
pub open spec fn is_chain(events: Seq<InputEvent>, t: i64, js: Seq<int>, hold: i64) -> bool {
    &&& forall|m: int| 0 <= m < js.len() ==> 0 <= #[trigger] js[m] < events.len()
    &&& forall|m: int, n: int| 0 <= m < n < js.len() ==> #[trigger] js[m] < #[trigger] js[n]
    &&& forall|m: int|
        0 <= m < js.len() ==> chain_time(events, t, js, m - 1) < (
        #[trigger] events[js[m]]).time() <= chain_time(events, t, js, m - 1) + hold
}

/// More events never take activity back.
proof fn lemma_activity_grows(
    events: Seq<InputEvent>,
    m: int,
    n: int,
    c: Cluster,
    cfg: ZoomConfig,
)
    requires
        m <= n,
    ensures
        last_activity(events, m, c, cfg) <= last_activity(events, n, c, cfg),
    decreases n - m,
{
    if m < n {
        lemma_activity_grows(events, m, n - 1, c, cfg);
        if n <= 0 {
            assert(last_activity(events, m, c, cfg) == c.last_t);
            assert(last_activity(events, n, c, cfg) == c.last_t);
        }
    }
}

/// A chain of events that are near a cluster, or nowhere, carries its activity on.
proof fn lemma_chain(
    events: Seq<InputEvent>,
    t: i64,
    js: Seq<int>,
    m: int,
    c: Cluster,
    cfg: ZoomConfig,
)
    requires
        is_chain(events, t, js, cfg.hold),
        t <= c.last_t,
        0 <= m < js.len(),
        forall|k: int|
            0 <= k < js.len() ==> !((#[trigger] events[js[k]]) is Move) && (
            events[js[k]].place() matches Some(p) ==> within(
                p,
                centroid(c),
                cfg.merge_radius,
                true,
            )),
    ensures
        last_activity(events, js[m] + 1, c, cfg) >= events[js[m]].time(),
    decreases m,
{
    let j = js[m];
    let e = events[js[m]];
    lemma_last_activity(events, j, c, cfg);
    if m > 0 {
        lemma_chain(events, t, js, m - 1, c, cfg);
        assert(js[m - 1] < js[m]);
        lemma_activity_grows(events, js[m - 1] + 1, j, c, cfg);
    }
    assert(0 <= js[m] < events.len());
    let last = last_activity(events, j, c, cfg);
    assert(last >= chain_time(events, t, js, m - 1));
}

/// A cluster's zoom is among the segments of the clusters.
proof fn lemma_segment_of(
    events: Seq<InputEvent>,
    cs: Seq<Cluster>,
    k: int,
    duration: i64,
    cfg: ZoomConfig,
)
    requires
        0 <= k < cs.len(),
        cluster_end(events, cs[k], duration, cfg) > zoom_start(cs[k].first_t, cfg),
    ensures
        stays_zoomed(
            cluster_segments(events, cs, duration, cfg),
            zoom_start(cs[k].first_t, cfg) as int,
            cluster_end(events, cs[k], duration, cfg) as int,
        ),
    decreases cs.len(),
{
    let from = zoom_start(cs[k].first_t, cfg);
    let until = cluster_end(events, cs[k], duration, cfg);
    let rest = cs.drop_last();
    let before = cluster_segments(events, rest, duration, cfg);
    let out = cluster_segments(events, cs, duration, cfg);
    if k < rest.len() {
        lemma_segment_of(events, rest, k, duration, cfg);
        let i = choose|i: int|
            0 <= i < before.len() && (#[trigger] before[i]).start <= from && until <= before[i].end;
        assert(out[i] == before[i]);
    } else {
        assert(out[out.len() - 1] == planned(from, until, cfg));
    }
}

/// Spacing segments out keeps what they cover in one piece.
proof fn lemma_spaced_stays(segs: Seq<ZoomKeyframe>, cfg: ZoomConfig, from: int, until: int)
    requires
        forall|i: int, j: int|
            0 <= i <= j < segs.len() ==> (#[trigger] segs[i]).start <= (#[trigger] segs[j]).start,
        stays_zoomed(segs, from, until),
    ensures
        stays_zoomed(spaced(segs, cfg), from, until),
    decreases segs.len(),
{
    let i = choose|i: int|
        0 <= i < segs.len() && (#[trigger] segs[i]).start <= from && until <= segs[i].end;
    let rest = segs.drop_last();
    let seg = segs.last();
    assert forall|i: int, j: int| 0 <= i <= j < rest.len() implies (#[trigger] rest[i]).start <= (
    #[trigger] rest[j]).start by {
        assert(segs[i].start <= segs[j].start);
    }
    let before = spaced(rest, cfg);
    let out = spaced(segs, cfg);
    if i < rest.len() {
        assert(rest[i] == segs[i]);
        lemma_spaced_stays(rest, cfg, from, until);
        let j = choose|j: int|
            0 <= j < before.len() && (#[trigger] before[j]).start <= from && until <= before[j].end;
        assert(out[j].start <= from && until <= out[j].end);
    } else {
        lemma_spaced_covers(rest, cfg, 0);
        if rest.len() > 0 {
            assert(rest.last() == segs[segs.len() - 2]);
            assert(segs[segs.len() - 2].start <= segs[segs.len() - 1].start);
        }
        let k = out.len() - 1;
        assert(out[k].start <= from && until <= out[k].end);
    }
}

/// Sorting segments keeps each in one piece.
proof fn lemma_sorted_stays(z: Seq<ZoomKeyframe>, j: int, from: int, until: int)
    requires
        0 <= j < z.len(),
        z[j].start <= from,
        until <= z[j].end,
    ensures
        stays_zoomed(in_order(z), from, until),
{
    let out = in_order(z);
    sorting_sorts(z);
    z.to_multiset_ensures();
    out.to_multiset_ensures();
    assert(z.to_multiset().count(z[j]) > 0);
    assert(out.contains(z[j]));
    let k = choose|k: int| 0 <= k < out.len() && out[k] == z[j];
    assert(out[k].start <= from && until <= out[k].end);
}

/// The zoom of the cluster around a click lasts from the lead before the click to a hold
/// after the activity of the cluster.
proof fn lemma_click_stays(
    events: Seq<InputEvent>,
    duration: i64,
    cfg: ZoomConfig,
    t: i64,
    k: int,
    until: int,
)
    requires
        0 <= t < duration,
        cfg.pre_roll >= 0,
        cfg.hold > 0,
        ({
            let cs = clusters(triggers(events, events.len() as int, Interest::Click), cfg);
            &&& 0 <= k < cs.len()
            &&& cs[k].first_t <= t <= cs[k].last_t
            &&& until <= last_activity(events, events.len() as int, cs[k], cfg)
        }),
    ensures
        stays_zoomed(
            click_plan(events, duration, cfg),
            greater(t - cfg.pre_roll, 0),
            lesser(until + cfg.hold, duration as int),
        ),
        stays_zoomed(
            in_order(manual_plan(events, duration, cfg) + click_plan(events, duration, cfg)),
            greater(t - cfg.pre_roll, 0),
            lesser(until + cfg.hold, duration as int),
        ),
{
    let n = events.len() as int;
    let xs = triggers(events, n, Interest::Click);
    let cs = clusters(xs, cfg);
    let segs = cluster_segments(events, cs, duration, cfg);
    let from = greater(t - cfg.pre_roll, 0);
    let end = lesser(until + cfg.hold, duration as int);
    lemma_triggers(events, n, Interest::Click);
    lemma_clusters(xs, cfg);
    lemma_last_activity(events, n, cs[k], cfg);
    lemma_cluster_segments(events, cs, duration, cfg, t);
    lemma_segment_of(events, cs, k, duration, cfg);
    let start = zoom_start(cs[k].first_t, cfg);
    let last = cluster_end(events, cs[k], duration, cfg);
    let i = choose|i: int|
        0 <= i < segs.len() && (#[trigger] segs[i]).start <= start && last <= segs[i].end;
    assert(segs[i].start <= from && end <= segs[i].end);
    lemma_spaced_stays(segs, cfg, from, end);
    let manual = manual_plan(events, duration, cfg);
    let clicks = click_plan(events, duration, cfg);
    let j = choose|j: int|
        0 <= j < clicks.len() && (#[trigger] clicks[j]).start <= from && end <= clicks[j].end;
    let all = manual + clicks;
    assert(all[manual.len() + j] == clicks[j]);
    lemma_sorted_stays(all, manual.len() + j, from, end);
}

/// Typing holds a zoom, wherever the cursor is: with click-to-zoom, a click that is followed
/// by keys, each within the hold of the one before, is shown in one zoom from its lead to a
/// hold after the last key.
pub proof fn typing_holds_the_zoom(
    events: Seq<InputEvent>,
    duration: i64,
    cfg: ZoomConfig,
    i: int,
    js: Seq<int>,
)
    requires
        0 <= i < events.len(),
        events[i] is Click || events[i] is DragStart,
        0 <= events[i].time() < duration,
        cfg.pre_roll >= 0,
        cfg.hold > 0,
        is_chain(events, events[i].time(), js, cfg.hold),
        forall|m: int| 0 <= m < js.len() ==> (#[trigger] events[js[m]]) is KeyType,
    ensures
        ({
            let t = events[i].time();
            let u = chain_time(events, t, js, js.len() - 1);
            let from = greater(t - cfg.pre_roll, 0);
            let until = lesser(u + cfg.hold, duration as int);
            &&& stays_zoomed(click_plan(events, duration, cfg), from, until)
            &&& stays_zoomed(
                in_order(manual_plan(events, duration, cfg) + click_plan(events, duration, cfg)),
                from,
                until,
            )
        }),
{
    let t = events[i].time();
    let n = events.len() as int;
    let cs = clusters(triggers(events, n, Interest::Click), cfg);
    let k = lemma_click_cluster(events, cfg, i);
    let u = chain_time(events, t, js, js.len() - 1);
    lemma_last_activity(events, n, cs[k], cfg);
    if js.len() > 0 {
        let m = js.len() - 1;
        lemma_chain(events, t, js, m, cs[k], cfg);
        assert(0 <= js[m] < events.len());
        lemma_activity_grows(events, js[m] + 1, n, cs[k], cfg);
    }
    lemma_click_stays(events, duration, cfg, t, k, u as int);
}

/// Whether a trigger stands for event `i` of a log.
spec fn stands_for(x: Trigger, events: Seq<InputEvent>, i: int, kind: Interest) -> bool {
    0 <= i < events.len() && is_trigger(events[i], kind) && events[i].time() == x.t
        && events[i].place() == Some(x.pos)
}

/// Whether a trigger stands for an event of a log.
spec fn is_from(x: Trigger, events: Seq<InputEvent>, kind: Interest) -> bool {
    exists|i: int| #[trigger] stands_for(x, events, i, kind)
}

/// Every trigger stands for an event of its kind.
proof fn lemma_trigger_events(events: Seq<InputEvent>, n: int, kind: Interest)
    requires
        n <= events.len(),
    ensures
        triggers(events, n, kind).len() <= greater(n, 0),
        forall|k: int|
            0 <= k < triggers(events, n, kind).len() ==> is_from(
                #[trigger] triggers(events, n, kind)[k],
                events,
                kind,
            ),
    decreases n,
{
    if n > 0 {
        lemma_trigger_events(events, n - 1, kind);
        lemma_triggers(events, n - 1, kind);
        let before = triggers(events, n - 1, kind);
        let out = triggers(events, n, kind);
        let e = events[n - 1];
        let x = Trigger { t: e.time(), pos: e.place()->Some_0 };
        let at = count_until(before, x.t);
        if is_trigger(e, kind) {
            lemma_insert_trigger(before, x);
        }
        assert forall|k: int| 0 <= k < out.len() implies is_from(
            #[trigger] out[k],
            events,
            kind,
        ) by {
            if is_trigger(e, kind) && k == at {
                assert(stands_for(out[k], events, n - 1, kind));
            } else {
                let b = if is_trigger(e, kind) && k > at {
                    k - 1
                } else {
                    k
                };
                assert(out[k] == before[b]);
                assert(is_from(before[b], events, kind));
                let i = choose|i: int| stands_for(before[b], events, i, kind);
                assert(stands_for(out[k], events, i, kind));
            }
        }
    }
}

/// Whether a point lies in a box.
pub open spec fn in_box(p: Point, lo: Point, hi: Point) -> bool {
    lo.x <= p.x <= hi.x && lo.y <= p.y <= hi.y
}

/// Whether a cluster is sound, its middle lies in a box, and its times are those of
/// triggers.
spec fn made_of(c: Cluster, xs: Seq<Trigger>, lo: Point, hi: Point) -> bool {
    &&& sound(c, xs.len() as int)
    &&& lo.x * c.count <= c.sum_x <= hi.x * c.count
    &&& lo.y * c.count <= c.sum_y <= hi.y * c.count
    &&& exists|k: int| 0 <= k < xs.len() && (#[trigger] xs[k]).t == c.first_t
    &&& exists|k: int| 0 <= k < xs.len() && (#[trigger] xs[k]).t == c.last_t
    &&& c.first_t <= c.last_t
}

/// Clusters are made of their triggers.
proof fn lemma_made_of(xs: Seq<Trigger>, cfg: ZoomConfig, lo: Point, hi: Point)
    requires
        xs.len() <= u64::MAX,
        chronological(xs),
        forall|k: int| 0 <= k < xs.len() ==> in_box((#[trigger] xs[k]).pos, lo, hi),
    ensures
        forall|i: int|
            0 <= i < clusters(xs, cfg).len() ==> made_of(
                #[trigger] clusters(xs, cfg)[i],
                xs,
                lo,
                hi,
            ),
        xs.len() > 0 ==> clusters(xs, cfg).len() > 0 && clusters(xs, cfg).last().last_t
            == xs.last().t,
    decreases xs.len(),
{
    if xs.len() > 0 {
        let rest = xs.drop_last();
        let x = xs.last();
        assert(in_box(xs[xs.len() - 1].pos, lo, hi));
        assert forall|k: int| 0 <= k < rest.len() implies in_box((#[trigger] rest[k]).pos, lo, hi) by {
            assert(in_box(xs[k].pos, lo, hi));
        }
        assert forall|i: int, j: int| 0 <= i <= j < rest.len() implies (#[trigger] rest[i]).t <= (
        #[trigger] rest[j]).t by {
            assert(xs[i].t <= xs[j].t);
        }
        lemma_made_of(rest, cfg, lo, hi);
        let before = clusters(rest, cfg);
        let out = clusters(xs, cfg);
        let joined_up = before.len() > 0 && joins(before.last(), x, cfg);
        if rest.len() > 0 {
            assert(rest.last() == xs[xs.len() - 2]);
            assert(xs[xs.len() - 2].t <= xs[xs.len() - 1].t);
        }
        assert forall|i: int| 0 <= i < out.len() implies made_of(#[trigger] out[i], xs, lo, hi) by {
            if i < out.len() - 1 {
                assert(out[i] == before[i]);
                lemma_still_made_of(before[i], xs, lo, hi);
            } else if joined_up {
                let c = before[before.len() - 1];
                assert(made_of(c, rest, lo, hi));
                lemma_still_made_of(c, xs, lo, hi);
                assert(lo.x * (c.count + 1) == lo.x * c.count + lo.x && hi.x * (c.count + 1) == hi.x
                    * c.count + hi.x && lo.y * (c.count + 1) == lo.y * c.count + lo.y && hi.y * (
                c.count + 1) == hi.y * c.count + hi.y) by (nonlinear_arith);
                assert(xs[xs.len() - 1].t == out[i].last_t);
                assert(out[i] == joined(c, x));
            } else {
                assert(out[i] == singleton(x));
                assert(xs[xs.len() - 1].t == out[i].last_t);
            }
        }
    }
}

/// A cluster of some triggers is one of these and another.
proof fn lemma_still_made_of(c: Cluster, xs: Seq<Trigger>, lo: Point, hi: Point)
    requires
        xs.len() > 0,
        made_of(c, xs.drop_last(), lo, hi),
    ensures
        made_of(c, xs, lo, hi),
{
    let rest = xs.drop_last();
    let a = choose|k: int| 0 <= k < rest.len() && (#[trigger] rest[k]).t == c.first_t;
    let b = choose|k: int| 0 <= k < rest.len() && (#[trigger] rest[k]).t == c.last_t;
    assert(xs[a].t == c.first_t);
    assert(xs[b].t == c.last_t);
}

/// The middle of a cluster lies in every box around its triggers.
proof fn lemma_middle(c: Cluster, xs: Seq<Trigger>, lo: Point, hi: Point)
    requires
        made_of(c, xs, lo, hi),
    ensures
        lo.x <= centroid(c).0 <= hi.x,
        lo.y <= centroid(c).1 <= hi.y,
{
    let n = c.count as int;
    let x = c.sum_x as int;
    let y = c.sum_y as int;
    assert(lo.x <= x / n <= hi.x) by (nonlinear_arith)
        requires
            n >= 1,
            lo.x * n <= x <= hi.x * n,
    ;
    assert(lo.y <= y / n <= hi.y) by (nonlinear_arith)
        requires
            n >= 1,
            lo.y * n <= y <= hi.y * n,
    ;
}

/// A click lies in a cluster.
proof fn lemma_click_cluster(events: Seq<InputEvent>, cfg: ZoomConfig, i: int) -> (k: int)
    requires
        0 <= i < events.len(),
        events[i] is Click || events[i] is DragStart,
    ensures
        ({
            let cs = clusters(triggers(events, events.len() as int, Interest::Click), cfg);
            0 <= k < cs.len() && cs[k].first_t <= events[i].time() <= cs[k].last_t
        }),
{
    let t = events[i].time();
    let n = events.len() as int;
    let xs = triggers(events, n, Interest::Click);
    let cs = clusters(xs, cfg);
    lemma_triggers(events, n, Interest::Click);
    assert(is_trigger(events[i], Interest::Click));
    let x = choose|k: int| 0 <= k < xs.len() && (#[trigger] xs[k]).t == t;
    lemma_clusters(xs, cfg);
    assert(clustered(cs, xs[x].t));
    choose|k: int| 0 <= k < cs.len() && #[trigger] spans(cs[k], t)
}

/// Where all clicks are at one place, it is the middle of every cluster.
proof fn lemma_one_place(events: Seq<InputEvent>, cfg: ZoomConfig, p: Point, k: int)
    requires
        events.len() <= u64::MAX,
        forall|i: int|
            0 <= i < events.len() && ((#[trigger] events[i]) is Click || events[i] is DragStart)
                ==> events[i].place() == Some(p),
        0 <= k < clusters(triggers(events, events.len() as int, Interest::Click), cfg).len(),
    ensures
        centroid(clusters(triggers(events, events.len() as int, Interest::Click), cfg)[k]) == (
            p.x as int,
            p.y as int,
        ),
{
    let n = events.len() as int;
    let xs = triggers(events, n, Interest::Click);
    let cs = clusters(xs, cfg);
    lemma_triggers(events, n, Interest::Click);
    lemma_trigger_events(events, n, Interest::Click);
    assert forall|k: int| 0 <= k < xs.len() implies in_box((#[trigger] xs[k]).pos, p, p) by {
        assert(is_from(xs[k], events, Interest::Click));
        let e = choose|e: int| stands_for(xs[k], events, e, Interest::Click);
        assert(events[e].place() == Some(p));
    }
    lemma_made_of(xs, cfg, p, p);
    assert(made_of(cs[k], xs, p, p));
    lemma_middle(cs[k], xs, p, p);
}

/// Activity close to where one clicks holds a zoom: with click-to-zoom, where all clicks and
/// drag starts are at one place, one of them that is followed by keys, or by clicks, scrolls
/// and drags no farther from there than one and a half times the merge radius, each within
/// the hold of the one before, is shown in one zoom from its lead to a hold after the last.
pub proof fn activity_nearby_holds_the_zoom(
    events: Seq<InputEvent>,
    duration: i64,
    cfg: ZoomConfig,
    i: int,
    js: Seq<int>,
    p: Point,
)
    requires
        events.len() <= u64::MAX,
        0 <= i < events.len(),
        events[i] is Click || events[i] is DragStart,
        0 <= events[i].time() < duration,
        cfg.pre_roll >= 0,
        cfg.hold > 0,
        cfg.merge_radius >= 0,
        forall|k: int|
            0 <= k < events.len() && ((#[trigger] events[k]) is Click || events[k] is DragStart)
                ==> events[k].place() == Some(p),
        is_chain(events, events[i].time(), js, cfg.hold),
        forall|m: int|
            0 <= m < js.len() ==> !((#[trigger] events[js[m]]) is Move) && (
            events[js[m]].place() matches Some(q) ==> 4 * ((q.x - p.x) * (q.x - p.x) + (q.y - p.y)
                * (q.y - p.y)) <= 9 * (cfg.merge_radius * cfg.merge_radius)),
    ensures
        ({
            let t = events[i].time();
            let u = chain_time(events, t, js, js.len() - 1);
            let from = greater(t - cfg.pre_roll, 0);
            let until = lesser(u + cfg.hold, duration as int);
            &&& stays_zoomed(click_plan(events, duration, cfg), from, until)
            &&& stays_zoomed(
                in_order(manual_plan(events, duration, cfg) + click_plan(events, duration, cfg)),
                from,
                until,
            )
        }),
{
    let t = events[i].time();
    let n = events.len() as int;
    let cs = clusters(triggers(events, n, Interest::Click), cfg);
    let k = lemma_click_cluster(events, cfg, i);
    lemma_one_place(events, cfg, p, k);
    let c = cs[k];
    assert forall|m: int| 0 <= m < js.len() implies !((#[trigger] events[js[m]]) is Move) && (
    events[js[m]].place() matches Some(q) ==> within(q, centroid(c), cfg.merge_radius, true)) by {
        if let Some(q) = events[js[m]].place() {
            assert(4 * square_distance(q, (p.x as int, p.y as int)) <= 9 * (cfg.merge_radius
                * cfg.merge_radius));
        }
    }
    let u = chain_time(events, t, js, js.len() - 1);
    lemma_last_activity(events, n, c, cfg);
    if js.len() > 0 {
        let m = js.len() - 1;
        lemma_chain(events, t, js, m, c, cfg);
        assert(0 <= js[m] < events.len());
        lemma_activity_grows(events, js[m] + 1, n, c, cfg);
    }
    lemma_click_stays(events, duration, cfg, t, k, u as int);
}

/// Whether a zoom begins the lead before a click or drag start `i`, or with the clip.
pub open spec fn begins_at(z: ZoomKeyframe, events: Seq<InputEvent>, i: int, cfg: ZoomConfig) -> bool {
    &&& 0 <= i < events.len()
    &&& events[i] is Click || events[i] is DragStart
    &&& z.start == greater(events[i].time() - cfg.pre_roll, 0)
}

/// Whether a zoom ends a hold after event `j`, or with the clip, and this event is a click, a
/// key, or other activity no farther than one and a half times the merge radius, along
/// either axis, from a box.
pub open spec fn ends_after(
    z: ZoomKeyframe,
    events: Seq<InputEvent>,
    j: int,
    duration: i64,
    cfg: ZoomConfig,
    lo: Point,
    hi: Point,
) -> bool {
    let e = events[j];
    &&& 0 <= j < events.len()
    &&& !(e is Move)
    &&& z.end == lesser(e.time() + cfg.hold, duration as int)
    &&& e is Click || e is DragStart || e is KeyType || (e.place() matches Some(q) && 2 * (lo.x
        - q.x) <= 3 * cfg.merge_radius && 2 * (q.x - hi.x) <= 3 * cfg.merge_radius && 2 * (lo.y
        - q.y) <= 3 * cfg.merge_radius && 2 * (q.y - hi.y) <= 3 * cfg.merge_radius)
}

/// Whether a zoom has the configured look, and comes from a click and from activity.
pub open spec fn comes_from_activity(
    z: ZoomKeyframe,
    events: Seq<InputEvent>,
    duration: i64,
    cfg: ZoomConfig,
    lo: Point,
    hi: Point,
) -> bool {
    &&& z.amount == cfg.amount
    &&& z.mode is Auto
    &&& z.edge_snap_ratio == cfg.edge_snap_ratio
    &&& z.style is Smooth
    &&& exists|i: int| #[trigger] begins_at(z, events, i, cfg)
    &&& exists|j: int| #[trigger] ends_after(z, events, j, duration, cfg, lo, hi)
}

/// A point within one and a half times a radius of a centre is no farther along either axis.
proof fn lemma_axes(p: Point, c: (int, int), radius: i64)
    requires
        within(p, c, radius, true),
    ensures
        -3 * radius <= 2 * (p.x - c.0) <= 3 * radius,
        -3 * radius <= 2 * (p.y - c.1) <= 3 * radius,
{
    let r = radius as int;
    let a = p.x - c.0;
    let b = p.y - c.1;
    assert(a * a >= 0 && b * b >= 0) by (nonlinear_arith);
    assert(-3 * r <= 2 * a <= 3 * r) by (nonlinear_arith)
        requires
            r >= 0,
            4 * (a * a) <= 9 * (r * r),
    ;
    assert(-3 * r <= 2 * b <= 3 * r) by (nonlinear_arith)
        requires
            r >= 0,
            4 * (b * b) <= 9 * (r * r),
    ;
}

/// A cluster's last activity is its last trigger, or an event near it or nowhere.
proof fn lemma_activity_event(
    events: Seq<InputEvent>,
    n: int,
    c: Cluster,
    cfg: ZoomConfig,
    lo: Point,
    hi: Point,
) -> (j: int)
    requires
        n <= events.len(),
        lo.x <= centroid(c).0 <= hi.x,
        lo.y <= centroid(c).1 <= hi.y,
    ensures
        last_activity(events, n, c, cfg) == c.last_t || ({
            let e = events[j];
            &&& 0 <= j < events.len()
            &&& !(e is Move)
            &&& e.time() == last_activity(events, n, c, cfg)
            &&& e is KeyType || (e.place() matches Some(q) && 2 * (lo.x - q.x) <= 3
                * cfg.merge_radius && 2 * (q.x - hi.x) <= 3 * cfg.merge_radius && 2 * (lo.y - q.y)
                <= 3 * cfg.merge_radius && 2 * (q.y - hi.y) <= 3 * cfg.merge_radius)
        }),
    decreases n,
{
    if n <= 0 {
        0
    } else {
        let j = lemma_activity_event(events, n - 1, c, cfg, lo, hi);
        let last = last_activity(events, n - 1, c, cfg);
        let e = events[n - 1];
        if sustains(e, c, last, cfg) {
            if let Some(q) = e.place() {
                lemma_axes(q, centroid(c), cfg.merge_radius);
            }
            n - 1
        } else {
            j
        }
    }
}

/// Segments of clusters come from clicks and activity.
proof fn lemma_segments_come_from_activity(
    events: Seq<InputEvent>,
    xs: Seq<Trigger>,
    cs: Seq<Cluster>,
    duration: i64,
    cfg: ZoomConfig,
    lo: Point,
    hi: Point,
)
    requires
        forall|i: int| 0 <= i < cs.len() ==> made_of(#[trigger] cs[i], xs, lo, hi),
        forall|k: int|
            0 <= k < xs.len() ==> is_from(#[trigger] xs[k], events, Interest::Click),
        cfg.pre_roll >= 0,
        cfg.hold >= 0,
    ensures
        forall|i: int|
            0 <= i < cluster_segments(events, cs, duration, cfg).len() ==> comes_from_activity(
                #[trigger] cluster_segments(events, cs, duration, cfg)[i],
                events,
                duration,
                cfg,
                lo,
                hi,
            ),
    decreases cs.len(),
{
    if cs.len() > 0 {
        let rest = cs.drop_last();
        let c = cs.last();
        assert forall|i: int| 0 <= i < rest.len() implies made_of(#[trigger] rest[i], xs, lo, hi) by {
            assert(made_of(cs[i], xs, lo, hi));
        }
        lemma_segments_come_from_activity(events, xs, rest, duration, cfg, lo, hi);
        let before = cluster_segments(events, rest, duration, cfg);
        let out = cluster_segments(events, cs, duration, cfg);
        assert forall|i: int| 0 <= i < out.len() implies comes_from_activity(
            #[trigger] out[i],
            events,
            duration,
            cfg,
            lo,
            hi,
        ) by {
            if i < before.len() {
                assert(out[i] == before[i]);
            } else {
                let z = out[i];
                assert(made_of(cs[cs.len() - 1], xs, lo, hi));
                lemma_middle(c, xs, lo, hi);
                let a = choose|k: int| 0 <= k < xs.len() && (#[trigger] xs[k]).t == c.first_t;
                assert(is_from(xs[a], events, Interest::Click));
                let first = choose|e: int| stands_for(xs[a], events, e, Interest::Click);
                assert(begins_at(z, events, first, cfg));
                let b = choose|k: int| 0 <= k < xs.len() && (#[trigger] xs[k]).t == c.last_t;
                assert(is_from(xs[b], events, Interest::Click));
                let last = choose|e: int| stands_for(xs[b], events, e, Interest::Click);
                let j = lemma_activity_event(events, events.len() as int, c, cfg, lo, hi);
                if last_activity(events, events.len() as int, c, cfg) == c.last_t {
                    assert(ends_after(z, events, last, duration, cfg, lo, hi));
                } else {
                    assert(ends_after(z, events, j, duration, cfg, lo, hi));
                }
            }
        }
    }
}

/// Spaced segments come from what the segments come from.
proof fn lemma_spaced_come_from_activity(
    segs: Seq<ZoomKeyframe>,
    events: Seq<InputEvent>,
    duration: i64,
    cfg: ZoomConfig,
    lo: Point,
    hi: Point,
)
    requires
        forall|i: int|
            0 <= i < segs.len() ==> comes_from_activity(
                #[trigger] segs[i],
                events,
                duration,
                cfg,
                lo,
                hi,
            ),
    ensures
        forall|i: int|
            0 <= i < spaced(segs, cfg).len() ==> comes_from_activity(
                #[trigger] spaced(segs, cfg)[i],
                events,
                duration,
                cfg,
                lo,
                hi,
            ),
    decreases segs.len(),
{
    if segs.len() > 0 {
        let rest = segs.drop_last();
        let seg = segs[segs.len() - 1];
        assert(comes_from_activity(seg, events, duration, cfg, lo, hi));
        assert forall|i: int| 0 <= i < rest.len() implies comes_from_activity(
            #[trigger] rest[i],
            events,
            duration,
            cfg,
            lo,
            hi,
        ) by {
            assert(rest[i] == segs[i]);
        }
        lemma_spaced_come_from_activity(rest, events, duration, cfg, lo, hi);
        let before = spaced(rest, cfg);
        let out = spaced(segs, cfg);
        assert forall|i: int| 0 <= i < out.len() implies comes_from_activity(
            #[trigger] out[i],
            events,
            duration,
            cfg,
            lo,
            hi,
        ) by {
            if i < before.len() {
                let k = before[i];
                assert(comes_from_activity(k, events, duration, cfg, lo, hi));
                if out[i] != k {
                    let a = choose|a: int| #[trigger] begins_at(k, events, a, cfg);
                    assert(begins_at(out[i], events, a, cfg));
                    let b = choose|b: int| #[trigger]
                        ends_after(k, events, b, duration, cfg, lo, hi);
                    assert(out[i].end == k.end || out[i].end == seg.end);
                    if out[i].end == k.end {
                        assert(ends_after(out[i], events, b, duration, cfg, lo, hi));
                    } else {
                        let d = choose|d: int| #[trigger]
                            ends_after(seg, events, d, duration, cfg, lo, hi);
                        assert(ends_after(out[i], events, d, duration, cfg, lo, hi));
                    }
                }
            } else {
                assert(out[i] == seg);
            }
        }
    }
}

/// Every click-driven zoom has the configured look, begins the lead before a click or drag
/// start, and ends a hold after some activity, unless the clip begins or ends first. That
/// activity is a click, a key, or close to the clicks: moving the cursor does not hold a
/// zoom, and neither does what happens far from where one clicked.
pub proof fn zooms_come_from_activity(
    events: Seq<InputEvent>,
    duration: i64,
    cfg: ZoomConfig,
    k: int,
    lo: Point,
    hi: Point,
)
    requires
        events.len() <= u64::MAX,
        0 <= k < click_plan(events, duration, cfg).len(),
        cfg.pre_roll >= 0,
        cfg.hold >= 0,
        forall|i: int|
            0 <= i < events.len() && ((#[trigger] events[i]) is Click || events[i] is DragStart)
                ==> (events[i].place() matches Some(p) && in_box(p, lo, hi)),
    ensures
        comes_from_activity(click_plan(events, duration, cfg)[k], events, duration, cfg, lo, hi),
{
    let n = events.len() as int;
    let xs = triggers(events, n, Interest::Click);
    let cs = clusters(xs, cfg);
    lemma_triggers(events, n, Interest::Click);
    lemma_trigger_events(events, n, Interest::Click);
    assert forall|k: int| 0 <= k < xs.len() implies in_box((#[trigger] xs[k]).pos, lo, hi) by {
        assert(is_from(xs[k], events, Interest::Click));
        let e = choose|e: int| stands_for(xs[k], events, e, Interest::Click);
        assert(events[e].place() == Some(xs[k].pos));
    }
    lemma_made_of(xs, cfg, lo, hi);
    lemma_segments_come_from_activity(events, xs, cs, duration, cfg, lo, hi);
    lemma_spaced_come_from_activity(
        cluster_segments(events, cs, duration, cfg),
        events,
        duration,
        cfg,
        lo,
        hi,
    );
}

/// Whether segments hold one from a start to an end.
pub open spec fn holds_segment(z: Seq<ZoomKeyframe>, start: int, end: int) -> bool {
    exists|k: int| 0 <= k < z.len() && (#[trigger] z[k]).start == start && z[k].end == end
}

/// The zooms of the pairs of marks among the first `n` are the toggled segments.
proof fn lemma_toggles(marks: Seq<Trigger>, n: int, m: int, duration: i64, cfg: ZoomConfig)
    requires
        0 <= m < n,
        cfg.pre_roll >= 0,
    ensures
        toggle_end(marks, 2 * m, duration) > greater(marks[2 * m].t - cfg.pre_roll, 0)
            ==> holds_segment(
            toggles(marks, n, duration, cfg),
            greater(marks[2 * m].t - cfg.pre_roll, 0),
            toggle_end(marks, 2 * m, duration) as int,
        ),
    decreases n,
{
    let start = greater(marks[2 * m].t - cfg.pre_roll, 0);
    let end = toggle_end(marks, 2 * m, duration);
    if end > start {
        let before = toggles(marks, n - 1, duration, cfg);
        let out = toggles(marks, n, duration, cfg);
        if m < n - 1 {
            lemma_toggles(marks, n - 1, m, duration, cfg);
            let k = choose|k: int|
                0 <= k < before.len() && (#[trigger] before[k]).start == start && before[k].end
                    == end;
            assert(out[k] == before[k]);
        } else {
            assert(out[out.len() - 1].start == start);
        }
    }
}

/// Each toggled segment has the configured look, and there is one for each pair at most.
proof fn lemma_toggles_look(marks: Seq<Trigger>, n: int, duration: i64, cfg: ZoomConfig)
    ensures
        toggles(marks, n, duration, cfg).len() <= greater(n, 0),
        forall|k: int|
            0 <= k < toggles(marks, n, duration, cfg).len() ==> (#[trigger] toggles(
                marks,
                n,
                duration,
                cfg,
            )[k]).amount == cfg.amount && toggles(marks, n, duration, cfg)[k].mode is Auto,
    decreases n,
{
    if n > 0 {
        lemma_toggles_look(marks, n - 1, duration, cfg);
    }
}

/// The manual hotkey toggles: in a log whose marks come, in the order of their times, at the
/// instants `ts`, the first press zooms in a lead ahead of it and the second press zooms out
/// at it, and so on; a press that no other follows holds the zoom to the end of the clip. A
/// log has no other manual zooms than these.
pub proof fn marks_toggle_the_zoom(
    events: Seq<InputEvent>,
    duration: i64,
    cfg: ZoomConfig,
    ts: Seq<i64>,
    m: int,
)
    requires
        ts == triggers(events, events.len() as int, Interest::Mark).map_values(|x: Trigger| x.t),
        cfg.pre_roll >= 0,
        0 <= 2 * m < ts.len(),
    ensures
        forall|i: int, j: int| 0 <= i <= j < ts.len() ==> #[trigger] ts[i] <= #[trigger] ts[j],
        forall|i: int|
            0 <= i < events.len() && (#[trigger] events[i]) is ZoomMark ==> ts.contains(
                events[i].time(),
            ),
        ({
            let z = manual_plan(events, duration, cfg);
            let start = greater(ts[2 * m] - cfg.pre_roll, 0);
            let end = if 2 * m + 1 < ts.len() {
                lesser(ts[2 * m + 1] as int, duration as int)
            } else {
                duration as int
            };
            &&& start < end ==> holds_segment(z, start, end)
            &&& 2 * z.len() <= ts.len() + 1
            &&& forall|k: int|
                0 <= k < z.len() ==> (#[trigger] z[k]).amount == cfg.amount && z[k].mode is Auto
        }),
{
    let n = events.len() as int;
    let marks = triggers(events, n, Interest::Mark);
    lemma_triggers(events, n, Interest::Mark);
    assert forall|i: int| 0 <= i < events.len() && (#[trigger] events[i]) is ZoomMark implies ts.contains(
        events[i].time(),
    ) by {
        assert(is_trigger(events[i], Interest::Mark));
        let k = choose|k: int|
            0 <= k < marks.len() && (#[trigger] marks[k]).t == events[i].time();
        assert(ts[k] == events[i].time());
    }
    assert forall|i: int, j: int| 0 <= i <= j < ts.len() implies #[trigger] ts[i]
        <= #[trigger] ts[j] by {
        assert(marks[i].t <= marks[j].t);
    }
    lemma_toggles(marks, pairs(marks.len() as int), m, duration, cfg);
    lemma_toggles_look(marks, pairs(marks.len() as int), duration, cfg);
}

/// A number counts the triggers no later than `t` where exactly these come before it.
proof fn lemma_count_is(s: Seq<Trigger>, t: i64, c: int)
    requires
        chronological(s),
        0 <= c <= s.len(),
        forall|i: int| 0 <= i < s.len() ==> ((#[trigger] s[i]).t <= t <==> i < c),
    ensures
        count_until(s, t) == c,
{
    lemma_count_until(s, t);
    let n = count_until(s, t);
    if n < c {
        assert(s[n].t <= t);
    } else if c < n {
        assert(s[c].t <= t);
    }
}

/// Whether event `m` tells where the cursor is at a time: of the first `n` events with a
/// place until then it is the latest, and of equally late ones the last in the log.
pub open spec fn is_latest_place(events: Seq<InputEvent>, n: int, t: i64, m: int) -> bool {
    &&& 0 <= m < n
    &&& events[m].place() is Some
    &&& events[m].time() <= t
    &&& forall|k: int|
        0 <= k < n && (#[trigger] events[k]).place() is Some && events[k].time() <= t
            ==> events[k].time() < events[m].time() || (events[k].time() == events[m].time() && k
            <= m)
}

/// The triggers of the first `n` events do not depend on later ones.
proof fn lemma_triggers_of_prefix(events: Seq<InputEvent>, m: int, n: int, kind: Interest)
    requires
        n <= m <= events.len(),
        0 <= m,
    ensures
        triggers(events.take(m), n, kind) == triggers(events, n, kind),
    decreases n,
{
    if n > 0 {
        lemma_triggers_of_prefix(events, m, n - 1, kind);
        assert(events.take(m)[n - 1] == events[n - 1]);
    }
}

/// How inserting a trigger changes the count of those until a time.
proof fn lemma_insert_count(s: Seq<Trigger>, x: Trigger, t: i64)
    requires
        chronological(s),
    ensures
        ({
            let at = count_until(s, x.t);
            let c = count_until(s, t);
            let out = s.insert(at, x);
            &&& 0 <= at <= s.len()
            &&& 0 <= c <= s.len()
            &&& chronological(out)
            &&& x.t > t ==> c <= at && count_until(out, t) == c
            &&& x.t <= t ==> at <= c && count_until(out, t) == c + 1
            &&& at < c ==> x.t < s[c - 1].t && s[at].t <= t && x.t < s[at].t
        }),
{
    let at = count_until(s, x.t);
    let c = count_until(s, t);
    let out = s.insert(at, x);
    lemma_insert_trigger(s, x);
    lemma_count_until(s, x.t);
    lemma_count_until(s, t);
    if at < c {
        assert(s[at].t <= t);
        assert(s[c - 1].t <= t);
    }
    if c < at {
        assert(s[c].t <= x.t);
    }
    let d = if x.t > t {
        c
    } else {
        c + 1
    };
    assert forall|i: int| 0 <= i < out.len() implies ((#[trigger] out[i]).t <= t <==> i < d) by {
        if i < at {
            assert(out[i] == s[i]);
        } else if i > at {
            assert(out[i] == s[i - 1]);
        }
    }
    lemma_count_is(out, t, d);
}

/// Each sample is an event's.
proof fn lemma_sample_event(events: Seq<InputEvent>, n: int, j: int) -> (k: int)
    requires
        0 <= n <= events.len(),
        0 <= j < triggers(events, n, Interest::Position).len(),
    ensures
        0 <= k < n,
        events[k].place() is Some,
        events[k].time() == triggers(events, n, Interest::Position)[j].t,
{
    let head = events.take(n);
    lemma_triggers_of_prefix(events, n, n, Interest::Position);
    lemma_trigger_events(head, n, Interest::Position);
    let x = triggers(head, n, Interest::Position)[j];
    assert(is_from(x, head, Interest::Position));
    let k = choose|k: int| stands_for(x, head, k, Interest::Position);
    assert(events[k] == head[k]);
    k
}

/// The latest sample until a time is that of the event that tells where the cursor is.
pub proof fn lemma_latest_sample(events: Seq<InputEvent>, n: int, t: i64, m: int)
    requires
        n <= events.len(),
        is_latest_place(events, n, t, m),
    ensures
        ({
            let xs = triggers(events, n, Interest::Position);
            let c = count_until(xs, t);
            &&& chronological(xs)
            &&& 0 < c <= xs.len()
            &&& xs[c - 1] == (Trigger {
                t: events[m].time(),
                pos: events[m].place()->Some_0,
            })
        }),
    decreases n,
{
    let before = triggers(events, n - 1, Interest::Position);
    let xs = triggers(events, n, Interest::Position);
    let e = events[n - 1];
    lemma_triggers(events, n - 1, Interest::Position);
    if m < n - 1 {
        lemma_latest_sample(events, n - 1, t, m);
    }
    if e.place() is Some {
        let x = Trigger { t: e.time(), pos: e.place()->Some_0 };
        let at = count_until(before, x.t);
        let c = count_until(before, t);
        lemma_insert_count(before, x, t);
        if m == n - 1 {
            if at < c {
                let k = lemma_sample_event(events, n - 1, at);
                assert(events[k].time() <= x.t);
            }
        } else if x.t <= t {
            assert(events[n - 1].time() < events[m].time());
            lemma_count_until(before, x.t);
            assert(before[c - 1].t > x.t);
        }
    }
}

/// Whether a time is at or before one instant, or after another.
spec fn is_outside(t: int, lo: int, hi: int) -> bool {
    t <= lo || t > hi
}

/// Whether a cluster lies on one side of a stretch of time.
spec fn is_parted(c: Cluster, lo: int, hi: int) -> bool {
    c.last_t <= lo || c.first_t > hi
}

/// Triggers on both sides of a long stretch of time make clusters on either side.
proof fn lemma_parted_clusters(xs: Seq<Trigger>, cfg: ZoomConfig, lo: int, hi: int)
    requires
        chronological(xs),
        forall|k: int| 0 <= k < xs.len() ==> is_outside((#[trigger] xs[k]).t as int, lo, hi),
        cfg.merge_gap <= hi - lo,
    ensures
        forall|i: int|
            0 <= i < clusters(xs, cfg).len() ==> is_parted(#[trigger] clusters(xs, cfg)[i], lo, hi),
    decreases xs.len(),
{
    if xs.len() > 0 {
        let rest = xs.drop_last();
        let x = xs[xs.len() - 1];
        assert(is_outside(x.t as int, lo, hi));
        assert forall|k: int| 0 <= k < rest.len() implies is_outside(
            (#[trigger] rest[k]).t as int,
            lo,
            hi,
        ) by {
            assert(is_outside(xs[k].t as int, lo, hi));
        }
        assert forall|i: int, j: int| 0 <= i <= j < rest.len() implies (#[trigger] rest[i]).t <= (
        #[trigger] rest[j]).t by {
            assert(xs[i].t <= xs[j].t);
        }
        lemma_parted_clusters(rest, cfg, lo, hi);
        let before = clusters(rest, cfg);
        let out = clusters(xs, cfg);
        assert forall|i: int| 0 <= i < out.len() implies is_parted(#[trigger] out[i], lo, hi) by {
            if i < out.len() - 1 {
                assert(out[i] == before[i]);
            } else if before.len() > 0 {
                assert(is_parted(before[before.len() - 1], lo, hi));
            }
        }
    }
}

/// Activity does not reach over a stretch of time without any.
proof fn lemma_parted_activity(
    events: Seq<InputEvent>,
    n: int,
    c: Cluster,
    cfg: ZoomConfig,
    lo: int,
    hi: int,
)
    requires
        n <= events.len(),
        c.last_t <= lo,
        cfg.hold <= hi - lo,
        forall|i: int|
            0 <= i < events.len() && !((#[trigger] events[i]) is Move) ==> is_outside(
                events[i].time() as int,
                lo,
                hi,
            ),
    ensures
        last_activity(events, n, c, cfg) <= lo,
    decreases n,
{
    if n > 0 {
        lemma_parted_activity(events, n - 1, c, cfg, lo, hi);
        let e = events[n - 1];
        if !(e is Move) {
            assert(is_outside(e.time() as int, lo, hi));
        }
    }
}

/// Whether a segment ends by one instant, or starts after another.
pub open spec fn stays_clear(k: ZoomKeyframe, lo: int, hi: int) -> bool {
    k.end <= lo || k.start > hi
}

/// Segments of clusters stay clear of what is far from activity.
proof fn lemma_clear_segments(
    events: Seq<InputEvent>,
    cs: Seq<Cluster>,
    duration: i64,
    cfg: ZoomConfig,
    lo: int,
    hi: int,
)
    requires
        forall|i: int| 0 <= i < cs.len() ==> is_parted(#[trigger] cs[i], lo, hi),
        0 <= cfg.hold <= hi - lo,
        cfg.pre_roll >= 0,
        lo + cfg.hold >= i64::MIN,
        forall|i: int|
            0 <= i < events.len() && !((#[trigger] events[i]) is Move) ==> is_outside(
                events[i].time() as int,
                lo,
                hi,
            ),
    ensures
        forall|i: int|
            0 <= i < cluster_segments(events, cs, duration, cfg).len() ==> stays_clear(
                #[trigger] cluster_segments(events, cs, duration, cfg)[i],
                lo + cfg.hold,
                hi - cfg.pre_roll,
            ),
    decreases cs.len(),
{
    if cs.len() > 0 {
        let rest = cs.drop_last();
        let c = cs[cs.len() - 1];
        assert forall|i: int| 0 <= i < rest.len() implies is_parted(#[trigger] rest[i], lo, hi) by {
            assert(is_parted(cs[i], lo, hi));
        }
        lemma_clear_segments(events, rest, duration, cfg, lo, hi);
        let before = cluster_segments(events, rest, duration, cfg);
        let out = cluster_segments(events, cs, duration, cfg);
        assert(is_parted(c, lo, hi));
        if c.last_t <= lo {
            lemma_parted_activity(events, events.len() as int, c, cfg, lo, hi);
        }
        assert forall|i: int| 0 <= i < out.len() implies stays_clear(
            #[trigger] out[i],
            lo + cfg.hold,
            hi - cfg.pre_roll,
        ) by {
            if i < before.len() {
                assert(out[i] == before[i]);
            }
        }
    }
}

/// Spacing segments out does not join them over a long gap.
proof fn lemma_clear_spaced(segs: Seq<ZoomKeyframe>, cfg: ZoomConfig, lo: int, hi: int)
    requires
        forall|i: int| 0 <= i < segs.len() ==> stays_clear(#[trigger] segs[i], lo, hi),
        forall|i: int| 0 <= i < segs.len() ==> (#[trigger] segs[i]).start < segs[i].end,
        forall|i: int, j: int|
            0 <= i <= j < segs.len() ==> (#[trigger] segs[i]).start <= (#[trigger] segs[j]).start,
        lo + cfg.min_rezoom_interval <= hi,
        lo <= hi,
    ensures
        forall|i: int|
            0 <= i < spaced(segs, cfg).len() ==> stays_clear(#[trigger] spaced(segs, cfg)[i], lo, hi),
        segs.len() > 0 ==> spaced(segs, cfg).len() > 0 && spaced(segs, cfg).last().start
            <= segs.last().start,
    decreases segs.len(),
{
    if segs.len() > 0 {
        let rest = segs.drop_last();
        let seg = segs[segs.len() - 1];
        assert forall|i: int| 0 <= i < rest.len() implies stays_clear(#[trigger] rest[i], lo, hi) by {
            assert(stays_clear(segs[i], lo, hi));
        }
        assert forall|i: int| 0 <= i < rest.len() implies (#[trigger] rest[i]).start < rest[i].end by {
            assert(segs[i].start < segs[i].end);
        }
        assert forall|i: int, j: int| 0 <= i <= j < rest.len() implies (#[trigger] rest[i]).start
            <= (#[trigger] rest[j]).start by {
            assert(segs[i].start <= segs[j].start);
        }
        lemma_clear_spaced(rest, cfg, lo, hi);
        let before = spaced(rest, cfg);
        let out = spaced(segs, cfg);
        assert(stays_clear(seg, lo, hi));
        if rest.len() > 0 {
            assert(rest.last() == segs[segs.len() - 2]);
            assert(segs[segs.len() - 2].start <= segs[segs.len() - 1].start);
        }
        assert forall|i: int| 0 <= i < out.len() implies stays_clear(#[trigger] out[i], lo, hi) by {
            if i < out.len() - 1 {
                assert(out[i] == before[i]);
            } else if before.len() > 0 {
                assert(stays_clear(before[before.len() - 1], lo, hi));
            }
        }
    }
}

/// Zooms are not joined over a quiet stretch: an instant that is farther from all activity
/// before it than the hold and the shortest time between zooms, and farther from all after it
/// than the lead and that time, is in no click-driven zoom.
pub proof fn quiet_stretches_are_not_zoomed(
    events: Seq<InputEvent>,
    duration: i64,
    cfg: ZoomConfig,
    s: i64,
)
    requires
        s >= 0,
        cfg.pre_roll >= 0,
        cfg.hold >= 0,
        cfg.min_rezoom_interval >= 0,
        cfg.merge_gap <= cfg.hold + cfg.pre_roll + 2 * cfg.min_rezoom_interval,
        forall|i: int|
            0 <= i < events.len() && !((#[trigger] events[i]) is Move) ==> events[i].time() <= s
                - cfg.hold - cfg.min_rezoom_interval || events[i].time() > s + cfg.pre_roll
                + cfg.min_rezoom_interval,
    ensures
        forall|k: int|
            0 <= k < click_plan(events, duration, cfg).len() ==> stays_clear(
                #[trigger] click_plan(events, duration, cfg)[k],
                s - cfg.min_rezoom_interval,
                s + cfg.min_rezoom_interval,
            ),
        !covered(click_plan(events, duration, cfg), s),
{
    let n = events.len() as int;
    let g = cfg.min_rezoom_interval as int;
    let lo = s - cfg.hold - g;
    let hi = s + cfg.pre_roll + g;
    let xs = triggers(events, n, Interest::Click);
    let cs = clusters(xs, cfg);
    let segs = cluster_segments(events, cs, duration, cfg);
    lemma_triggers(events, n, Interest::Click);
    lemma_trigger_events(events, n, Interest::Click);
    assert forall|k: int| 0 <= k < xs.len() implies is_outside(
        (#[trigger] xs[k]).t as int,
        lo,
        hi,
    ) by {
        assert(is_from(xs[k], events, Interest::Click));
        let e = choose|e: int| stands_for(xs[k], events, e, Interest::Click);
        assert(!(events[e] is Move));
    }
    lemma_parted_clusters(xs, cfg, lo, hi);
    lemma_clusters(xs, cfg);
    assert forall|i: int| 0 <= i < events.len() && !((#[trigger] events[i]) is Move) implies is_outside(
        events[i].time() as int,
        lo,
        hi,
    ) by {}
    lemma_clear_segments(events, cs, duration, cfg, lo, hi);
    lemma_cluster_segments_in_clip(events, cs, duration, cfg);
    assert forall|i: int| 0 <= i < segs.len() implies (#[trigger] segs[i]).start < segs[i].end by {
        assert(in_clip(segs[i], duration));
    }
    lemma_sorted_segments(events, cs, duration, cfg);
    lemma_clear_spaced(segs, cfg, s - g, s + g);
}

/// Segments of clusters begin in the order of their times.
proof fn lemma_sorted_segments(
    events: Seq<InputEvent>,
    cs: Seq<Cluster>,
    duration: i64,
    cfg: ZoomConfig,
)
    requires
        forall|i: int, j: int|
            0 <= i <= j < cs.len() ==> (#[trigger] cs[i]).first_t <= (#[trigger] cs[j]).first_t,
    ensures
        forall|i: int|
            0 <= i < cluster_segments(events, cs, duration, cfg).len() ==> (
            #[trigger] cluster_segments(events, cs, duration, cfg)[i]).start <= zoom_start(
                cs.last().first_t,
                cfg,
            ),
        forall|i: int, j: int|
            0 <= i <= j < cluster_segments(events, cs, duration, cfg).len() ==> (
            #[trigger] cluster_segments(events, cs, duration, cfg)[i]).start <= (
            #[trigger] cluster_segments(events, cs, duration, cfg)[j]).start,
    decreases cs.len(),
{
    if cs.len() > 0 {
        let rest = cs.drop_last();
        assert forall|i: int, j: int| 0 <= i <= j < rest.len() implies (#[trigger] rest[i]).first_t
            <= (#[trigger] rest[j]).first_t by {
            assert(cs[i].first_t <= cs[j].first_t);
        }
        lemma_sorted_segments(events, rest, duration, cfg);
        let before = cluster_segments(events, rest, duration, cfg);
        let out = cluster_segments(events, cs, duration, cfg);
        if rest.len() > 0 {
            assert(rest.last() == cs[cs.len() - 2]);
            assert(cs[cs.len() - 2].first_t <= cs[cs.len() - 1].first_t);
        }
        assert forall|i: int| 0 <= i < out.len() implies (#[trigger] out[i]).start <= zoom_start(
            cs.last().first_t,
            cfg,
        ) by {
            if i < before.len() {
                assert(out[i] == before[i]);
            }
        }
        assert forall|i: int, j: int| 0 <= i <= j < out.len() implies (#[trigger] out[i]).start <= (
        #[trigger] out[j]).start by {
            if j < before.len() {
                assert(out[i] == before[i] && out[j] == before[j]);
            }
        }
    }
}

/// Clicks at one place, each soon enough after the one before, are one cluster.
proof fn lemma_one_cluster(xs: Seq<Trigger>, cfg: ZoomConfig, p: Point)
    requires
        0 < xs.len() <= u64::MAX,
        cfg.merge_radius >= 0,
        chronological(xs),
        forall|k: int| 0 <= k < xs.len() ==> (#[trigger] xs[k]).pos == p,
        forall|k: int, l: int|
            0 <= k && l == k + 1 && l < xs.len() ==> (#[trigger] xs[l]).t - (#[trigger] xs[k]).t
                <= cfg.merge_gap,
    ensures
        ({
            let cs = clusters(xs, cfg);
            &&& cs.len() == 1
            &&& cs[0].first_t == xs[0].t
            &&& cs[0].last_t == xs.last().t
            &&& centroid(cs[0]) == (p.x as int, p.y as int)
        }),
    decreases xs.len(),
{
    let rest = xs.drop_last();
    let x = xs[xs.len() - 1];
    assert forall|k: int| 0 <= k < xs.len() implies in_box((#[trigger] xs[k]).pos, p, p) by {}
    lemma_made_of(xs, cfg, p, p);
    if rest.len() > 0 {
        assert forall|i: int, j: int| 0 <= i <= j < rest.len() implies (#[trigger] rest[i]).t <= (
        #[trigger] rest[j]).t by {
            assert(xs[i].t <= xs[j].t);
        }
        assert forall|k: int, l: int| 0 <= k && l == k + 1 && l < rest.len() implies (
        #[trigger] rest[l]).t - (#[trigger] rest[k]).t <= cfg.merge_gap by {
            assert(xs[l].t - xs[k].t <= cfg.merge_gap);
        }
        lemma_one_cluster(rest, cfg, p);
        let c = clusters(rest, cfg)[0];
        assert(rest.last() == xs[xs.len() - 2]);
        assert(xs[xs.len() - 1].t - xs[xs.len() - 2].t <= cfg.merge_gap);
        assert(x.pos == p);
        assert(square_distance(x.pos, (p.x as int, p.y as int)) == 0) by {
            assert(0int * 0 == 0);
        }
        let r = cfg.merge_radius as int;
        assert(r * r >= 0) by (nonlinear_arith);
        assert(joins(c, x, cfg));
    } else {
        assert(clusters(rest, cfg).len() == 0);
        assert(clusters(xs, cfg)[0] == singleton(x));
    }
    let cs = clusters(xs, cfg);
    assert(made_of(cs[0], xs, p, p));
    lemma_middle(cs[0], xs, p, p);
}

/// Rapid clicks at one place are one point of interest. Another click belongs to it just where
/// it comes soon enough after the last and lies no farther away than the merge radius; else it
/// is a point of interest of its own.
pub proof fn close_clicks_belong_together(
    xs: Seq<Trigger>,
    x: Trigger,
    cfg: ZoomConfig,
    p: Point,
)
    requires
        0 < xs.len() < u64::MAX,
        cfg.merge_radius >= 0,
        chronological(xs),
        forall|k: int| 0 <= k < xs.len() ==> (#[trigger] xs[k]).pos == p,
        forall|k: int, l: int|
            0 <= k && l == k + 1 && l < xs.len() ==> (#[trigger] xs[l]).t - (#[trigger] xs[k]).t
                <= cfg.merge_gap,
    ensures
        ({
            let cs = clusters(xs.push(x), cfg);
            let dx = x.pos.x - p.x;
            let dy = x.pos.y - p.y;
            let near = dx * dx + dy * dy <= cfg.merge_radius * cfg.merge_radius;
            let soon = x.t - xs.last().t <= cfg.merge_gap;
            &&& clusters(xs, cfg).len() == 1
            &&& near && soon ==> cs.len() == 1 && cs[0].first_t == xs[0].t && cs[0].last_t == x.t
            &&& !near || !soon ==> cs.len() == 2 && cs[0].last_t == xs.last().t && cs[1].first_t
                == x.t && cs[1].last_t == x.t
        }),
{
    lemma_one_cluster(xs, cfg, p);
    assert(xs.push(x).drop_last() =~= xs);
    assert(clusters(xs, cfg).drop_last() =~= Seq::<Cluster>::empty());
}

/// Whether event `m` is the earliest of the first `n` with a place, and of equally early ones
/// the first in the log.
pub open spec fn is_earliest_place(events: Seq<InputEvent>, n: int, m: int) -> bool {
    &&& 0 <= m < n
    &&& events[m].place() is Some
    &&& forall|k: int|
        0 <= k < n && (#[trigger] events[k]).place() is Some ==> events[m].time()
            < events[k].time() || (events[m].time() == events[k].time() && m <= k)
}

/// The first sample is that of the earliest event with a place.
pub proof fn lemma_earliest_sample(events: Seq<InputEvent>, n: int, m: int)
    requires
        n <= events.len(),
        is_earliest_place(events, n, m),
    ensures
        ({
            let xs = triggers(events, n, Interest::Position);
            &&& chronological(xs)
            &&& xs.len() > 0
            &&& xs[0] == (Trigger {
                t: events[m].time(),
                pos: events[m].place()->Some_0,
            })
        }),
    decreases n,
{
    let before = triggers(events, n - 1, Interest::Position);
    let e = events[n - 1];
    lemma_triggers(events, n, Interest::Position);
    lemma_triggers(events, n - 1, Interest::Position);
    if m < n - 1 {
        lemma_earliest_sample(events, n - 1, m);
    }
    if e.place() is Some {
        let x = Trigger { t: e.time(), pos: e.place()->Some_0 };
        let at = count_until(before, x.t);
        lemma_count_until(before, x.t);
        if m == n - 1 {
            if at > 0 {
                assert(before[0].t <= x.t);
                let k = lemma_sample_event(events, n - 1, 0);
                assert(events[m].time() < events[k].time());
            }
        } else {
            assert(events[m].time() <= events[n - 1].time());
            assert(before[0].t <= x.t);
        }
    }
}

} // verus!
