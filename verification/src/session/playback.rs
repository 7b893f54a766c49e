//! Which stored frame shows at a time, and the output timeline of a clip.

use crate::project::model::{Project, ProjectModel};
use crate::project::timeline::{
    is_cut, nothing_to_remap_is_identity, output_duration, output_to_source,
    outputs_have_a_length, played_total, segments_of, source_time, source_time_never_goes_back,
    source_times_lie_in_the_clip, SpeedRegion, Trim,
};
use crate::store::frames::FrameRec;
use crate::units::{greater, lesser, saturate, saturated, BILLION};
use vstd::prelude::*;

verus! {

/// A counter value that is `t` nanoseconds after `start_qpc`, in billionths of a tick.
pub open spec fn target(freq: i64, start_qpc: i64, t: i64) -> int {
    start_qpc * BILLION + t * freq
}

/// How far a counter value is from a target.
pub open spec fn distance(qpc: i64, target: int) -> int {
    let d = qpc * BILLION - target;
    if d < 0 {
        -d
    } else {
        d
    }
}

/// Whether the frames before `hi` lead up to a target and those from `hi` on do not.
pub open spec fn is_boundary(recs: Seq<FrameRec>, target: int, hi: int) -> bool {
    &&& 0 <= hi <= recs.len()
    &&& hi > 0 ==> recs[hi - 1].qpc * BILLION < target
    &&& hi < recs.len() ==> recs[hi].qpc * BILLION >= target
}

/// The nearer of the two frames at a boundary, the earlier one where both are as near.
pub open spec fn nearer(recs: Seq<FrameRec>, target: int, hi: int) -> int {
    if hi == 0 {
        0
    } else if hi >= recs.len() {
        recs.len() - 1
    } else if distance(recs[hi].qpc, target) < distance(recs[hi - 1].qpc, target) {
        hi
    } else {
        hi - 1
    }
}

/// Whether frames are stored in capture order.
pub open spec fn in_capture_order(recs: Seq<FrameRec>) -> bool {
    forall|i: int, j: int|
        0 <= i <= j < recs.len() ==> (#[trigger] recs[i]).qpc <= (#[trigger] recs[j]).qpc
}

/// Index of the stored frame whose capture time is nearest `t` nanoseconds after `start_qpc`.
/// Frames are stored in capture order, so this searches by halves.
pub fn nearest_idx(recs: &[FrameRec], freq: i64, start_qpc: i64, t: i64) -> (r: Option<usize>)
    ensures
        match r {
            None => recs@.len() == 0,
            Some(i) => {
                &&& i < recs@.len()
                &&& exists|hi: int|
                    #[trigger] is_boundary(recs@, target(freq, start_qpc, t), hi) && i == nearer(
                        recs@,
                        target(freq, start_qpc, t),
                        hi,
                    )
            },
        },
{
    if recs.len() == 0 {
        return None;
    }
    proof {
        let a = t as int;
        let b = freq as int;
        assert(-0x4000_0000_0000_0000_0000_0000_0000_0000 <= a * b
            <= 0x4000_0000_0000_0000_0000_0000_0000_0000) by (nonlinear_arith)
            requires
                -0x8000_0000_0000_0000 <= a <= 0x7fff_ffff_ffff_ffff,
                -0x8000_0000_0000_0000 <= b <= 0x7fff_ffff_ffff_ffff,
        ;
    }
    let aim: i128 = start_qpc as i128 * 1_000_000_000 + t as i128 * freq as i128;
    let mut lo: usize = 0;
    let mut hi: usize = recs.len();
    while lo < hi
        invariant
            lo <= hi <= recs@.len(),
            aim == target(freq, start_qpc, t),
            lo > 0 ==> recs@[lo - 1].qpc * BILLION < aim,
            hi < recs@.len() ==> recs@[hi as int].qpc * BILLION >= aim,
        decreases hi - lo,
    {
        let mid: usize = lo + (hi - lo) / 2;
        if (recs[mid].qpc as i128) * 1_000_000_000 < aim {
            lo = mid + 1;
        } else {
            hi = mid;
        }
    }
    assert(is_boundary(recs@, aim as int, hi as int));
    if hi == 0 {
        return Some(0);
    }
    if hi >= recs.len() {
        return Some(recs.len() - 1);
    }
    let d_hi: i128 = (recs[hi].qpc as i128) * 1_000_000_000 - aim;
    let d_prev: i128 = aim - (recs[hi - 1].qpc as i128) * 1_000_000_000;
    if d_hi < d_prev {
        Some(hi)
    } else {
        Some(hi - 1)
    }
}

/// In capture order there is one boundary, and no frame is nearer to the target than the one
/// picked at it.
pub proof fn the_nearest_frame_is_picked(recs: Seq<FrameRec>, target: int, hi: int, j: int)
    requires
        in_capture_order(recs),
        is_boundary(recs, target, hi),
        0 <= j < recs.len(),
    ensures
        distance(recs[nearer(recs, target, hi)].qpc, target) <= distance(recs[j].qpc, target),
        is_boundary(recs, target, j) ==> j == hi,
{
    if j < hi {
        assert(recs[j].qpc <= recs[hi - 1].qpc);
    } else if hi < recs.len() {
        assert(recs[hi].qpc <= recs[j].qpc);
        if hi < j {
            assert(recs[hi].qpc <= recs[j - 1].qpc);
        }
    }
    if is_boundary(recs, target, j) && j < hi {
        assert(recs[j].qpc <= recs[hi - 1].qpc);
    }
}

/// The output timeline of a clip: where the trimmed span starts in the source, how long it
/// is, and the speed regions and cuts inside of it, in its own time.
#[derive(Debug)]
pub struct OutMapping {
    pub t0: i64,
    pub span: i64,
    pub regions: Vec<SpeedRegion>,
    pub cuts: Vec<Trim>,
}

/// The shortest span of a clip.
pub const MIN_SPAN: i64 = 1_000;

/// The first and last instant of the trimmed clip.
pub open spec fn trimmed_range(p: ProjectModel) -> (i64, i64) {
    match p.trim {
        Some(t) => (t.start, t.end),
        None => (0i64, p.source.duration),
    }
}

/// The length of the trimmed clip.
pub open spec fn trimmed_span(p: ProjectModel) -> i64 {
    let r = trimmed_range(p);
    saturated(greater(r.1 - r.0, MIN_SPAN as int))
}

/// The first `n` speed regions as far as they lie in the range, in its own time.
pub open spec fn local_regions(rs: Seq<SpeedRegion>, n: int, t0: i64, t1: i64) -> Seq<SpeedRegion>
    decreases n,
{
    if n <= 0 {
        Seq::empty()
    } else {
        let before = local_regions(rs, n - 1, t0, t1);
        let s = greater(rs[n - 1].start as int, t0 as int);
        let e = lesser(rs[n - 1].end as int, t1 as int);
        if e > s {
            before.push(
                SpeedRegion {
                    start: saturated(s - t0),
                    end: saturated(e - t0),
                    factor: rs[n - 1].factor,
                },
            )
        } else {
            before
        }
    }
}

/// The first `n` cuts as far as they lie in the range, in its own time.
pub open spec fn local_cuts(cs: Seq<Trim>, n: int, t0: i64, t1: i64) -> Seq<Trim>
    decreases n,
{
    if n <= 0 {
        Seq::empty()
    } else {
        let before = local_cuts(cs, n - 1, t0, t1);
        let s = greater(cs[n - 1].start as int, t0 as int);
        let e = lesser(cs[n - 1].end as int, t1 as int);
        if e > s {
            before.push(Trim { start: saturated(s - t0), end: saturated(e - t0) })
        } else {
            before
        }
    }
}

fn clip_span(start: i64, end: i64, t0: i64, t1: i64) -> (r: Option<(i64, i64)>)
    ensures
        ({
            let s = greater(start as int, t0 as int);
            let e = lesser(end as int, t1 as int);
            match r {
                Some(p) => e > s && p.0 == saturated(s - t0) && p.1 == saturated(e - t0),
                None => e <= s,
            }
        }),
{
    let s: i64 = if t0 > start {
        t0
    } else {
        start
    };
    let e: i64 = if t1 < end {
        t1
    } else {
        end
    };
    if e > s {
        Some((saturate(s as i128 - t0 as i128), saturate(e as i128 - t0 as i128)))
    } else {
        None
    }
}

/// The output timeline of a project.
pub fn out_mapping(project: &Project) -> (m: OutMapping)
    ensures
        ({
            let r = trimmed_range(project@);
            &&& m.t0 == r.0
            &&& m.span == trimmed_span(project@)
            &&& m.span >= MIN_SPAN
            &&& m.regions@ == local_regions(
                project@.speed_regions,
                project@.speed_regions.len() as int,
                r.0,
                r.1,
            )
            &&& m.cuts@ == local_cuts(project@.cuts, project@.cuts.len() as int, r.0, r.1)
        }),
{
    let (t0, t1) = project.active_range();
    let len: i128 = t1 as i128 - t0 as i128;
    let span: i64 = saturate(
        if len < MIN_SPAN as i128 {
            MIN_SPAN as i128
        } else {
            len
        },
    );
    let mut regions: Vec<SpeedRegion> = Vec::new();
    let mut i: usize = 0;
    while i < project.speed_regions.len()
        invariant
            i <= project.speed_regions@.len(),
            regions@ == local_regions(project.speed_regions@, i as int, t0, t1),
        decreases project.speed_regions@.len() - i,
    {
        let r = project.speed_regions[i];
        if let Some((start, end)) = clip_span(r.start, r.end, t0, t1) {
            regions.push(SpeedRegion { start, end, factor: r.factor });
        }
        i += 1;
    }
    let mut cuts: Vec<Trim> = Vec::new();
    let mut k: usize = 0;
    while k < project.cuts.len()
        invariant
            k <= project.cuts@.len(),
            cuts@ == local_cuts(project.cuts@, k as int, t0, t1),
        decreases project.cuts@.len() - k,
    {
        let c = project.cuts[k];
        if let Some((start, end)) = clip_span(c.start, c.end, t0, t1) {
            cuts.push(Trim { start, end });
        }
        k += 1;
    }
    OutMapping { t0, span, regions, cuts }
}

impl OutMapping {
    /// Whether the span is one that a clip has.
    pub open spec fn wf(self) -> bool {
        self.span >= 0
    }

    /// How long the output plays.
    pub open spec fn played(self) -> int {
        played_total(segments_of(self.span, self.regions@, self.cuts@))
    }

    /// How many frames the output has at a rate: as many as start before its end, at least
    /// one.
    pub open spec fn frames(self, fps: u32) -> int {
        let n = (self.played() * fps + BILLION - 1) / BILLION as int;
        if n < 1 {
            1
        } else if n > usize::MAX {
            usize::MAX as int
        } else {
            n
        }
    }

    /// When output frame `i` plays: never after the end, and at the end where there is no
    /// rate.
    pub open spec fn plays_at(self, i: int, fps: u32) -> int {
        if fps == 0 {
            self.played()
        } else {
            lesser(i * BILLION / fps as int, self.played())
        }
    }

    /// The source time that output frame `i` shows.
    pub open spec fn shows(self, i: int, fps: u32) -> i64 {
        saturated(
            self.t0 + saturated(
                source_time(
                    saturated(self.plays_at(i, fps)),
                    self.span,
                    self.regions@,
                    self.cuts@,
                ),
            ),
        )
    }

    /// Number of frames the output timeline emits at a rate.
    pub fn frame_count(&self, fps: u32) -> (n: usize)
        requires
            self.wf(),
        ensures
            n == self.frames(fps),
            n >= 1,
    {
        let d: i128 = output_duration(self.span, self.regions.as_slice(), self.cuts.as_slice());
        proof {
            let a = d as int;
            let f = fps as int;
            assert(0 <= a * f <= (0x8000_0000_0000_0000 * 1_000_000_000) * 0x1_0000_0000)
                by (nonlinear_arith)
                requires
                    0 <= a <= 0x8000_0000_0000_0000 * 1_000_000_000,
                    0 <= f <= 0xffff_ffff,
            ;
        }
        let n: i128 = (d * fps as i128 + 999_999_999) / 1_000_000_000;
        if n < 1 {
            1
        } else if n > usize::MAX as i128 {
            usize::MAX
        } else {
            n as usize
        }
    }

    /// The source time that output frame `i` shows.
    pub fn source_time_of(&self, i: usize, fps: u32) -> (t: i64)
        requires
            self.wf(),
        ensures
            t == self.shows(i as int, fps),
    {
        let d: i128 = output_duration(self.span, self.regions.as_slice(), self.cuts.as_slice());
        let t_out: i128 = if fps == 0 {
            d
        } else {
            let at: i128 = i as i128 * 1_000_000_000 / fps as i128;
            if d < at {
                d
            } else {
                at
            }
        };
        let t_src: i64 = output_to_source(
            saturate(t_out),
            self.span,
            self.regions.as_slice(),
            self.cuts.as_slice(),
        );
        saturate(self.t0 as i128 + t_src as i128)
    }
}

/// Later output frames never show an earlier source time, and all of them show the trimmed
/// clip.
pub proof fn output_frames_never_go_back(m: OutMapping, i: int, j: int, fps: u32)
    requires
        m.span > 0,
        fps > 0,
        0 <= i <= j,
    ensures
        m.shows(i, fps) <= m.shows(j, fps),
        m.t0 <= m.shows(i, fps) <= m.t0 + m.span,
{
    let f = fps as int;
    vstd::arithmetic::div_mod::lemma_div_is_ordered(i * BILLION, j * BILLION, f);
    vstd::arithmetic::div_mod::lemma_div_pos_is_pos(i * BILLION, f);
    let a = saturated(m.plays_at(i, fps));
    let b = saturated(m.plays_at(j, fps));
    outputs_have_a_length(m.span, m.regions@, m.cuts@);
    source_time_never_goes_back(a, b, m.span, m.regions@, m.cuts@);
    source_times_lie_in_the_clip(a, m.span, m.regions@, m.cuts@);
}

/// The frame that is shown at an instant is one whose capture, counted in ticks from the start,
/// is nearest to it.
pub proof fn frames_show_at_their_capture_time(
    recs: Seq<FrameRec>,
    freq: i64,
    start_qpc: i64,
    t: i64,
    hi: int,
    j: int,
)
    requires
        in_capture_order(recs),
        is_boundary(recs, target(freq, start_qpc, t), hi),
        0 <= j < recs.len(),
    ensures
        ({
            let i = nearer(recs, target(freq, start_qpc, t), hi);
            let off = |k: int| (recs[k].qpc - start_qpc) * 1_000_000_000 - t * freq;
            let a = if off(i) < 0 {
                -off(i)
            } else {
                off(i)
            };
            let b = if off(j) < 0 {
                -off(j)
            } else {
                off(j)
            };
            &&& 0 <= i < recs.len()
            &&& a <= b
        }),
{
    let goal = target(freq, start_qpc, t);
    the_nearest_frame_is_picked(recs, goal, hi, j);
}

/// A range of the trimmed clip as it is counted from the start of the trim.
proof fn lemma_local_cuts(cs: Seq<Trim>, n: int, t0: i64, t1: i64, x: int)
    requires
        0 <= n <= cs.len(),
        0 <= t0,
        0 <= x < t1 - t0,
    ensures
        is_cut(local_cuts(cs, n, t0, t1), x) <==> is_cut(cs.take(n), x + t0),
    decreases n,
{
    let out = local_cuts(cs, n, t0, t1);
    let head = cs.take(n);
    if n > 0 {
        lemma_local_cuts(cs, n - 1, t0, t1, x);
        let before = local_cuts(cs, n - 1, t0, t1);
        let rest = cs.take(n - 1);
        let c = cs[n - 1];
        let s = greater(c.start as int, t0 as int);
        let e = lesser(c.end as int, t1 as int);
        if is_cut(out, x) {
            let i = choose|i: int| 0 <= i < out.len() && (#[trigger] out[i]).start <= x < out[i].end;
            if i < before.len() {
                assert(before[i] == out[i]);
                assert(is_cut(before, x));
                let k = choose|k: int|
                    0 <= k < rest.len() && (#[trigger] rest[k]).start <= x + t0 < rest[k].end;
                assert(head[k] == rest[k]);
            } else {
                assert(head[n - 1] == c);
                assert(head[n - 1].start <= x + t0 < head[n - 1].end);
            }
        }
        if is_cut(head, x + t0) {
            let k = choose|k: int|
                0 <= k < head.len() && (#[trigger] head[k]).start <= x + t0 < head[k].end;
            if k < n - 1 {
                assert(rest[k] == head[k]);
                assert(is_cut(rest, x + t0));
                let i = choose|i: int|
                    0 <= i < before.len() && (#[trigger] before[i]).start <= x < before[i].end;
                assert(out[i] == before[i]);
            } else {
                assert(s <= x + t0 < e);
                assert(out[out.len() - 1].start <= x < out[out.len() - 1].end);
            }
        }
    } else {
        assert(out.len() == 0);
        assert(head.len() == 0);
    }
}

/// Cuts stay where they are in the recording: an instant of the trimmed clip is cut just where
/// the same instant of the recording is.
pub proof fn trimming_keeps_cuts_in_place(cs: Seq<Trim>, t0: i64, t1: i64, x: int)
    requires
        0 <= t0,
        0 <= x < t1 - t0,
    ensures
        is_cut(local_cuts(cs, cs.len() as int, t0, t1), x) <==> is_cut(cs, x + t0),
{
    lemma_local_cuts(cs, cs.len() as int, t0, t1, x);
    assert(cs.take(cs.len() as int) =~= cs);
}

/// Whether some region plays an instant at a factor.
pub open spec fn plays(rs: Seq<SpeedRegion>, x: int, factor: i64) -> bool {
    exists|i: int|
        0 <= i < rs.len() && (#[trigger] rs[i]).start <= x < rs[i].end && rs[i].factor == factor
}

/// Speeds of the trimmed clip as they are counted from the start of the trim.
proof fn lemma_local_regions(
    rs: Seq<SpeedRegion>,
    n: int,
    t0: i64,
    t1: i64,
    x: int,
    factor: i64,
)
    requires
        0 <= n <= rs.len(),
        0 <= t0,
        0 <= x < t1 - t0,
    ensures
        plays(local_regions(rs, n, t0, t1), x, factor) <==> plays(rs.take(n), x + t0, factor),
    decreases n,
{
    let out = local_regions(rs, n, t0, t1);
    let head = rs.take(n);
    if n > 0 {
        lemma_local_regions(rs, n - 1, t0, t1, x, factor);
        let before = local_regions(rs, n - 1, t0, t1);
        let rest = rs.take(n - 1);
        let c = rs[n - 1];
        let s = greater(c.start as int, t0 as int);
        let e = lesser(c.end as int, t1 as int);
        if plays(out, x, factor) {
            let i = choose|i: int|
                0 <= i < out.len() && (#[trigger] out[i]).start <= x < out[i].end && out[i].factor
                    == factor;
            if i < before.len() {
                assert(before[i] == out[i]);
                assert(plays(before, x, factor));
                let k = choose|k: int|
                    0 <= k < rest.len() && (#[trigger] rest[k]).start <= x + t0 < rest[k].end
                        && rest[k].factor == factor;
                assert(head[k] == rest[k]);
            } else {
                assert(head[n - 1] == c);
                assert(head[n - 1].start <= x + t0 < head[n - 1].end);
            }
        }
        if plays(head, x + t0, factor) {
            let k = choose|k: int|
                0 <= k < head.len() && (#[trigger] head[k]).start <= x + t0 < head[k].end
                    && head[k].factor == factor;
            if k < n - 1 {
                assert(rest[k] == head[k]);
                assert(plays(rest, x + t0, factor));
                let i = choose|i: int|
                    0 <= i < before.len() && (#[trigger] before[i]).start <= x < before[i].end
                        && before[i].factor == factor;
                assert(out[i] == before[i]);
            } else {
                assert(s <= x + t0 < e);
                assert(out[out.len() - 1].start <= x < out[out.len() - 1].end);
            }
        }
    } else {
        assert(out.len() == 0);
        assert(head.len() == 0);
    }
}

/// Speeds stay where they are in the recording: an instant of the trimmed clip has just the
/// speeds that the same instant of the recording has.
pub proof fn trimming_keeps_speeds_in_place(
    rs: Seq<SpeedRegion>,
    t0: i64,
    t1: i64,
    x: int,
    factor: i64,
)
    requires
        0 <= t0,
        0 <= x < t1 - t0,
    ensures
        plays(local_regions(rs, rs.len() as int, t0, t1), x, factor) <==> plays(rs, x + t0, factor),
{
    lemma_local_regions(rs, rs.len() as int, t0, t1, x, factor);
    assert(rs.take(rs.len() as int) =~= rs);
}

/// A clip that plays as it was recorded shows, in each frame of the output, the instant of the
/// trim that is so many frames after its start; it has as many frames as start before it ends.
pub proof fn plain_clips_play_evenly(m: OutMapping, i: int, fps: u32)
    requires
        m.regions@.len() == 0,
        m.cuts@.len() == 0,
        m.span > 0,
        0 <= m.t0,
        m.t0 + m.span <= i64::MAX,
        fps > 0,
        0 <= i,
        i * BILLION <= m.span * fps,
    ensures
        ({
            let x = m.shows(i, fps) - m.t0;
            let n = m.frames(fps);
            &&& x * fps <= i * BILLION < (x + 1) * fps
            &&& 1 < n < usize::MAX ==> (n - 1) * BILLION < m.span * fps <= n * BILLION
        }),
{
    let f = fps as int;
    let a = i * BILLION;
    let q = a / f;
    assert(m.regions@ =~= Seq::<SpeedRegion>::empty());
    assert(m.cuts@ =~= Seq::<Trim>::empty());
    nothing_to_remap_is_identity(0, m.span);
    assert(m.played() == m.span);
    assert(q * f <= a < (q + 1) * f && 0 <= q <= m.span) by (nonlinear_arith)
        requires
            q == a / f,
            f > 0,
            0 <= a <= m.span * f,
    ;
    nothing_to_remap_is_identity(q as i64, m.span);
}

/// Of two frames that are equally near, the earlier is shown.
pub proof fn ties_show_the_earlier_frame(recs: Seq<FrameRec>, target: int, hi: int)
    requires
        0 < hi < recs.len(),
        is_boundary(recs, target, hi),
        recs[hi].qpc * 1_000_000_000 - target == target - recs[hi - 1].qpc * 1_000_000_000,
    ensures
        nearer(recs, target, hi) == hi - 1,
{
}

/// What plays is the trim if there is one, else the whole recording, and a microsecond at
/// least.
pub proof fn the_trim_is_what_plays(p: ProjectModel)
    requires
        0 <= p.source.duration,
        p.trim matches Some(t) ==> 0 <= t.start <= t.end,
    ensures
        p.trim matches Some(t) ==> trimmed_range(p) == (t.start, t.end) && (t.end - t.start >= 1_000
            ==> trimmed_span(p) == t.end - t.start),
        p.trim is None ==> trimmed_range(p) == (0i64, p.source.duration) && (p.source.duration
            >= 1_000 ==> trimmed_span(p) == p.source.duration),
        trimmed_span(p) >= 1_000,
{
}

} // verus!
