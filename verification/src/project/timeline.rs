//! Speed-region and cut time remapping.
//!
//! When parts of a clip are sped up (to skim dead time) or cut out entirely, the played
//! (output) timeline is shorter than the source timeline. These functions convert between
//! the two so scrubbing and export sample the right source frame. Times are nanoseconds,
//! speed factors billionths.

use crate::sort::Timed;
use crate::units::{floor_div, saturate, saturated, BILLION};
use vstd::prelude::*;

verus! {

/// A span of source time from `start` to `end`: what a clip is trimmed to, or what is cut
/// out of it.
#[derive(Debug, Clone, Copy, PartialEq, Eq, Structural)]
pub struct Trim {
    pub start: i64,
    pub end: i64,
}

/// Play the span from `start` to `end` at `factor` times the normal speed.
#[derive(Debug, Clone, Copy, PartialEq, Eq, Structural)]
pub struct SpeedRegion {
    pub start: i64,
    pub end: i64,
    pub factor: i64,
}

/// How an instant of source time plays: not at all, or at a factor.
#[derive(Debug, Clone, Copy, PartialEq, Eq, Structural)]
pub enum Pace {
    Cut,
    Times(i64),
}

/// A span of source time that plays at one pace.
#[derive(Debug, Clone, Copy, PartialEq, Eq, Structural)]
pub struct Segment {
    pub start: i64,
    pub end: i64,
    pub pace: Pace,
}

impl Timed for Trim {
    open spec fn at(self) -> i64 {
        self.start
    }

    fn when(&self) -> (t: i64) {
        self.start
    }
}

impl Timed for SpeedRegion {
    open spec fn at(self) -> i64 {
        self.start
    }

    fn when(&self) -> (t: i64) {
        self.start
    }
}

/// Whether an instant lies in a cut.
pub open spec fn is_cut(cuts: Seq<Trim>, x: int) -> bool {
    exists|i: int| 0 <= i < cuts.len() && (#[trigger] cuts[i]).start <= x < cuts[i].end
}

/// Whether a speed region takes effect at an instant.
pub open spec fn speeds(r: SpeedRegion, x: int) -> bool {
    r.start <= x < r.end && r.factor > 0
}

/// Where a region starts within a clip.
pub open spec fn clip_start(r: SpeedRegion) -> int {
    if r.start < 0 {
        0
    } else {
        r.start as int
    }
}

/// Which of the first `n` regions takes effect at an instant: of those that cover it the
/// one that starts first in the clip, the one listed first if several do.
pub open spec fn governing(regions: Seq<SpeedRegion>, n: int, x: int) -> Option<int>
    decreases n,
{
    if n <= 0 {
        None
    } else {
        let before = governing(regions, n - 1, x);
        if speeds(regions[n - 1], x) && (before is None || clip_start(regions[n - 1]) < clip_start(
            regions[before->Some_0],
        )) {
            Some(n - 1)
        } else {
            before
        }
    }
}

/// How an instant plays. Cuts always win; what is left plays at the factor of the region
/// that governs it, or at normal speed.
pub open spec fn pace_at(regions: Seq<SpeedRegion>, cuts: Seq<Trim>, x: int) -> Pace {
    if is_cut(cuts, x) {
        Pace::Cut
    } else {
        match governing(regions, regions.len() as int, x) {
            Some(i) => Pace::Times(regions[i].factor),
            None => Pace::Times(BILLION),
        }
    }
}

/// Whether segments tile a clip: they cover it without gap or overlap, each plays at one
/// pace throughout, and neighbours differ in pace.
pub open spec fn tiles(
    segs: Seq<Segment>,
    upto: int,
    regions: Seq<SpeedRegion>,
    cuts: Seq<Trim>,
) -> bool {
    &&& segs.len() == 0 <==> upto == 0
    &&& segs.len() > 0 ==> segs[0].start == 0 && segs.last().end == upto
    &&& forall|i: int| 0 <= i < segs.len() ==> (#[trigger] segs[i]).start < segs[i].end
    &&& forall|i: int, j: int|
        0 <= i && j == i + 1 && j < segs.len() ==> (#[trigger] segs[i]).end == (
        #[trigger] segs[j]).start && segs[i].pace != segs[j].pace
    &&& forall|i: int, x: int|
        0 <= i < segs.len() && (#[trigger] segs[i]).start <= x < segs[i].end ==> #[trigger] pace_at(
            regions,
            cuts,
            x,
        ) == segs[i].pace
}

/// The region that governs an instant.
fn find_governing(regions: &[SpeedRegion], x: i64) -> (r: Option<usize>)
    ensures
        match governing(regions@, regions@.len() as int, x as int) {
            Some(i) => r == Some(i as usize) && 0 <= i < regions@.len(),
            None => r is None,
        },
{
    let mut best: Option<usize> = None;
    let mut n: usize = 0;
    while n < regions.len()
        invariant
            n <= regions@.len(),
            match governing(regions@, n as int, x as int) {
                Some(i) => best == Some(i as usize) && 0 <= i < n,
                None => best is None,
            },
        decreases regions@.len() - n,
    {
        let r: SpeedRegion = regions[n];
        if r.start <= x && x < r.end && r.factor > 0 {
            let at: i64 = if r.start < 0 {
                0
            } else {
                r.start
            };
            match best {
                None => {
                    best = Some(n);
                },
                Some(b) => {
                    let bs: i64 = if regions[b].start < 0 {
                        0
                    } else {
                        regions[b].start
                    };
                    if at < bs {
                        best = Some(n);
                    }
                },
            }
        }
        n += 1;
    }
    best
}

/// How an instant plays.
fn find_pace(regions: &[SpeedRegion], cuts: &[Trim], x: i64) -> (p: Pace)
    ensures
        p == pace_at(regions@, cuts@, x as int),
{
    let mut i: usize = 0;
    while i < cuts.len()
        invariant
            i <= cuts@.len(),
            forall|k: int| 0 <= k < i ==> !((#[trigger] cuts@[k]).start <= x < cuts@[k].end),
        decreases cuts@.len() - i,
    {
        if cuts[i].start <= x && x < cuts[i].end {
            return Pace::Cut;
        }
        i += 1;
    }
    match find_governing(regions, x) {
        Some(r) => Pace::Times(regions[r].factor),
        None => Pace::Times(BILLION),
    }
}

/// Whether no cut and no region begins or ends strictly between `a` and `b`.
pub open spec fn quiet(regions: Seq<SpeedRegion>, cuts: Seq<Trim>, a: int, b: int) -> bool {
    &&& forall|i: int|
        0 <= i < regions.len() ==> !(a < (#[trigger] regions[i]).start < b) && !(a
            < regions[i].end < b)
    &&& forall|i: int|
        0 <= i < cuts.len() ==> !(a < (#[trigger] cuts[i]).start < b) && !(a < cuts[i].end < b)
}

/// The first edge of a cut or region past `a`, at most `end`.
fn next_edge(regions: &[SpeedRegion], cuts: &[Trim], a: i64, end: i64) -> (b: i64)
    requires
        a < end,
    ensures
        a < b <= end,
        quiet(regions@, cuts@, a as int, b as int),
{
    let mut b: i64 = end;
    let mut i: usize = 0;
    while i < regions.len()
        invariant
            i <= regions@.len(),
            a < b <= end,
            forall|k: int|
                0 <= k < i ==> !(a < (#[trigger] regions@[k]).start < b) && !(a < regions@[k].end
                    < b),
        decreases regions@.len() - i,
    {
        let r: SpeedRegion = regions[i];
        if a < r.start && r.start < b {
            b = r.start;
        }
        if a < r.end && r.end < b {
            b = r.end;
        }
        i += 1;
    }
    i = 0;
    while i < cuts.len()
        invariant
            i <= cuts@.len(),
            a < b <= end,
            forall|k: int|
                0 <= k < regions@.len() ==> !(a < (#[trigger] regions@[k]).start < b) && !(a
                    < regions@[k].end < b),
            forall|k: int|
                0 <= k < i ==> !(a < (#[trigger] cuts@[k]).start < b) && !(a < cuts@[k].end < b),
        decreases cuts@.len() - i,
    {
        let c: Trim = cuts[i];
        if a < c.start && c.start < b {
            b = c.start;
        }
        if a < c.end && c.end < b {
            b = c.end;
        }
        i += 1;
    }
    b
}

/// Where nothing begins or ends, the same region governs.
proof fn lemma_same_governing(regions: Seq<SpeedRegion>, cuts: Seq<Trim>, n: int, a: int, b: int, x: int)
    requires
        quiet(regions, cuts, a, b),
        a <= x < b,
        n <= regions.len(),
    ensures
        governing(regions, n, x) == governing(regions, n, a),
    decreases n,
{
    if n > 0 {
        lemma_same_governing(regions, cuts, n - 1, a, b, x);
        assert(speeds(regions[n - 1], x) == speeds(regions[n - 1], a));
    }
}

/// Where nothing begins or ends, the pace stays.
proof fn lemma_same_pace(regions: Seq<SpeedRegion>, cuts: Seq<Trim>, a: int, b: int, x: int)
    requires
        quiet(regions, cuts, a, b),
        a <= x < b,
    ensures
        pace_at(regions, cuts, x) == pace_at(regions, cuts, a),
{
    lemma_same_governing(regions, cuts, regions.len() as int, a, b, x);
    if is_cut(cuts, x) {
        let i = choose|i: int|
            0 <= i < cuts.len() && (#[trigger] cuts[i]).start <= x < cuts[i].end;
        assert(cuts[i].start <= a < cuts[i].end);
    }
    if is_cut(cuts, a) {
        let i = choose|i: int|
            0 <= i < cuts.len() && (#[trigger] cuts[i]).start <= a < cuts[i].end;
        assert(cuts[i].start <= x < cuts[i].end);
    }
}

/// Split a clip into the segments that play at one pace each.
///
/// Cuts always win: any instant inside a cut is removed regardless of whether a speed
/// region also covers it, so a cut nested in a sped span never plays. The surviving time
/// takes the factor of the earliest-starting speed region covering it. Uncovered gaps play
/// at normal speed.
pub fn segments(source_duration: i64, regions: &[SpeedRegion], cuts: &[Trim]) -> (segs: Vec<Segment>)
    requires
        source_duration >= 0,
    ensures
        tiles(segs@, source_duration as int, regions@, cuts@),
{
    let mut segs: Vec<Segment> = Vec::new();
    let mut a: i64 = 0;
    while a < source_duration
        invariant
            0 <= a <= source_duration,
            tiles(segs@, a as int, regions@, cuts@),
        decreases source_duration - a,
    {
        let b: i64 = next_edge(regions, cuts, a, source_duration);
        let pace = find_pace(regions, cuts, a);
        let ghost before = segs@;
        proof {
            assert forall|x: int| a <= x < b implies #[trigger] pace_at(regions@, cuts@, x)
                == pace by {
                lemma_same_pace(regions@, cuts@, a as int, b as int, x);
            }
        }
        let mut join = false;
        if segs.len() > 0 {
            join = segs[segs.len() - 1].pace == pace;
        }
        if join {
            let last: usize = segs.len() - 1;
            let mut s: Segment = segs[last];
            s.end = b;
            segs.set(last, s);
            proof {
                let after = segs@;
                assert forall|i: int, x: int|
                    0 <= i < after.len() && (#[trigger] after[i]).start <= x
                        < after[i].end implies #[trigger] pace_at(regions@, cuts@, x)
                    == after[i].pace by {
                    if i == last {
                        if x < a {
                            assert(before[i].start <= x < before[i].end);
                        }
                    } else {
                        assert(after[i] == before[i]);
                    }
                }
                assert forall|i: int, j: int| 0 <= i && j == i + 1 && j < after.len() implies (
                #[trigger] after[i]).end == (#[trigger] after[j]).start && after[i].pace
                    != after[j].pace by {
                    assert(before[i].end == before[j].start && before[i].pace != before[j].pace);
                }
                assert forall|i: int| 0 <= i < after.len() implies (#[trigger] after[i]).start
                    < after[i].end by {
                    assert(before[i].start < before[i].end);
                }
            }
        } else {
            segs.push(Segment { start: a, end: b, pace });
            proof {
                let after = segs@;
                assert forall|i: int, x: int|
                    0 <= i < after.len() && (#[trigger] after[i]).start <= x
                        < after[i].end implies #[trigger] pace_at(regions@, cuts@, x)
                    == after[i].pace by {
                    if i < before.len() {
                        assert(after[i] == before[i]);
                    }
                }
                assert forall|i: int, j: int| 0 <= i && j == i + 1 && j < after.len() implies (
                #[trigger] after[i]).end == (#[trigger] after[j]).start && after[i].pace
                    != after[j].pace by {
                    if j < before.len() {
                        assert(before[i].end == before[j].start && before[i].pace
                            != before[j].pace);
                    }
                }
                assert forall|i: int| 0 <= i < after.len() implies (#[trigger] after[i]).start
                    < after[i].end by {
                    if i < before.len() {
                        assert(before[i].start < before[i].end);
                    }
                }
            }
        }
        a = b;
    }
    segs
}

/// How long a segment plays, rounded down to a nanosecond.
pub open spec fn played(s: Segment) -> int {
    match s.pace {
        Pace::Cut => 0,
        Pace::Times(f) => (s.end - s.start) * BILLION / f as int,
    }
}

/// How long segments play together.
pub open spec fn played_total(segs: Seq<Segment>) -> int
    decreases segs.len(),
{
    if segs.len() == 0 {
        0
    } else {
        played_total(segs.drop_last()) + played(segs.last())
    }
}

/// The segments of a clip: there is exactly one way to tile it.
pub open spec fn segments_of(duration: i64, regions: Seq<SpeedRegion>, cuts: Seq<Trim>) -> Seq<
    Segment,
> {
    choose|segs: Seq<Segment>| tiles(segs, duration as int, regions, cuts)
}

/// Two tilings of a clip agree up to any place.
proof fn lemma_tilings_agree(
    p: Seq<Segment>,
    q: Seq<Segment>,
    upto: int,
    regions: Seq<SpeedRegion>,
    cuts: Seq<Trim>,
    n: int,
)
    requires
        tiles(p, upto, regions, cuts),
        tiles(q, upto, regions, cuts),
        0 <= n <= p.len(),
    ensures
        n <= q.len(),
        forall|i: int| 0 <= i < n ==> #[trigger] p[i] == q[i],
    decreases n,
{
    if n > 0 {
        lemma_tilings_agree(p, q, upto, regions, cuts, n - 1);
        let i = n - 1;
        if i > 0 {
            assert(p[i - 1] == q[i - 1]);
            assert(p[i - 1].end == p[i].start);
        }
        assert(p[i].start < p[i].end);
        lemma_end_bound(p, upto, regions, cuts, i);
        if i >= q.len() {
            if i > 0 {
                assert(q[i - 1] == q.last());
            }
            assert(false);
        }
        if i > 0 {
            assert(q[i - 1].end == q[i].start);
        }
        assert(q[i].start < q[i].end);
        lemma_end_bound(q, upto, regions, cuts, i);
        assert(pace_at(regions, cuts, p[i].start as int) == p[i].pace);
        assert(pace_at(regions, cuts, q[i].start as int) == q[i].pace);
        lemma_no_shorter(p, q, upto, regions, cuts, i);
        lemma_no_shorter(q, p, upto, regions, cuts, i);
    }
}

/// Of two tilings whose segments `i` start together, neither segment ends first.
proof fn lemma_no_shorter(
    p: Seq<Segment>,
    q: Seq<Segment>,
    upto: int,
    regions: Seq<SpeedRegion>,
    cuts: Seq<Trim>,
    i: int,
)
    requires
        tiles(p, upto, regions, cuts),
        tiles(q, upto, regions, cuts),
        0 <= i < p.len(),
        i < q.len(),
        p[i].start == q[i].start,
        p[i].pace == q[i].pace,
    ensures
        p[i].end >= q[i].end,
{
    if p[i].end < q[i].end {
        lemma_end_bound(q, upto, regions, cuts, i);
        assert(p[i].start < p[i].end);
        if i == p.len() - 1 {
            assert(p[i].end == upto);
        } else {
            let j = i + 1;
            assert(p[i].end == p[j].start && p[i].pace != p[j].pace);
            assert(p[j].start < p[j].end);
            assert(pace_at(regions, cuts, p[j].start as int) == p[j].pace);
            assert(pace_at(regions, cuts, p[j].start as int) == q[i].pace);
        }
    }
}

/// No segment of a tiling ends past the clip.
proof fn lemma_end_bound(
    segs: Seq<Segment>,
    upto: int,
    regions: Seq<SpeedRegion>,
    cuts: Seq<Trim>,
    i: int,
)
    requires
        tiles(segs, upto, regions, cuts),
        0 <= i < segs.len(),
    ensures
        0 <= segs[i].start,
        segs[i].end <= upto,
    decreases segs.len() - i,
{
    lemma_start_bound(segs, upto, regions, cuts, i);
    if i < segs.len() - 1 {
        let j = i + 1;
        lemma_end_bound(segs, upto, regions, cuts, j);
        assert(segs[i].end == segs[j].start);
        assert(segs[j].start < segs[j].end);
    }
}

/// No segment of a tiling starts before the clip.
proof fn lemma_start_bound(
    segs: Seq<Segment>,
    upto: int,
    regions: Seq<SpeedRegion>,
    cuts: Seq<Trim>,
    i: int,
)
    requires
        tiles(segs, upto, regions, cuts),
        0 <= i < segs.len(),
    ensures
        0 <= segs[i].start,
    decreases i,
{
    if i > 0 {
        let h = i - 1;
        lemma_start_bound(segs, upto, regions, cuts, h);
        assert(segs[h].end == segs[i].start);
        assert(segs[h].start < segs[h].end);
    }
}

/// A clip can be tiled in exactly one way.
pub proof fn tilings_are_unique(
    p: Seq<Segment>,
    q: Seq<Segment>,
    upto: int,
    regions: Seq<SpeedRegion>,
    cuts: Seq<Trim>,
)
    requires
        tiles(p, upto, regions, cuts),
        tiles(q, upto, regions, cuts),
    ensures
        p == q,
{
    lemma_tilings_agree(p, q, upto, regions, cuts, p.len() as int);
    lemma_tilings_agree(q, p, upto, regions, cuts, q.len() as int);
    assert(p =~= q);
}

/// A tiling of a clip is its list of segments.
proof fn lemma_segments_of(
    segs: Seq<Segment>,
    duration: i64,
    regions: Seq<SpeedRegion>,
    cuts: Seq<Trim>,
)
    requires
        tiles(segs, duration as int, regions, cuts),
    ensures
        segments_of(duration, regions, cuts) == segs,
{
    tilings_are_unique(segs, segments_of(duration, regions, cuts), duration as int, regions, cuts);
}

/// The factors of a tiling are positive.
proof fn lemma_factor_positive(
    segs: Seq<Segment>,
    upto: int,
    regions: Seq<SpeedRegion>,
    cuts: Seq<Trim>,
    i: int,
)
    requires
        tiles(segs, upto, regions, cuts),
        0 <= i < segs.len(),
    ensures
        segs[i].pace matches Pace::Times(f) ==> f > 0,
{
    let x = segs[i].start as int;
    assert(segs[i].start < segs[i].end);
    assert(pace_at(regions, cuts, x) == segs[i].pace);
    lemma_governing(regions, regions.len() as int, x);
}

/// A governing region takes effect.
proof fn lemma_governing(regions: Seq<SpeedRegion>, n: int, x: int)
    requires
        n <= regions.len(),
    ensures
        governing(regions, n, x) matches Some(i) ==> 0 <= i < n && speeds(regions[i], x),
    decreases n,
{
    if n > 0 {
        lemma_governing(regions, n - 1, x);
    }
}

/// A segment plays at most a billion times its length.
proof fn lemma_played_bound(s: Segment)
    requires
        s.start < s.end,
        s.pace matches Pace::Times(f) ==> f > 0,
    ensures
        0 <= played(s) <= (s.end - s.start) * BILLION,
{
    if let Pace::Times(f) = s.pace {
        let n = (s.end - s.start) * BILLION;
        let d = f as int;
        assert(0 <= n / d <= n) by (nonlinear_arith)
            requires
                n >= 0,
                d >= 1,
        ;
    }
}

/// How long one segment plays.
fn play_time(s: &Segment) -> (p: i128)
    requires
        s.start < s.end,
        s.pace matches Pace::Times(f) ==> f > 0,
    ensures
        p == played(*s),
        0 <= p <= (s.end - s.start) * BILLION,
{
    proof {
        lemma_played_bound(*s);
    }
    match s.pace {
        Pace::Cut => 0,
        Pace::Times(f) => (s.end as i128 - s.start as i128) * 1_000_000_000 / f as i128,
    }
}

/// What segments before `i` play lasts at most a billion times as long as they do.
proof fn lemma_total_bound(
    segs: Seq<Segment>,
    upto: int,
    regions: Seq<SpeedRegion>,
    cuts: Seq<Trim>,
    n: int,
)
    requires
        tiles(segs, upto, regions, cuts),
        0 <= n <= segs.len(),
    ensures
        0 <= played_total(segs.take(n)),
        n < segs.len() ==> played_total(segs.take(n)) <= segs[n].start * BILLION,
        n == segs.len() ==> played_total(segs.take(n)) <= upto * BILLION,
    decreases n,
{
    if n > 0 {
        let i = n - 1;
        lemma_total_bound(segs, upto, regions, cuts, i);
        assert(segs.take(n).drop_last() =~= segs.take(i));
        assert(segs[i].start < segs[i].end);
        lemma_factor_positive(segs, upto, regions, cuts, i);
        lemma_played_bound(segs[i]);
        if n < segs.len() {
            assert(segs[i].end == segs[n].start);
        } else {
            assert(segs[i] == segs.last());
        }
    }
}

/// Total played (output) duration after applying speed regions and cuts.
pub fn output_duration(source_duration: i64, regions: &[SpeedRegion], cuts: &[Trim]) -> (d: i128)
    requires
        source_duration >= 0,
    ensures
        d == played_total(segments_of(source_duration, regions@, cuts@)),
        0 <= d <= source_duration * BILLION,
{
    let segs = segments(source_duration, regions, cuts);
    proof {
        lemma_segments_of(segs@, source_duration, regions@, cuts@);
    }
    let mut total: i128 = 0;
    let mut i: usize = 0;
    assert(segs@.take(0) =~= Seq::<Segment>::empty());
    while i < segs.len()
        invariant
            i <= segs@.len(),
            source_duration >= 0,
            tiles(segs@, source_duration as int, regions@, cuts@),
            total == played_total(segs@.take(i as int)),
        decreases segs@.len() - i,
    {
        proof {
            let n = i as int;
            lemma_total_bound(segs@, source_duration as int, regions@, cuts@, n);
            lemma_end_bound(segs@, source_duration as int, regions@, cuts@, n);
            lemma_factor_positive(segs@, source_duration as int, regions@, cuts@, n);
            assert(segs@[n].start < segs@[n].end);
            assert(segs@.take(n + 1).drop_last() =~= segs@.take(n));
        }
        total = total + play_time(&segs[i]);
        i += 1;
    }
    proof {
        lemma_total_bound(segs@, source_duration as int, regions@, cuts@, i as int);
        assert(segs@.take(i as int) =~= segs@);
    }
    total
}

/// The source time that is sampled for output time `t`: inside the first segment that is
/// still playing then, as far from its start as has played, sped up; the clip's end once
/// everything has played.
pub open spec fn sampled(segs: Seq<Segment>, n: int, t: int, end: int) -> int
    decreases segs.len() - n,
{
    if n < 0 || n >= segs.len() {
        end
    } else {
        let before = played_total(segs.take(n));
        let s = segs[n];
        if played(s) > 0 && t <= before + played(s) {
            match s.pace {
                Pace::Times(f) => s.start + (t - before) * f / BILLION as int,
                Pace::Cut => end,
            }
        } else {
            sampled(segs, n + 1, t, end)
        }
    }
}

/// The source time for an output time.
pub open spec fn source_time(
    t: i64,
    duration: i64,
    regions: Seq<SpeedRegion>,
    cuts: Seq<Trim>,
) -> int {
    sampled(segments_of(duration, regions, cuts), 0, t as int, duration as int)
}

/// Map an output (played) time to the source time to sample.
pub fn output_to_source(
    t_out: i64,
    source_duration: i64,
    regions: &[SpeedRegion],
    cuts: &[Trim],
) -> (t: i64)
    requires
        source_duration >= 0,
    ensures
        t == saturated(source_time(t_out, source_duration, regions@, cuts@)),
{
    let segs = segments(source_duration, regions, cuts);
    proof {
        lemma_segments_of(segs@, source_duration, regions@, cuts@);
    }
    let mut acc: i128 = 0;
    let mut i: usize = 0;
    assert(segs@.take(0) =~= Seq::<Segment>::empty());
    while i < segs.len()
        invariant
            i <= segs@.len(),
            source_duration >= 0,
            tiles(segs@, source_duration as int, regions@, cuts@),
            segments_of(source_duration, regions@, cuts@) == segs@,
            acc == played_total(segs@.take(i as int)),
            acc == 0 || t_out > acc,
            sampled(segs@, 0, t_out as int, source_duration as int) == sampled(
                segs@,
                i as int,
                t_out as int,
                source_duration as int,
            ),
        decreases segs@.len() - i,
    {
        proof {
            let n = i as int;
            lemma_total_bound(segs@, source_duration as int, regions@, cuts@, n);
            lemma_end_bound(segs@, source_duration as int, regions@, cuts@, n);
            lemma_factor_positive(segs@, source_duration as int, regions@, cuts@, n);
            assert(segs@[n].start < segs@[n].end);
            assert(segs@.take(n + 1).drop_last() =~= segs@.take(n));
        }
        let s: Segment = segs[i];
        let len: i128 = play_time(&s);
        if len > 0 && t_out as i128 <= acc + len {
            match s.pace {
                Pace::Times(f) => {
                    let d: i128 = t_out as i128 - acc;
                    proof {
                        let x = d as int;
                        let g = f as int;
                        let n = (s.end - s.start) * BILLION;
                        assert(len * g <= n) by (nonlinear_arith)
                            requires
                                len == n / g,
                                g > 0,
                                n >= 0,
                        ;
                        assert(x * g <= n) by (nonlinear_arith)
                            requires
                                x <= len,
                                len * g <= n,
                                g > 0,
                                len > 0,
                                n >= 0,
                        ;
                        assert(x * g >= -0x4000_0000_0000_0000_0000_0000_0000_0000)
                            by (nonlinear_arith)
                            requires
                                x >= -0x8000_0000_0000_0000,
                                0 < g <= 0x7fff_ffff_ffff_ffff,
                        ;
                        let y = x * g;
                        assert(y / 1_000_000_000 <= n / 1_000_000_000 && y / 1_000_000_000
                            >= -0x4000_0000_0000_0000_0000_0000_0000_0000) by (nonlinear_arith)
                            requires
                                y <= n,
                                y >= -0x4000_0000_0000_0000_0000_0000_0000_0000,
                        ;
                    }
                    return saturate(s.start as i128 + floor_div(d * (f as i128), 1_000_000_000));
                },
                Pace::Cut => {},
            }
        }
        acc = acc + len;
        i += 1;
    }
    source_duration
}

/// A sampled time lies in a segment that plays, or is its end.
proof fn lemma_sampled_in(
    segs: Seq<Segment>,
    upto: int,
    regions: Seq<SpeedRegion>,
    cuts: Seq<Trim>,
    n: int,
    t: int,
) -> (i: int)
    requires
        tiles(segs, upto, regions, cuts),
        0 <= n <= segs.len(),
        played_total(segs.take(n)) <= t,
        t <= played_total(segs),
        t < played_total(segs) || played_total(segs.take(n)) < t,
    ensures
        n <= i < segs.len(),
        segs[i].pace is Times,
        segs[i].start <= sampled(segs, n, t, upto) <= segs[i].end,
        played_total(segs.take(i)) <= t <= played_total(segs.take(i + 1)),
        played(segs[i]) > 0,
        sampled(segs, n, t, upto) == segs[i].start + (t - played_total(segs.take(i)))
            * segs[i].pace->Times_0 / BILLION as int,
    decreases segs.len() - n,
{
    if n == segs.len() {
        assert(segs.take(n) =~= segs);
        n
    } else {
        let before = played_total(segs.take(n));
        let s = segs[n];
        assert(segs.take(n + 1).drop_last() =~= segs.take(n));
        assert(s.start < s.end);
        lemma_factor_positive(segs, upto, regions, cuts, n);
        lemma_played_bound(s);
        if played(s) > 0 && t <= before + played(s) {
            if let Pace::Times(f) = s.pace {
                let d = t - before;
                let g = f as int;
                let len = s.end - s.start;
                let p = played(s);
                let w = len * BILLION;
                assert(p * g <= w) by (nonlinear_arith)
                    requires
                        p == w / g,
                        g > 0,
                        w >= 0,
                ;
                assert(0 <= d * g <= w) by (nonlinear_arith)
                    requires
                        0 <= d <= p,
                        p * g <= w,
                        g > 0,
                ;
                let y = d * g;
                assert(0 <= y / 1_000_000_000 <= len) by (nonlinear_arith)
                    requires
                        0 <= y <= len * 1_000_000_000,
                ;
            }
            n
        } else {
            assert(played(s) == 0 || t > before + played(s));
            if played(s) == 0 {
                assert(played_total(segs.take(n + 1)) == before);
            }
            lemma_sampled_in(segs, upto, regions, cuts, n + 1, t)
        }
    }
}

/// A played time samples the source inside the clip and never inside a cut: it lands in a
/// segment that plays, or on its end.
pub proof fn played_times_avoid_cuts(
    t: i64,
    duration: i64,
    regions: Seq<SpeedRegion>,
    cuts: Seq<Trim>,
)
    requires
        duration > 0,
        0 <= t <= played_total(segments_of(duration, regions, cuts)),
        0 < played_total(segments_of(duration, regions, cuts)),
    ensures
        ({
            let x = source_time(t, duration, regions, cuts);
            &&& 0 <= x <= duration
            &&& exists|i: int|
                0 <= i < segments_of(duration, regions, cuts).len() && {
                    let s = #[trigger] segments_of(duration, regions, cuts)[i];
                    s.pace is Times && s.start <= x <= s.end
                }
        }),
{
    let segs = segments_of(duration, regions, cuts);
    clips_can_be_tiled(duration, regions, cuts);
    assert(segs.take(0) =~= Seq::<Segment>::empty());
    let i = lemma_sampled_in(segs, duration as int, regions, cuts, 0, t as int);
    lemma_end_bound(segs, duration as int, regions, cuts, i);
    assert(segs[i].pace is Times);
}

/// Every output time up to the end samples the source inside the clip, even where cuts leave
/// nothing to play.
pub proof fn source_times_lie_in_the_clip(
    t: i64,
    duration: i64,
    regions: Seq<SpeedRegion>,
    cuts: Seq<Trim>,
)
    requires
        duration > 0,
        0 <= t <= played_total(segments_of(duration, regions, cuts)),
    ensures
        0 <= source_time(t, duration, regions, cuts) <= duration,
{
    let segs = segments_of(duration, regions, cuts);
    if 0 < played_total(segs) {
        played_times_avoid_cuts(t, duration, regions, cuts);
    } else {
        clips_can_be_tiled(duration, regions, cuts);
        lemma_nothing_sampled(segs, duration as int, regions, cuts, 0, t as int);
    }
}

/// An output never lasts less than nothing.
pub proof fn outputs_have_a_length(duration: i64, regions: Seq<SpeedRegion>, cuts: Seq<Trim>)
    requires
        duration > 0,
    ensures
        0 <= played_total(segments_of(duration, regions, cuts)),
{
    let segs = segments_of(duration, regions, cuts);
    clips_can_be_tiled(duration, regions, cuts);
    lemma_totals_grow(segs, duration as int, regions, cuts, 0, segs.len() as int);
    assert(segs.take(0) =~= Seq::<Segment>::empty());
    assert(segs.take(segs.len() as int) =~= segs);
}

/// Where nothing plays, every time samples the end.
proof fn lemma_nothing_sampled(
    segs: Seq<Segment>,
    upto: int,
    regions: Seq<SpeedRegion>,
    cuts: Seq<Trim>,
    n: int,
    t: int,
)
    requires
        tiles(segs, upto, regions, cuts),
        0 <= n <= segs.len(),
        played_total(segs) <= 0,
    ensures
        sampled(segs, n, t, upto) == upto,
    decreases segs.len() - n,
{
    if n < segs.len() {
        assert(segs.take(0) =~= Seq::<Segment>::empty());
        assert(segs.take(segs.len() as int) =~= segs);
        assert(segs.take(n + 1).drop_last() =~= segs.take(n));
        lemma_totals_grow(segs, upto, regions, cuts, 0, n);
        lemma_totals_grow(segs, upto, regions, cuts, n + 1, segs.len() as int);
        lemma_nothing_sampled(segs, upto, regions, cuts, n + 1, t);
    }
}

/// Playing on never goes back in the source.
pub proof fn source_time_never_goes_back(
    a: i64,
    b: i64,
    duration: i64,
    regions: Seq<SpeedRegion>,
    cuts: Seq<Trim>,
)
    requires
        duration > 0,
        0 <= a <= b,
        b <= played_total(segments_of(duration, regions, cuts)),
    ensures
        source_time(a, duration, regions, cuts) <= source_time(b, duration, regions, cuts),
{
    let segs = segments_of(duration, regions, cuts);
    let d = duration as int;
    clips_can_be_tiled(duration, regions, cuts);
    assert(segs.take(0) =~= Seq::<Segment>::empty());
    if 0 < played_total(segs) {
        let i = lemma_sampled_in(segs, d, regions, cuts, 0, a as int);
        let j = lemma_sampled_in(segs, d, regions, cuts, 0, b as int);
        if i == j {
            let f = segs[i].pace->Times_0 as int;
            let base = played_total(segs.take(i));
            lemma_factor_positive(segs, d, regions, cuts, i);
            let p = (a - base) * f;
            let q = (b - base) * f;
            assert(p <= q) by (nonlinear_arith)
                requires
                    p == (a - base) * f,
                    q == (b - base) * f,
                    a <= b,
                    f > 0,
            ;
            vstd::arithmetic::div_mod::lemma_div_is_ordered(p, q, BILLION as int);
        } else if i < j {
            lemma_ends_before(segs, d, regions, cuts, i, j);
        } else {
            lemma_totals_grow(segs, d, regions, cuts, j + 1, i);
            assert(a == b);
        }
    }
}

/// An earlier segment ends before a later one starts.
proof fn lemma_ends_before(
    segs: Seq<Segment>,
    upto: int,
    regions: Seq<SpeedRegion>,
    cuts: Seq<Trim>,
    i: int,
    j: int,
)
    requires
        tiles(segs, upto, regions, cuts),
        0 <= i < j < segs.len(),
    ensures
        segs[i].end <= segs[j].start,
    decreases j - i,
{
    let k = i + 1;
    assert(segs[i].end == segs[k].start);
    if k < j {
        lemma_ends_before(segs, upto, regions, cuts, k, j);
        assert(segs[k].start < segs[k].end);
    }
}

/// More segments play no shorter.
proof fn lemma_totals_grow(
    segs: Seq<Segment>,
    upto: int,
    regions: Seq<SpeedRegion>,
    cuts: Seq<Trim>,
    m: int,
    n: int,
)
    requires
        tiles(segs, upto, regions, cuts),
        0 <= m <= n <= segs.len(),
    ensures
        played_total(segs.take(m)) <= played_total(segs.take(n)),
    decreases n - m,
{
    if m < n {
        lemma_totals_grow(segs, upto, regions, cuts, m, n - 1);
        assert(segs.take(n).drop_last() =~= segs.take(n - 1));
        assert(segs[n - 1].start < segs[n - 1].end);
        lemma_factor_positive(segs, upto, regions, cuts, n - 1);
        lemma_played_bound(segs[n - 1]);
    }
}

/// A tiling of the first `n` instants.
proof fn lemma_tiling(n: i64, regions: Seq<SpeedRegion>, cuts: Seq<Trim>) -> (segs: Seq<Segment>)
    requires
        n >= 0,
    ensures
        tiles(segs, n as int, regions, cuts),
    decreases n,
{
    if n == 0 {
        Seq::empty()
    } else {
        let m = (n - 1) as i64;
        let before = lemma_tiling(m, regions, cuts);
        let pace = pace_at(regions, cuts, m as int);
        let joins = before.len() > 0 && before.last().pace == pace;
        let last = before.len() - 1;
        let segs = if joins {
            before.update(last, Segment { start: before.last().start, end: n, pace })
        } else {
            before.push(Segment { start: m, end: n, pace })
        };
        assert forall|i: int| 0 <= i < segs.len() implies (#[trigger] segs[i]).start
            < segs[i].end by {
            if i < before.len() {
                assert(before[i].start < before[i].end);
            }
        }
        assert forall|i: int, j: int| 0 <= i && j == i + 1 && j < segs.len() implies (
        #[trigger] segs[i]).end == (#[trigger] segs[j]).start && segs[i].pace != segs[j].pace by {
            if j < before.len() {
                assert(before[i].end == before[j].start && before[i].pace != before[j].pace);
            }
        }
        assert forall|i: int, x: int|
            0 <= i < segs.len() && (#[trigger] segs[i]).start <= x < segs[i].end implies
            #[trigger] pace_at(regions, cuts, x) == segs[i].pace by {
            if i < before.len() && x < m {
                if joins || i < last {
                    lemma_end_bound(before, m as int, regions, cuts, i);
                }
                assert(before[i].start <= x < before[i].end);
            }
            if i < before.len() && x >= m && !(joins && i == last) {
                lemma_end_bound(before, m as int, regions, cuts, i);
            }
        }
        segs
    }
}

/// Every clip can be tiled.
pub proof fn clips_can_be_tiled(duration: i64, regions: Seq<SpeedRegion>, cuts: Seq<Trim>)
    requires
        duration >= 0,
    ensures
        tiles(segments_of(duration, regions, cuts), duration as int, regions, cuts),
{
    let segs = lemma_tiling(duration, regions, cuts);
    lemma_segments_of(segs, duration, regions, cuts);
}

/// Cuts always win: a segment that holds an instant of a cut does not play at all, whatever
/// speed regions cover it.
pub proof fn cuts_never_play(
    duration: i64,
    regions: Seq<SpeedRegion>,
    cuts: Seq<Trim>,
    i: int,
    x: int,
)
    requires
        duration >= 0,
        is_cut(cuts, x),
        0 <= i < segments_of(duration, regions, cuts).len(),
        segments_of(duration, regions, cuts)[i].start <= x < segments_of(
            duration,
            regions,
            cuts,
        )[i].end,
    ensures
        segments_of(duration, regions, cuts)[i].pace is Cut,
        played(segments_of(duration, regions, cuts)[i]) == 0,
{
    clips_can_be_tiled(duration, regions, cuts);
    assert(pace_at(regions, cuts, x) is Cut);
}

/// Without regions and cuts the output is the source.
pub proof fn nothing_to_remap_is_identity(t: i64, duration: i64)
    requires
        duration > 0,
        0 <= t <= duration,
    ensures
        played_total(segments_of(duration, Seq::empty(), Seq::empty())) == duration,
        source_time(t, duration, Seq::empty(), Seq::empty()) == t,
{
    let regions = Seq::<SpeedRegion>::empty();
    let cuts = Seq::<Trim>::empty();
    let whole = Segment { start: 0, end: duration, pace: Pace::Times(BILLION) };
    let segs = seq![whole];
    assert forall|x: int| #[trigger] pace_at(regions, cuts, x) == Pace::Times(BILLION) by {
        assert(!is_cut(cuts, x));
    }
    assert(tiles(segs, duration as int, regions, cuts));
    lemma_segments_of(segs, duration, regions, cuts);
    assert(segs.drop_last() =~= Seq::<Segment>::empty());
    assert(segs.take(0) =~= Seq::<Segment>::empty());
    let d = duration as int;
    let u = t as int;
    assert(d * 1_000_000_000 / 1_000_000_000 == d && u * 1_000_000_000 / 1_000_000_000 == u);
    assert(played(whole) == duration);
    assert(played_total(segs.take(0)) == 0);
}

/// Factors of at least one only shorten a clip.
pub proof fn speeding_up_only_shortens(duration: i64, regions: Seq<SpeedRegion>, cuts: Seq<Trim>)
    requires
        duration >= 0,
        forall|i: int| 0 <= i < regions.len() ==> (#[trigger] regions[i]).factor >= BILLION,
    ensures
        0 <= played_total(segments_of(duration, regions, cuts)) <= duration,
{
    clips_can_be_tiled(duration, regions, cuts);
    let segs = segments_of(duration, regions, cuts);
    lemma_shortens(segs, duration as int, regions, cuts, segs.len() as int);
    assert(segs.take(segs.len() as int) =~= segs);
}

/// What plays before a segment is no longer than the source before it.
proof fn lemma_shortens(
    segs: Seq<Segment>,
    upto: int,
    regions: Seq<SpeedRegion>,
    cuts: Seq<Trim>,
    n: int,
)
    requires
        tiles(segs, upto, regions, cuts),
        forall|i: int| 0 <= i < regions.len() ==> (#[trigger] regions[i]).factor >= BILLION,
        0 <= n <= segs.len(),
    ensures
        0 <= played_total(segs.take(n)),
        n < segs.len() ==> played_total(segs.take(n)) <= segs[n].start,
        n == segs.len() ==> played_total(segs.take(n)) <= upto,
    decreases n,
{
    if n > 0 {
        let i = n - 1;
        lemma_shortens(segs, upto, regions, cuts, i);
        assert(segs.take(n).drop_last() =~= segs.take(i));
        let s = segs[i];
        assert(s.start < s.end);
        lemma_governing(regions, regions.len() as int, s.start as int);
        assert(pace_at(regions, cuts, s.start as int) == s.pace);
        if let Pace::Times(f) = s.pace {
            let w = s.end - s.start;
            let g = f as int;
            assert(0 <= w * 1_000_000_000 / g <= w) by (nonlinear_arith)
                requires
                    w >= 0,
                    g >= 1_000_000_000,
            ;
        }
        if n < segs.len() {
            assert(segs[i].end == segs[n].start);
        } else {
            assert(segs[i] == segs.last());
        }
    }
}

/// Whether a region that plays at its own speed over an instant comes before another: it
/// starts earlier in the clip, or as early and stands first in the list.
pub open spec fn comes_first(regions: Seq<SpeedRegion>, i: int, j: int) -> bool {
    let a = if regions[i].start < 0 {
        0
    } else {
        regions[i].start as int
    };
    let b = if regions[j].start < 0 {
        0
    } else {
        regions[j].start as int
    };
    a < b || (a == b && i <= j)
}

/// The region that comes first among some that cover an instant governs them.
proof fn lemma_first_governs(regions: Seq<SpeedRegion>, n: int, x: int, i: int)
    requires
        0 <= i < regions.len(),
        n <= regions.len(),
        speeds(regions[i], x),
        forall|j: int|
            0 <= j < regions.len() && speeds(#[trigger] regions[j], x) ==> comes_first(
                regions,
                i,
                j,
            ),
    ensures
        n > i ==> governing(regions, n, x) == Some(i),
        n <= i ==> (governing(regions, n, x) matches Some(k) ==> 0 <= k < n && speeds(
            regions[k],
            x,
        )),
    decreases n,
{
    if n > 0 {
        lemma_first_governs(regions, n - 1, x, i);
        let before = governing(regions, n - 1, x);
        if n - 1 == i {
            if let Some(k) = before {
                assert(speeds(regions[k], x));
                assert(comes_first(regions, i, k));
            }
        } else if n - 1 > i && speeds(regions[n - 1], x) {
            assert(comes_first(regions, i, n - 1));
        }
    }
}

/// An instant that is cut is cut, whatever speed it has. Else it plays at the speed of the
/// region over it that starts first, of equal ones the first in the list, and where there is
/// none as it was recorded. Empty regions and factors of nothing do not count.
pub proof fn the_first_region_sets_the_pace(
    regions: Seq<SpeedRegion>,
    cuts: Seq<Trim>,
    x: int,
    i: int,
)
    ensures
        0 <= i < cuts.len() && cuts[i].start <= x < cuts[i].end ==> pace_at(regions, cuts, x)
            is Cut,
        (forall|j: int|
            0 <= j < cuts.len() ==> !((#[trigger] cuts[j]).start <= x && x < cuts[j].end)) && 0 <= i
            < regions.len() && regions[i].start <= x < regions[i].end && regions[i].factor > 0 && (
        forall|j: int|
            0 <= j < regions.len() && (#[trigger] regions[j]).start <= x < regions[j].end
                && regions[j].factor > 0 ==> comes_first(regions, i, j)) ==> pace_at(
            regions,
            cuts,
            x,
        ) == Pace::Times(regions[i].factor),
        (forall|j: int|
            0 <= j < cuts.len() ==> !((#[trigger] cuts[j]).start <= x && x < cuts[j].end)) && (
        forall|j: int|
            0 <= j < regions.len() ==> !((#[trigger] regions[j]).start <= x && x < regions[j].end
                && regions[j].factor > 0)) ==> pace_at(regions, cuts, x) == Pace::Times(
            1_000_000_000,
        ),
{
    if 0 <= i < regions.len() && speeds(regions[i], x) && (forall|j: int|
        0 <= j < regions.len() && (#[trigger] regions[j]).start <= x < regions[j].end
            && regions[j].factor > 0 ==> comes_first(regions, i, j)) {
        assert forall|j: int| 0 <= j < regions.len() && speeds(#[trigger] regions[j], x) implies comes_first(
            regions,
            i,
            j,
        ) by {}
        lemma_first_governs(regions, regions.len() as int, x, i);
    }
    if forall|j: int|
        0 <= j < regions.len() ==> !((#[trigger] regions[j]).start <= x && x < regions[j].end
            && regions[j].factor > 0) {
        lemma_ungoverned(regions, regions.len() as int, x);
    }
}

/// Where no region covers an instant, none governs it.
proof fn lemma_ungoverned(regions: Seq<SpeedRegion>, n: int, x: int)
    requires
        n <= regions.len(),
        forall|j: int|
            0 <= j < regions.len() ==> !((#[trigger] regions[j]).start <= x && x < regions[j].end
                && regions[j].factor > 0),
    ensures
        governing(regions, n, x) is None,
    decreases n,
{
    if n > 0 {
        lemma_ungoverned(regions, n - 1, x);
        let r = regions[n - 1];
        assert(!speeds(r, x));
    }
}

/// A clip that plays at one speed throughout takes the time that goes with it, and shows the
/// instant that goes with it: twice as fast takes half the time and gets twice as far.
pub proof fn uniform_speed_scales_the_clip(t: i64, duration: i64, r: SpeedRegion)
    requires
        duration > 0,
        r.start <= 0,
        r.end >= duration,
        r.factor > 0,
        0 <= t,
        t * r.factor <= duration * BILLION,
    ensures
        ({
            let total = played_total(segments_of(duration, seq![r], Seq::empty()));
            let x = source_time(t, duration, seq![r], Seq::empty());
            &&& total * r.factor <= duration * BILLION < (total + 1) * r.factor
            &&& total > 0 ==> x * BILLION <= t * r.factor < (x + 1) * BILLION
        }),
{
    let regions = seq![r];
    let cuts = Seq::<Trim>::empty();
    let f = r.factor as int;
    let whole = Segment { start: 0, end: duration, pace: Pace::Times(r.factor) };
    let segs = seq![whole];
    assert forall|x: int| 0 <= x < duration implies #[trigger] pace_at(regions, cuts, x)
        == Pace::Times(r.factor) by {
        assert(!is_cut(cuts, x));
        assert(regions[0] == r);
        reveal_with_fuel(governing, 2);
    }
    assert(tiles(segs, duration as int, regions, cuts));
    lemma_segments_of(segs, duration, regions, cuts);
    assert(segs.drop_last() =~= Seq::<Segment>::empty());
    assert(segs.take(0) =~= Seq::<Segment>::empty());
    assert(played_total(segs.take(0)) == 0);
    let p = duration * BILLION;
    let total = p / f;
    assert((duration - 0) * BILLION == p);
    assert(played(whole) == total);
    assert(total * f <= p < (total + 1) * f) by (nonlinear_arith)
        requires
            total == p / f,
            f > 0,
    ;
    let a = t * f;
    assert(t <= total) by (nonlinear_arith)
        requires
            a == t * f,
            a <= p,
            p < (total + 1) * f,
            f > 0,
    ;
    assert((t - 0) * f == a);
    if total > 0 {
        assert(source_time(t, duration, regions, cuts) == 0 + a / BILLION as int);
    }
}

/// A cut takes its length out of the clip: what comes before plays as before, and what comes
/// after follows at once.
pub proof fn a_cut_is_skipped(t: i64, duration: i64, c: Trim)
    requires
        0 < c.start < c.end < duration,
        0 <= t <= duration - (c.end - c.start),
    ensures
        ({
            let total = played_total(segments_of(duration, Seq::empty(), seq![c]));
            let x = source_time(t, duration, Seq::empty(), seq![c]);
            &&& total == duration - (c.end - c.start)
            &&& t <= c.start ==> x == t
            &&& t > c.start ==> x == t + (c.end - c.start)
        }),
{
    let regions = Seq::<SpeedRegion>::empty();
    let cuts = seq![c];
    let one = Pace::Times(BILLION);
    let a = Segment { start: 0, end: c.start, pace: one };
    let b = Segment { start: c.start, end: c.end, pace: Pace::Cut };
    let d = Segment { start: c.end, end: duration, pace: one };
    let segs = seq![a, b, d];
    assert forall|x: int| #[trigger] pace_at(regions, cuts, x) == (if c.start <= x < c.end {
        Pace::Cut
    } else {
        one
    }) by {
        assert(cuts[0] == c);
        if c.start <= x < c.end {
            assert(is_cut(cuts, x));
        }
    }
    assert(tiles(segs, duration as int, regions, cuts));
    lemma_segments_of(segs, duration, regions, cuts);
    assert(segs.drop_last() =~= seq![a, b]);
    assert(seq![a, b].drop_last() =~= seq![a]);
    assert(seq![a].drop_last() =~= Seq::<Segment>::empty());
    assert(segs.take(0) =~= Seq::<Segment>::empty());
    assert(segs.take(1) =~= seq![a]);
    assert(segs.take(2) =~= seq![a, b]);
    let m = c.start as int;
    let n = duration - c.end;
    let u = t as int;
    assert(m * 1_000_000_000 / 1_000_000_000 == m && n * 1_000_000_000 / 1_000_000_000 == n);
    assert(u * 1_000_000_000 / 1_000_000_000 == u && (u - m) * 1_000_000_000 / 1_000_000_000 == u
        - m);
    assert(played(a) == m);
    assert(played(d) == n);
    assert(played_total(Seq::<Segment>::empty()) == 0);
    assert(played_total(seq![a]) == c.start);
    assert(played_total(seq![a, b]) == c.start);
    assert(played_total(segs) == duration - (c.end - c.start));
    reveal_with_fuel(sampled, 4);
}

} // verus!
