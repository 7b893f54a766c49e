//! Timeline editing operations for zoom keyframes.
//!
//! These keep the list valid: sorted by start, free of overlap, and no segment shorter
//! than [`MIN_LEN`].

use crate::sort::{
    in_order, lemma_place, place_after, place_for, sort_by_time, sorted, sorting_keeps_sorted_lists,
    Timed,
};
use crate::units::{clamped, greater, lesser, saturate, saturated};
use crate::zoom::keyframe::ZoomKeyframe;
use vstd::prelude::*;

verus! {

/// Minimum zoom-segment length (nanoseconds) the editor will allow.
pub const MIN_LEN: i64 = 200_000_000;

impl Timed for ZoomKeyframe {
    open spec fn at(self) -> i64 {
        self.start
    }

    fn when(&self) -> (t: i64) {
        self.start
    }
}

/// Sort keyframes by start time (stable).
pub fn sort_by_start(zooms: &mut Vec<ZoomKeyframe>)
    ensures
        final(zooms)@ == in_order(old(zooms)@),
{
    sort_by_time(zooms);
}

/// Where the segment before place `i` ends; the clip's start if there is none.
pub open spec fn end_before(z: Seq<ZoomKeyframe>, i: int) -> int {
    if 0 < i <= z.len() {
        z[i - 1].end as int
    } else {
        0
    }
}

/// The segment `k` moved and shortened into the gap from `lo` on, `width` long if it has an
/// end: it keeps its length (at least the minimum) if the gap is large enough, else it
/// fills the gap.
pub open spec fn fitted(k: ZoomKeyframe, lo: int, width: Option<int>) -> ZoomKeyframe {
    let wanted = greater(k.end - k.start, MIN_LEN as int);
    match width {
        Some(w) => {
            let len = lesser(wanted, w);
            let start = clamped(k.start as int, lo, lo + w - len);
            with_span(k, start, start + len)
        },
        None => {
            let start = greater(k.start as int, lo);
            with_span(k, start, start + wanted)
        },
    }
}

/// A segment with other times.
pub open spec fn with_span(k: ZoomKeyframe, start: int, end: int) -> ZoomKeyframe {
    ZoomKeyframe {
        start: saturated(start),
        end: saturated(end),
        amount: k.amount,
        mode: k.mode,
        edge_snap_ratio: k.edge_snap_ratio,
        style: k.style,
    }
}

/// The width of the gap in front of place `i`, if a segment bounds it.
pub open spec fn gap_width(z: Seq<ZoomKeyframe>, i: int) -> Option<int> {
    if 0 <= i < z.len() {
        Some(z[i].start - end_before(z, i))
    } else {
        None
    }
}

/// Whether the gap in front of place `i` can hold a segment.
pub open spec fn has_room(z: Seq<ZoomKeyframe>, i: int) -> bool {
    match gap_width(z, i) {
        Some(w) => w >= MIN_LEN,
        None => true,
    }
}

/// Insert a keyframe, keeping the list sorted by start and free of overlap.
///
/// The requested span is clamped into the gap between the neighbouring segments. The
/// segment keeps its requested length when the gap is large enough, otherwise it shrinks
/// to fill the gap. If the gap can't hold [`MIN_LEN`], the insert is rejected and `None` is
/// returned. On success returns the insertion index.
pub fn insert_sorted(zooms: &mut Vec<ZoomKeyframe>, kf: ZoomKeyframe) -> (r: Option<usize>)
    ensures
        ({
            let z = old(zooms)@;
            let at = place_after(z, kf.start);
            match r {
                Some(i) => {
                    &&& has_room(z, at)
                    &&& i == at
                    &&& final(zooms)@ == z.insert(at, fitted(kf, end_before(z, at), gap_width(z, at)))
                },
                None => !has_room(z, at) && final(zooms)@ == z,
            }
        }),
{
    let at: usize = place_for(zooms, kf.start);
    let lo: i128 = if at > 0 {
        zooms[at - 1].end as i128
    } else {
        0
    };
    let asked: i128 = kf.end as i128 - kf.start as i128;
    let mut len: i128 = if asked < MIN_LEN as i128 {
        MIN_LEN as i128
    } else {
        asked
    };
    let mut start: i128 = kf.start as i128;
    if at < zooms.len() {
        let hi: i128 = zooms[at].start as i128;
        let width: i128 = hi - lo;
        if width < MIN_LEN as i128 {
            return None;
        }
        if len > width {
            len = width;
        }
        if start > hi - len {
            start = hi - len;
        }
    }
    if start < lo {
        start = lo;
    }
    let mut placed: ZoomKeyframe = kf;
    placed.start = saturate(start);
    placed.end = saturate(start + len);
    zooms.insert(at, placed);
    Some(at)
}

/// Remove the keyframe at `index`. Returns it, or `None` if out of range.
pub fn remove(zooms: &mut Vec<ZoomKeyframe>, index: usize) -> (r: Option<ZoomKeyframe>)
    ensures
        match r {
            Some(k) => {
                &&& index < old(zooms)@.len()
                &&& k == old(zooms)@[index as int]
                &&& final(zooms)@ == old(zooms)@.remove(index as int)
            },
            None => index >= old(zooms)@.len() && final(zooms)@ == old(zooms)@,
        },
{
    if index < zooms.len() {
        Some(zooms.remove(index))
    } else {
        None
    }
}

/// Where the segment after place `i` starts; `default` if there is none.
pub open spec fn start_after(z: Seq<ZoomKeyframe>, i: int, default: i64) -> int {
    if 0 <= i + 1 < z.len() {
        z[i + 1].start as int
    } else {
        default as int
    }
}

/// The segment at place `i` moved to start at `new_start`: it keeps its length (at least
/// the minimum), stays in the clip and stops at its neighbours' facing edges.
pub open spec fn moved(z: Seq<ZoomKeyframe>, i: int, new_start: i64, duration: i64) -> ZoomKeyframe {
    let k = z[i];
    let len = greater(k.end - k.start, MIN_LEN as int);
    let lo = greater(end_before(z, i), 0);
    let hi = greater(lesser(start_after(z, i, duration), duration as int) - len, lo);
    let start = clamped(new_start as int, lo, hi);
    with_span(k, start, start + len)
}

/// Move the keyframe at `index` so it starts at `new_start`, preserving its duration and
/// clamping to the clip. The segment also stops at its neighbours' facing edges instead of
/// crossing into them. Re-sorts the list. Returns `false` if `index` is invalid.
pub fn move_to(zooms: &mut Vec<ZoomKeyframe>, index: usize, new_start: i64, duration: i64) -> (r:
    bool)
    ensures
        r == (index < old(zooms)@.len()),
        final(zooms)@ == (if r {
            in_order(
                old(zooms)@.update(index as int, moved(old(zooms)@, index as int, new_start, duration)),
            )
        } else {
            old(zooms)@
        }),
{
    if index >= zooms.len() {
        return false;
    }
    let prev_end: i128 = if index > 0 {
        zooms[index - 1].end as i128
    } else {
        0
    };
    let next_start: i128 = if index < zooms.len() - 1 {
        zooms[index + 1].start as i128
    } else {
        duration as i128
    };
    let mut kf: ZoomKeyframe = zooms[index];
    let asked: i128 = kf.end as i128 - kf.start as i128;
    let len: i128 = if asked < MIN_LEN as i128 {
        MIN_LEN as i128
    } else {
        asked
    };
    let lo: i128 = if prev_end < 0 {
        0
    } else {
        prev_end
    };
    let room: i128 = if next_start > duration as i128 {
        duration as i128
    } else {
        next_start
    };
    let hi: i128 = if room - len < lo {
        lo
    } else {
        room - len
    };
    let mut start: i128 = new_start as i128;
    if start < lo {
        start = lo;
    } else if start > hi {
        start = hi;
    }
    kf.start = saturate(start);
    kf.end = saturate(start + len);
    zooms.set(index, kf);
    sort_by_start(zooms);
    true
}

/// The segment at place `i` resized: each edge stops at its neighbour's facing edge, and
/// the minimum length is kept.
pub open spec fn resized(
    z: Seq<ZoomKeyframe>,
    i: int,
    new_start: i64,
    new_end: i64,
    duration: i64,
) -> ZoomKeyframe {
    let lo = end_before(z, i);
    let hi = start_after(z, i, duration);
    let start = clamped(new_start as int, lo, greater(hi - MIN_LEN, lo));
    let end = clamped(new_end as int, start + MIN_LEN, greater(hi, start + MIN_LEN));
    with_span(z[i], start, end)
}

/// Resize the keyframe at `index` to `new_start..new_end`, clamped to the clip and keeping
/// [`MIN_LEN`]. Each edge is additionally clamped to its neighbour's facing edge so the
/// segment can never grow into an adjacent zoom. Returns `false` if the clip is too short
/// or `index` invalid.
pub fn resize(
    zooms: &mut Vec<ZoomKeyframe>,
    index: usize,
    new_start: i64,
    new_end: i64,
    duration: i64,
) -> (r: bool)
    ensures
        r == (duration >= MIN_LEN && index < old(zooms)@.len()),
        final(zooms)@ == (if r {
            old(zooms)@.update(
                index as int,
                resized(old(zooms)@, index as int, new_start, new_end, duration),
            )
        } else {
            old(zooms)@
        }),
{
    if duration < MIN_LEN || index >= zooms.len() {
        return false;
    }
    let lo: i128 = if index > 0 {
        zooms[index - 1].end as i128
    } else {
        0
    };
    let hi: i128 = if index < zooms.len() - 1 {
        zooms[index + 1].start as i128
    } else {
        duration as i128
    };
    let min: i128 = MIN_LEN as i128;
    let start_hi: i128 = if hi - min < lo {
        lo
    } else {
        hi - min
    };
    let mut start: i128 = new_start as i128;
    if start < lo {
        start = lo;
    } else if start > start_hi {
        start = start_hi;
    }
    let end_hi: i128 = if hi < start + min {
        start + min
    } else {
        hi
    };
    let mut end: i128 = new_end as i128;
    if end < start + min {
        end = start + min;
    } else if end > end_hi {
        end = end_hi;
    }
    let mut kf: ZoomKeyframe = zooms[index];
    kf.start = saturate(start);
    kf.end = saturate(end);
    zooms.set(index, kf);
    true
}

/// Latest time (about 73 years) up to which sums of times cannot leave their type.
pub const TIME_LIMIT: i64 = 0x2000_0000_0000_0000;

/// Whether a zoom list is valid: sorted, free of overlap, in the clip's positive time, and
/// no segment shorter than the minimum.
pub open spec fn valid(z: Seq<ZoomKeyframe>) -> bool {
    &&& forall|i: int|
        0 <= i < z.len() ==> {
            &&& 0 <= (#[trigger] z[i]).start
            &&& z[i].end - z[i].start >= MIN_LEN
        }
    &&& forall|i: int, j: int|
        0 <= i < j < z.len() ==> (#[trigger] z[i]).end <= (#[trigger] z[j]).start
}

/// A valid list is sorted.
pub proof fn valid_lists_are_sorted(z: Seq<ZoomKeyframe>)
    requires
        valid(z),
    ensures
        sorted(z),
{
    assert forall|i: int, j: int| 0 <= i <= j < z.len() implies (#[trigger] z[i]).start
        <= (#[trigger] z[j]).start by {
        if i < j {
            assert(z[i].end <= z[j].start);
        }
    }
}

/// Inserting into a valid list leaves it valid.
pub proof fn inserting_keeps_lists_valid(z: Seq<ZoomKeyframe>, k: ZoomKeyframe)
    requires
        valid(z),
        has_room(z, place_after(z, k.start)),
        k.start <= TIME_LIMIT,
        k.end - k.start <= TIME_LIMIT,
        forall|i: int| 0 <= i < z.len() ==> (#[trigger] z[i]).end <= TIME_LIMIT,
    ensures
        ({
            let at = place_after(z, k.start);
            valid(z.insert(at, fitted(k, end_before(z, at), gap_width(z, at))))
        }),
{
    valid_lists_are_sorted(z);
    lemma_place(z, k.start);
    let at = place_after(z, k.start);
    let f = fitted(k, end_before(z, at), gap_width(z, at));
    let out = z.insert(at, f);
    assert forall|i: int, j: int| 0 <= i < j < out.len() implies (#[trigger] out[i]).end
        <= (#[trigger] out[j]).start by {
        let bi = if i < at {
            i
        } else {
            i - 1
        };
        let bj = if j < at {
            j
        } else {
            j - 1
        };
        if i != at && j != at {
            assert(out[i] == z[bi] && out[j] == z[bj]);
            assert(z[bi].end <= z[bj].start);
        } else if j == at {
            assert(out[i] == z[bi]);
            assert(z[bi].end <= z[at - 1].end) by {
                if bi < at - 1 {
                    assert(z[bi].end <= z[at - 1].start);
                }
            }
        } else {
            assert(out[j] == z[bj]);
            assert(z[at].start <= z[bj].start);
        }
    }
    assert forall|i: int| 0 <= i < out.len() implies {
        &&& 0 <= (#[trigger] out[i]).start
        &&& out[i].end - out[i].start >= MIN_LEN
    } by {
        if i < at {
            assert(out[i] == z[i]);
        } else if i > at {
            assert(out[i] == z[i - 1]);
        }
    }
}

/// Moving a segment of a valid list leaves the list valid, and in the order it had.
pub proof fn moving_keeps_lists_valid(z: Seq<ZoomKeyframe>, i: int, new_start: i64, duration: i64)
    requires
        valid(z),
        0 <= i < z.len(),
        duration <= TIME_LIMIT,
        forall|k: int| 0 <= k < z.len() ==> (#[trigger] z[k]).end <= TIME_LIMIT,
    ensures
        valid(z.update(i, moved(z, i, new_start, duration))),
        in_order(z.update(i, moved(z, i, new_start, duration))) == z.update(
            i,
            moved(z, i, new_start, duration),
        ),
        moved(z, i, new_start, duration).end - moved(z, i, new_start, duration).start == z[i].end
            - z[i].start,
{
    let m = moved(z, i, new_start, duration);
    lemma_update_valid(z, i, m);
    valid_lists_are_sorted(z.update(i, m));
    sorting_keeps_sorted_lists(z.update(i, m));
}

/// Replacing a segment of a valid list by one that fits between its neighbours leaves the
/// list valid.
proof fn lemma_update_valid(z: Seq<ZoomKeyframe>, i: int, m: ZoomKeyframe)
    requires
        valid(z),
        0 <= i < z.len(),
        0 <= m.start,
        m.end - m.start >= MIN_LEN,
        i > 0 ==> z[i - 1].end <= m.start,
        i < z.len() - 1 ==> m.end <= z[i + 1].start,
    ensures
        valid(z.update(i, m)),
{
    let out = z.update(i, m);
    assert forall|a: int, b: int| 0 <= a < b < out.len() implies (#[trigger] out[a]).end
        <= (#[trigger] out[b]).start by {
        assert(z[a].end <= z[b].start);
        if a == i {
            if b > i + 1 {
                assert(z[i + 1].end <= z[b].start);
                assert(0 <= z[i + 1].start);
            }
        } else if b == i {
            if a < i - 1 {
                assert(z[a].end <= z[i - 1].start);
                assert(0 <= z[i - 1].start);
            }
        }
    }
    assert forall|a: int| 0 <= a < out.len() implies {
        &&& 0 <= (#[trigger] out[a]).start
        &&& out[a].end - out[a].start >= MIN_LEN
    } by {
        if a != i {
            assert(out[a] == z[a]);
        }
    }
}

/// Resizing a segment of a valid list leaves the list valid.
pub proof fn resizing_keeps_lists_valid(
    z: Seq<ZoomKeyframe>,
    i: int,
    new_start: i64,
    new_end: i64,
    duration: i64,
)
    requires
        valid(z),
        0 <= i < z.len(),
        MIN_LEN <= duration <= TIME_LIMIT,
        forall|k: int| 0 <= k < z.len() ==> (#[trigger] z[k]).end <= TIME_LIMIT,
    ensures
        valid(z.update(i, resized(z, i, new_start, new_end, duration))),
{
    let r = resized(z, i, new_start, new_end, duration);
    assert(0 <= z[i].start);
    if i > 0 {
        assert(z[i - 1].end <= z[i].start);
        assert(0 <= z[i - 1].start);
    }
    if i < z.len() - 1 {
        assert(z[i].end <= z[i + 1].start);
        assert(z[i + 1].end <= TIME_LIMIT);
    }
    lemma_update_valid(z, i, r);
}

/// Removing a segment of a valid list leaves the list valid.
pub proof fn removing_keeps_lists_valid(z: Seq<ZoomKeyframe>, i: int)
    requires
        valid(z),
        0 <= i < z.len(),
    ensures
        valid(z.remove(i)),
{
    let out = z.remove(i);
    assert forall|a: int| 0 <= a < out.len() implies {
        &&& 0 <= (#[trigger] out[a]).start
        &&& out[a].end - out[a].start >= MIN_LEN
    } by {
        assert(out[a] == z[if a < i { a } else { a + 1 }]);
    }
    assert forall|a: int, b: int| 0 <= a < b < out.len() implies (#[trigger] out[a]).end
        <= (#[trigger] out[b]).start by {
        let za = if a < i { a } else { a + 1 };
        let zb = if b < i { b } else { b + 1 };
        assert(out[a] == z[za] && out[b] == z[zb]);
        assert(z[za].end <= z[zb].start);
    }
}

/// A new segment that fits where it was asked for is put there as it is; one that is too early
/// or too long for the gap begins with the gap or ends with it. Its look stays.
pub proof fn new_segments_go_where_they_fit(k: ZoomKeyframe, lo: int, width: Option<int>)
    requires
        0 <= lo <= TIME_LIMIT,
        0 <= k.start <= TIME_LIMIT,
        0 <= k.end - k.start <= TIME_LIMIT,
        width matches Some(w) ==> 200_000_000 <= w <= TIME_LIMIT,
    ensures
        ({
            let f = fitted(k, lo, width);
            let len = if k.end - k.start >= 200_000_000 {
                k.end - k.start
            } else {
                200_000_000
            };
            &&& f.amount == k.amount
            &&& f.mode == k.mode
            &&& f.edge_snap_ratio == k.edge_snap_ratio
            &&& f.style == k.style
            &&& width is None ==> f.end - f.start == len && f.start == greater(k.start as int, lo)
            &&& width matches Some(w) ==> {
                &&& lo <= f.start
                &&& f.end <= lo + w
                &&& len <= w ==> f.end - f.start == len
                &&& len > w ==> f.start == lo && f.end == lo + w
                &&& lo <= k.start && k.start + len <= lo + w ==> f.start == k.start
                &&& k.start < lo ==> f.start == lo
                &&& k.start >= lo && k.start + len > lo + w && len <= w ==> f.end == lo + w
            }
        }),
{
}

/// A segment is moved to where it was asked for if the gap between its neighbours allows, else
/// as near as it does; its length and look stay.
pub proof fn segments_move_where_asked(
    z: Seq<ZoomKeyframe>,
    i: int,
    new_start: i64,
    duration: i64,
)
    requires
        valid(z),
        0 <= i < z.len(),
        duration <= TIME_LIMIT,
        z[i].end <= duration,
        forall|k: int| 0 <= k < z.len() ==> (#[trigger] z[k]).end <= TIME_LIMIT,
    ensures
        ({
            let m = moved(z, i, new_start, duration);
            let len = z[i].end - z[i].start;
            let lo = if i > 0 {
                z[i - 1].end as int
            } else {
                0
            };
            let hi = if i + 1 < z.len() && z[i + 1].start < duration {
                z[i + 1].start as int
            } else {
                duration as int
            };
            &&& m.end - m.start == len
            &&& m.amount == z[i].amount
            &&& m.mode == z[i].mode
            &&& m.edge_snap_ratio == z[i].edge_snap_ratio
            &&& m.style == z[i].style
            &&& lo <= new_start && new_start + len <= hi ==> m.start == new_start
            &&& new_start < lo ==> m.start == lo
            &&& new_start + len > hi && new_start >= lo ==> m.end == hi
        }),
{
    if i > 0 {
        assert(z[i - 1].end <= z[i].start);
        assert(0 <= z[i - 1].start);
    }
    if i + 1 < z.len() {
        assert(z[i].end <= z[i + 1].start);
    }
}

/// A segment is resized to what was asked for if it is long enough and the gap between its
/// neighbours allows; its look stays.
pub proof fn segments_resize_as_asked(
    z: Seq<ZoomKeyframe>,
    i: int,
    new_start: i64,
    new_end: i64,
    duration: i64,
)
    requires
        valid(z),
        0 <= i < z.len(),
        200_000_000 <= duration <= TIME_LIMIT,
        forall|k: int| 0 <= k < z.len() ==> (#[trigger] z[k]).end <= TIME_LIMIT,
    ensures
        ({
            let m = resized(z, i, new_start, new_end, duration);
            let lo = if i > 0 {
                z[i - 1].end as int
            } else {
                0
            };
            let hi = if i + 1 < z.len() {
                z[i + 1].start as int
            } else {
                duration as int
            };
            &&& m.amount == z[i].amount
            &&& m.mode == z[i].mode
            &&& m.edge_snap_ratio == z[i].edge_snap_ratio
            &&& m.style == z[i].style
            &&& lo <= new_start && new_start + 200_000_000 <= new_end <= hi ==> m.start == new_start
                && m.end == new_end
            &&& new_start < lo ==> m.start == lo
            &&& lo <= new_start && new_start + 200_000_000 <= hi ==> m.start == new_start
            &&& new_end >= hi && lo + 200_000_000 <= hi ==> m.end == hi
            &&& lo + 200_000_000 <= hi ==> lo <= m.start && m.end <= hi
            &&& m.end - m.start >= 200_000_000
        }),
{
    if i > 0 {
        assert(z[i - 1].end <= z[i].start);
        assert(0 <= z[i - 1].start);
    }
    if i + 1 < z.len() {
        assert(z[i].end <= z[i + 1].start);
    }
}

/// There is room for a new segment between two where two tenths of a second are free between
/// the end of the one and the start of the other, before the first where they are free before
/// it, and after the last always.
pub proof fn gaps_have_room(z: Seq<ZoomKeyframe>, i: int)
    requires
        0 <= i <= z.len(),
    ensures
        i == z.len() ==> has_room(z, i),
        i == 0 && z.len() > 0 ==> (has_room(z, i) <==> z[0].start >= 200_000_000),
        0 < i < z.len() ==> (has_room(z, i) <==> z[i].start - z[i - 1].end >= 200_000_000),
{
}

} // verus!
