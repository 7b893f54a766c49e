//! Bridge raw physical events into normalized, frame-relative zoom events.
//!
//! Given a captured region (physical pixels) and the recording's first counter value, each
//! [`RawEvent`] becomes an [`InputEvent`] in billionths of the region with a time relative
//! to the recording's start.

use crate::input::clock::{nanos_between, ticks_to_nanos};
use crate::input::event::{MouseButton, RawEvent, RawEventKind};
use crate::input::keys::{ctrl_key, is_ctrl, is_shift, shift_key};
use crate::units::{clamp_i64, clamped, floor_div, how_many, lemma_how_many, BILLION};
use crate::zoom::event::{InputEvent, MouseButton as ZoomButton, Point};
use vstd::prelude::*;

verus! {

/// The captured region in physical virtual-desktop pixels.
#[derive(Debug, Clone, Copy, PartialEq, Eq, Structural)]
pub struct CaptureRegion {
    pub x: i32,
    pub y: i32,
    pub w: i32,
    pub h: i32,
}

/// The zoom planner's name for a button.
pub open spec fn zoom_button(b: MouseButton) -> ZoomButton {
    match b {
        MouseButton::Left => ZoomButton::Left,
        MouseButton::Right => ZoomButton::Right,
        MouseButton::Middle => ZoomButton::Middle,
        MouseButton::X1 => ZoomButton::Other,
        MouseButton::X2 => ZoomButton::Other,
    }
}

fn map_button(b: MouseButton) -> (r: ZoomButton)
    ensures
        r == zoom_button(b),
{
    match b {
        MouseButton::Left => ZoomButton::Left,
        MouseButton::Right => ZoomButton::Right,
        MouseButton::Middle => ZoomButton::Middle,
        MouseButton::X1 => ZoomButton::Other,
        MouseButton::X2 => ZoomButton::Other,
    }
}

/// Billionths of an extent that starts at `from` and is `len` pixels long (at least one)
/// at pixel `at`, rounded down.
pub open spec fn fraction(at: int, from: int, len: int) -> int {
    let n = if len < 1 {
        1
    } else {
        len
    };
    (at - from) * BILLION / n
}

/// A pixel's position in a region.
pub open spec fn position(region: CaptureRegion, x: int, y: int) -> Point {
    Point {
        x: fraction(x, region.x as int, region.w as int) as i64,
        y: fraction(y, region.y as int, region.h as int) as i64,
    }
}

/// Billionths along one extent.
pub(crate) fn fraction_along(at: i64, from: i32, len: i32) -> (f: i64)
    requires
        -0x1_0000_0000 <= at <= 0x1_0000_0000,
    ensures
        f == fraction(at as int, from as int, len as int),
{
    let n: i64 = if len < 1 {
        1
    } else {
        len as i64
    };
    let scaled: i64 = (at - from as i64) * 1_000_000_000;
    proof {
        let a = scaled as int;
        let b = n as int;
        assert(-0x1_8000_0000 * 1_000_000_000 <= a / b <= 0x1_8000_0000 * 1_000_000_000)
            by (nonlinear_arith)
            requires
                -0x1_8000_0000 * 1_000_000_000 <= a <= 0x1_8000_0000 * 1_000_000_000,
                b >= 1,
        ;
    }
    floor_div(scaled as i128, n as i128) as i64
}

/// The zoom event that a raw event stands for; releases stand for none.
pub open spec fn zoom_event(
    raw: RawEvent,
    region: CaptureRegion,
    start_qpc: i64,
    freq: i64,
) -> Option<InputEvent> {
    let t = ticks_to_nanos(raw.qpc - start_qpc, freq);
    let pos = position(region, raw.x as int, raw.y as int);
    match raw.kind {
        RawEventKind::Move => Some(InputEvent::Move { t, pos }),
        RawEventKind::ButtonDown(b) => Some(InputEvent::Click { t, pos, button: zoom_button(b) }),
        RawEventKind::Scroll(d) => Some(InputEvent::Scroll { t, pos, delta: d }),
        RawEventKind::KeyDown(_) => Some(InputEvent::KeyType { t }),
        RawEventKind::ButtonUp(_) => None,
        RawEventKind::KeyUp(_) => None,
    }
}

/// Convert a raw event into a normalized zoom [`InputEvent`].
///
/// Returns `None` for events that do not drive auto-zoom (button-up, key-up).
pub fn normalize(raw: &RawEvent, region: &CaptureRegion, start_qpc: i64, freq: i64) -> (r: Option<
    InputEvent,
>)
    ensures
        r == zoom_event(*raw, *region, start_qpc, freq),
{
    let t: i64 = nanos_between(start_qpc, raw.qpc, freq);
    let x: i64 = fraction_along(raw.x as i64, region.x, region.w);
    let y: i64 = fraction_along(raw.y as i64, region.y, region.h);
    let pos = Point { x, y };
    match raw.kind {
        RawEventKind::Move => Some(InputEvent::Move { t, pos }),
        RawEventKind::ButtonDown(b) => Some(
            InputEvent::Click { t, pos, button: map_button(b) },
        ),
        RawEventKind::Scroll(d) => Some(InputEvent::Scroll { t, pos, delta: d }),
        RawEventKind::KeyDown(_) => Some(InputEvent::KeyType { t }),
        RawEventKind::ButtonUp(_) => None,
        RawEventKind::KeyUp(_) => None,
    }
}

/// The key of the manual zoom hotkey, which is pressed with control and shift.
pub const VK_Z: u16 = 0x5A;

/// Whether a key of some kind is down just before event `i`: the last press or release of
/// such a key was a press.
pub open spec fn held_before(raw: Seq<RawEvent>, i: int, of_kind: spec_fn(u16) -> bool) -> bool
    decreases i,
{
    if i <= 0 {
        false
    } else {
        match raw[i - 1].kind {
            RawEventKind::KeyDown(vk) => of_kind(vk) || held_before(raw, i - 1, of_kind),
            RawEventKind::KeyUp(vk) => !of_kind(vk) && held_before(raw, i - 1, of_kind),
            _ => held_before(raw, i - 1, of_kind),
        }
    }
}

/// Whether an event is a mouse event.
pub open spec fn is_mouse(e: RawEvent) -> bool {
    !(e.kind is KeyDown) && !(e.kind is KeyUp)
}

/// Half of a length, rounded towards zero.
pub open spec fn half(n: int) -> int {
    if n >= 0 {
        n / 2
    } else {
        -((-n) / 2)
    }
}

/// Where the cursor is just before event `i`: at the last mouse event, or in the middle of
/// the region before the first.
pub open spec fn cursor_before(raw: Seq<RawEvent>, i: int, region: CaptureRegion) -> (int, int)
    decreases i,
{
    if i <= 0 {
        (region.x + half(region.w as int), region.y + half(region.h as int))
    } else if is_mouse(raw[i - 1]) {
        (raw[i - 1].x as int, raw[i - 1].y as int)
    } else {
        cursor_before(raw, i - 1, region)
    }
}

/// Whether event `i` presses the zoom hotkey: the key goes down while control and shift
/// are held and the key itself is not.
pub open spec fn is_hotkey(raw: Seq<RawEvent>, i: int) -> bool {
    &&& raw[i].kind == RawEventKind::KeyDown(VK_Z)
    &&& held_before(raw, i, |vk: u16| ctrl_key(vk))
    &&& held_before(raw, i, |vk: u16| shift_key(vk))
    &&& !held_before(raw, i, |vk: u16| vk == VK_Z)
}

/// The mark that the hotkey at event `i` makes: at the cursor, moved inside the region.
pub open spec fn mark_at(
    raw: Seq<RawEvent>,
    i: int,
    region: CaptureRegion,
    start_qpc: i64,
    freq: i64,
) -> InputEvent {
    let c = cursor_before(raw, i, region);
    InputEvent::ZoomMark {
        t: ticks_to_nanos(raw[i].qpc - start_qpc, freq),
        pos: Point {
            x: clamped(fraction(c.0, region.x as int, region.w as int), 0, BILLION as int) as i64,
            y: clamped(fraction(c.1, region.y as int, region.h as int), 0, BILLION as int) as i64,
        },
    }
}

/// The marks made by the first `n` events.
pub open spec fn marks_of(
    raw: Seq<RawEvent>,
    n: int,
    region: CaptureRegion,
    start_qpc: i64,
    freq: i64,
) -> Seq<InputEvent>
    decreases n,
{
    if n <= 0 {
        Seq::empty()
    } else if is_hotkey(raw, n - 1) {
        marks_of(raw, n - 1, region, start_qpc, freq).push(
            mark_at(raw, n - 1, region, start_qpc, freq),
        )
    } else {
        marks_of(raw, n - 1, region, start_qpc, freq)
    }
}

/// Scan a chronological raw event log for the manual zoom hotkey (**Ctrl+Shift+Z**) and
/// emit a zoom mark at the cursor's normalized position for each press (auto-repeat while
/// held is ignored).
///
/// The cursor position is that of the most recent mouse event before the keystroke, so the
/// zoom centers where the user is pointing.
pub fn zoom_marks(raw: &[RawEvent], region: &CaptureRegion, start_qpc: i64, freq: i64) -> (marks:
    Vec<InputEvent>)
    ensures
        marks@ == marks_of(raw@, raw@.len() as int, *region, start_qpc, freq),
{
    let mut ctrl = false;
    let mut shift = false;
    let mut z_held = false;
    let mut cx: i64 = region.x as i64 + (region.w as i64) / 2;
    let mut cy: i64 = region.y as i64 + (region.h as i64) / 2;
    let mut marks: Vec<InputEvent> = Vec::new();
    let mut i: usize = 0;
    while i < raw.len()
        invariant
            i <= raw@.len(),
            ctrl == held_before(raw@, i as int, |vk: u16| ctrl_key(vk)),
            shift == held_before(raw@, i as int, |vk: u16| shift_key(vk)),
            z_held == held_before(raw@, i as int, |vk: u16| vk == VK_Z),
            (cx as int, cy as int) == cursor_before(raw@, i as int, *region),
            -0x1_0000_0000 <= cx <= 0x1_0000_0000,
            -0x1_0000_0000 <= cy <= 0x1_0000_0000,
            marks@ == marks_of(raw@, i as int, *region, start_qpc, freq),
        decreases raw@.len() - i,
    {
        let e: RawEvent = raw[i];
        match e.kind {
            RawEventKind::KeyDown(vk) => {
                if is_ctrl(vk) {
                    ctrl = true;
                } else if is_shift(vk) {
                    shift = true;
                } else if vk == VK_Z {
                    if ctrl && shift && !z_held {
                        let t: i64 = nanos_between(start_qpc, e.qpc, freq);
                        let fx: i64 = fraction_along(cx, region.x, region.w);
                        let fy: i64 = fraction_along(cy, region.y, region.h);
                        let pos = Point {
                            x: clamp_i64(fx, 0, BILLION),
                            y: clamp_i64(fy, 0, BILLION),
                        };
                        marks.push(InputEvent::ZoomMark { t, pos });
                    }
                    z_held = true;
                }
            },
            RawEventKind::KeyUp(vk) => {
                if is_ctrl(vk) {
                    ctrl = false;
                } else if is_shift(vk) {
                    shift = false;
                } else if vk == VK_Z {
                    z_held = false;
                }
            },
            _ => {
                cx = e.x as i64;
                cy = e.y as i64;
            },
        }
        i += 1;
    }
    marks
}

/// A held key stays held until its release.
proof fn lemma_stays_held(raw: Seq<RawEvent>, i: int, j: int, of_kind: spec_fn(u16) -> bool)
    requires
        0 <= i <= j <= raw.len(),
        held_before(raw, i, of_kind),
        forall|k: int|
            i <= k < j ==> !(#[trigger] raw[k].kind is KeyUp && of_kind(raw[k].kind->KeyUp_0)),
    ensures
        held_before(raw, j, of_kind),
    decreases j - i,
{
    if i < j {
        lemma_stays_held(raw, i, j - 1, of_kind);
        assert(!(raw[j - 1].kind is KeyUp && of_kind(raw[j - 1].kind->KeyUp_0)));
    }
}

/// Auto-repeat while the hotkey is held marks only once: between two marks the key was
/// released.
pub proof fn one_mark_per_press(raw: Seq<RawEvent>, i: int, j: int)
    requires
        0 <= i < j < raw.len(),
        is_hotkey(raw, i),
        is_hotkey(raw, j),
    ensures
        exists|k: int| i < k < j && #[trigger] raw[k].kind == RawEventKind::KeyUp(VK_Z),
{
    let z = |vk: u16| vk == VK_Z;
    if forall|k: int| i < k < j ==> #[trigger] raw[k].kind != RawEventKind::KeyUp(VK_Z) {
        assert(held_before(raw, i + 1, z));
        assert forall|k: int| i + 1 <= k < j implies !(#[trigger] raw[k].kind is KeyUp && z(
            raw[k].kind->KeyUp_0,
        )) by {
            assert(raw[k].kind != RawEventKind::KeyUp(VK_Z));
        }
        lemma_stays_held(raw, i + 1, j, z);
    }
}

/// Every mark lies inside the region.
pub proof fn marks_lie_inside(
    raw: Seq<RawEvent>,
    n: int,
    region: CaptureRegion,
    start_qpc: i64,
    freq: i64,
)
    ensures
        forall|k: int|
            0 <= k < marks_of(raw, n, region, start_qpc, freq).len() ==> {
                let m = #[trigger] marks_of(raw, n, region, start_qpc, freq)[k];
                &&& m is ZoomMark
                &&& 0 <= m->ZoomMark_pos.x <= BILLION
                &&& 0 <= m->ZoomMark_pos.y <= BILLION
            },
    decreases n,
{
    if n > 0 {
        marks_lie_inside(raw, n - 1, region, start_qpc, freq);
    }
}

/// A position is the share of the captured region that lies left of it and above it, each axis
/// on its own, rounded down: nothing at the near corner, everything at the far one.
pub proof fn positions_are_shares_of_the_region(region: CaptureRegion, x: int, y: int)
    requires
        region.w >= 1,
        region.h >= 1,
        i32::MIN <= x <= i32::MAX,
        i32::MIN <= y <= i32::MAX,
    ensures
        ({
            let p = position(region, x, y);
            &&& p.x * region.w <= (x - region.x) * BILLION < (p.x + 1) * region.w
            &&& p.y * region.h <= (y - region.y) * BILLION < (p.y + 1) * region.h
            &&& x == region.x ==> p.x == 0
            &&& y == region.y ==> p.y == 0
            &&& x == region.x + region.w ==> p.x == BILLION
            &&& y == region.y + region.h ==> p.y == BILLION
        }),
{
    lemma_fraction(x, region.x as int, region.w as int);
    lemma_fraction(y, region.y as int, region.h as int);
}

/// One axis of a position.
proof fn lemma_fraction(at: int, from: int, len: int)
    requires
        1 <= len,
        -0x1_0000_0000 <= at - from <= 0x1_0000_0000,
    ensures
        ({
            let f = fraction(at, from, len);
            &&& i64::MIN <= f <= i64::MAX
            &&& f * len <= (at - from) * BILLION < (f + 1) * len
            &&& at == from ==> f == 0
            &&& at == from + len ==> f == BILLION
        }),
{
    let a = (at - from) * BILLION;
    let f = a / len;
    assert(f * len <= a < (f + 1) * len) by (nonlinear_arith)
        requires
            f == a / len,
            len >= 1,
    ;
    assert(-0x1_0000_0000 * 1_000_000_000 <= f <= 0x1_0000_0000 * 1_000_000_000)
        by (nonlinear_arith)
        requires
            f == a / len,
            len >= 1,
            -0x1_0000_0000 * 1_000_000_000 <= a <= 0x1_0000_0000 * 1_000_000_000,
    ;
    assert(a == 0 ==> f == 0) by (nonlinear_arith)
        requires
            f == a / len,
            len >= 1,
    ;
    assert(a == len * 1_000_000_000 ==> f == 1_000_000_000) by (nonlinear_arith)
        requires
            f == a / len,
            len >= 1,
    ;
}

/// A raw event keeps its kind, and is timed from the start of the recording: moves, presses
/// and scrolls where they were, keys typed nowhere; releases are left out.
pub proof fn events_keep_their_kind(
    raw: RawEvent,
    region: CaptureRegion,
    start_qpc: i64,
    freq: i64,
)
    ensures
        ({
            let e = zoom_event(raw, region, start_qpc, freq);
            &&& e is None <==> raw.kind is ButtonUp || raw.kind is KeyUp
            &&& e matches Some(z) ==> z.time() == ticks_to_nanos(raw.qpc - start_qpc, freq)
            &&& e is Some && !(raw.kind is KeyDown) ==> e->Some_0.place() == Some(
                position(region, raw.x as int, raw.y as int),
            )
            &&& raw.kind is Move ==> e->Some_0 is Move
            &&& raw.kind is KeyDown ==> e->Some_0 is KeyType
            &&& raw.kind matches RawEventKind::Scroll(d) ==> e->Some_0 is Scroll
                && e->Some_0->delta == d
            &&& raw.kind matches RawEventKind::ButtonDown(b) ==> e->Some_0 is Click && match b {
                MouseButton::Left => e->Some_0->button is Left,
                MouseButton::Right => e->Some_0->button is Right,
                MouseButton::Middle => e->Some_0->button is Middle,
                _ => e->Some_0->button is Other,
            }
        }),
{
}

/// Whether an event is a key of a kind going down.
pub open spec fn goes_down(e: RawEvent, of_kind: spec_fn(u16) -> bool) -> bool {
    e.kind is KeyDown && of_kind(e.kind->KeyDown_0)
}

/// Whether an event is a key of a kind coming up.
pub open spec fn comes_up(e: RawEvent, of_kind: spec_fn(u16) -> bool) -> bool {
    e.kind is KeyUp && of_kind(e.kind->KeyUp_0)
}

/// A kind of key is held where one of them went down and none came up since.
pub proof fn held_keys_went_down(raw: Seq<RawEvent>, i: int, of_kind: spec_fn(u16) -> bool, j: int)
    requires
        0 <= j < i <= raw.len(),
        forall|k: int|
            j < k < i ==> !goes_down(#[trigger] raw[k], of_kind) && !comes_up(raw[k], of_kind),
    ensures
        goes_down(raw[j], of_kind) ==> held_before(raw, i, of_kind),
        comes_up(raw[j], of_kind) ==> !held_before(raw, i, of_kind),
    decreases i,
{
    if j < i - 1 {
        held_keys_went_down(raw, i - 1, of_kind, j);
        assert(!goes_down(raw[i - 1], of_kind));
    }
}

/// A kind of key of which none went down is not held.
pub proof fn untouched_keys_are_not_held(raw: Seq<RawEvent>, i: int, of_kind: spec_fn(u16) -> bool)
    requires
        i <= raw.len(),
        forall|k: int|
            0 <= k < i ==> !goes_down(#[trigger] raw[k], of_kind),
    ensures
        !held_before(raw, i, of_kind),
    decreases i,
{
    if i > 0 {
        untouched_keys_are_not_held(raw, i - 1, of_kind);
        assert(!goes_down(raw[i - 1], of_kind));
    }
}

/// The cursor before an event is where the last mouse event before it was.
proof fn lemma_cursor(raw: Seq<RawEvent>, i: int, region: CaptureRegion, m: int)
    requires
        0 <= m < i <= raw.len(),
        is_mouse(raw[m]),
        forall|k: int| m < k < i ==> !is_mouse(#[trigger] raw[k]),
    ensures
        cursor_before(raw, i, region) == (raw[m].x as int, raw[m].y as int),
    decreases i,
{
    if m < i - 1 {
        lemma_cursor(raw, i - 1, region, m);
        assert(!is_mouse(raw[i - 1]));
    }
}

/// The marks of the hotkeys among the first `n` events.
proof fn lemma_marks(
    raw: Seq<RawEvent>,
    n: int,
    region: CaptureRegion,
    start_qpc: i64,
    freq: i64,
    i: int,
)
    requires
        0 <= i < n <= raw.len(),
    ensures
        ({
            let hot = |j: int| is_hotkey(raw, j);
            let out = marks_of(raw, n, region, start_qpc, freq);
            &&& out.len() == how_many(hot, n)
            &&& hot(i) ==> 0 <= how_many(hot, i) < out.len() && out[how_many(hot, i)] == mark_at(
                raw,
                i,
                region,
                start_qpc,
                freq,
            )
        }),
    decreases n,
{
    let hot = |j: int| is_hotkey(raw, j);
    lemma_how_many(hot, i, n);
    if i < n - 1 {
        lemma_marks(raw, n - 1, region, start_qpc, freq, i);
        lemma_how_many(hot, i, n - 1);
    } else if n > 1 {
        lemma_marks(raw, n - 1, region, start_qpc, freq, 0);
    } else {
        assert(marks_of(raw, 0, region, start_qpc, freq).len() == 0);
        assert(how_many(hot, 0) == 0);
    }
}

/// Each press of the hotkey leaves one mark, in the order of the log, at its own time and
/// where the mouse last was, moved into the region if it was outside.
pub proof fn hotkeys_mark_the_cursor(
    raw: Seq<RawEvent>,
    region: CaptureRegion,
    start_qpc: i64,
    freq: i64,
    i: int,
    m: int,
)
    requires
        0 <= m < i < raw.len(),
        is_hotkey(raw, i),
        !(raw[m].kind is KeyDown) && !(raw[m].kind is KeyUp),
        forall|k: int| m < k < i ==> (#[trigger] raw[k]).kind is KeyDown || raw[k].kind is KeyUp,
        region.w >= 1,
        region.h >= 1,
    ensures
        ({
            let hot = |j: int| is_hotkey(raw, j);
            let out = marks_of(raw, raw.len() as int, region, start_qpc, freq);
            let mark = out[how_many(hot, i)];
            let at = position(region, raw[m].x as int, raw[m].y as int);
            &&& out.len() == how_many(hot, raw.len() as int)
            &&& 0 <= how_many(hot, i) < out.len()
            &&& mark is ZoomMark
            &&& mark.time() == ticks_to_nanos(raw[i].qpc - start_qpc, freq)
            &&& mark.place() matches Some(p) && {
                &&& at.x < 0 ==> p.x == 0
                &&& 0 <= at.x <= BILLION ==> p.x == at.x
                &&& at.x > BILLION ==> p.x == BILLION
                &&& at.y < 0 ==> p.y == 0
                &&& 0 <= at.y <= BILLION ==> p.y == at.y
                &&& at.y > BILLION ==> p.y == BILLION
            }
        }),
{
    lemma_marks(raw, raw.len() as int, region, start_qpc, freq, i);
    lemma_cursor(raw, i, region, m);
    lemma_fraction(raw[m].x as int, region.x as int, region.w as int);
    lemma_fraction(raw[m].y as int, region.y as int, region.h as int);
}

/// Before the mouse has moved at all, a mark is in the middle of the region.
pub proof fn first_marks_are_centered(
    raw: Seq<RawEvent>,
    region: CaptureRegion,
    start_qpc: i64,
    freq: i64,
    i: int,
)
    requires
        0 <= i < raw.len(),
        forall|k: int| 0 <= k < i ==> (#[trigger] raw[k]).kind is KeyDown || raw[k].kind is KeyUp,
        region.w >= 2,
        region.h >= 2,
        region.w % 2 == 0,
        region.h % 2 == 0,
    ensures
        mark_at(raw, i, region, start_qpc, freq).place() == Some(
            Point { x: 500_000_000, y: 500_000_000 },
        ),
{
    lemma_no_cursor(raw, i, region);
    let w = region.w as int;
    let h = region.h as int;
    assert((w / 2) * 1_000_000_000 / w == 500_000_000) by (nonlinear_arith)
        requires
            w >= 2,
            w % 2 == 0,
    ;
    assert((h / 2) * 1_000_000_000 / h == 500_000_000) by (nonlinear_arith)
        requires
            h >= 2,
            h % 2 == 0,
    ;
}

/// Without a mouse event the cursor counts as in the middle.
proof fn lemma_no_cursor(raw: Seq<RawEvent>, i: int, region: CaptureRegion)
    requires
        0 <= i <= raw.len(),
        forall|k: int| 0 <= k < i ==> !is_mouse(#[trigger] raw[k]),
    ensures
        cursor_before(raw, i, region) == (
            region.x + half(region.w as int),
            region.y + half(region.h as int),
        ),
    decreases i,
{
    if i > 0 {
        lemma_no_cursor(raw, i - 1, region);
        assert(!is_mouse(raw[i - 1]));
    }
}

} // verus!
