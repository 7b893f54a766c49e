//! The virtual camera: springs and an off-screen clamp, simulated over the whole clip into
//! a per-frame track that scrubbing and export both read.
//!
//! How a spring moves over one step is the caller's business; where the camera aims, when
//! it retargets and what it may show is decided here.

use crate::sort::in_order;
use crate::units::{clamp_i64, clamped, floor_div, greater, lesser, saturate, saturated, BILLION};
use crate::zoom::config::ZoomConfig;
use crate::zoom::event::{InputEvent, Point};
use crate::zoom::keyframe::{ZoomKeyframe, ZoomMode, ZoomStyle};
use crate::zoom::planner::{
    chronological, click_plan, count_until, gather, is_earliest_place, is_latest_place,
    lemma_count_until, lemma_earliest_sample, lemma_latest_sample, manual_plan, plan_zooms,
    triggers, Interest, Trigger,
};
use vstd::prelude::*;

verus! {

/// Camera pose for one frame: center and zoom multiplier, in billionths.
#[derive(Debug, Clone, Copy, PartialEq, Eq, Structural)]
pub struct CameraState {
    pub center: Point,
    pub zoom: i64,
}

/// The middle of the screen.
pub open spec fn mid_point() -> Point {
    Point { x: 500_000_000, y: 500_000_000 }
}

impl Default for CameraState {
    fn default() -> (s: Self)
        ensures
            s == (CameraState { center: mid_point(), zoom: BILLION }),
    {
        CameraState { center: Point { x: 500_000_000, y: 500_000_000 }, zoom: 1_000_000_000 }
    }
}

/// Half of what the camera shows along an axis at a zoom (at least one), rounded up.
pub open spec fn half_view(zoom: i64) -> int {
    let z = greater(zoom as int, BILLION as int);
    (500_000_000 * BILLION + z - 1) / z
}

/// A center moved so that the zoomed view stays on the screen.
pub open spec fn on_screen(center: Point, zoom: i64) -> Point {
    Point {
        x: clamped(center.x as int, half_view(zoom), BILLION - half_view(zoom)) as i64,
        y: clamped(center.y as int, half_view(zoom), BILLION - half_view(zoom)) as i64,
    }
}

/// Half of the view is at most half of the screen.
proof fn lemma_half_view(zoom: i64)
    ensures
        1 <= half_view(zoom) <= 500_000_000,
{
    let z = greater(zoom as int, BILLION as int);
    let n = 500_000_000 * BILLION;
    assert(1 <= (n + z - 1) / z <= 500_000_000) by (nonlinear_arith)
        requires
            z >= 1_000_000_000,
            n == 500_000_000 * 1_000_000_000,
    ;
}

/// Clamp the camera center so the zoomed viewport never reveals area outside the frame.
pub fn clamp_camera(center: Point, zoom: i64) -> (c: Point)
    ensures
        c == on_screen(center, zoom),
{
    let z: i64 = if zoom < BILLION {
        BILLION
    } else {
        zoom
    };
    proof {
        lemma_half_view(zoom);
    }
    let half: i64 = ((500_000_000_000_000_000i128 + z as i128 - 1) / z as i128) as i64;
    Point {
        x: clamp_i64(center.x, half, BILLION - half),
        y: clamp_i64(center.y, half, BILLION - half),
    }
}

/// One coordinate of a focus pulled toward a screen edge that it is near.
pub open spec fn snapped(v: i64, ratio: i64) -> int {
    if ratio <= 0 {
        v as int
    } else if v < ratio {
        greater(2 * v - ratio, 0)
    } else if v > BILLION - ratio {
        lesser(2 * v - (BILLION - ratio), BILLION as int)
    } else {
        v as int
    }
}

/// Bias a coordinate toward a screen edge when it is near it, so corner content is not
/// cropped once the camera clamp kicks in.
pub fn snap_axis(v: i64, ratio: i64) -> (s: i64)
    ensures
        s == snapped(v, ratio),
{
    if ratio <= 0 {
        v
    } else if v < ratio {
        let d: i128 = 2 * (v as i128) - ratio as i128;
        if d < 0 {
            0
        } else {
            d as i64
        }
    } else if v as i128 > 1_000_000_000 - ratio as i128 {
        let d: i128 = 2 * (v as i128) - (1_000_000_000 - ratio as i128);
        if d > 1_000_000_000 {
            1_000_000_000
        } else {
            d as i64
        }
    } else {
        v
    }
}

/// What the camera should aim for on a single frame, before smoothing and clamping.
#[derive(Debug, Clone, Copy, PartialEq, Eq, Structural)]
pub enum CameraTarget {
    /// No active zoom: settle back to the centered, unzoomed pose.
    Idle,
    /// Auto-follow: zoom to `amount`, focus the edge-snapped smoothed cursor.
    Auto { amount: i64, edge_snap_ratio: i64 },
    /// Manual: zoom to `amount`, hold a fixed normalized focus point.
    Manual { amount: i64, focus: Point },
}

/// The zoom that a target asks for.
pub open spec fn zoom_goal(target: CameraTarget) -> i64 {
    match target {
        CameraTarget::Idle => BILLION,
        CameraTarget::Auto { amount, .. } => amount,
        CameraTarget::Manual { amount, .. } => amount,
    }
}

/// The point that a target asks to look at, given the smoothed cursor.
pub open spec fn focus_of(target: CameraTarget, cursor: Point) -> Point {
    match target {
        CameraTarget::Idle => mid_point(),
        CameraTarget::Auto { edge_snap_ratio, .. } => Point {
            x: snapped(cursor.x, edge_snap_ratio) as i64,
            y: snapped(cursor.y, edge_snap_ratio) as i64,
        },
        CameraTarget::Manual { focus, .. } => focus,
    }
}

/// Whether a focus lies outside the box around the camera center within which it does not
/// move the camera.
pub open spec fn leaves_dead_zone(focus: Point, center: Point, dead_zone: i64) -> bool {
    ||| focus.x - center.x > dead_zone
    ||| center.x - focus.x > dead_zone
    ||| focus.y - center.y > dead_zone
    ||| center.y - focus.y > dead_zone
}

/// The half-life of the zoom spring: a touch shorter when zooming out.
pub open spec fn zoom_half_life(target_zoom: i64, zoom: i64, hl: i64) -> int {
    if target_zoom < zoom {
        hl * 85 / 100
    } else {
        hl as int
    }
}

/// The state behind the camera: positions and speeds of its springs, and where it pans to.
#[derive(Debug, Clone, Copy, PartialEq, Eq, Structural)]
pub struct CameraFilter {
    pub smoothed: Point,
    pub smoothed_v: Point,
    pub center: Point,
    pub center_v: Point,
    pub pan_target: Point,
    pub zoom: i64,
    pub zoom_v: i64,
}

/// The camera's pan target after a frame: the new focus if there is no active zoom (so it
/// re-centers cleanly) or the focus left the dead zone.
pub open spec fn retargeted(
    cam: CameraFilter,
    target: CameraTarget,
    cursor: Point,
    dead_zone: i64,
) -> Point {
    let focus = focus_of(target, cursor);
    if target is Idle || leaves_dead_zone(focus, cam.center, dead_zone) {
        focus
    } else {
        cam.pan_target
    }
}

/// The camera once its springs have moved: `sx` and `sy` are the new positions and speeds
/// of the smoothed cursor, `z` of the zoom, `px` and `py` of the pan.
pub open spec fn stepped(
    cam: CameraFilter,
    target: CameraTarget,
    dead_zone: i64,
    sx: (i64, i64),
    sy: (i64, i64),
    z: (i64, i64),
    px: (i64, i64),
    py: (i64, i64),
) -> CameraFilter {
    let cursor = Point { x: sx.0, y: sy.0 };
    CameraFilter {
        smoothed: cursor,
        smoothed_v: Point { x: sx.1, y: sy.1 },
        center: on_screen(Point { x: px.0, y: py.0 }, z.0),
        center_v: Point { x: px.1, y: py.1 },
        pan_target: retargeted(cam, target, cursor, dead_zone),
        zoom: z.0,
        zoom_v: z.1,
    }
}

/// Whether a spring step took the camera from one state to the next: `spring(x, v, goal,
/// half_life, dt)` hands out a new position and speed.
pub open spec fn springs_to<S: Fn(i64, i64, i64, i64, i64) -> (i64, i64)>(
    spring: S,
    cam: CameraFilter,
    raw: Point,
    target: CameraTarget,
    cfg: ZoomConfig,
    dt: i64,
    next: CameraFilter,
) -> bool {
    exists|sx: (i64, i64), sy: (i64, i64), z: (i64, i64), px: (i64, i64), py: (i64, i64)|
        {
            let pan = retargeted(cam, target, Point { x: sx.0, y: sy.0 }, cfg.dead_zone);
            let hl = zoom_half_life(zoom_goal(target), cam.zoom, cfg.hl_zoom) as i64;
            &&& call_ensures(
                spring,
                (cam.smoothed.x, cam.smoothed_v.x, raw.x, cfg.hl_cursor, dt),
                sx,
            )
            &&& call_ensures(
                spring,
                (cam.smoothed.y, cam.smoothed_v.y, raw.y, cfg.hl_cursor, dt),
                sy,
            )
            &&& call_ensures(spring, (cam.zoom, cam.zoom_v, zoom_goal(target), hl, dt), z)
            &&& call_ensures(spring, (cam.center.x, cam.center_v.x, pan.x, cfg.hl_pan, dt), px)
            &&& call_ensures(spring, (cam.center.y, cam.center_v.y, pan.y, cfg.hl_pan, dt), py)
            &&& next == #[trigger] stepped(cam, target, cfg.dead_zone, sx, sy, z, px, py)
        }
}

/// The pose of a camera.
pub open spec fn pose(cam: CameraFilter) -> CameraState {
    CameraState { center: cam.center, zoom: cam.zoom }
}

/// The difference of two coordinates exceeds a bound.
fn apart(a: i64, b: i64, bound: i64) -> (r: bool)
    ensures
        r == (a - b > bound || b - a > bound),
{
    let d: i128 = a as i128 - b as i128;
    d > bound as i128 || -d > bound as i128
}

impl CameraFilter {
    /// Start from a resting camera (centered, unzoomed) with the pre-smoother primed to
    /// `cursor` so the first frame does not spring in from an arbitrary point.
    pub fn new(cursor: Point) -> (c: Self)
        ensures
            c == resting(cursor),
    {
        CameraFilter {
            smoothed: cursor,
            smoothed_v: Point { x: 0, y: 0 },
            center: Point { x: 500_000_000, y: 500_000_000 },
            center_v: Point { x: 0, y: 0 },
            pan_target: Point { x: 500_000_000, y: 500_000_000 },
            zoom: 1_000_000_000,
            zoom_v: 0,
        }
    }

    /// Advance the camera by `dt` toward `target`, feeding in the latest raw cursor.
    ///
    /// Pre-smooths the cursor, resolves the target zoom and focus (with edge-snap and the
    /// jitter dead-zone), moves the zoom and pan springs, and clamps the viewport
    /// on-screen.
    pub fn step<S: Fn(i64, i64, i64, i64, i64) -> (i64, i64)>(
        &mut self,
        spring: &S,
        raw: Point,
        target: CameraTarget,
        cfg: &ZoomConfig,
        dt: i64,
    ) -> (s: CameraState)
        requires
            forall|x: i64, v: i64, goal: i64, hl: i64, d: i64| #[trigger]
                call_requires(*spring, (x, v, goal, hl, d)),
        ensures
            springs_to(*spring, *old(self), raw, target, *cfg, dt, *final(self)),
            s == pose(*final(self)),
    {
        let ghost before = *self;
        let sx = spring(self.smoothed.x, self.smoothed_v.x, raw.x, cfg.hl_cursor, dt);
        let sy = spring(self.smoothed.y, self.smoothed_v.y, raw.y, cfg.hl_cursor, dt);
        let cursor = Point { x: sx.0, y: sy.0 };
        let (target_zoom, focus, active) = match target {
            CameraTarget::Idle => (
                BILLION,
                Point { x: 500_000_000, y: 500_000_000 },
                false,
            ),
            CameraTarget::Auto { amount, edge_snap_ratio } => {
                let fx: i64 = snap_axis(cursor.x, edge_snap_ratio);
                let fy: i64 = snap_axis(cursor.y, edge_snap_ratio);
                (amount, Point { x: fx, y: fy }, true)
            },
            CameraTarget::Manual { amount, focus } => (amount, focus, true),
        };
        let pan: Point = if !active || apart(focus.x, self.center.x, cfg.dead_zone) || apart(
            focus.y,
            self.center.y,
            cfg.dead_zone,
        ) {
            focus
        } else {
            self.pan_target
        };
        let hl: i64 = if target_zoom < self.zoom {
            floor_div((cfg.hl_zoom as i128) * 85, 100) as i64
        } else {
            cfg.hl_zoom
        };
        let z = spring(self.zoom, self.zoom_v, target_zoom, hl, dt);
        let px = spring(self.center.x, self.center_v.x, pan.x, cfg.hl_pan, dt);
        let py = spring(self.center.y, self.center_v.y, pan.y, cfg.hl_pan, dt);
        let center = clamp_camera(Point { x: px.0, y: py.0 }, z.0);
        self.smoothed = cursor;
        self.smoothed_v = Point { x: sx.1, y: sy.1 };
        self.center = center;
        self.center_v = Point { x: px.1, y: py.1 };
        self.pan_target = pan;
        self.zoom = z.0;
        self.zoom_v = z.1;
        proof {
            assert(pan == retargeted(before, target, cursor, cfg.dead_zone));
            assert(*self == stepped(before, target, cfg.dead_zone, sx, sy, z, px, py));
        }
        CameraState { center: self.center, zoom: self.zoom }
    }
}

/// A resting camera whose pre-smoother is primed to `cursor`.
pub open spec fn resting(cursor: Point) -> CameraFilter {
    CameraFilter {
        smoothed: cursor,
        smoothed_v: Point { x: 0, y: 0 },
        center: mid_point(),
        center_v: Point { x: 0, y: 0 },
        pan_target: mid_point(),
        zoom: BILLION,
        zoom_v: 0,
    }
}

/// Which segment is active at a time: the first that covers it.
pub open spec fn active_at(z: Seq<ZoomKeyframe>, n: int, t: i64) -> Option<ZoomKeyframe>
    decreases n,
{
    if n <= 0 {
        None
    } else {
        match active_at(z, n - 1, t) {
            Some(k) => Some(k),
            None => if z[n - 1].covers(t) {
                Some(z[n - 1])
            } else {
                None
            },
        }
    }
}

/// What the camera aims for while a segment is active, or while none is.
pub open spec fn target_of(active: Option<ZoomKeyframe>) -> CameraTarget {
    match active {
        None => CameraTarget::Idle,
        Some(k) => match k.mode {
            ZoomMode::Auto => CameraTarget::Auto {
                amount: k.amount,
                edge_snap_ratio: k.edge_snap_ratio,
            },
            ZoomMode::Manual { pos } => CameraTarget::Manual { amount: k.amount, focus: pos },
        },
    }
}

/// The configuration with its zoom and pan half-lives scaled by hundredths.
pub open spec fn with_feel(cfg: ZoomConfig, mul: i64) -> ZoomConfig {
    ZoomConfig {
        hl_zoom: saturated(cfg.hl_zoom * mul / 100),
        hl_pan: saturated(cfg.hl_pan * mul / 100),
        ..cfg
    }
}

/// The style multiplier of the active segment.
pub open spec fn feel_of(active: Option<ZoomKeyframe>) -> i64 {
    match active {
        None => 100,
        Some(k) => match k.style {
            ZoomStyle::Smooth => 100,
            ZoomStyle::Snappy => 55,
            ZoomStyle::Slow => 180,
        },
    }
}

/// Resolve a frame's target and spring feel from the active segment. Frames between zooms
/// keep the base configuration so zoom-out feel is uniform.
pub fn frame_target(keyframes: &[ZoomKeyframe], t: i64, cfg: &ZoomConfig) -> (r: (
    CameraTarget,
    ZoomConfig,
))
    ensures
        ({
            let active = active_at(keyframes@, keyframes@.len() as int, t);
            &&& r.0 == target_of(active)
            &&& r.1 == with_feel(*cfg, feel_of(active))
        }),
{
    let mut active: Option<ZoomKeyframe> = None;
    let mut n: usize = 0;
    while n < keyframes.len()
        invariant
            n <= keyframes@.len(),
            active == active_at(keyframes@, n as int, t),
        decreases keyframes@.len() - n,
    {
        if active.is_none() {
            let k: ZoomKeyframe = keyframes[n];
            if k.contains(t) {
                active = Some(k);
            }
        }
        n += 1;
    }
    let mut target = CameraTarget::Idle;
    let mut mul: i64 = 100;
    match active {
        None => {},
        Some(k) => {
            mul = k.style.half_life_mul();
            target = match k.mode {
                ZoomMode::Auto => CameraTarget::Auto {
                    amount: k.amount,
                    edge_snap_ratio: k.edge_snap_ratio,
                },
                ZoomMode::Manual { pos } => CameraTarget::Manual { amount: k.amount, focus: pos },
            };
        },
    }
    let mut feel: ZoomConfig = *cfg;
    proof {
        let a = cfg.hl_zoom as int;
        let b = cfg.hl_pan as int;
        let m = mul as int;
        assert(-0x8000_0000_0000_0000 * 200 <= a * m <= 0x8000_0000_0000_0000 * 200)
            by (nonlinear_arith)
            requires
                -0x8000_0000_0000_0000 <= a <= 0x8000_0000_0000_0000,
                0 <= m <= 200,
        ;
        assert(-0x8000_0000_0000_0000 * 200 <= b * m <= 0x8000_0000_0000_0000 * 200)
            by (nonlinear_arith)
            requires
                -0x8000_0000_0000_0000 <= b <= 0x8000_0000_0000_0000,
                0 <= m <= 200,
        ;
    }
    feel.hl_zoom = saturate(floor_div((cfg.hl_zoom as i128) * (mul as i128), 100));
    feel.hl_pan = saturate(floor_div((cfg.hl_pan as i128) * (mul as i128), 100));
    (target, feel)
}

/// Where the cursor is at a time: at the last sample until then, at the first sample before
/// any, in the middle of the screen if there are none.
pub open spec fn cursor_at(samples: Seq<Trigger>, t: i64) -> Point {
    let n = count_until(samples, t);
    if samples.len() == 0 {
        mid_point()
    } else if n == 0 {
        samples[0].pos
    } else {
        samples[n - 1].pos
    }
}

/// A frame rate that can divide: at least one frame per second, in thousandths.
pub open spec fn usable_rate(mfps: u32) -> int {
    if mfps < 1000 {
        1000
    } else {
        mfps as int
    }
}

/// How many frames a track over a clip holds: one per step to its end, rounded up, and one
/// more.
pub open spec fn frame_count(duration: i64, mfps: u32) -> int {
    let n = (duration * usable_rate(mfps) + 999_999_999_999) / 1_000_000_000_000;
    greater(n, 1) + 1
}

/// When frame `i` shows, rounded down to a nanosecond.
pub open spec fn frame_time(i: int, mfps: u32) -> int {
    i * 1_000_000_000_000 / usable_rate(mfps)
}

/// How long one frame lasts, rounded down to a nanosecond.
pub open spec fn frame_step(mfps: u32) -> int {
    1_000_000_000_000int / usable_rate(mfps)
}

/// A precomputed per-frame camera path, so that scrubbing and export share one source of
/// truth.
#[derive(Debug, Clone)]
pub struct CameraTrack {
    mfps: u32,
    frames: Vec<CameraState>,
}

/// A number between two others, `part` of `whole` on the way, rounded down.
pub open spec fn between(a: i64, b: i64, part: int, whole: int) -> int {
    a + (b - a) * part / whole
}

/// The track's pose at a time, linearly interpolated between its frames.
pub open spec fn pose_at(frames: Seq<CameraState>, mfps: u32, t: i64) -> CameraState {
    if frames.len() == 0 {
        CameraState { center: mid_point(), zoom: BILLION }
    } else {
        let whole = 1_000_000_000_000int;
        let last = frames.len() - 1;
        let f = clamped(t * mfps, 0, last * whole);
        let i = f / whole;
        if i < last {
            let a = frames[i];
            let b = frames[i + 1];
            CameraState {
                center: Point {
                    x: between(a.center.x, b.center.x, f % whole, whole) as i64,
                    y: between(a.center.y, b.center.y, f % whole, whole) as i64,
                },
                zoom: between(a.zoom, b.zoom, f % whole, whole) as i64,
            }
        } else {
            frames[last]
        }
    }
}

/// Interpolation stays between its ends.
proof fn lemma_between(a: i64, b: i64, part: int, whole: int)
    requires
        0 <= part < whole,
    ensures
        lesser(a as int, b as int) <= between(a, b, part, whole) <= greater(a as int, b as int),
{
    let d = b - a;
    assert(d >= 0 ==> 0 <= d * part / whole <= d) by (nonlinear_arith)
        requires
            0 <= part < whole,
    ;
    assert(d < 0 ==> d <= d * part / whole <= 0) by (nonlinear_arith)
        requires
            0 <= part < whole,
    ;
}

/// Interpolate between two numbers.
fn mix(a: i64, b: i64, part: i128, whole: i128) -> (r: i64)
    requires
        0 <= part < whole <= 1_000_000_000_000,
    ensures
        r == between(a, b, part as int, whole as int),
{
    let d: i128 = b as i128 - a as i128;
    proof {
        lemma_between(a, b, part as int, whole as int);
        assert(-0x1_0000_0000_0000_0000 * 1_000_000_000_000 <= d * part <= 0x1_0000_0000_0000_0000
            * 1_000_000_000_000) by (nonlinear_arith)
            requires
                -0x1_0000_0000_0000_0000 <= d <= 0x1_0000_0000_0000_0000,
                0 <= part <= 1_000_000_000_000,
        ;
    }
    (a as i128 + floor_div(d * part, whole)) as i64
}

/// What a track holds: its rate, in thousandths of a frame per second, and its poses.
#[verifier::ext_equal]
pub struct TrackModel {
    pub rate: u32,
    pub frames: Seq<CameraState>,
}

impl CameraTrack {
    /// What the track holds.
    pub open spec fn model(&self) -> TrackModel {
        TrackModel { rate: self.rate(), frames: self@ }
    }

    /// The track's frame rate, in thousandths of a frame per second.
    pub closed spec fn rate(&self) -> u32 {
        self.mfps
    }

    /// The track's poses.
    pub closed spec fn view(&self) -> Seq<CameraState> {
        self.frames@
    }

    /// Frame rate this track was simulated at, in thousandths of a frame per second.
    pub fn fps(&self) -> (mfps: u32)
        ensures
            mfps == self.rate(),
    {
        self.mfps
    }

    /// The raw per-frame states.
    pub fn frames(&self) -> (f: &[CameraState])
        ensures
            f@ == self@,
    {
        self.frames.as_slice()
    }

    /// Camera pose at an arbitrary time `t`, linearly interpolated.
    pub fn at(&self, t: i64) -> (s: CameraState)
        ensures
            s == pose_at(self@, self.rate(), t),
    {
        if self.frames.len() == 0 {
            return CameraState::default();
        }
        let last: usize = self.frames.len() - 1;
        let whole: i128 = 1_000_000_000_000;
        let end: i128 = (last as i128) * whole;
        proof {
            assert(-0x8000_0000_0000_0000 * 0xffff_ffff <= t * self.mfps <= 0x8000_0000_0000_0000
                * 0xffff_ffff) by (nonlinear_arith)
                requires
                    -0x8000_0000_0000_0000 <= t <= 0x8000_0000_0000_0000,
                    0 <= self.mfps <= 0xffff_ffff,
            ;
        }
        let mut f: i128 = (t as i128) * (self.mfps as i128);
        if f < 0 {
            f = 0;
        } else if f > end {
            f = end;
        }
        let i: usize = (f / whole) as usize;
        let part: i128 = f % whole;
        if i < last {
            let a: CameraState = self.frames[i];
            let b: CameraState = self.frames[i + 1];
            CameraState {
                center: Point {
                    x: mix(a.center.x, b.center.x, part, whole),
                    y: mix(a.center.y, b.center.y, part, whole),
                },
                zoom: mix(a.zoom, b.zoom, part, whole),
            }
        } else {
            self.frames[last]
        }
    }
}

/// Whether the poses of a track come from a run of the camera: `cams` are its states, the
/// first one resting, each later one a step toward that frame's target and cursor.
pub open spec fn is_run<S: Fn(i64, i64, i64, i64, i64) -> (i64, i64)>(
    spring: S,
    samples: Seq<Trigger>,
    keyframes: Seq<ZoomKeyframe>,
    mfps: u32,
    cfg: ZoomConfig,
    cams: Seq<CameraFilter>,
    frames: Seq<CameraState>,
) -> bool {
    &&& cams.len() == frames.len() + 1
    &&& cams[0] == resting(cursor_before_all(samples))
    &&& forall|i: int|
        0 <= i < frames.len() ==> {
            let t = saturated(frame_time(i, mfps));
            let active = active_at(keyframes, keyframes.len() as int, t);
            &&& #[trigger] frames[i] == pose(cams[i + 1])
            &&& springs_to(
                spring,
                cams[i],
                cursor_at(samples, t),
                target_of(active),
                with_feel(cfg, feel_of(active)),
                frame_step(mfps) as i64,
                cams[i + 1],
            )
        }
}

/// Where the cursor is taken to be before the first frame.
pub open spec fn cursor_before_all(samples: Seq<Trigger>) -> Point {
    if samples.len() == 0 {
        mid_point()
    } else {
        samples[0].pos
    }
}

/// Whether frames are those of a camera that follows an input log and zoom segments: it runs
/// over the positions of the log through some states.
pub open spec fn is_track<S: Fn(i64, i64, i64, i64, i64) -> (i64, i64)>(
    spring: S,
    events: Seq<InputEvent>,
    keyframes: Seq<ZoomKeyframe>,
    mfps: u32,
    cfg: ZoomConfig,
    frames: Seq<CameraState>,
) -> bool {
    exists|cams: Seq<CameraFilter>| #[trigger]
        is_run(
            spring,
            triggers(events, events.len() as int, Interest::Position),
            keyframes,
            mfps,
            cfg,
            cams,
            frames,
        )
}

/// Whether a track is what simulating the camera over a clip gives: its rate, one frame per
/// step to the end of the clip and one more, and the camera's poses.
pub open spec fn is_simulation<S: Fn(i64, i64, i64, i64, i64) -> (i64, i64)>(
    spring: S,
    events: Seq<InputEvent>,
    keyframes: Seq<ZoomKeyframe>,
    duration: i64,
    mfps: u32,
    cfg: ZoomConfig,
    track: TrackModel,
) -> bool {
    &&& track.rate == usable_rate(mfps)
    &&& track.frames.len() == frame_count(duration, mfps)
    &&& is_track(spring, events, keyframes, mfps, cfg, track.frames)
}

/// Simulate the camera over the whole clip, producing a [`CameraTrack`].
///
/// Per frame: advance the cursor to the latest sample, pick the active segment's target and
/// feel, and step the camera. A rate below one frame per second counts as one.
pub fn simulate<S: Fn(i64, i64, i64, i64, i64) -> (i64, i64)>(
    spring: &S,
    events: &[InputEvent],
    keyframes: &[ZoomKeyframe],
    duration: i64,
    mfps: u32,
    cfg: &ZoomConfig,
) -> (track: CameraTrack)
    requires
        forall|x: i64, v: i64, goal: i64, hl: i64, d: i64| #[trigger]
            call_requires(*spring, (x, v, goal, hl, d)),
    ensures
        is_simulation(*spring, events@, keyframes@, duration, mfps, *cfg, track.model()),
{
    let rate: u32 = if mfps < 1000 {
        1000
    } else {
        mfps
    };
    let whole: i128 = 1_000_000_000_000;
    let samples = gather(events, Interest::Position);
    proof {
        let p = duration * rate;
        assert(-0x8000_0000_0000_0000 * 0xffff_ffff <= p <= 0x8000_0000_0000_0000 * 0xffff_ffff)
            by (nonlinear_arith)
            requires
                p == duration * rate,
                -0x8000_0000_0000_0000 <= duration <= 0x8000_0000_0000_0000,
                0 <= rate <= 0xffff_ffff,
        ;
    }
    let steps: i128 = floor_div((duration as i128) * (rate as i128) + 999_999_999_999, whole);
    let count: i128 = if steps < 1 {
        2
    } else {
        steps + 1
    };
    let dt: i64 = (1_000_000_000_000i128 / rate as i128) as i64;
    let mut raw: Point = if samples.len() == 0 {
        Point { x: 500_000_000, y: 500_000_000 }
    } else {
        samples[0].pos
    };
    let mut cam = CameraFilter::new(raw);
    let ghost mut cams: Seq<CameraFilter> = seq![cam];
    let mut frames: Vec<CameraState> = Vec::new();
    let mut si: usize = 0;
    let mut i: i128 = 0;
    proof {
        let r = rate as int;
        assert(0 <= 1_000_000_000_000int / r <= 1_000_000_000_000) by (nonlinear_arith)
            requires
                r >= 1,
        ;
    }
    while i < count
        invariant
            forall|x: i64, v: i64, goal: i64, hl: i64, d: i64| #[trigger]
                call_requires(*spring, (x, v, goal, hl, d)),
            rate == usable_rate(mfps),
            whole == 1_000_000_000_000,
            samples@ == triggers(events@, events@.len() as int, Interest::Position),
            chronological(samples@),
            count == frame_count(duration, mfps),
            dt == frame_step(mfps),
            0 <= i <= count,
            frames@.len() == i,
            cams.last() == cam,
            is_run(*spring, samples@, keyframes@, mfps, *cfg, cams, frames@),
            si <= samples@.len(),
            forall|k: int|
                0 <= k < si ==> (#[trigger] samples@[k]).t <= saturated(
                    frame_time(i as int, mfps),
                ),
            raw == (if samples@.len() == 0 {
                mid_point()
            } else if si == 0 {
                samples@[0].pos
            } else {
                samples@[si - 1].pos
            }),
        decreases count - i,
    {
        let ghost r = rate as int;
        let ghost k = i as int;
        let ghost w = whole as int;
        proof {
            let p = duration * r;
            let c = count as int;
            assert(k * w <= p + 2 * w || k <= 1) by (nonlinear_arith)
                requires
                    k < c,
                    c == greater((p + 999_999_999_999) / w, 1) + 1,
                    w == 1_000_000_000_000,
            ;
            assert(0 <= k * w <= 0x9000_0000_0000_0000 * 0xffff_ffff) by (nonlinear_arith)
                requires
                    0 <= k,
                    k * w <= p + 2 * w || k <= 1,
                    p == duration * r,
                    duration <= 0x8000_0000_0000_0000,
                    1000 <= r <= 0xffff_ffff,
                    w == 1_000_000_000_000,
            ;
        }
        let t: i64 = saturate(i * whole / rate as i128);
        assert(t == saturated(frame_time(i as int, mfps)));
        while si < samples.len() && samples[si].t <= t
            invariant
                samples@.len() > 0 || si == 0,
                si <= samples@.len(),
                forall|k: int| 0 <= k < si ==> (#[trigger] samples@[k]).t <= t,
                raw == (if samples@.len() == 0 {
                    mid_point()
                } else if si == 0 {
                    samples@[0].pos
                } else {
                    samples@[si - 1].pos
                }),
            decreases samples@.len() - si,
        {
            raw = samples[si].pos;
            si += 1;
        }
        proof {
            lemma_count_until(samples@, t);
            let n = count_until(samples@, t);
            if n < si {
                assert(samples@[n].t <= t);
            }
            if si < n {
                assert(samples@[si as int].t <= t);
            }
            assert(raw == cursor_at(samples@, t));
        }
        let (target, feel) = frame_target(keyframes, t, cfg);
        let ghost before = frames@;
        let ghost before_cams = cams;
        let s = cam.step(spring, raw, target, &feel, dt);
        frames.push(s);
        proof {
            cams = cams.push(cam);
            assert forall|j: int| 0 <= j < frames@.len() implies {
                let tj = saturated(frame_time(j, mfps));
                let active = active_at(keyframes@, keyframes@.len() as int, tj);
                &&& #[trigger] frames@[j] == pose(cams[j + 1])
                &&& springs_to(
                    *spring,
                    cams[j],
                    cursor_at(samples@, tj),
                    target_of(active),
                    with_feel(*cfg, feel_of(active)),
                    frame_step(mfps) as i64,
                    cams[j + 1],
                )
            } by {
                if j < before.len() {
                    assert(frames@[j] == before[j]);
                    assert(cams[j] == before_cams[j] && cams[j + 1] == before_cams[j + 1]);
                }
            }
            let next = (k + 1) * w;
            assert(k * w / r <= next / r) by (nonlinear_arith)
                requires
                    next == (k + 1) * w,
                    w > 0,
                    r >= 1000,
                    k >= 0,
            ;
        }
        i += 1;
    }
    let track = CameraTrack { mfps: rate, frames };
    assert(is_run(*spring, samples@, keyframes@, mfps, *cfg, cams, track@));
    track
}

/// Plan zooms from an input log and simulate the camera that follows them.
pub fn plan_and_simulate<S: Fn(i64, i64, i64, i64, i64) -> (i64, i64)>(
    spring: &S,
    events: &[InputEvent],
    duration: i64,
    mfps: u32,
    cfg: &ZoomConfig,
) -> (r: (Vec<ZoomKeyframe>, CameraTrack))
    requires
        forall|x: i64, v: i64, goal: i64, hl: i64, d: i64| #[trigger]
            call_requires(*spring, (x, v, goal, hl, d)),
    ensures
        r.0@ == in_order(
            if cfg.auto_zoom_on_click {
                manual_plan(events@, duration, *cfg) + click_plan(events@, duration, *cfg)
            } else {
                manual_plan(events@, duration, *cfg)
            },
        ),
        is_simulation(*spring, events@, r.0@, duration, mfps, *cfg, r.1.model()),
{
    let zooms = plan_zooms(events, duration, cfg);
    let track = simulate(spring, events, zooms.as_slice(), duration, mfps, cfg);
    (zooms, track)
}

/// Whether a pose shows nothing outside the screen.
pub open spec fn shows_only_the_screen(s: CameraState) -> bool {
    &&& half_view(s.zoom) <= s.center.x <= BILLION - half_view(s.zoom)
    &&& half_view(s.zoom) <= s.center.y <= BILLION - half_view(s.zoom)
}

/// A clamped camera never reveals area outside the screen.
pub proof fn clamping_keeps_the_view_on_screen(center: Point, zoom: i64)
    ensures
        shows_only_the_screen(CameraState { center: on_screen(center, zoom), zoom }),
{
    lemma_half_view(zoom);
}

/// Every frame of a run shows only the screen.
proof fn lemma_run_stays_on_screen<S: Fn(i64, i64, i64, i64, i64) -> (i64, i64)>(
    spring: S,
    samples: Seq<Trigger>,
    keyframes: Seq<ZoomKeyframe>,
    mfps: u32,
    cfg: ZoomConfig,
    cams: Seq<CameraFilter>,
    frames: Seq<CameraState>,
    i: int,
)
    requires
        is_run(spring, samples, keyframes, mfps, cfg, cams, frames),
        0 <= i < frames.len(),
    ensures
        shows_only_the_screen(frames[i]),
{
    let t = saturated(frame_time(i, mfps));
    let active = active_at(keyframes, keyframes.len() as int, t);
    assert(frames[i] == pose(cams[i + 1]));
    let feel = with_feel(cfg, feel_of(active));
    let cam = cams[i];
    let (sx, sy, z, px, py) = choose|
        sx: (i64, i64),
        sy: (i64, i64),
        z: (i64, i64),
        px: (i64, i64),
        py: (i64, i64),
    | cams[i + 1] == #[trigger] stepped(cam, target_of(active), feel.dead_zone, sx, sy, z, px, py);
    clamping_keeps_the_view_on_screen(Point { x: px.0, y: py.0 }, z.0);
}

/// No frame of a simulated track reveals area outside the screen, however the springs move.
pub proof fn tracks_never_reveal_offscreen_area<S: Fn(i64, i64, i64, i64, i64) -> (i64, i64)>(
    spring: S,
    events: Seq<InputEvent>,
    keyframes: Seq<ZoomKeyframe>,
    mfps: u32,
    cfg: ZoomConfig,
    frames: Seq<CameraState>,
    i: int,
)
    requires
        is_track(spring, events, keyframes, mfps, cfg, frames),
        0 <= i < frames.len(),
    ensures
        shows_only_the_screen(frames[i]),
{
    let samples = triggers(events, events.len() as int, Interest::Position);
    let cams = choose|cams: Seq<CameraFilter>| #[trigger]
        is_run(spring, samples, keyframes, mfps, cfg, cams, frames);
    lemma_run_stays_on_screen(spring, samples, keyframes, mfps, cfg, cams, frames, i);
}

/// Whether a spring takes any step.
pub open spec fn takes_any_step<S: Fn(i64, i64, i64, i64, i64) -> (i64, i64)>(spring: S) -> bool {
    forall|x: i64, v: i64, goal: i64, hl: i64, d: i64| #[trigger]
        call_requires(spring, (x, v, goal, hl, d))
}

/// Whether a spring always does the same from the same state.
pub open spec fn single_valued<S: Fn(i64, i64, i64, i64, i64) -> (i64, i64)>(spring: S) -> bool {
    forall|args: (i64, i64, i64, i64, i64), p: (i64, i64), q: (i64, i64)|
        #[trigger] call_ensures(spring, args, p) && #[trigger] call_ensures(spring, args, q) ==> p
            == q
}

/// The simulation is deterministic: over a spring that always does the same, two tracks of
/// one length that follow the same log and segments are equal.
pub proof fn equal_inputs_give_one_track<S: Fn(i64, i64, i64, i64, i64) -> (i64, i64)>(
    spring: S,
    events: Seq<InputEvent>,
    keyframes: Seq<ZoomKeyframe>,
    mfps: u32,
    cfg: ZoomConfig,
    a: Seq<CameraState>,
    b: Seq<CameraState>,
)
    requires
        single_valued(spring),
        is_track(spring, events, keyframes, mfps, cfg, a),
        is_track(spring, events, keyframes, mfps, cfg, b),
        a.len() == b.len(),
    ensures
        a == b,
{
    let samples = triggers(events, events.len() as int, Interest::Position);
    let cams = choose|cams: Seq<CameraFilter>| #[trigger]
        is_run(spring, samples, keyframes, mfps, cfg, cams, a);
    let others = choose|cams: Seq<CameraFilter>| #[trigger]
        is_run(spring, samples, keyframes, mfps, cfg, cams, b);
    assert forall|i: int| 0 <= i < a.len() implies a[i] == b[i] by {
        lemma_one_run(spring, samples, keyframes, mfps, cfg, cams, a, others, b, i + 1);
        assert(a[i] == pose(cams[i + 1]));
        assert(b[i] == pose(others[i + 1]));
    }
    assert(a =~= b);
}

/// What every simulation holds: a frame for each step of the clip, rounded up, at least one,
/// and one more; no frame that reveals area outside the screen, however the spring moves; and
/// the same track again from the same arguments, over a spring that always does the same.
pub proof fn simulations_are_sound<S: Fn(i64, i64, i64, i64, i64) -> (i64, i64)>(
    spring: S,
    events: Seq<InputEvent>,
    keyframes: Seq<ZoomKeyframe>,
    duration: i64,
    mfps: u32,
    cfg: ZoomConfig,
    a: TrackModel,
    b: TrackModel,
)
    requires
        is_simulation(spring, events, keyframes, duration, mfps, cfg, a),
        is_simulation(spring, events, keyframes, duration, mfps, cfg, b),
    ensures
        a.frames.len() == greater(
            (duration * usable_rate(mfps) + 999_999_999_999) / 1_000_000_000_000,
            1,
        ) + 1,
        forall|i: int| 0 <= i < a.frames.len() ==> shows_only_the_screen(#[trigger] a.frames[i]),
        single_valued(spring) ==> a == b,
{
    assert forall|i: int| 0 <= i < a.frames.len() implies shows_only_the_screen(
        #[trigger] a.frames[i],
    ) by {
        tracks_never_reveal_offscreen_area(spring, events, keyframes, mfps, cfg, a.frames, i);
    }
    if single_valued(spring) {
        equal_inputs_give_one_track(spring, events, keyframes, mfps, cfg, a.frames, b.frames);
    }
}

/// Two runs over a spring that always does the same go through the same states.
proof fn lemma_one_run<S: Fn(i64, i64, i64, i64, i64) -> (i64, i64)>(
    spring: S,
    samples: Seq<Trigger>,
    keyframes: Seq<ZoomKeyframe>,
    mfps: u32,
    cfg: ZoomConfig,
    cams: Seq<CameraFilter>,
    a: Seq<CameraState>,
    others: Seq<CameraFilter>,
    b: Seq<CameraState>,
    n: int,
)
    requires
        single_valued(spring),
        is_run(spring, samples, keyframes, mfps, cfg, cams, a),
        is_run(spring, samples, keyframes, mfps, cfg, others, b),
        0 <= n < cams.len(),
        n < others.len(),
    ensures
        cams[n] == others[n],
    decreases n,
{
    if n > 0 {
        lemma_one_run(spring, samples, keyframes, mfps, cfg, cams, a, others, b, n - 1);
        assert(a[n - 1] == pose(cams[n]));
        assert(b[n - 1] == pose(others[n]));
    }
}

/// Without an active segment the camera aims at the resting pose.
pub proof fn idle_frames_aim_at_rest(keyframes: Seq<ZoomKeyframe>, t: i64, cursor: Point)
    requires
        forall|i: int| 0 <= i < keyframes.len() ==> !(#[trigger] keyframes[i]).covers(t),
    ensures
        target_of(active_at(keyframes, keyframes.len() as int, t)) is Idle,
        zoom_goal(CameraTarget::Idle) == BILLION,
        focus_of(CameraTarget::Idle, cursor) == mid_point(),
{
    lemma_none_active(keyframes, keyframes.len() as int, t);
}

/// Where no segment covers a time, none is active.
proof fn lemma_none_active(keyframes: Seq<ZoomKeyframe>, n: int, t: i64)
    requires
        n <= keyframes.len(),
        forall|i: int| 0 <= i < keyframes.len() ==> !(#[trigger] keyframes[i]).covers(t),
    ensures
        active_at(keyframes, n, t) is None,
    decreases n,
{
    if n > 0 {
        lemma_none_active(keyframes, n - 1, t);
    }
}

/// The focus of a following camera is the cursor, axis by axis. Away from the edges it is the
/// cursor itself; near one it is pulled toward that edge, twice as fast as the cursor gets
/// there, until it is at the edge. Each coordinate depends on the same coordinate of the
/// cursor alone, and never moves against it.
pub proof fn the_focus_follows_the_cursor(amount: i64, ratio: i64, c: Point, d: Point)
    requires
        ratio <= BILLION,
    ensures
        ({
            let target = CameraTarget::Auto { amount, edge_snap_ratio: ratio };
            let f = focus_of(target, c);
            let g = focus_of(target, d);
            &&& ratio <= c.x <= BILLION - ratio || ratio <= 0 ==> f.x == c.x
            &&& ratio <= c.y <= BILLION - ratio || ratio <= 0 ==> f.y == c.y
            &&& c.x == d.x ==> f.x == g.x
            &&& c.y == d.y ==> f.y == g.y
            &&& c.x <= d.x ==> f.x <= g.x
            &&& c.y <= d.y ==> f.y <= g.y
            &&& ratio > 0 && ratio <= 2 * c.x && c.x < ratio ==> ratio - f.x == 2 * (ratio - c.x)
            &&& ratio > 0 && ratio <= 2 * c.y && c.y < ratio ==> ratio - f.y == 2 * (ratio - c.y)
            &&& ratio > 0 && 2 * c.x <= ratio ==> f.x == 0
            &&& ratio > 0 && 2 * c.y <= ratio ==> f.y == 0
            &&& ratio > 0 && c.x >= ratio && 2 * (BILLION - c.x) <= ratio ==> f.x == BILLION
            &&& ratio > 0 && c.y >= ratio && 2 * (BILLION - c.y) <= ratio ==> f.y == BILLION
            &&& 0 < 2 * ratio <= BILLION && 0 <= c.x <= BILLION && d.x == BILLION - c.x ==> g.x
                == BILLION - f.x
            &&& 0 < 2 * ratio <= BILLION && 0 <= c.y <= BILLION && d.y == BILLION - c.y ==> g.y
                == BILLION - f.y
        }),
{
}

/// Clamping moves a center only as far as it must: a center around which the view is on the
/// screen stays, and any other is moved along that axis to the first place where it is.
pub proof fn clamping_moves_no_farther_than_needed(center: Point, zoom: i64)
    requires
        zoom >= BILLION,
    ensures
        ({
            let c = on_screen(center, zoom);
            let half = 500_000_000int * 1_000_000_000;
            &&& center.x * zoom >= half && (BILLION - center.x) * zoom >= half ==> c.x == center.x
            &&& center.y * zoom >= half && (BILLION - center.y) * zoom >= half ==> c.y == center.y
            &&& center.x * zoom < half ==> c.x * zoom >= half > (c.x - 1) * zoom
            &&& center.y * zoom < half ==> c.y * zoom >= half > (c.y - 1) * zoom
            &&& center.x * zoom >= half && (BILLION - center.x) * zoom < half ==> (BILLION - c.x)
                * zoom >= half > (BILLION - c.x - 1) * zoom
            &&& center.y * zoom >= half && (BILLION - center.y) * zoom < half ==> (BILLION - c.y)
                * zoom >= half > (BILLION - c.y - 1) * zoom
        }),
{
    lemma_clamped_axis(center.x, zoom);
    lemma_clamped_axis(center.y, zoom);
}

/// One axis of clamping a center.
proof fn lemma_clamped_axis(v: i64, zoom: i64)
    requires
        zoom >= BILLION,
    ensures
        ({
            let c = clamped(v as int, half_view(zoom), BILLION - half_view(zoom));
            let half = 500_000_000int * 1_000_000_000;
            &&& 0 <= c <= BILLION
            &&& v * zoom >= half && (BILLION - v) * zoom >= half ==> c == v
            &&& v * zoom < half ==> c * zoom >= half > (c - 1) * zoom
            &&& v * zoom >= half && (BILLION - v) * zoom < half ==> (BILLION - c) * zoom >= half > (
            BILLION - c - 1) * zoom
        }),
{
    let n = 500_000_000int * 1_000_000_000;
    let z = zoom as int;
    let h = half_view(zoom);
    lemma_half_view(zoom);
    vstd::arithmetic::div_mod::lemma_fundamental_div_mod(n + z - 1, z);
    let r = (n + z - 1) % z;
    assert(h * z >= n > (h - 1) * z) by (nonlinear_arith)
        requires
            n + z - 1 == z * h + r,
            0 <= r < z,
    ;
    let a = v as int;
    assert(a < h ==> a * z < n) by (nonlinear_arith)
        requires
            n > (h - 1) * z,
            z > 0,
    ;
    assert(a >= h ==> a * z >= n) by (nonlinear_arith)
        requires
            h * z >= n,
            z > 0,
    ;
    let b = 1_000_000_000 - a;
    assert(b < h ==> b * z < n) by (nonlinear_arith)
        requires
            n > (h - 1) * z,
            z > 0,
    ;
    assert(b >= h ==> b * z >= n) by (nonlinear_arith)
        requires
            h * z >= n,
            z > 0,
    ;
}

/// The first segment that covers a time is the active one; where none does, none is.
pub proof fn the_first_segment_is_active(z: Seq<ZoomKeyframe>, t: i64, i: int)
    requires
        0 <= i < z.len(),
        z[i].start <= t < z[i].end,
        forall|j: int|
            0 <= j < i ==> !((#[trigger] z[j]).start <= t && t < z[j].end),
    ensures
        active_at(z, z.len() as int, t) == Some(z[i]),
{
    lemma_first_active(z, z.len() as int, t, i);
}

/// The first of some segments that covers a time is the active one among them.
proof fn lemma_first_active(z: Seq<ZoomKeyframe>, n: int, t: i64, i: int)
    requires
        0 <= i < z.len(),
        n <= z.len(),
        z[i].covers(t),
        forall|j: int| 0 <= j < i ==> !(#[trigger] z[j]).covers(t),
    ensures
        active_at(z, n, t) == (if n <= i {
            None
        } else {
            Some(z[i])
        }),
    decreases n,
{
    if n > 0 {
        lemma_first_active(z, n - 1, t, i);
        if n <= i {
            assert(!z[n - 1].covers(t));
        }
    }
}

/// The smoothed cursor, the zoom and the pan each move on their own spring, along their own
/// axis, toward their own goal: the raw cursor, the zoom that the target asks for, and the
/// point that the camera pans to. That point is the focus, unless the focus is still close to
/// the center along both axes while a zoom is active. Zooming out is the faster.
pub proof fn each_spring_moves_its_own_axis<S: Fn(i64, i64, i64, i64, i64) -> (i64, i64)>(
    spring: S,
    cam: CameraFilter,
    raw: Point,
    target: CameraTarget,
    cfg: ZoomConfig,
    dt: i64,
    next: CameraFilter,
)
    requires
        springs_to(spring, cam, raw, target, cfg, dt, next),
    ensures
        call_ensures(
            spring,
            (cam.smoothed.x, cam.smoothed_v.x, raw.x, cfg.hl_cursor, dt),
            (next.smoothed.x, next.smoothed_v.x),
        ),
        call_ensures(
            spring,
            (cam.smoothed.y, cam.smoothed_v.y, raw.y, cfg.hl_cursor, dt),
            (next.smoothed.y, next.smoothed_v.y),
        ),
        ({
            let goal = match target {
                CameraTarget::Idle => 1_000_000_000,
                CameraTarget::Auto { amount, .. } => amount,
                CameraTarget::Manual { amount, .. } => amount,
            };
            let hl = if goal < cam.zoom {
                cfg.hl_zoom * 85 / 100
            } else {
                cfg.hl_zoom as int
            };
            call_ensures(
                spring,
                (cam.zoom, cam.zoom_v, goal, hl as i64, dt),
                (next.zoom, next.zoom_v),
            )
        }),
        ({
            let near = |f: Point|
                -cfg.dead_zone <= f.x - cam.center.x <= cfg.dead_zone && -cfg.dead_zone <= f.y
                    - cam.center.y <= cfg.dead_zone;
            match target {
                CameraTarget::Idle => next.pan_target == Point { x: 500_000_000, y: 500_000_000 },
                CameraTarget::Auto { edge_snap_ratio, .. } => {
                    let f = focus_of(target, next.smoothed);
                    next.pan_target == if near(f) {
                        cam.pan_target
                    } else {
                        f
                    }
                },
                CameraTarget::Manual { focus, .. } => next.pan_target == if near(focus) {
                    cam.pan_target
                } else {
                    focus
                },
            }
        }),
        exists|px: (i64, i64), py: (i64, i64)|
            {
                &&& #[trigger] call_ensures(
                    spring,
                    (cam.center.x, cam.center_v.x, next.pan_target.x, cfg.hl_pan, dt),
                    px,
                )
                &&& #[trigger] call_ensures(
                    spring,
                    (cam.center.y, cam.center_v.y, next.pan_target.y, cfg.hl_pan, dt),
                    py,
                )
                &&& next.center_v == Point { x: px.1, y: py.1 }
                &&& next.center == on_screen(Point { x: px.0, y: py.0 }, next.zoom)
            },
{
    let (sx, sy, z, px, py) = choose|
        sx: (i64, i64),
        sy: (i64, i64),
        z: (i64, i64),
        px: (i64, i64),
        py: (i64, i64),
    |
        {
            let pan = retargeted(cam, target, Point { x: sx.0, y: sy.0 }, cfg.dead_zone);
            let hl = zoom_half_life(zoom_goal(target), cam.zoom, cfg.hl_zoom) as i64;
            &&& call_ensures(
                spring,
                (cam.smoothed.x, cam.smoothed_v.x, raw.x, cfg.hl_cursor, dt),
                sx,
            )
            &&& call_ensures(
                spring,
                (cam.smoothed.y, cam.smoothed_v.y, raw.y, cfg.hl_cursor, dt),
                sy,
            )
            &&& call_ensures(spring, (cam.zoom, cam.zoom_v, zoom_goal(target), hl, dt), z)
            &&& call_ensures(spring, (cam.center.x, cam.center_v.x, pan.x, cfg.hl_pan, dt), px)
            &&& call_ensures(spring, (cam.center.y, cam.center_v.y, pan.y, cfg.hl_pan, dt), py)
            &&& next == #[trigger] stepped(cam, target, cfg.dead_zone, sx, sy, z, px, py)
        };
    assert((next.smoothed.x, next.smoothed_v.x) == sx);
    assert((next.smoothed.y, next.smoothed_v.y) == sy);
    assert((next.zoom, next.zoom_v) == z);
    assert(next.pan_target == retargeted(
        cam,
        target,
        Point { x: sx.0, y: sy.0 },
        cfg.dead_zone,
    ));
}

/// The cursor is where the latest event until then was.
pub proof fn the_cursor_is_at_the_latest_event(events: Seq<InputEvent>, t: i64, m: int)
    requires
        is_latest_place(events, events.len() as int, t, m),
    ensures
        events[m].place() == Some(
            cursor_at(triggers(events, events.len() as int, Interest::Position), t),
        ),
{
    lemma_latest_sample(events, events.len() as int, t, m);
}

/// Whether a spring is at rest on its goal after any step.
pub open spec fn lands<S: Fn(i64, i64, i64, i64, i64) -> (i64, i64)>(spring: S) -> bool {
    forall|x: i64, v: i64, goal: i64, hl: i64, d: i64, next: (i64, i64)| #[trigger]
        call_ensures(spring, (x, v, goal, hl, d), next) ==> next == (goal, 0i64)
}

/// A track shows what is active when it is: over a spring that lands on its goal and without
/// a dead zone, the frame at each step of the rate (at least one frame per second) has the
/// zoom of the first segment that covers its time. It is centered on the point that this
/// segment holds, or on where the cursor then is, as far as the view around these stays on
/// the screen and the cursor is away from the edges. Between segments it is at rest.
pub proof fn frames_show_the_active_segment<S: Fn(i64, i64, i64, i64, i64) -> (i64, i64)>(
    spring: S,
    events: Seq<InputEvent>,
    keyframes: Seq<ZoomKeyframe>,
    mfps: u32,
    cfg: ZoomConfig,
    frames: Seq<CameraState>,
    i: int,
    t: i64,
    k: int,
    m: int,
)
    requires
        is_track(spring, events, keyframes, mfps, cfg, frames),
        lands(spring),
        cfg.dead_zone < 0,
        0 <= i < frames.len(),
        t == i * 1_000_000_000_000 / (if mfps < 1000 {
            1000
        } else {
            mfps as int
        }),
        forall|j: int|
            0 <= j < k ==> !((#[trigger] keyframes[j]).start <= t && t < keyframes[j].end),
        0 <= k <= keyframes.len(),
        k < keyframes.len() ==> keyframes[k].start <= t < keyframes[k].end && keyframes[k].amount
            >= BILLION,
        is_latest_place(events, events.len() as int, t, m),
    ensures
        ({
            let s = frames[i];
            if k == keyframes.len() {
                s == (CameraState {
                    center: Point { x: 500_000_000, y: 500_000_000 },
                    zoom: 1_000_000_000,
                })
            } else {
                let z = keyframes[k].amount;
                let margin = 500_000_000int * 1_000_000_000;
                &&& s.zoom == z
                &&& match keyframes[k].mode {
                    ZoomMode::Manual { pos } => {
                        &&& pos.x * z >= margin && (BILLION - pos.x) * z >= margin ==> s.center.x
                            == pos.x
                        &&& pos.y * z >= margin && (BILLION - pos.y) * z >= margin ==> s.center.y
                            == pos.y
                    },
                    ZoomMode::Auto => {
                        let pos = events[m].place()->Some_0;
                        let snap = keyframes[k].edge_snap_ratio;
                        &&& pos.x * z >= margin && (BILLION - pos.x) * z >= margin && (snap <= 0
                            || snap <= pos.x <= BILLION - snap) ==> s.center.x == pos.x
                        &&& pos.y * z >= margin && (BILLION - pos.y) * z >= margin && (snap <= 0
                            || snap <= pos.y <= BILLION - snap) ==> s.center.y == pos.y
                    },
                }
            }
        }),
{
    let samples = triggers(events, events.len() as int, Interest::Position);
    let cams = choose|cams: Seq<CameraFilter>| #[trigger]
        is_run(spring, samples, keyframes, mfps, cfg, cams, frames);
    let active = active_at(keyframes, keyframes.len() as int, t);
    assert(t == saturated(frame_time(i, mfps)));
    assert(frames[i] == pose(cams[i + 1]));
    the_cursor_is_at_the_latest_event(events, t, m);
    if k < keyframes.len() {
        the_first_segment_is_active(keyframes, t, k);
    } else {
        lemma_none_active(keyframes, keyframes.len() as int, t);
    }
    let feel = with_feel(cfg, feel_of(active));
    let raw = cursor_at(samples, t);
    let target = target_of(active);
    each_spring_moves_its_own_axis(
        spring,
        cams[i],
        raw,
        target,
        feel,
        frame_step(mfps) as i64,
        cams[i + 1],
    );
    let next = cams[i + 1];
    assert(next.smoothed == raw);
    assert(next.pan_target == focus_of(target, raw));
    clamping_moves_no_farther_than_needed(next.pan_target, next.zoom);
    lemma_clamped_axis(500_000_000, BILLION);
}

/// A track is read between its frames: exactly at a frame it is that frame, between two it is
/// as far from the one to the other, in each coordinate and rounded down, as the time is;
/// before its first and after its last it stays there.
pub proof fn tracks_are_interpolated(
    frames: Seq<CameraState>,
    mfps: u32,
    t: i64,
    i: int,
    part: int,
)
    requires
        0 <= i < frames.len(),
        0 <= part < 1_000_000_000_000,
        t * mfps == i * 1_000_000_000_000 + part || (t * mfps <= 0 && i == 0 && part == 0) || (i
            == frames.len() - 1 && part == 0 && t * mfps >= i * 1_000_000_000_000),
        part == 0 || i + 1 < frames.len(),
    ensures
        ({
            let s = pose_at(frames, mfps, t);
            let a = frames[i];
            if part == 0 {
                s == a
            } else {
                let b = frames[i + 1];
                let whole = 1_000_000_000_000int;
                &&& (s.center.x - a.center.x) * whole <= (b.center.x - a.center.x) * part < (
                s.center.x - a.center.x + 1) * whole
                &&& (s.center.y - a.center.y) * whole <= (b.center.y - a.center.y) * part < (
                s.center.y - a.center.y + 1) * whole
                &&& (s.zoom - a.zoom) * whole <= (b.zoom - a.zoom) * part < (s.zoom - a.zoom + 1)
                    * whole
            }
        }),
{
    let whole = 1_000_000_000_000int;
    let last = frames.len() - 1;
    let f = clamped(t * mfps, 0, last * whole);
    assert(f == i * whole + part);
    assert(f / whole == i && f % whole == part);
    let a = frames[i];
    if i < last {
        let b = frames[i + 1];
        lemma_mixed(a.center.x, b.center.x, part);
        lemma_mixed(a.center.y, b.center.y, part);
        lemma_mixed(a.zoom, b.zoom, part);
    }
}

/// Interpolation is as far on its way as it should be.
proof fn lemma_mixed(a: i64, b: i64, part: int)
    requires
        0 <= part < 1_000_000_000_000,
    ensures
        ({
            let whole = 1_000_000_000_000int;
            let r = between(a, b, part, whole);
            &&& i64::MIN <= r <= i64::MAX
            &&& part == 0 ==> r == a
            &&& (r - a) * whole <= (b - a) * part < (r - a + 1) * whole
        }),
{
    let whole = 1_000_000_000_000int;
    lemma_between(a, b, part, whole);
    let p = (b - a) * part;
    assert(part == 0 ==> p == 0) by (nonlinear_arith)
        requires
            p == (b - a) * part,
    ;
}

/// A style changes the pace of zoom and pan and nothing else: smooth zooms keep the configured
/// half-lives, snappy ones take a little over half of them, slow ones nearly twice; frames
/// between zooms keep them too.
pub proof fn styles_set_the_pace(cfg: ZoomConfig, k: ZoomKeyframe)
    requires
        0 <= cfg.hl_zoom <= 1_000_000_000_000_000,
        0 <= cfg.hl_pan <= 1_000_000_000_000_000,
    ensures
        with_feel(cfg, feel_of(None)) == cfg,
        ({
            let f = with_feel(cfg, feel_of(Some(k)));
            &&& f == ZoomConfig { hl_zoom: f.hl_zoom, hl_pan: f.hl_pan, ..cfg }
            &&& match k.style {
                ZoomStyle::Smooth => f == cfg,
                ZoomStyle::Snappy => f.hl_zoom == cfg.hl_zoom * 55 / 100 && f.hl_pan == cfg.hl_pan
                    * 55 / 100,
                ZoomStyle::Slow => f.hl_zoom == cfg.hl_zoom * 180 / 100 && f.hl_pan == cfg.hl_pan
                    * 180 / 100,
            }
        }),
{
}

/// A run of the camera begins at rest: centered, unzoomed and still, with the smoothed cursor
/// on the first sample. Each frame is one step on from the one before: it lasts as many
/// nanoseconds as fit into its share of a second, and goes toward what is active then, at that
/// one's pace, and toward where the cursor is.
pub proof fn runs_begin_at_rest<S: Fn(i64, i64, i64, i64, i64) -> (i64, i64)>(
    spring: S,
    samples: Seq<Trigger>,
    keyframes: Seq<ZoomKeyframe>,
    mfps: u32,
    cfg: ZoomConfig,
    cams: Seq<CameraFilter>,
    frames: Seq<CameraState>,
    i: int,
)
    requires
        is_run(spring, samples, keyframes, mfps, cfg, cams, frames),
        0 <= i < frames.len(),
        mfps >= 1000,
        i * 1_000_000_000_000 / mfps as int <= i64::MAX,
    ensures
        cams.len() == frames.len() + 1,
        cams[0].center == (Point { x: 500_000_000, y: 500_000_000 }),
        cams[0].pan_target == cams[0].center,
        cams[0].zoom == 1_000_000_000,
        cams[0].zoom_v == 0,
        cams[0].center_v == (Point { x: 0, y: 0 }),
        cams[0].smoothed_v == (Point { x: 0, y: 0 }),
        samples.len() > 0 ==> cams[0].smoothed == samples[0].pos,
        frames[i].center == cams[i + 1].center,
        frames[i].zoom == cams[i + 1].zoom,
        ({
            let t = (i * 1_000_000_000_000 / mfps as int) as i64;
            let dt = 1_000_000_000_000int / mfps as int;
            let active = active_at(keyframes, keyframes.len() as int, t);
            &&& dt * mfps <= 1_000_000_000_000 < (dt + 1) * mfps
            &&& springs_to(
                spring,
                cams[i],
                cursor_at(samples, t),
                target_of(active),
                with_feel(cfg, feel_of(active)),
                dt as i64,
                cams[i + 1],
            )
        }),
{
    let r = mfps as int;
    let dt = 1_000_000_000_000int / r;
    assert(dt * r <= 1_000_000_000_000 < (dt + 1) * r) by (nonlinear_arith)
        requires
            dt == 1_000_000_000_000int / r,
            r > 0,
    ;
    let a = i * 1_000_000_000_000;
    assert(a / r >= 0) by (nonlinear_arith)
        requires
            a >= 0,
            r > 0,
    ;
    assert(frames[i] == pose(cams[i + 1]));
    assert(saturated(frame_time(i, mfps)) == a / r);
}

/// What is aimed for while a segment is active: its amount, and the cursor or the point that it
/// holds.
pub proof fn targets_are_what_the_segment_asks(k: ZoomKeyframe)
    ensures
        target_of(None) is Idle,
        k.mode is Auto ==> target_of(Some(k)) == (CameraTarget::Auto {
            amount: k.amount,
            edge_snap_ratio: k.edge_snap_ratio,
        }),
        k.mode matches ZoomMode::Manual { pos } ==> target_of(Some(k)) == (CameraTarget::Manual {
            amount: k.amount,
            focus: pos,
        }),
{
}

/// Before any event, the cursor is where the earliest one will be.
pub proof fn the_cursor_waits_at_the_earliest_event(events: Seq<InputEvent>, t: i64, m: int)
    requires
        is_earliest_place(events, events.len() as int, m),
        t < events[m].time(),
    ensures
        events[m].place() == Some(
            cursor_at(triggers(events, events.len() as int, Interest::Position), t),
        ),
        events[m].place() == Some(
            cursor_before_all(triggers(events, events.len() as int, Interest::Position)),
        ),
{
    let xs = triggers(events, events.len() as int, Interest::Position);
    lemma_earliest_sample(events, events.len() as int, m);
    lemma_count_until(xs, t);
    assert(xs[0].t > t);
}

} // verus!
