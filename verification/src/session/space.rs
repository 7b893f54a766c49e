//! Guarding the disk: raw frames stream to it at a tremendous rate, so free space is checked
//! before a recording starts and while it runs.

use crate::text::{decimal, digit, push_decimal};
use vstd::prelude::*;

verus! {

/// Conservative capture rate used to size the write estimate. Real capture is usually
/// faster; the low end keeps the estimate from over-reserving space.
pub const ESTIMATE_FPS: u64 = 30;

/// Absolute minimum free space to start any recording.
pub const MIN_FREE_BYTES: u64 = 2_147_483_648;

/// At least this many seconds of capture must fit.
pub const MIN_FREE_SECONDS: u64 = 30;

/// Below this many seconds of capture the user is warned.
pub const LOW_FREE_SECONDS: u64 = 300;

/// How often (in frames) free space is checked again while recording.
pub const DISK_CHECK_EVERY: u32 = 60;

/// Writing stops once free space drops below this.
pub const DRAIN_STOP_FLOOR_BYTES: u64 = 536_870_912;

/// A dropped frame is worth a warning once there are more than this many.
pub const DROP_WARN_MIN_FRAMES: u64 = 30;

/// Bytes per second that a capture of `w` by `h` pixels writes.
pub open spec fn write_rate(w: u32, h: u32) -> int {
    w * h * 4 * ESTIMATE_FPS
}

/// Whether the write rate fits 64 bits.
pub open spec fn fits_rate(w: u32, h: u32) -> bool {
    write_rate(w, h) <= u64::MAX
}

/// Whether the write rate of a capture can be computed.
pub fn rate_fits(w: u32, h: u32) -> (r: bool)
    ensures
        r == fits_rate(w, h),
{
    proof {
        let a = w as int;
        let b = h as int;
        assert(0 <= a * b <= 0xffff_ffff * 0xffff_ffff) by (nonlinear_arith)
            requires
                0 <= a <= 0xffff_ffff,
                0 <= b <= 0xffff_ffff,
        ;
    }
    (w as u128) * (h as u128) * 4 * 30 <= u64::MAX as u128
}

/// Bytes per second the raw store grows at for a `w` by `h` capture.
pub fn raw_write_rate_bps(w: u32, h: u32) -> (n: u64)
    requires
        fits_rate(w, h),
    ensures
        n == write_rate(w, h),
{
    proof {
        let a = w as int;
        let b = h as int;
        assert(0 <= a * b) by (nonlinear_arith)
            requires
                0 <= a,
                0 <= b,
        ;
    }
    (w as u64) * (h as u64) * 4 * ESTIMATE_FPS
}

/// Tenths of `n / unit`, rounded to the nearest, to the even one of two.
pub open spec fn tenths(n: nat, unit: nat) -> nat {
    let q = n * 10 / unit;
    let r = n * 10 % unit;
    if 2 * r > unit || (2 * r == unit && q % 2 == 1) {
        q + 1
    } else {
        q
    }
}

/// A number of tenths with its decimal point.
pub open spec fn tenths_text(n: nat) -> Seq<char> {
    decimal(n / 10) + "."@ + seq![digit(n % 10)]
}

fn push_tenths(s: &mut String, n: u64, unit: u64)
    requires
        unit > 0,
    ensures
        final(s)@ == old(s)@ + tenths_text(tenths(n as nat, unit as nat)),
{
    let q: u128 = (n as u128) * 10 / (unit as u128);
    let r: u128 = (n as u128) * 10 % (unit as u128);
    proof {
        let a = n * 10;
        let b = unit as int;
        assert(0 <= a / b <= a) by (nonlinear_arith)
            requires
                a >= 0,
                b >= 1,
        ;
        vstd::arithmetic::div_mod::lemma_mod_bound(a, b);
    }
    let t: u128 = if 2 * r > unit as u128 || (2 * r == unit as u128 && q % 2 == 1) {
        q + 1
    } else {
        q
    };
    push_decimal(s, t / 10);
    s.push_str(".");
    let d: u8 = (t % 10) as u8;
    s.push((48u8 + d) as char);
    assert(s@ =~= old(s)@ + tenths_text(tenths(n as nat, unit as nat)));
}

/// What free space allows.
pub enum SpaceOutcome {
    /// Not enough: free bytes, needed bytes and the write rate.
    Blocked { free: u64, need: u64, rate: u64 },
    /// Enough to start, but low: free bytes and the minutes that fit.
    Low { free: u64, minutes: u64 },
    Plenty,
}

/// The smaller of a product and what 64 bits hold.
pub open spec fn capped_product(a: int, b: int) -> int {
    if a * b > u64::MAX {
        u64::MAX as int
    } else {
        a * b
    }
}

/// The write rate, at least one byte per second.
pub open spec fn used_rate(w: u32, h: u32) -> int {
    if write_rate(w, h) < 1 {
        1
    } else {
        write_rate(w, h)
    }
}

/// The free space below which no recording starts.
pub open spec fn space_floor(w: u32, h: u32) -> int {
    let thirty = capped_product(used_rate(w, h), MIN_FREE_SECONDS as int);
    if thirty > MIN_FREE_BYTES {
        thirty
    } else {
        MIN_FREE_BYTES as int
    }
}

/// What free space allows for a capture of `w` by `h` pixels.
pub open spec fn free_space_outcome(free: u64, w: u32, h: u32) -> SpaceOutcome {
    let rate = used_rate(w, h);
    if free < space_floor(w, h) {
        SpaceOutcome::Blocked { free, need: space_floor(w, h) as u64, rate: rate as u64 }
    } else if free < capped_product(rate, LOW_FREE_SECONDS as int) {
        SpaceOutcome::Low { free, minutes: (free as int / rate / 60) as u64 }
    } else {
        SpaceOutcome::Plenty
    }
}

/// The text of a refusal.
pub open spec fn blocked_text(free: u64, need: u64, rate: u64) -> Seq<char> {
    "Not enough disk space to record: only "@ + tenths_text(tenths(free as nat, 1_000_000_000))
        + " GB free, need at least "@ + tenths_text(tenths(need as nat, 1_000_000_000))
        + " GB. Vuoom records raw video (~"@ + decimal((rate / 1_048_576) as nat)
        + " MB/s at this size), free up space and try again."@
}

/// The text of a warning.
pub open spec fn low_text(free: u64, minutes: u64) -> Seq<char> {
    "Heads up: your disk was low on space when recording started, about "@ + decimal(
        minutes as nat,
    ) + " min fits ("@ + tenths_text(tenths(free as nat, 1_000_000_000))
        + " GB free). Vuoom stops automatically before the disk fills."@
}

/// Whether a result says what free space allows.
pub open spec fn says(r: Result<Option<String>, String>, outcome: SpaceOutcome) -> bool {
    match outcome {
        SpaceOutcome::Blocked { free, need, rate } => r matches Err(e) && e@ == blocked_text(
            free,
            need,
            rate,
        ),
        SpaceOutcome::Low { free, minutes } => r matches Ok(Some(w)) && w@ == low_text(
            free,
            minutes,
        ),
        SpaceOutcome::Plenty => r matches Ok(None),
    }
}

fn capped_times(a: u64, b: u64) -> (n: u64)
    ensures
        n == capped_product(a as int, b as int),
{
    proof {
        let x = a as int;
        let y = b as int;
        assert(0 <= x * y <= 0xffff_ffff_ffff_ffff * 0xffff_ffff_ffff_ffff) by (nonlinear_arith)
            requires
                0 <= x <= 0xffff_ffff_ffff_ffff,
                0 <= y <= 0xffff_ffff_ffff_ffff,
        ;
    }
    let n: u128 = (a as u128) * (b as u128);
    if n > u64::MAX as u128 {
        u64::MAX
    } else {
        n as u64
    }
}

/// Decide whether a recording may start given the free bytes on its disk and the capture
/// dimensions. `Err` blocks it; `Ok(Some(_))` starts it with a warning; `Ok(None)` is plenty
/// of space.
pub fn check_free_space(free_bytes: u64, w: u32, h: u32) -> (r: Result<Option<String>, String>)
    requires
        fits_rate(w, h),
    ensures
        says(r, free_space_outcome(free_bytes, w, h)),
{
    let raw: u64 = raw_write_rate_bps(w, h);
    let rate: u64 = if raw < 1 {
        1
    } else {
        raw
    };
    let thirty: u64 = capped_times(rate, MIN_FREE_SECONDS);
    let floor: u64 = if thirty > MIN_FREE_BYTES {
        thirty
    } else {
        MIN_FREE_BYTES
    };
    if free_bytes < floor {
        let mut s = "Not enough disk space to record: only ".to_owned();
        push_tenths(&mut s, free_bytes, 1_000_000_000);
        s.push_str(" GB free, need at least ");
        push_tenths(&mut s, floor, 1_000_000_000);
        s.push_str(" GB. Vuoom records raw video (~");
        push_decimal(&mut s, (rate / 1_048_576) as u128);
        s.push_str(" MB/s at this size), free up space and try again.");
        return Err(s);
    }
    if free_bytes < capped_times(rate, LOW_FREE_SECONDS) {
        let minutes: u64 = free_bytes / rate / 60;
        let mut s = "Heads up: your disk was low on space when recording started, about ".to_owned();
        push_decimal(&mut s, minutes as u128);
        s.push_str(" min fits (");
        push_tenths(&mut s, free_bytes, 1_000_000_000);
        s.push_str(" GB free). Vuoom stops automatically before the disk fills.");
        return Ok(Some(s));
    }
    Ok(None)
}

/// More free space never turns a recording that may start into one that may not, nor plenty
/// into low.
pub proof fn more_space_never_hurts(a: u64, b: u64, w: u32, h: u32)
    requires
        a <= b,
    ensures
        !(free_space_outcome(a, w, h) is Blocked) ==> !(free_space_outcome(b, w, h) is Blocked),
        free_space_outcome(a, w, h) is Plenty ==> free_space_outcome(b, w, h) is Plenty,
{
}

/// Whether so many dropped frames are worth a warning: more than a handful outright, or more
/// than two in a hundred of all that were captured.
pub open spec fn is_shortfall(dropped: u64, kept: usize) -> bool {
    dropped > 0 && (dropped > DROP_WARN_MIN_FRAMES || dropped * 100 > 2 * (dropped + kept))
}

/// The text of the warning.
pub open spec fn dropped_text(dropped: u64, kept: usize) -> Seq<char> {
    "Capture couldn't keep up, dropped "@ + decimal(dropped as nat) + " frames ("@ + tenths_text(
        tenths((dropped * 100) as nat, (dropped + kept) as nat),
    ) + "%). Try a smaller region or a less busy disk."@
}

fn push_percent(s: &mut String, part: u64, whole: u64)
    requires
        0 < whole,
        part <= whole,
    ensures
        final(s)@ == old(s)@ + tenths_text(tenths((part * 100) as nat, whole as nat)),
{
    let n: u128 = (part as u128) * 1000;
    let q: u128 = n / (whole as u128);
    let r: u128 = n % (whole as u128);
    proof {
        let a = n as int;
        let b = whole as int;
        assert(0 <= a / b <= a) by (nonlinear_arith)
            requires
                a >= 0,
                b >= 1,
        ;
        vstd::arithmetic::div_mod::lemma_mod_bound(a, b);
    }
    let t: u128 = if 2 * r > whole as u128 || (2 * r == whole as u128 && q % 2 == 1) {
        q + 1
    } else {
        q
    };
    push_decimal(s, t / 10);
    s.push_str(".");
    let d: u8 = (t % 10) as u8;
    s.push((48u8 + d) as char);
    assert(s@ =~= old(s)@ + tenths_text(tenths((part * 100) as nat, whole as nat)));
}

/// The warning that capture could not keep up, where `dropped` frames are a material
/// shortfall next to the `kept` ones.
pub fn dropped_frames_warning(dropped: u64, kept: usize) -> (w: Option<String>)
    requires
        dropped + kept <= u64::MAX,
    ensures
        match w {
            Some(s) => is_shortfall(dropped, kept) && s@ == dropped_text(dropped, kept),
            None => !is_shortfall(dropped, kept),
        },
{
    if dropped == 0 {
        return None;
    }
    let total: u64 = dropped + kept as u64;
    if dropped > DROP_WARN_MIN_FRAMES || (dropped as u128) * 100 > 2 * (total as u128) {
        let mut s = "Capture couldn't keep up, dropped ".to_owned();
        push_decimal(&mut s, dropped as u128);
        s.push_str(" frames (");
        push_percent(&mut s, dropped, total);
        s.push_str("%). Try a smaller region or a less busy disk.");
        Some(s)
    } else {
        None
    }
}

/// Tenths are rounded to the nearest, and to the even of two.
pub proof fn tenths_are_rounded(n: nat, unit: nat)
    requires
        unit > 0,
    ensures
        -(unit as int) <= 2 * (tenths(n, unit) * unit - 10 * n) <= unit,
        2 * (tenths(n, unit) * unit - 10 * n) == unit || 2 * (tenths(n, unit) * unit - 10 * n)
            == -(unit as int) ==> tenths(n, unit) % 2 == 0,
{
    let a = n as int * 10;
    let u = unit as int;
    let q = a / u;
    let r = a % u;
    vstd::arithmetic::div_mod::lemma_fundamental_div_mod(a, u);
    assert(q * u == u * q && (q + 1) * u == u * q + u) by (nonlinear_arith);
}

/// Recording needs two gibibytes, or thirty seconds of raw pixels at thirty frames a second if
/// that is more; below that it is refused. Below five minutes of them it is low, and the whole
/// minutes that fit are told.
pub proof fn space_is_counted_in_seconds(free: u64, w: u32, h: u32)
    requires
        0 < w <= 20_000,
        0 < h <= 20_000,
    ensures
        ({
            let second = w * h * 4 * 30;
            let least = if second * 30 > 2_147_483_648 {
                second * 30
            } else {
                2_147_483_648
            };
            let o = free_space_outcome(free, w, h);
            &&& free < least ==> o == (SpaceOutcome::Blocked {
                free,
                need: least as u64,
                rate: second as u64,
            })
            &&& least <= free < second * 300 ==> (o matches SpaceOutcome::Low { free: f, minutes }
                && f == free && minutes * 60 * second <= free < (minutes + 1) * 60 * second)
            &&& free >= least && free >= second * 300 ==> o is Plenty
        }),
{
    let p = w * h;
    assert(1 <= p <= 400_000_000) by (nonlinear_arith)
        requires
            p == w * h,
            0 < w <= 20_000,
            0 < h <= 20_000,
    ;
    let second = p * 4 * 30;
    assert(write_rate(w, h) == second);
    let f = free as int;
    let s = f / second;
    let m = s / 60;
    assert(s * second <= f < (s + 1) * second) by (nonlinear_arith)
        requires
            s == f / second,
            second >= 1,
    ;
    assert(0 <= s <= f) by (nonlinear_arith)
        requires
            s == f / second,
            second >= 1,
            f >= 0,
    ;
    assert(m * 60 <= s < (m + 1) * 60);
    assert(m * 60 * second <= s * second) by (nonlinear_arith)
        requires
            m * 60 <= s,
            second >= 1,
    ;
    assert((s + 1) * second <= (m + 1) * 60 * second) by (nonlinear_arith)
        requires
            s + 1 <= (m + 1) * 60,
            second >= 1,
    ;
}

/// Dropped frames are worth a warning if they are more than thirty, or more than two in a
/// hundred.
pub proof fn few_drops_are_passed_over(dropped: u64, kept: usize)
    ensures
        dropped == 0 ==> !is_shortfall(dropped, kept),
        dropped > 30 ==> is_shortfall(dropped, kept),
        0 < dropped <= 30 ==> (is_shortfall(dropped, kept) <==> 98 * dropped > 2 * kept),
{
}

/// Texts tell the write rate in whole mebibytes a second, and space in tenths of a gigabyte.
pub proof fn rates_are_told_in_mebibytes(free: u64, need: u64, rate: u64, n: int)
    requires
        n * 1_048_576 <= rate < (n + 1) * 1_048_576,
    ensures
        blocked_text(free, need, rate) == "Not enough disk space to record: only "@ + tenths_text(
            tenths(free as nat, 1_000_000_000),
        ) + " GB free, need at least "@ + tenths_text(tenths(need as nat, 1_000_000_000))
            + " GB. Vuoom records raw video (~"@ + decimal(n as nat)
            + " MB/s at this size), free up space and try again."@,
{
}

} // verus!
