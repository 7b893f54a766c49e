//! GIF planning: which source frames to emit, their presentation times, and how to
//! estimate the output size before committing to a full encode.
//!
//! Rates are thousandths of a frame per second, factors are thousandths, presentation
//! times are nanoseconds.

use vstd::prelude::*;

verus! {

/// One frame selected for the GIF: which source frame it samples and when it shows.
#[derive(Debug, Clone, Copy, PartialEq, Eq, Structural)]
pub struct EmittedFrame {
    /// Index into the source (composited) frame sequence.
    pub source_index: usize,
    /// Presentation time in nanoseconds.
    pub pts: u128,
}

/// A quotient rounded to the nearest whole number, halves up.
pub open spec fn rounded(a: int, b: int) -> int {
    (2 * a + b) / (2 * b)
}

/// The source frame that emitted frame `k` samples.
pub open spec fn source_of(k: int, source_mfps: u32, target_mfps: u32) -> int {
    rounded(k * source_mfps, target_mfps as int)
}

/// When emitted frame `k` shows, rounded down to a nanosecond.
pub open spec fn pts_of(k: int, target_mfps: u32) -> int {
    k * 1_000_000_000_000 / target_mfps as int
}

/// How many frames cover the source at the target rate, at least one.
pub open spec fn planned_count(source_frames: int, source_mfps: u32, target_mfps: u32) -> int {
    let n = (source_frames * target_mfps + source_mfps - 1) / source_mfps as int;
    if n < 1 {
        1
    } else {
        n
    }
}

/// Whether a plan emits frames from the first on, one per target step, until the source is
/// covered or the next one would lie past it.
pub open spec fn is_plan(
    out: Seq<EmittedFrame>,
    source_frames: int,
    source_mfps: u32,
    target_mfps: u32,
) -> bool {
    let count = planned_count(source_frames, source_mfps, target_mfps);
    &&& out.len() <= count
    &&& out.len() == count || source_of(out.len() as int, source_mfps, target_mfps)
        >= source_frames
    &&& forall|k: int|
        0 <= k < out.len() ==> {
            &&& (#[trigger] out[k]).source_index == source_of(k, source_mfps, target_mfps)
            &&& out[k].pts == pts_of(k, target_mfps)
            &&& out[k].source_index < source_frames
        }
}

/// A scaled quotient can be taken of quotient and remainder apart.
proof fn lemma_scaled_quotient(k: int, c: int, t: int)
    requires
        t > 0,
    ensures
        k * c / t == k / t * c + k % t * c / t,
{
    vstd::arithmetic::div_mod::lemma_fundamental_div_mod(k, t);
    let q = k / t;
    let r = k % t;
    assert(k * c == r * c + (q * c) * t) by (nonlinear_arith)
        requires
            k == t * q + r,
    ;
    vstd::arithmetic::div_mod::lemma_hoist_over_denominator(r * c, q * c, t as nat);
}

/// Select source frames to hit a target rate from a sequence of `source_frames` frames.
/// Never emits past the source; presentation times are on the emitted timeline. No source
/// and no rate mean no frames.
pub fn plan_frames(source_frames: usize, source_mfps: u32, target_mfps: u32) -> (out: Vec<
    EmittedFrame,
>)
    ensures
        source_frames == 0 || source_mfps == 0 || target_mfps == 0 ==> out@.len() == 0,
        source_frames > 0 && source_mfps > 0 && target_mfps > 0 ==> is_plan(
            out@,
            source_frames as int,
            source_mfps,
            target_mfps,
        ),
{
    let mut out: Vec<EmittedFrame> = Vec::new();
    if source_frames == 0 || source_mfps == 0 || target_mfps == 0 {
        return out;
    }
    let ghost n = source_frames * target_mfps;
    let ghost s = source_mfps as int;
    let ghost t = target_mfps as int;
    proof {
        assert(1 <= n <= 0xffff_ffff_ffff_ffff * 0xffff_ffff) by (nonlinear_arith)
            requires
                0 < source_frames <= 0xffff_ffff_ffff_ffff,
                0 < target_mfps <= 0xffff_ffff,
                n == source_frames * target_mfps,
        ;
        assert(0 <= (n + s - 1) / s <= n) by (nonlinear_arith)
            requires
                n >= 1,
                s >= 1,
        ;
    }
    let raw: u128 = ((source_frames as u128) * (target_mfps as u128) + source_mfps as u128 - 1)
        / source_mfps as u128;
    let count: u128 = if raw < 1 {
        1
    } else {
        raw
    };
    let mut k: u128 = 0;
    while k < count
        invariant
            source_frames > 0,
            source_mfps > 0,
            target_mfps > 0,
            n == source_frames * target_mfps,
            0 <= n <= 0xffff_ffff_ffff_ffff * 0xffff_ffff,
            s == source_mfps,
            t == target_mfps,
            count == planned_count(source_frames as int, source_mfps, target_mfps),
            k <= count,
            out@.len() == k,
            forall|j: int|
                0 <= j < k ==> {
                    &&& (#[trigger] out@[j]).source_index == source_of(j, source_mfps, target_mfps)
                    &&& out@[j].pts == pts_of(j, target_mfps)
                    &&& out@[j].source_index < source_frames
                },
        decreases count - k,
    {
        proof {
            let c = (n + s - 1) / s;
            assert(k * s <= n) by (nonlinear_arith)
                requires
                    k < c || k == 0,
                    c == (n + s - 1) / s,
                    s >= 1,
                    n >= 0,
            ;
            assert(0 <= k * s) by (nonlinear_arith)
                requires
                    k >= 0,
                    s >= 1,
            ;
            assert(k <= n) by (nonlinear_arith)
                requires
                    k * s <= n,
                    s >= 1,
                    k >= 0,
            ;
            assert(0 <= k as int / t <= 0xffff_ffff_ffff_ffff) by (nonlinear_arith)
                requires
                    0 <= k <= n,
                    n == source_frames * t,
                    source_frames <= 0xffff_ffff_ffff_ffff,
                    t >= 1,
            ;
            lemma_scaled_quotient(k as int, 1_000_000_000_000, t);
            let r = k as int % t;
            assert(0 <= r * 1_000_000_000_000 / t <= r * 1_000_000_000_000) by (nonlinear_arith)
                requires
                    r >= 0,
                    t >= 1,
            ;
        }
        let m: u128 = target_mfps as u128;
        let idx: u128 = (2 * (k * (source_mfps as u128)) + m) / (2 * m);
        if idx >= source_frames as u128 {
            return out;
        }
        let pts: u128 = k / m * 1_000_000_000_000 + k % m * 1_000_000_000_000 / m;
        out.push(EmittedFrame { source_index: idx as usize, pts });
        k += 1;
    }
    out
}

/// A factor of at least one, in thousandths.
pub open spec fn at_least_one(factor: u32) -> int {
    if factor < 1000 {
        1000
    } else {
        factor as int
    }
}

/// The `u64` nearest to a size.
pub open spec fn as_size(n: int) -> int {
    if n > u64::MAX {
        u64::MAX as int
    } else {
        n
    }
}

/// Add two numbers below `d`: whether the sum reaches `d`, and how far it lies above that.
fn add_below(a: u128, b: u128, d: u128) -> (r: (u64, u128))
    requires
        a < d,
        b < d,
    ensures
        r.0 * d + r.1 == a + b,
        r.0 <= 1,
        r.1 < d,
{
    if a >= d - b {
        (1, a - (d - b))
    } else {
        (0, a + b)
    }
}

/// The quotient and remainder of `a * b` by `d`, for `a` below `d`. The product itself may
/// need more than 128 bits.
fn product_by(a: u128, b: u64, d: u128) -> (r: (u64, u128))
    requires
        a < d,
    ensures
        r.0 * d + r.1 == a * b,
        r.0 <= b,
        r.1 < d,
    decreases b,
{
    if b == 0 {
        assert(a * 0 == 0 && 0 * d == 0);
        return (0, 0);
    }
    let (half, left) = product_by(a, b / 2, d);
    let (twice, even) = add_below(left, left, d);
    let (once, rest) = if b % 2 == 1 {
        add_below(even, a, d)
    } else {
        assert(0 * d == 0);
        (0, even)
    };
    proof {
        let q = 2 * half + twice + once;
        let h = b as int / 2;
        let odd = b as int % 2;
        assert(q * d + rest == a * b) by (nonlinear_arith)
            requires
                q == 2 * half + twice + once,
                half * d + left == a * h,
                twice * d + even == left + left,
                once * d + rest == even + odd * a,
                b == 2 * h + odd,
        ;
        assert(q <= b) by (nonlinear_arith)
            requires
                q * d + rest == a * b,
                a < d,
                rest >= 0,
                b >= 0,
                d > 0,
        ;
    }
    (2 * half + twice + once, rest)
}

/// A size of `whole` and `part` of a `unit`, times a factor in thousandths, rounded.
fn scaled_size(whole: u128, part: u128, unit: u128, motion: u32) -> (r: u64)
    requires
        part < unit,
        motion >= 1000,
    ensures
        r == as_size(rounded((whole * unit + part) * motion, unit * 1000)),
{
    let twice: u64 = 2 * (motion as u64);
    let (q, rest) = product_by(part, twice, unit);
    proof {
        let w = whole as int;
        let u = unit as int;
        let m = motion as int;
        let x = 2 * m * w + q + 1000;
        let n = 2 * ((w * u + part) * m) + u * 1000;
        assert(n == x * u + rest) by (nonlinear_arith)
            requires
                n == 2 * ((w * u + part) * m) + u * 1000,
                x == 2 * m * w + q + 1000,
                q * u + rest == part * (2 * m),
        ;
        vstd::arithmetic::div_mod::lemma_fundamental_div_mod_converse(n, u, x, rest as int);
        assert(x >= 2000 * w) by (nonlinear_arith)
            requires
                x == 2 * m * w + q + 1000,
                m >= 1000,
                w >= 0,
                q >= 0,
        ;
        assert(n >= 0) by (nonlinear_arith)
            requires
                n == x * u + rest,
                x >= 0,
                u > 0,
                rest >= 0,
        ;
        vstd::arithmetic::div_mod::lemma_div_denominator(n, u, 2000);
        assert(2 * (u * 1000) == u * 2000);
        assert(rounded((w * u + part) * m, u * 1000) == x / 2000);
    }
    if whole > u64::MAX as u128 {
        return u64::MAX;
    }
    proof {
        let w = whole as int;
        let t = twice as int;
        assert(0 <= t * w <= 0x1_ffff_fffe * 0xffff_ffff_ffff_ffff) by (nonlinear_arith)
            requires
                0 <= t <= 0x1_ffff_fffe,
                0 <= w <= 0xffff_ffff_ffff_ffff,
        ;
        assert(2 * motion as int * w == t * w);
    }
    let size: u128 = ((twice as u128) * whole + q as u128 + 1000) / 2000;
    if size > u64::MAX as u128 {
        u64::MAX
    } else {
        size as u64
    }
}

/// The factor, at least one.
fn no_less_than_one(factor: u32) -> (f: u32)
    ensures
        f == at_least_one(factor),
{
    if factor < 1000 {
        1000
    } else {
        factor
    }
}

/// Estimate total GIF size by extrapolating from an encoded sample.
///
/// There is no closed-form size formula, so a representative sample is encoded and scaled
/// linearly by frame count, nudged up by a motion factor (in thousandths, at least one;
/// higher = more inter-frame change).
pub fn estimate_total_bytes(
    sample_bytes: u64,
    sample_frames: usize,
    total_frames: usize,
    motion_factor: u32,
) -> (bytes: u64)
    ensures
        bytes == (if sample_frames == 0 || total_frames == 0 {
            0
        } else {
            as_size(
                rounded(
                    sample_bytes * total_frames * at_least_one(motion_factor),
                    sample_frames * 1000,
                ),
            )
        }),
{
    if sample_frames == 0 || total_frames == 0 {
        return 0;
    }
    proof {
        assert(0 <= sample_bytes * total_frames <= 0xffff_ffff_ffff_ffff * 0xffff_ffff_ffff_ffff)
            by (nonlinear_arith)
            requires
                0 <= sample_bytes <= 0xffff_ffff_ffff_ffff,
                0 <= total_frames <= 0xffff_ffff_ffff_ffff,
        ;
    }
    let all: u128 = (sample_bytes as u128) * (total_frames as u128);
    let unit: u128 = sample_frames as u128;
    proof {
        vstd::arithmetic::div_mod::lemma_fundamental_div_mod(all as int, unit as int);
        vstd::arithmetic::mul::lemma_mul_is_commutative(unit as int, all as int / unit as int);
    }
    scaled_size(all / unit, all % unit, unit, no_less_than_one(motion_factor))
}

/// What the deltas of a window cost. A window is its encoded size, the size of a one-frame
/// encode of its first frame, and how many frames it holds.
pub open spec fn delta_cost(w: (u64, u64, usize)) -> int {
    if w.2 > 1 && w.0 > w.1 {
        w.0 - w.1
    } else {
        0
    }
}

/// How many deltas a window holds.
pub open spec fn delta_count(w: (u64, u64, usize)) -> int {
    if w.2 > 1 {
        w.2 - 1
    } else {
        0
    }
}

/// How many of the windows hold frames.
pub open spec fn filled(ws: Seq<(u64, u64, usize)>) -> int
    decreases ws.len(),
{
    if ws.len() == 0 {
        0
    } else {
        filled(ws.drop_last()) + (if ws.last().2 > 0 {
            1int
        } else {
            0
        })
    }
}

/// Size of the first frames of the windows that hold frames.
pub open spec fn key_total(ws: Seq<(u64, u64, usize)>) -> int
    decreases ws.len(),
{
    if ws.len() == 0 {
        0
    } else {
        key_total(ws.drop_last()) + (if ws.last().2 > 0 {
            ws.last().1 as int
        } else {
            0
        })
    }
}

/// Size of all deltas.
pub open spec fn delta_total(ws: Seq<(u64, u64, usize)>) -> int
    decreases ws.len(),
{
    if ws.len() == 0 {
        0
    } else {
        delta_total(ws.drop_last()) + delta_cost(ws.last())
    }
}

/// Number of all deltas.
pub open spec fn delta_frames(ws: Seq<(u64, u64, usize)>) -> int
    decreases ws.len(),
{
    if ws.len() == 0 {
        0
    } else {
        delta_frames(ws.drop_last()) + delta_count(ws.last())
    }
}

/// The estimate: an average first frame plus an average delta for every further frame,
/// times the motion factor, rounded. Without deltas only the first frame counts.
pub open spec fn delta_estimate(ws: Seq<(u64, u64, usize)>, total_frames: int, motion: int) -> int {
    let keys = filled(ws);
    let deltas = delta_frames(ws);
    if total_frames == 0 || keys == 0 {
        0
    } else if deltas == 0 {
        as_size(rounded(key_total(ws) * motion, keys * 1000))
    } else {
        as_size(
            rounded(
                (key_total(ws) * deltas + delta_total(ws) * (total_frames - 1) * keys) * motion,
                keys * deltas * 1000,
            ),
        )
    }
}

/// A size above the largest is the largest.
proof fn lemma_size_is_full(whole: int, part: int, unit: int, motion: int)
    requires
        whole > u64::MAX,
        part >= 0,
        unit > 0,
        motion >= 1000,
    ensures
        as_size(rounded((whole * unit + part) * motion, unit * 1000)) == u64::MAX,
{
    let n = 2 * ((whole * unit + part) * motion) + unit * 1000;
    let d = 2 * (unit * 1000);
    assert(n >= whole * d) by (nonlinear_arith)
        requires
            n == 2 * ((whole * unit + part) * motion) + unit * 1000,
            d == 2 * (unit * 1000),
            whole > 0,
            part >= 0,
            unit > 0,
            motion >= 1000,
    ;
    vstd::arithmetic::div_mod::lemma_div_is_ordered(whole * d, n, d);
    vstd::arithmetic::div_mod::lemma_div_by_multiple(whole, d);
}

/// Two averages over one unit: `k / n + e * r / d`.
proof fn lemma_common_unit(
    k: int,
    n: int,
    e: int,
    r: int,
    d: int,
    k1: int,
    kr: int,
    x: int,
    xr: int,
)
    requires
        k == k1 * n + kr,
        e * r == x * d + xr,
    ensures
        k * d + e * r * n == (k1 + x) * (n * d) + (kr * d + xr * n),
{
    assert(k * d == k1 * (n * d) + kr * d) by (nonlinear_arith)
        requires
            k == k1 * n + kr,
    ;
    let y = e * r;
    assert(y * n == x * (n * d) + xr * n) by (nonlinear_arith)
        requires
            y == x * d + xr,
    ;
    assert((k1 + x) * (n * d) == k1 * (n * d) + x * (n * d)) by (nonlinear_arith);
}

/// A product of numbers that fit 64 bits fits 128.
proof fn lemma_product_fits(a: int, b: int)
    requires
        0 <= a <= u64::MAX,
        0 <= b <= u64::MAX,
    ensures
        0 <= a * b <= u128::MAX,
{
    assert(0 <= a * b <= 0xffff_ffff_ffff_ffff * 0xffff_ffff_ffff_ffff) by (nonlinear_arith)
        requires
            0 <= a <= 0xffff_ffff_ffff_ffff,
            0 <= b <= 0xffff_ffff_ffff_ffff,
    ;
}

/// Estimate the total size of a delta-encoded GIF from contiguous sample windows.
///
/// The encoder writes one full keyframe and then per-frame delta rectangles, so the size is
/// a keyframe plus a delta for each further frame; extrapolating raw window bytes linearly
/// would count the window's keyframe once per window-length and badly overestimate. Each
/// window is its encoded size, the size of a one-frame encode of its first frame, and its
/// number of frames.
pub fn estimate_delta_total_bytes(
    windows: &[(u64, u64, usize)],
    total_frames: usize,
    motion_factor: u32,
) -> (bytes: u64)
    requires
        delta_frames(windows@) <= usize::MAX,
    ensures
        bytes == delta_estimate(windows@, total_frames as int, at_least_one(motion_factor)),
{
    let mut key_bytes: u128 = 0;
    let mut keys: u128 = 0;
    let mut delta_bytes: u128 = 0;
    let mut deltas: u128 = 0;
    let mut i: usize = 0;
    assert(windows@.take(0) =~= Seq::<(u64, u64, usize)>::empty());
    while i < windows.len()
        invariant
            i <= windows@.len(),
            keys == filled(windows@.take(i as int)),
            key_bytes == key_total(windows@.take(i as int)),
            delta_bytes == delta_total(windows@.take(i as int)),
            deltas == delta_frames(windows@.take(i as int)),
            keys <= i,
            key_bytes <= i * 0xffff_ffff_ffff_ffff,
            delta_bytes <= i * 0xffff_ffff_ffff_ffff,
            deltas <= i * 0xffff_ffff_ffff_ffff,
        decreases windows@.len() - i,
    {
        let (bytes, first, frames): (u64, u64, usize) = windows[i];
        proof {
            let upto = windows@.take(i + 1);
            assert(upto.drop_last() =~= windows@.take(i as int));
            assert(upto.last() == windows@[i as int]);
        }
        if frames > 0 {
            key_bytes += first as u128;
            keys += 1;
            if frames > 1 {
                if bytes > first {
                    delta_bytes += (bytes - first) as u128;
                }
                deltas += (frames - 1) as u128;
            }
        }
        i += 1;
    }
    assert(windows@.take(i as int) =~= windows@);
    if total_frames == 0 || keys == 0 {
        return 0;
    }
    let motion: u32 = no_less_than_one(motion_factor);
    let whole_keys: u128 = key_bytes / keys;
    let part_keys: u128 = key_bytes % keys;
    proof {
        vstd::arithmetic::div_mod::lemma_fundamental_div_mod(key_bytes as int, keys as int);
        vstd::arithmetic::mul::lemma_mul_is_commutative(keys as int, whole_keys as int);
    }
    if deltas == 0 {
        return scaled_size(whole_keys, part_keys, keys, motion);
    }
    let rest: u128 = (total_frames - 1) as u128;
    let each: u128 = delta_bytes / deltas;
    let over: u128 = delta_bytes % deltas;
    let ghost unit = keys * deltas;
    proof {
        vstd::arithmetic::div_mod::lemma_fundamental_div_mod(delta_bytes as int, deltas as int);
        lemma_product_fits(over as int, rest as int);
        lemma_product_fits(keys as int, deltas as int);
        assert(unit > 0) by (nonlinear_arith)
            requires
                unit == keys * deltas,
                keys > 0,
                deltas > 0,
        ;
    }
    let spread: u128 = over * rest;
    let part_deltas: u128 = spread % deltas;
    let ghost x = each * rest + spread as int / deltas as int;
    proof {
        let d = deltas as int;
        let r = rest as int;
        let o = over as int;
        let y = spread as int / d;
        vstd::arithmetic::div_mod::lemma_fundamental_div_mod(spread as int, d);
        assert(delta_bytes * r == x * d + part_deltas) by (nonlinear_arith)
            requires
                delta_bytes == d * each + o,
                spread == o * r,
                spread == d * y + part_deltas,
                x == each * r + y,
        ;
        lemma_common_unit(
            key_bytes as int,
            keys as int,
            delta_bytes as int,
            r,
            d,
            whole_keys as int,
            part_keys as int,
            x,
            part_deltas as int,
        );
        assert(0 <= part_keys * d < unit && 0 <= part_deltas * keys < unit) by (nonlinear_arith)
            requires
                unit == keys * d,
                0 <= part_keys < keys,
                0 <= part_deltas < d,
                keys > 0,
                d > 0,
        ;
    }
    let (carry, part): (u64, u128) = add_below(
        part_keys * deltas,
        part_deltas * keys,
        keys * deltas,
    );
    let ghost whole = whole_keys + x + carry;
    proof {
        assert(key_bytes * deltas + delta_bytes * rest * keys == whole * unit + part)
            by (nonlinear_arith)
            requires
                key_bytes * deltas + delta_bytes * rest * keys == (whole_keys + x) * unit + (
                part_keys * deltas + part_deltas * keys),
                carry * unit + part == part_keys * deltas + part_deltas * keys,
                whole == whole_keys + x + carry,
        ;
        assert(each * rest >= 0) by (nonlinear_arith)
            requires
                each >= 0,
                rest >= 0,
        ;
        vstd::arithmetic::div_mod::lemma_div_pos_is_pos(spread as int, deltas as int);
        if whole > u64::MAX {
            lemma_size_is_full(whole, part as int, unit, motion as int);
        }
    }
    if whole_keys > u64::MAX as u128 {
        return u64::MAX;
    }
    if rest > 0 && each > u64::MAX as u128 {
        assert(each * rest >= each) by (nonlinear_arith)
            requires
                each >= 0,
                rest >= 1,
        ;
        return u64::MAX;
    }
    let further: u128 = if rest == 0 {
        assert(each * 0 == 0);
        0
    } else {
        proof {
            lemma_product_fits(each as int, rest as int);
        }
        each * rest
    };
    if further > u64::MAX as u128 || spread / deltas > u64::MAX as u128 {
        return u64::MAX;
    }
    scaled_size(
        whole_keys + further + spread / deltas + carry as u128,
        part,
        keys * deltas,
        motion,
    )
}

/// A plan shows the source at a steady rate: frame `k` is due after `k` target frames, rounded
/// down to a nanosecond, and shows a source frame that is no farther from that instant than
/// half a target frame's worth of source.
pub proof fn plans_show_the_nearest_frame(
    out: Seq<EmittedFrame>,
    source_frames: int,
    source_mfps: u32,
    target_mfps: u32,
    k: int,
)
    requires
        is_plan(out, source_frames, source_mfps, target_mfps),
        source_frames > 0,
        source_mfps > 0,
        target_mfps > 0,
        0 <= k < out.len(),
    ensures
        0 <= out[k].source_index < source_frames,
        -(target_mfps as int) <= 2 * (out[k].source_index * target_mfps - k * source_mfps)
            <= target_mfps,
        out[k].pts * target_mfps <= k * 1_000_000_000_000 < (out[k].pts + 1) * target_mfps,
{
    let d = target_mfps as int;
    let a = k * source_mfps;
    lemma_rounded(a, d);
    let n = k * 1_000_000_000_000;
    let q = n / d;
    assert(q * d <= n < (q + 1) * d) by (nonlinear_arith)
        requires
            q == n / d,
            d > 0,
    ;
}

/// A plan goes on as long as the source does.
pub proof fn plans_cover_the_source(
    out: Seq<EmittedFrame>,
    source_frames: int,
    source_mfps: u32,
    target_mfps: u32,
)
    requires
        is_plan(out, source_frames, source_mfps, target_mfps),
        source_frames > 0,
        source_mfps > 0,
        target_mfps > 0,
    ensures
        2 * (out.len() * source_mfps) + target_mfps >= 2 * (source_frames * target_mfps),
        out.len() <= 1 || (out.len() - 1) * source_mfps < source_frames * target_mfps,
{
    let n = out.len() as int;
    let s = source_mfps as int;
    let d = target_mfps as int;
    let total = source_frames * d;
    let c = (total + s - 1) / s;
    assert(c * s >= total && (c - 1) * s < total) by (nonlinear_arith)
        requires
            c == (total + s - 1) / s,
            s > 0,
    ;
    let count = planned_count(source_frames, source_mfps, target_mfps);
    assert(count * s >= total) by (nonlinear_arith)
        requires
            count >= c,
            c * s >= total,
            s > 0,
    ;
    if n > 1 {
        assert((n - 1) * s <= (c - 1) * s) by (nonlinear_arith)
            requires
                n <= c,
                s > 0,
        ;
    }
    if n != count {
        let a = n * s;
        lemma_rounded(a, d);
        let q = rounded(a, d);
        assert(q * d >= total) by (nonlinear_arith)
            requires
                q >= source_frames,
                total == source_frames * d,
                d > 0,
        ;
    }
}

/// Rounding is off by half at most.
proof fn lemma_rounded(a: int, b: int)
    requires
        b > 0,
    ensures
        -b <= 2 * (rounded(a, b) * b - a) <= b,
{
    let q = rounded(a, b);
    assert(-b <= 2 * (q * b - a) <= b) by (nonlinear_arith)
        requires
            q == (2 * a + b) / (2 * b),
            b > 0,
    ;
}

/// An estimate from a sample is in proportion: the bytes of a frame of the sample, times the
/// frames and the motion (a motion below one counts as one), rounded. A sample of the whole
/// clip is its own estimate.
pub proof fn estimates_are_in_proportion(
    sample_bytes: u64,
    sample_frames: usize,
    total_frames: usize,
    motion: u32,
)
    requires
        sample_frames > 0,
        total_frames > 0,
        sample_bytes * total_frames * at_least_one(motion) < u64::MAX,
    ensures
        ({
            let n = sample_frames * 1000;
            let due = sample_bytes * total_frames * (if motion < 1000 {
                1000
            } else {
                motion as int
            });
            let r = as_size(
                rounded(
                    sample_bytes * total_frames * at_least_one(motion),
                    sample_frames * 1000,
                ),
            );
            &&& -n <= 2 * (r * n - due) <= n
            &&& sample_frames == total_frames && motion <= 1000 ==> r == sample_bytes
        }),
{
    let n = sample_frames * 1000;
    let due = sample_bytes * total_frames * at_least_one(motion);
    lemma_rounded(due, n);
    let q = rounded(due, n);
    let m = at_least_one(motion);
    let st = sample_bytes * total_frames;
    assert(st >= 0) by (nonlinear_arith)
        requires
            st == sample_bytes * total_frames,
    ;
    assert(due >= 0) by (nonlinear_arith)
        requires
            due == st * m,
            st >= 0,
            m >= 0,
    ;
    assert(q <= due) by (nonlinear_arith)
        requires
            q == (2 * due + n) / (2 * n),
            n >= 1000,
            due >= 0,
    ;
    if sample_frames == total_frames && motion <= 1000 {
        assert(due == sample_bytes * n) by (nonlinear_arith)
            requires
                due == sample_bytes * sample_frames * 1000,
                n == sample_frames * 1000,
        ;
        assert(q == sample_bytes) by (nonlinear_arith)
            requires
                q == (2 * due + n) / (2 * n),
                due == sample_bytes * n,
                n > 0,
        ;
    }
}

/// Totals over equal windows.
proof fn lemma_equal_windows(ws: Seq<(u64, u64, usize)>, w: (u64, u64, usize))
    requires
        forall|i: int| 0 <= i < ws.len() ==> #[trigger] ws[i] == w,
        w.2 >= 1,
        w.0 >= w.1,
        w.2 == 1 ==> w.0 == w.1,
    ensures
        filled(ws) == ws.len(),
        key_total(ws) == ws.len() * w.1,
        delta_total(ws) == ws.len() * (w.0 - w.1),
        delta_frames(ws) == ws.len() * (w.2 - 1),
    decreases ws.len(),
{
    let n = ws.len() as int;
    if n > 0 {
        let rest = ws.drop_last();
        assert forall|i: int| 0 <= i < rest.len() implies #[trigger] rest[i] == w by {
            assert(rest[i] == ws[i]);
        }
        lemma_equal_windows(rest, w);
        assert(ws.last() == ws[n - 1]);
        assert(n * w.1 == (n - 1) * w.1 + w.1 && n * (w.0 - w.1) == (n - 1) * (w.0 - w.1) + (w.0
            - w.1) && n * (w.2 - 1) == (n - 1) * (w.2 - 1) + (w.2 - 1)) by (nonlinear_arith);
    } else {
        assert(0 * w.1 == 0 && 0 * (w.0 - w.1) == 0 && 0 * (w.2 - 1) == 0) by (nonlinear_arith);
    }
}

/// Whatever the number of samples, when each takes as many bytes, for its first frame and for
/// all its frames, the clip is estimated at one first frame, and for each other frame at what
/// one more frame of a sample takes, times the motion, rounded.
pub proof fn delta_estimates_are_in_proportion(
    ws: Seq<(u64, u64, usize)>,
    w: (u64, u64, usize),
    total_frames: int,
    motion: int,
)
    requires
        ws.len() > 0,
        forall|i: int| 0 <= i < ws.len() ==> #[trigger] ws[i] == w,
        w.2 >= 2,
        w.0 >= w.1,
        total_frames > 0,
        motion >= 1000,
        delta_estimate(ws, total_frames, motion) < u64::MAX,
    ensures
        ({
            let r = delta_estimate(ws, total_frames, motion);
            let n = (w.2 - 1) * 1000;
            let due = (w.1 * (w.2 - 1) + (w.0 - w.1) * (total_frames - 1)) * motion;
            &&& -n <= 2 * (r * n - due) <= n
            &&& total_frames == w.2 && motion == 1000 ==> r == w.0
        }),
{
    lemma_equal_windows(ws, w);
    let m = ws.len() as int;
    let key = w.1 as int;
    let rest = w.0 - w.1;
    let k = w.2 - 1;
    let f = total_frames - 1;
    let num = (m * key * (m * k) + m * rest * f * m) * motion;
    let den = m * (m * k) * 1000;
    let due = (key * k + rest * f) * motion;
    let n = k * 1000;
    let mm = m * m;
    assert(m * k > 0) by (nonlinear_arith)
        requires
            m > 0,
            k > 0,
    ;
    assert(mm > 0) by (nonlinear_arith)
        requires
            mm == m * m,
            m > 0,
    ;
    assert(m * key * (m * k) == mm * (key * k)) by (nonlinear_arith)
        requires
            mm == m * m,
    ;
    assert(m * rest * f * m == mm * (rest * f)) by (nonlinear_arith)
        requires
            mm == m * m,
    ;
    let u = key * k;
    let v = rest * f;
    assert((mm * u + mm * v) * motion == mm * ((u + v) * motion)) by (nonlinear_arith);
    assert(num == mm * due);
    assert(den == mm * n) by (nonlinear_arith)
        requires
            mm == m * m,
            den == m * (m * k) * 1000,
            n == k * 1000,
    ;
    assert(den > 0) by (nonlinear_arith)
        requires
            den == mm * n,
            mm > 0,
            n > 0,
    ;
    let q = rounded(num, den);
    assert(delta_estimate(ws, total_frames, motion) == as_size(q));
    lemma_rounded(num, den);
    assert(-n <= 2 * (q * n - due) <= n) by (nonlinear_arith)
        requires
            -den <= 2 * (q * den - num) <= den,
            den == mm * n,
            num == mm * due,
            mm > 0,
    ;
    if total_frames == w.2 && motion == 1000 {
        assert(due == w.0 * n) by (nonlinear_arith)
            requires
                due == (key * k + rest * k) * 1000,
                n == k * 1000,
                key + rest == w.0,
        ;
        assert(q == w.0) by (nonlinear_arith)
            requires
                -n <= 2 * (q * n - due) <= n,
                due == w.0 * n,
                n > 0,
        ;
    }
}

} // verus!
