//! Annotation timing: when an element is visible, and its fade in and out.

use crate::units::{floor_div, lesser, BILLION};
use vstd::prelude::*;

verus! {

/// A visible time window with optional fades, in nanoseconds.
#[derive(Debug, Clone, Copy, PartialEq, Eq, Structural)]
pub struct TimeRange {
    /// Appears at `start`.
    pub start: i64,
    /// Disappears at `end`.
    pub end: i64,
    /// Fade-in duration; zero = hard cut on.
    pub fade_in: i64,
    /// Fade-out duration; zero = hard cut off.
    pub fade_out: i64,
}

impl TimeRange {
    /// Whether a time lies in the window.
    pub open spec fn shows(self, t: i64) -> bool {
        self.start <= t < self.end
    }

    /// How far the fade-in has come, in billionths; all of it without a fade or after it.
    pub open spec fn faded_in(self, t: i64) -> int {
        if self.fade_in > 0 && t < self.start + self.fade_in {
            (t - self.start) * BILLION / self.fade_in as int
        } else {
            BILLION as int
        }
    }

    /// How much the fade-out has left, in billionths; all of it without a fade or before
    /// it.
    pub open spec fn left_of_fade_out(self, t: i64) -> int {
        if self.fade_out > 0 && t > self.end - self.fade_out {
            (self.end - t) * BILLION / self.fade_out as int
        } else {
            BILLION as int
        }
    }

    /// Opacity at a time, in billionths: none outside the window, inside it what both
    /// fades allow.
    pub open spec fn opacity(self, t: i64) -> int {
        if self.shows(t) {
            lesser(self.faded_in(t), self.left_of_fade_out(t))
        } else {
            0
        }
    }

    /// A window with no fades.
    pub fn new(start: i64, end: i64) -> (r: Self)
        ensures
            r == (TimeRange { start, end, fade_in: 0, fade_out: 0 }),
    {
        TimeRange { start, end, fade_in: 0, fade_out: 0 }
    }

    /// A window with equal fade-in and fade-out.
    pub fn with_fade(start: i64, end: i64, fade: i64) -> (r: Self)
        ensures
            r == (TimeRange { start, end, fade_in: fade, fade_out: fade }),
    {
        TimeRange { start, end, fade_in: fade, fade_out: fade }
    }

    /// Whether `t` is within the visible window.
    pub fn contains(&self, t: i64) -> (r: bool)
        ensures
            r == self.shows(t),
    {
        self.start <= t && t < self.end
    }

    /// Opacity at time `t` in billionths, accounting for fades.
    pub fn opacity_at(&self, t: i64) -> (o: i64)
        ensures
            o == self.opacity(t),
            0 <= o <= BILLION,
    {
        proof {
            opacity_is_bounded(*self, t);
        }
        if !self.contains(t) {
            return 0;
        }
        let mut o: i128 = 1_000_000_000;
        if self.fade_in > 0 && (t as i128) < self.start as i128 + self.fade_in as i128 {
            o = floor_div((t as i128 - self.start as i128) * 1_000_000_000, self.fade_in as i128);
        }
        assert(o == self.faded_in(t));
        if self.fade_out > 0 && t as i128 > self.end as i128 - self.fade_out as i128 {
            let left: i128 = floor_div(
                (self.end as i128 - t as i128) * 1_000_000_000,
                self.fade_out as i128,
            );
            assert(left == self.left_of_fade_out(t));
            if left < o {
                o = left;
            }
        }
        assert(o == self.opacity(t));
        o as i64
    }
}

/// Opacity lies between none and full.
pub proof fn opacity_is_bounded(r: TimeRange, t: i64)
    ensures
        0 <= r.opacity(t) <= BILLION,
        r.shows(t) ==> r.faded_in(t) <= BILLION && r.left_of_fade_out(t) <= BILLION,
        !r.shows(t) ==> r.opacity(t) == 0,
        r.shows(t) && r.fade_in <= 0 && r.fade_out <= 0 ==> r.opacity(t) == BILLION,
{
    if r.shows(t) {
        if r.fade_in > 0 && t < r.start + r.fade_in {
            let a = t - r.start;
            let f = r.fade_in as int;
            assert(0 <= a * 1_000_000_000 / f <= 1_000_000_000) by (nonlinear_arith)
                requires
                    0 <= a <= f,
                    f > 0,
            ;
        }
        if r.fade_out > 0 && t > r.end - r.fade_out {
            let a = r.end - t;
            let f = r.fade_out as int;
            assert(0 <= a * 1_000_000_000 / f <= 1_000_000_000) by (nonlinear_arith)
                requires
                    0 <= a <= f,
                    f > 0,
            ;
        }
    }
}

/// What has a time window is fully shown between its fades, comes in at a steady pace from
/// its start, goes out at a steady pace to its end, rounded down, and is not shown outside.
/// Where the fades overlap, the fainter one tells.
pub proof fn windows_fade_in_and_out(r: TimeRange, t: i64)
    ensures
        ({
            let o = r.opacity(t);
            let coming = r.fade_in > 0 && t < r.start + r.fade_in;
            let going = r.fade_out > 0 && t > r.end - r.fade_out;
            &&& t < r.start || t >= r.end ==> o == 0
            &&& r.start <= t < r.end && !coming && !going ==> o == BILLION
            &&& r.start <= t < r.end && coming ==> o * r.fade_in <= (t - r.start) * BILLION
            &&& r.start <= t < r.end && going ==> o * r.fade_out <= (r.end - t) * BILLION
            &&& r.start <= t < r.end && (coming || going) ==> (coming && (t - r.start) * BILLION
                < (o + 1) * r.fade_in) || (going && (r.end - t) * BILLION < (o + 1) * r.fade_out)
        }),
{
    let a = (t - r.start) * BILLION;
    let b = (r.end - t) * BILLION;
    let f = r.fade_in as int;
    let g = r.fade_out as int;
    let o = r.opacity(t);
    opacity_is_bounded(r, t);
    if r.shows(t) {
        if f > 0 && t < r.start + f {
            let q = a / f;
            vstd::arithmetic::div_mod::lemma_fundamental_div_mod(a, f);
            assert(q * f <= a < (q + 1) * f) by (nonlinear_arith)
                requires
                    a == f * q + a % f,
                    0 <= a % f < f,
            ;
            assert(o * f <= q * f) by (nonlinear_arith)
                requires
                    o <= q,
                    f > 0,
            ;
        }
        if g > 0 && t > r.end - g {
            let q = b / g;
            vstd::arithmetic::div_mod::lemma_fundamental_div_mod(b, g);
            assert(q * g <= b < (q + 1) * g) by (nonlinear_arith)
                requires
                    b == g * q + b % g,
                    0 <= b % g < g,
            ;
            assert(o * g <= q * g) by (nonlinear_arith)
                requires
                    o <= q,
                    g > 0,
            ;
        }
    }
}

} // verus!
