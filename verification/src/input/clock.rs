//! The master clock: a performance counter of a fixed frequency.
//!
//! One counter axis is shared by input events and captured frames so auto-zoom lands on
//! the right frame. The frequency is read once and cached.

use crate::units::{floor_div, saturate, saturated, BILLION};
use vstd::prelude::*;

verus! {

/// A cached counter frequency.
#[derive(Debug, Clone, Copy)]
pub struct Clock {
    freq: i64,
}

/// A frequency that can divide: zero counts as one tick per second.
pub open spec fn usable_freq(raw: i64) -> i64 {
    if raw == 0 {
        1
    } else {
        raw
    }
}

/// Nanoseconds that a number of ticks lasts, rounded down; a frequency below one counts as
/// one.
pub open spec fn ticks_to_nanos(ticks: int, freq: i64) -> i64 {
    let f = if freq < 1 {
        1
    } else {
        freq as int
    };
    saturated(ticks * BILLION / f)
}

/// Convert the ticks from `start` to `end` into nanoseconds.
pub fn nanos_between(start: i64, end: i64, freq: i64) -> (t: i64)
    ensures
        t == ticks_to_nanos(end - start, freq),
{
    let f: i64 = if freq < 1 {
        1
    } else {
        freq
    };
    let ticks: i128 = end as i128 - start as i128;
    saturate(floor_div(ticks * 1_000_000_000, f as i128))
}

impl Clock {
    /// Ticks per second.
    pub closed spec fn hz(&self) -> i64 {
        self.freq
    }

    /// A clock over a counter whose frequency was read as `raw_freq`.
    pub fn new(raw_freq: i64) -> (c: Self)
        ensures
            c.hz() == usable_freq(raw_freq),
    {
        Clock {
            freq: if raw_freq == 0 {
                1
            } else {
                raw_freq
            },
        }
    }

    /// The counter frequency (ticks per second).
    pub fn freq(&self) -> (f: i64)
        ensures
            f == self.hz(),
    {
        self.freq
    }

    /// Nanoseconds between two counter values.
    pub fn nanos_between(&self, start: i64, end: i64) -> (t: i64)
        ensures
            t == ticks_to_nanos(end - start, self.hz()),
    {
        nanos_between(start, end, self.freq)
    }
}

/// Later counter values are never earlier in nanoseconds.
pub proof fn nanos_keep_order(a: int, b: int, freq: i64)
    requires
        a <= b,
    ensures
        ticks_to_nanos(a, freq) <= ticks_to_nanos(b, freq),
{
    let f = if freq < 1 {
        1
    } else {
        freq as int
    };
    vstd::arithmetic::div_mod::lemma_div_is_ordered(a * BILLION, b * BILLION, f);
}

/// A clock tells time: as many nanoseconds pass as fit into the ticks, a second for each
/// `freq` of them.
pub proof fn ticks_are_shares_of_a_second(ticks: int, freq: i64)
    requires
        freq >= 1,
        -9_000_000_000_000_000_000 <= ticks * BILLION <= 9_000_000_000_000_000_000,
    ensures
        ticks_to_nanos(ticks, freq) * freq <= ticks * BILLION < (ticks_to_nanos(ticks, freq) + 1)
            * freq,
        ticks_to_nanos(0, freq) == 0,
        ticks >= 0 ==> 0 <= ticks_to_nanos(ticks, freq) <= ticks * BILLION,
{
    let a = ticks * BILLION;
    let f = freq as int;
    let q = a / f;
    assert(q * f <= a < (q + 1) * f) by (nonlinear_arith)
        requires
            q == a / f,
            f >= 1,
    ;
    assert(-9_000_000_000_000_000_000 <= q <= 9_000_000_000_000_000_000) by (nonlinear_arith)
        requires
            q == a / f,
            f >= 1,
            -9_000_000_000_000_000_000 <= a <= 9_000_000_000_000_000_000,
    ;
    assert(a >= 0 ==> 0 <= q <= a) by (nonlinear_arith)
        requires
            q == a / f,
            f >= 1,
    ;
    assert(0int / f == 0) by (nonlinear_arith)
        requires
            f >= 1,
    ;
}

} // verus!
