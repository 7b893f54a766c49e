//! Saved bundles: every frame as an image file of its own, with an index of their times.

use crate::capture::toward_zero;
use crate::input::clock::{nanos_between, ticks_to_nanos};
use crate::store::frames::FrameRec;
use crate::text::{decimal, decimals_read_back, push_decimal, read_decimal};
use crate::units::{saturate, saturated, BILLION};
use vstd::prelude::*;

verus! {

/// One entry of a bundle's index: frame number, nanoseconds from the start, and dimensions.
/// Counter values mean nothing elsewhere, so the time is stored instead.
#[derive(Debug, Clone, Copy, PartialEq, Eq, Structural)]
pub struct FrameIndex {
    pub n: usize,
    pub t: i64,
    pub w: u32,
    pub h: u32,
}

/// The index entry of stored frame `n`.
pub fn index_entry(n: usize, rec: &FrameRec, start_qpc: i64, freq: i64) -> (e: FrameIndex)
    ensures
        e == (FrameIndex {
            n,
            t: ticks_to_nanos(rec.qpc - start_qpc, freq),
            w: rec.w,
            h: rec.h,
        }),
{
    FrameIndex { n, t: nanos_between(start_qpc, rec.qpc, freq), w: rec.w, h: rec.h }
}

/// The counter value of an entry on a fresh epoch.
pub open spec fn rebased(t: i64, base: i64, freq: i64) -> i64 {
    saturated(base + toward_zero(t * freq, BILLION as int))
}

/// The counter value of an entry on a fresh epoch.
pub fn rebase(t: i64, base: i64, freq: i64) -> (qpc: i64)
    ensures
        qpc == rebased(t, base, freq),
{
    proof {
        let a = t as int;
        let b = freq as int;
        assert(-0x4000_0000_0000_0000_0000_0000_0000_0000 <= a * b
            <= 0x4000_0000_0000_0000_0000_0000_0000_0000) by (nonlinear_arith)
            requires
                -0x8000_0000_0000_0000 <= a <= 0x7fff_ffff_ffff_ffff,
                -0x8000_0000_0000_0000 <= b <= 0x7fff_ffff_ffff_ffff,
        ;
    }
    let p: i128 = t as i128 * freq as i128;
    let ticks: i128 = if p >= 0 {
        p / 1_000_000_000
    } else {
        -((-p) / 1_000_000_000)
    };
    saturate(base as i128 + ticks)
}

/// Saving a bundle and opening it again keeps every frame's time to within a tick, for any
/// counter of up to a billion ticks per second; a counter whose tick is a whole number of
/// nanoseconds keeps it exactly.
pub proof fn reopened_frames_keep_their_times(ticks: int, base: i64, freq: i64)
    requires
        1 <= freq <= BILLION,
        0 <= ticks,
        ticks * BILLION <= i64::MAX,
        base + ticks <= i64::MAX,
    ensures
        ({
            let qpc = rebased(ticks_to_nanos(ticks, freq), base, freq);
            &&& base + ticks - 1 <= qpc <= base + ticks
            &&& BILLION as int % freq as int == 0 ==> qpc == base + ticks
        }),
{
    let f = freq as int;
    let n = ticks * BILLION;
    let t = n / f;
    assert(0 <= t <= n) by (nonlinear_arith)
        requires
            t == n / f,
            n >= 0,
            f >= 1,
    ;
    vstd::arithmetic::div_mod::lemma_fundamental_div_mod(n, f);
    let back = t * f;
    assert(n - f < back <= n) by (nonlinear_arith)
        requires
            n == f * t + n % f,
            0 <= n % f < f,
            back == t * f,
    ;
    assert(0 <= back) by (nonlinear_arith)
        requires
            back == t * f,
            t >= 0,
            f >= 1,
    ;
    assert(ticks - 1 <= back / 1_000_000_000 <= ticks);
    if BILLION as int % f == 0 {
        let k = BILLION as int / f;
        vstd::arithmetic::div_mod::lemma_fundamental_div_mod(BILLION as int, f);
        assert(n == f * (ticks * k)) by (nonlinear_arith)
            requires
                n == ticks * BILLION,
                BILLION as int == f * k,
        ;
        vstd::arithmetic::div_mod::lemma_fundamental_div_mod_converse(n, f, ticks * k, 0);
        assert(back == n) by (nonlinear_arith)
            requires
                t == ticks * k,
                back == t * f,
                n == f * (ticks * k),
        ;
    }
}

/// A numeral of at least five digits.
pub open spec fn five_digits(n: nat) -> Seq<char> {
    let d = decimal(n);
    if n < 10 {
        "0000"@ + d
    } else if n < 100 {
        "000"@ + d
    } else if n < 1000 {
        "00"@ + d
    } else if n < 10000 {
        "0"@ + d
    } else {
        d
    }
}

/// The file name of frame `n` of a bundle.
pub fn frame_file_name(n: usize) -> (s: String)
    ensures
        s@ == five_digits(n as nat) + ".png"@,
{
    let mut s = String::new();
    if n < 10 {
        s.push_str("0000");
    } else if n < 100 {
        s.push_str("000");
    } else if n < 1000 {
        s.push_str("00");
    } else if n < 10000 {
        s.push_str("0");
    }
    push_decimal(&mut s, n as u128);
    s.push_str(".png");
    assert(s@ =~= five_digits(n as nat) + ".png"@);
    s
}

/// A frame's file is numbered in digits, five at least.
pub proof fn frame_numbers_read_back(n: nat)
    ensures
        read_decimal(five_digits(n)) == n,
        five_digits(n).len() >= 5,
        n < 100_000 ==> five_digits(n).len() == 5,
{
    reveal_strlit("0");
    reveal_strlit("00");
    reveal_strlit("000");
    reveal_strlit("0000");
    decimals_read_back(n);
    let d = decimal(n);
    reveal_with_fuel(decimal, 6);
    if n < 10 {
        lemma_leading_zeros("0000"@, d);
    } else if n < 100 {
        lemma_leading_zeros("000"@, d);
    } else if n < 1000 {
        lemma_leading_zeros("00"@, d);
    } else if n < 10000 {
        lemma_leading_zeros("0"@, d);
    } else {
        assert(decimal(n / 10).len() >= 4);
    }
}

/// Zeros before a number do not change it.
proof fn lemma_leading_zeros(zeros: Seq<char>, d: Seq<char>)
    requires
        forall|i: int| 0 <= i < zeros.len() ==> #[trigger] zeros[i] == '0',
    ensures
        read_decimal(zeros + d) == read_decimal(d),
    decreases d.len() + zeros.len(),
{
    let all = zeros + d;
    if d.len() > 0 {
        assert(all.drop_last() =~= zeros + d.drop_last());
        lemma_leading_zeros(zeros, d.drop_last());
    } else if zeros.len() > 0 {
        let rest = zeros.drop_last();
        assert(all.drop_last() =~= rest + d);
        assert forall|i: int| 0 <= i < rest.len() implies #[trigger] rest[i] == '0' by {
            assert(rest[i] == zeros[i]);
        }
        lemma_leading_zeros(rest, d);
    } else {
        assert(all =~= d);
    }
}

} // verus!
