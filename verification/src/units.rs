//! Integer units: nanoseconds for times, billionths for normalized coordinates.

use vstd::prelude::*;

verus! {

/// Nanoseconds in a second, and billionths in a whole.
pub const BILLION: i64 = 1_000_000_000;

/// The `i64` nearest to a number.
pub open spec fn saturated(n: int) -> i64 {
    if n < i64::MIN {
        i64::MIN
    } else if n > i64::MAX {
        i64::MAX
    } else {
        n as i64
    }
}

/// `x` moved into `lo..=hi`; `lo` wins if the range is empty.
pub open spec fn clamped(x: int, lo: int, hi: int) -> int {
    if x < lo {
        lo
    } else if x > hi {
        if hi < lo {
            lo
        } else {
            hi
        }
    } else {
        x
    }
}

/// The smaller of two numbers.
pub open spec fn lesser(a: int, b: int) -> int {
    if b < a {
        b
    } else {
        a
    }
}

/// The larger of two numbers.
pub open spec fn greater(a: int, b: int) -> int {
    if b > a {
        b
    } else {
        a
    }
}

/// Quotient rounded towards minus infinity.
pub fn floor_div(a: i128, b: i128) -> (q: i128)
    requires
        b > 0,
    ensures
        q == a as int / b as int,
{
    if a >= 0 {
        a / b
    } else {
        let up: i128 = -(a + 1);
        let m: i128 = up / b;
        proof {
            let x = a as int;
            let d = b as int;
            assert(-((-(x + 1)) / d) - 1 == x / d) by (nonlinear_arith)
                requires
                    d > 0,
            ;
            assert(0 <= m <= up) by (nonlinear_arith)
                requires
                    m == up as int / d,
                    up >= 0,
                    d > 0,
            ;
        }
        -m - 1
    }
}

/// The `i64` nearest to `n`.
pub fn saturate(n: i128) -> (r: i64)
    ensures
        r == saturated(n as int),
{
    if n < i64::MIN as i128 {
        i64::MIN
    } else if n > i64::MAX as i128 {
        i64::MAX
    } else {
        n as i64
    }
}

/// Move `x` into `lo..=hi`; `lo` wins if the range is empty.
pub fn clamp_i64(x: i64, lo: i64, hi: i64) -> (r: i64)
    ensures
        r == clamped(x as int, lo as int, hi as int),
{
    if x < lo {
        lo
    } else if x > hi {
        if hi < lo {
            lo
        } else {
            hi
        }
    } else {
        x
    }
}

/// The smaller of two numbers.
pub fn min_i64(a: i64, b: i64) -> (r: i64)
    ensures
        r == lesser(a as int, b as int),
{
    if b < a {
        b
    } else {
        a
    }
}

/// The larger of two numbers.
pub fn max_i64(a: i64, b: i64) -> (r: i64)
    ensures
        r == greater(a as int, b as int),
{
    if b > a {
        b
    } else {
        a
    }
}

/// How many of the first `i` places have a property.
pub open spec fn how_many(has: spec_fn(int) -> bool, i: int) -> int
    decreases i,
{
    if i <= 0 {
        0
    } else {
        how_many(has, i - 1) + (if has(i - 1) {
            1int
        } else {
            0
        })
    }
}

/// More places never have fewer of a property.
pub proof fn lemma_how_many(has: spec_fn(int) -> bool, i: int, n: int)
    requires
        0 <= i <= n,
    ensures
        0 <= how_many(has, i) <= how_many(has, n),
        i < n && has(i) ==> how_many(has, i) < how_many(has, n),
    decreases n,
{
    if n > 0 {
        if i < n {
            lemma_how_many(has, i, n - 1);
        } else {
            lemma_how_many(has, i - 1, n - 1);
        }
    }
}

} // verus!
