//! Little-endian numbers in byte buffers.

use vstd::prelude::*;

verus! {

/// `256` to the power of `n`.
pub open spec fn pow256(n: nat) -> nat
    decreases n,
{
    if n == 0 {
        1
    } else {
        256 * pow256((n - 1) as nat)
    }
}

/// The lowest `n` bytes of `x`, lowest first.
pub open spec fn le_bytes(x: nat, n: nat) -> Seq<u8>
    decreases n,
{
    if n == 0 {
        Seq::empty()
    } else {
        seq![(x % 256) as u8] + le_bytes(x / 256, (n - 1) as nat)
    }
}

/// The number that bytes stand for, lowest first.
pub open spec fn le_value(b: Seq<u8>) -> nat
    decreases b.len(),
{
    if b.len() == 0 {
        0
    } else {
        b[0] as nat + 256 * le_value(b.drop_first())
    }
}

/// Writing a number takes the asked number of bytes, and reading them gives it back.
pub proof fn le_round_trip(x: nat, n: nat)
    ensures
        le_bytes(x, n).len() == n,
        x < pow256(n) ==> le_value(le_bytes(x, n)) == x,
    decreases n,
{
    if n > 0 {
        let m = (n - 1) as nat;
        le_round_trip(x / 256, m);
        let b = le_bytes(x, n);
        assert(b.drop_first() =~= le_bytes(x / 256, m));
        assert(b[0] == (x % 256) as u8);
    }
}

/// Bytes stand for a number below `256` to the power of their count.
pub proof fn le_value_bound(b: Seq<u8>)
    ensures
        le_value(b) < pow256(b.len()),
    decreases b.len(),
{
    if b.len() > 0 {
        le_value_bound(b.drop_first());
        assert(b.drop_first().len() == b.len() - 1);
    }
}

/// How large numbers of four and eight bytes are.
pub proof fn lemma_pow256_values()
    ensures
        pow256(4) == 0x1_0000_0000,
        pow256(8) == 0x1_0000_0000_0000_0000,
{
    reveal_with_fuel(pow256, 9);
}

/// Append the lowest `n` bytes of `x`, lowest first.
pub fn push_le(buf: &mut Vec<u8>, x: u64, n: usize)
    ensures
        final(buf)@ == old(buf)@ + le_bytes(x as nat, n as nat),
    decreases n,
{
    if n > 0 {
        let ghost start = buf@;
        buf.push((x % 256) as u8);
        let ghost mid = buf@;
        push_le(buf, x / 256, n - 1);
        assert(buf@ =~= start + le_bytes(x as nat, n as nat));
    } else {
        assert(buf@ =~= old(buf)@ + le_bytes(x as nat, 0));
    }
}

/// Read the number in the `n` bytes from `at` on.
pub fn read_le(buf: &[u8], at: usize, n: usize) -> (x: u64)
    requires
        n <= 8,
        at + n <= buf@.len(),
    ensures
        x == le_value(buf@.subrange(at as int, at + n)),
        x < pow256(n as nat),
    decreases n,
{
    let ghost b = buf@.subrange(at as int, at + n);
    proof {
        le_value_bound(b);
        lemma_pow256_values();
    }
    if n == 0 {
        0
    } else {
        assert(buf.len() <= usize::MAX);
        let rest: u64 = read_le(buf, at + 1, n - 1);
        proof {
            assert(b.drop_first() =~= buf@.subrange(at + 1, at + n));
            lemma_pow256_monotone(n as nat, 8);
        }
        buf[at] as u64 + 256 * rest
    }
}

/// More bytes hold larger numbers.
pub proof fn lemma_pow256_monotone(a: nat, b: nat)
    requires
        a <= b,
    ensures
        0 < pow256(a) <= pow256(b),
    decreases b,
{
    if a < b {
        lemma_pow256_monotone(a, (b - 1) as nat);
    } else if a > 0 {
        lemma_pow256_monotone((a - 1) as nat, (a - 1) as nat);
    }
}

/// The lowest byte of a number comes first: byte `i` is the number's digit of that rank.
pub proof fn low_bytes_come_first(x: nat, n: nat, i: nat)
    requires
        i < n,
    ensures
        le_bytes(x, n).len() == n,
        le_bytes(x, n)[i as int] == x / pow256(i) % 256,
    decreases n,
{
    le_round_trip(x, n);
    let rest = le_bytes(x / 256, (n - 1) as nat);
    le_round_trip(x / 256, (n - 1) as nat);
    if i > 0 {
        low_bytes_come_first(x / 256, (n - 1) as nat, (i - 1) as nat);
        lemma_pow256_monotone(0, (i - 1) as nat);
        assert(le_bytes(x, n)[i as int] == rest[i - 1]);
        vstd::arithmetic::div_mod::lemma_div_denominator(
            x as int,
            256,
            pow256((i - 1) as nat) as int,
        );
        assert(pow256(i) == 256 * pow256((i - 1) as nat));
        assert(x / pow256(i) == x / 256 / pow256((i - 1) as nat));
    } else {
        assert(pow256(0) == 1);
        assert(x / 1 == x) by (nonlinear_arith);
        assert(le_bytes(x, n)[0] == (x % 256) as u8);
    }
}

} // verus!
