//! Text building blocks: decimal numerals and comparison of strings by their characters.

use vstd::prelude::*;

verus! {

/// `String::push` appends one character.
pub assume_specification[ String::push ](s: &mut String, c: char)
    ensures
        final(s)@ == old(s)@.push(c),
;

/// `String::push_str` appends the characters of another string.
pub assume_specification[ String::push_str ](s: &mut String, t: &str)
    ensures
        final(s)@ == old(s)@ + t@,
;

/// Whether a text is what a value shows as.
pub open spec fn shown_as<T: core::fmt::Display>(x: T, text: String) -> bool {
    vstd::string::to_string_from_display_ensures::<T>(&x, text)
}

/// The character of a decimal digit.
pub open spec fn digit(d: nat) -> char {
    (48 + d) as char
}

/// The decimal numeral of a number, without leading zeros.
pub open spec fn decimal(n: nat) -> Seq<char>
    decreases n,
{
    if n < 10 {
        seq![digit(n)]
    } else {
        decimal(n / 10).push(digit(n % 10))
    }
}

/// Append the decimal numeral of `n`.
pub fn push_decimal(s: &mut String, n: u128)
    ensures
        final(s)@ == old(s)@ + decimal(n as nat),
    decreases n,
{
    if n >= 10 {
        push_decimal(s, n / 10);
    }
    let d: u8 = (n % 10) as u8;
    s.push((48u8 + d) as char);
    assert(s@ =~= old(s)@ + decimal(n as nat));
}

/// Whether two strings hold the same characters.
pub fn same_text(a: &str, b: &str) -> (r: bool)
    ensures
        r == (a@ == b@),
{
    a.to_owned() == b.to_owned()
}

/// Whether a character is white space (the Unicode property `White_Space`).
pub open spec fn is_space(c: char) -> bool {
    ||| 0x09 <= c as u32 <= 0x0D
    ||| c as u32 == 0x20
    ||| c as u32 == 0x85
    ||| c as u32 == 0xA0
    ||| c as u32 == 0x1680
    ||| 0x2000 <= c as u32 <= 0x200A
    ||| c as u32 == 0x2028
    ||| c as u32 == 0x2029
    ||| c as u32 == 0x202F
    ||| c as u32 == 0x205F
    ||| c as u32 == 0x3000
}

/// Text without the white space at its start.
pub open spec fn without_leading_space(s: Seq<char>) -> Seq<char>
    decreases s.len(),
{
    if s.len() > 0 && is_space(s[0]) {
        without_leading_space(s.drop_first())
    } else {
        s
    }
}

/// Text without the white space at its end.
pub open spec fn without_trailing_space(s: Seq<char>) -> Seq<char>
    decreases s.len(),
{
    if s.len() > 0 && is_space(s.last()) {
        without_trailing_space(s.drop_last())
    } else {
        s
    }
}

/// Text without the white space at its ends.
pub open spec fn trimmed(s: Seq<char>) -> Seq<char> {
    without_trailing_space(without_leading_space(s))
}

/// The lower-case form of an ASCII letter; any other character as it is.
pub open spec fn lower(c: char) -> char {
    if 'A' <= c <= 'Z' {
        (c as u32 + 32) as char
    } else {
        c
    }
}

/// Text with its ASCII letters in lower case.
pub open spec fn lowered(s: Seq<char>) -> Seq<char> {
    Seq::new(s.len(), |i: int| lower(s[i]))
}

fn space(c: char) -> (r: bool)
    ensures
        r == is_space(c),
{
    let u: u32 = c as u32;
    (0x09 <= u && u <= 0x0D) || u == 0x20 || u == 0x85 || u == 0xA0 || u == 0x1680 || (0x2000 <= u
        && u <= 0x200A) || u == 0x2028 || u == 0x2029 || u == 0x202F || u == 0x205F || u == 0x3000
}

/// Remove the white space at both ends and put ASCII letters into lower case.
pub fn normalize_label(s: &str) -> (out: String)
    ensures
        out@ == lowered(trimmed(s@)),
{
    let n: usize = s.unicode_len();
    let mut lo: usize = 0;
    assert(s@.skip(0) =~= s@);
    while lo < n && space(s.get_char(lo))
        invariant
            n == s@.len(),
            lo <= n,
            without_leading_space(s@) == without_leading_space(s@.skip(lo as int)),
        decreases n - lo,
    {
        assert(s@.skip(lo as int).drop_first() =~= s@.skip(lo + 1));
        lo += 1;
    }
    let ghost front = without_leading_space(s@);
    assert(front == s@.skip(lo as int));
    let mut hi: usize = n;
    assert(s@.subrange(lo as int, hi as int) =~= front);
    while hi > lo && space(s.get_char(hi - 1))
        invariant
            n == s@.len(),
            lo <= hi <= n,
            trimmed(s@) == without_trailing_space(s@.subrange(lo as int, hi as int)),
        decreases hi,
    {
        assert(s@.subrange(lo as int, hi as int).drop_last() =~= s@.subrange(lo as int, hi - 1));
        hi -= 1;
    }
    let ghost mid = s@.subrange(lo as int, hi as int);
    assert(trimmed(s@) == mid);
    let mut out = String::new();
    let mut i: usize = lo;
    while i < hi
        invariant
            n == s@.len(),
            lo <= i <= hi <= n,
            mid == s@.subrange(lo as int, hi as int),
            out@ == lowered(mid.take(i - lo)),
        decreases hi - i,
    {
        let c: char = s.get_char(i);
        let l: char = if 'A' <= c && c <= 'Z' {
            (c as u8 + 32) as char
        } else {
            c
        };
        out.push(l);
        assert(out@ =~= lowered(mid.take(i + 1 - lo)));
        i += 1;
    }
    assert(mid.take(i - lo) =~= mid);
    out
}

/// The number that decimal digits stand for.
pub open spec fn read_decimal(s: Seq<char>) -> int
    decreases s.len(),
{
    if s.len() == 0 {
        0
    } else {
        10 * read_decimal(s.drop_last()) + (s.last() as int - '0' as int)
    }
}

/// A number is written in the digits that stand for it, without leading zeros.
pub proof fn decimals_read_back(n: nat)
    ensures
        read_decimal(decimal(n)) == n,
        decimal(n).len() >= 1,
        forall|i: int| 0 <= i < decimal(n).len() ==> '0' <= #[trigger] decimal(n)[i] <= '9',
        n > 0 ==> decimal(n)[0] != '0',
    decreases n,
{
    reveal_with_fuel(read_decimal, 2);
    if n < 10 {
        assert(decimal(n).drop_last() =~= Seq::<char>::empty());
    } else {
        decimals_read_back(n / 10);
        let s = decimal(n / 10);
        assert(s.push(digit(n % 10)).drop_last() =~= s);
        assert forall|i: int| 0 <= i < decimal(n).len() implies '0' <= #[trigger] decimal(n)[i]
            <= '9' by {
            if i < s.len() {
                assert(decimal(n)[i] == s[i]);
            }
        }
    }
}

/// Whether a text is nothing but space.
pub open spec fn is_blank(s: Seq<char>) -> bool {
    forall|i: int| 0 <= i < s.len() ==> is_space(#[trigger] s[i])
}

/// Trimming takes away the space around a text, all of it, and nothing else.
pub proof fn trimming_takes_the_space_around(s: Seq<char>) -> (n: int)
    ensures
        0 <= n,
        n + trimmed(s).len() <= s.len(),
        s.subrange(n, n + trimmed(s).len()) == trimmed(s),
        is_blank(s.take(n)),
        is_blank(s.skip(n + trimmed(s).len())),
        trimmed(s).len() > 0 ==> !is_space(trimmed(s)[0]) && !is_space(trimmed(s).last()),
{
    let n = lemma_leading(s);
    let t = without_leading_space(s);
    lemma_trailing(t);
    let u = without_trailing_space(t);
    assert(s.subrange(n, n + u.len()) =~= u) by {
        assert forall|i: int| 0 <= i < u.len() implies s[n + i] == u[i] by {
            assert(u[i] == t[i]);
            assert(t[i] == s.skip(n)[i]);
        }
    }
    assert forall|i: int| 0 <= i < s.skip(n + u.len()).len() implies is_space(
        #[trigger] s.skip(n + u.len())[i],
    ) by {
        assert(s.skip(n + u.len())[i] == t.skip(u.len() as int)[i]);
    }
    if u.len() > 0 {
        assert(u[0] == t[0]);
    }
    n
}

/// Leading space is all space up to the first letter.
proof fn lemma_leading(s: Seq<char>) -> (n: int)
    ensures
        0 <= n <= s.len(),
        without_leading_space(s) == s.skip(n),
        is_blank(s.take(n)),
        n < s.len() ==> !is_space(s[n]),
    decreases s.len(),
{
    if s.len() > 0 && is_space(s[0]) {
        let rest = s.drop_first();
        let m = lemma_leading(rest);
        assert(rest.skip(m) =~= s.skip(m + 1));
        assert forall|i: int| 0 <= i < s.take(m + 1).len() implies is_space(
            #[trigger] s.take(m + 1)[i],
        ) by {
            if i > 0 {
                assert(s.take(m + 1)[i] == rest.take(m)[i - 1]);
            }
        }
        m + 1
    } else {
        assert(s.skip(0) =~= s);
        0
    }
}

/// Trailing space is all space from the last letter on.
proof fn lemma_trailing(s: Seq<char>)
    ensures
        without_trailing_space(s).len() <= s.len(),
        without_trailing_space(s) == s.take(without_trailing_space(s).len() as int),
        is_blank(s.skip(without_trailing_space(s).len() as int)),
        without_trailing_space(s).len() > 0 ==> !is_space(without_trailing_space(s).last()),
    decreases s.len(),
{
    if s.len() > 0 && is_space(s.last()) {
        let rest = s.drop_last();
        lemma_trailing(rest);
        let u = without_trailing_space(rest);
        let m = u.len() as int;
        assert(s.take(m) =~= rest.take(m));
        assert forall|i: int| 0 <= i < s.skip(m).len() implies is_space(#[trigger] s.skip(m)[i]) by {
            if m + i < rest.len() {
                assert(s.skip(m)[i] == rest.skip(m)[i]);
            }
        }
    } else {
        assert(s.take(s.len() as int) =~= s);
    }
}

/// Normalized labels are trimmed and have no capitals; other letters stay.
pub proof fn lowering_keeps_other_letters(s: Seq<char>, i: int)
    requires
        0 <= i < s.len(),
    ensures
        lowered(s).len() == s.len(),
        'A' <= s[i] <= 'Z' ==> lowered(s)[i] as int - 'a' as int == s[i] as int - 'A' as int,
        !('A' <= s[i] <= 'Z') ==> lowered(s)[i] == s[i],
        is_space(' ') && is_space('\t') && is_space('\n') && is_space('\r'),
        'a' <= s[i] <= 'z' || 'A' <= s[i] <= 'Z' || '0' <= s[i] <= '9' ==> !is_space(s[i]),
{
}

/// Different numbers are written differently.
pub proof fn decimals_tell_numbers_apart(a: nat, b: nat, head: Seq<char>)
    requires
        head + decimal(a) == head + decimal(b),
    ensures
        a == b,
{
    let x = head + decimal(a);
    let y = head + decimal(b);
    assert(x.len() == y.len());
    assert(decimal(a) =~= x.skip(head.len() as int));
    assert(decimal(b) =~= y.skip(head.len() as int));
    decimals_read_back(a);
    decimals_read_back(b);
}

} // verus!
