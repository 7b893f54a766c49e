//! Recovery sessions: which stored recordings exist, which are kept, and which one is
//! offered for recovery.

use crate::text::{decimal, decimals_read_back, read_decimal};
use vstd::prelude::*;

verus! {

/// How many recorded sessions to retain: the current one plus the immediately previous, so
/// a crash at the very start of a new take can't lose the last good session. Bounds disk
/// use, as each holds gigabytes of raw pixels.
pub const KEEP_SESSIONS: usize = 2;

/// Whether a character is a decimal digit.
pub open spec fn is_digit(c: char) -> bool {
    '0' <= c <= '9'
}

/// The number that decimal digits stand for.
pub open spec fn digits_value(s: Seq<char>) -> nat
    decreases s.len(),
{
    if s.len() == 0 {
        0
    } else {
        10 * digits_value(s.drop_last()) + (s.last() as nat - 48) as nat
    }
}

/// Whether text is a decimal numeral: digits, at least one, possibly after a plus sign.
pub open spec fn is_numeral(s: Seq<char>) -> bool {
    let digits = numeral_digits(s);
    digits.len() > 0 && forall|i: int| 0 <= i < digits.len() ==> is_digit(#[trigger] digits[i])
}

/// The digits of a numeral: all of it but a leading plus sign.
pub open spec fn numeral_digits(s: Seq<char>) -> Seq<char> {
    if s.len() > 0 && s[0] == '+' {
        s.drop_first()
    } else {
        s
    }
}

/// The session id that a directory name stands for; names that are no numeral, or one that
/// is too large, stand for none.
pub open spec fn session_id(name: Seq<char>) -> Option<u128> {
    if is_numeral(name) && digits_value(numeral_digits(name)) <= u128::MAX {
        Some(digits_value(numeral_digits(name)) as u128)
    } else {
        None
    }
}

/// Longer numerals with the same start are no smaller.
proof fn lemma_digits_grow(s: Seq<char>, k: int)
    requires
        0 <= k <= s.len(),
        forall|i: int| 0 <= i < s.len() ==> is_digit(#[trigger] s[i]),
    ensures
        digits_value(s.take(k)) <= digits_value(s),
    decreases s.len() - k,
{
    if k < s.len() {
        lemma_digits_grow(s.drop_last(), k);
        assert(s.drop_last().take(k) =~= s.take(k));
    } else {
        assert(s.take(k) =~= s);
    }
}

/// Parse a session directory's name back into its id. Other entries (a scratch directory,
/// stray files) give `None` and are ignored by scanning and pruning, so junk can't derail
/// rotation.
pub fn session_id_of(name: &str) -> (id: Option<u128>)
    ensures
        id == session_id(name@),
{
    let n: usize = name.unicode_len();
    let mut i: usize = 0;
    if n > 0 {
        if name.get_char(0) == '+' {
            i = 1;
        }
    }
    let ghost digits = numeral_digits(name@);
    let ghost skip = i as int;
    if i == n {
        return None;
    }
    let mut value: u128 = 0;
    let mut too_large = false;
    assert(digits.take(0) =~= Seq::<char>::empty());
    while i < n
        invariant
            n == name@.len(),
            digits == numeral_digits(name@),
            skip == 0 || skip == 1,
            digits.len() == n - skip,
            forall|k: int| 0 <= k < digits.len() ==> #[trigger] digits[k] == name@[k + skip],
            skip <= i <= n,
            forall|k: int| 0 <= k < i - skip ==> is_digit(#[trigger] digits[k]),
            !too_large ==> value == digits_value(digits.take(i - skip)),
            too_large ==> digits_value(digits.take(i - skip)) > u128::MAX,
        decreases n - i,
    {
        let c: char = name.get_char(i);
        assert(c == digits[i - skip]);
        if c < '0' || c > '9' {
            return None;
        }
        let d: u128 = (c as u32 - 48) as u128;
        proof {
            let more = digits.take(i - skip + 1);
            assert(more.drop_last() =~= digits.take(i - skip));
            assert(more.last() == c);
        }
        if !too_large {
            match value.checked_mul(10) {
                Some(v) => match v.checked_add(d) {
                    Some(v2) => {
                        value = v2;
                    },
                    None => {
                        too_large = true;
                    },
                },
                None => {
                    too_large = true;
                },
            }
        }
        i += 1;
    }
    assert(digits.take(i - skip) =~= digits);
    if too_large {
        None
    } else {
        Some(value)
    }
}

/// Whether sessions, given by id and place, stand newest first; equal ids stay in the
/// order of their places.
pub open spec fn newest_first(entries: Seq<(u128, usize)>) -> bool {
    forall|i: int, j: int|
        0 <= i < j < entries.len() ==> #[trigger] comes_before(entries[i], entries[j])
}

/// Whether a session stands before another one.
pub open spec fn comes_before(a: (u128, usize), b: (u128, usize)) -> bool {
    a.0 > b.0 || (a.0 == b.0 && a.1 < b.1)
}

/// Whether `entries` lists exactly the sessions among the first `n` names.
pub open spec fn lists_sessions(names: Seq<Seq<char>>, n: int, entries: Seq<(u128, usize)>) -> bool {
    &&& forall|k: int|
        0 <= k < entries.len() ==> (#[trigger] entries[k]).1 < n && session_id(
            names[entries[k].1 as int],
        ) == Some(entries[k].0)
    &&& forall|p: int|
        0 <= p < n && session_id(#[trigger] names[p]) is Some ==> entries.contains(
            (session_id(names[p])->Some_0, p as usize),
        )
}

/// The characters of a list of names.
pub open spec fn texts(names: Seq<String>) -> Seq<Seq<char>> {
    Seq::new(names.len(), |i: int| names[i]@)
}

/// Put a session with a place past all others where it belongs.
fn insert_session(entries: &mut Vec<(u128, usize)>, id: u128, place: usize)
    requires
        newest_first(old(entries)@),
        forall|k: int| 0 <= k < old(entries)@.len() ==> (#[trigger] old(entries)@[k]).1 < place,
    ensures
        newest_first(final(entries)@),
        exists|at: int|
            0 <= at <= old(entries)@.len() && final(entries)@ == #[trigger] old(entries)@.insert(
                at,
                (id, place),
            ),
{
    let ghost before = entries@;
    let mut at: usize = entries.len();
    while at > 0 && entries[at - 1].0 < id
        invariant
            at <= entries@.len(),
            entries@ == before,
            forall|k: int| at <= k < before.len() ==> (#[trigger] before[k]).0 < id,
        decreases at,
    {
        at -= 1;
    }
    entries.insert(at, (id, place));
    proof {
        let after = before.insert(at as int, (id, place));
        assert forall|i: int, j: int| 0 <= i < j < after.len() implies #[trigger] comes_before(
            after[i],
            after[j],
        ) by {
            if j == at {
                assert(after[i] == before[i]);
                if i < at - 1 {
                    assert(comes_before(before[i], before[at - 1]));
                }
            } else if i == at {
                assert(after[j] == before[j - 1]);
            } else {
                let bi = if i < at {
                    i
                } else {
                    i - 1
                };
                let bj = if j < at {
                    j
                } else {
                    j - 1
                };
                assert(after[i] == before[bi] && after[j] == before[bj]);
                assert(comes_before(before[bi], before[bj]));
            }
        }
    }
}

/// The session directories among directory names, as ids and places, newest id first.
pub fn session_order(names: &Vec<String>) -> (entries: Vec<(u128, usize)>)
    ensures
        lists_sessions(texts(names@), names@.len() as int, entries@),
        newest_first(entries@),
{
    let ghost ts = texts(names@);
    let mut entries: Vec<(u128, usize)> = Vec::new();
    let mut p: usize = 0;
    while p < names.len()
        invariant
            ts == texts(names@),
            p <= names@.len(),
            lists_sessions(ts, p as int, entries@),
            newest_first(entries@),
        decreases names@.len() - p,
    {
        match session_id_of(names[p].as_str()) {
            None => {},
            Some(id) => {
                let ghost before = entries@;
                insert_session(&mut entries, id, p);
                proof {
                    let at = choose|at: int|
                        0 <= at <= before.len() && entries@ == #[trigger] before.insert(
                            at,
                            (id, p),
                        );
                    lemma_inserted(ts, p as int, before, at, id);
                }
            },
        }
        p += 1;
    }
    entries
}

/// Inserting the session of the next name keeps the list complete.
proof fn lemma_inserted(
    names: Seq<Seq<char>>,
    n: int,
    before: Seq<(u128, usize)>,
    at: int,
    id: u128,
)
    requires
        0 <= n < names.len() <= usize::MAX,
        0 <= at <= before.len(),
        lists_sessions(names, n, before),
        session_id(names[n]) == Some(id),
    ensures
        lists_sessions(names, n + 1, before.insert(at, (id, n as usize))),
{
    let after = before.insert(at, (id, n as usize));
    assert forall|k: int| 0 <= k < after.len() implies (#[trigger] after[k]).1 < n + 1
        && session_id(names[after[k].1 as int]) == Some(after[k].0) by {
        if k < at {
            assert(after[k] == before[k]);
        } else if k > at {
            assert(after[k] == before[k - 1]);
        }
    }
    assert forall|p: int| 0 <= p < n + 1 && session_id(#[trigger] names[p]) is Some implies after.contains(
    (session_id(names[p])->Some_0, p as usize)) by {
        let e = (session_id(names[p])->Some_0, p as usize);
        if p < n {
            assert(before.contains(e));
            let k = choose|k: int| 0 <= k < before.len() && before[k] == e;
            if k < at {
                assert(after[k] == e);
            } else {
                assert(after[k + 1] == e);
            }
        } else {
            assert(after[at] == e);
        }
    }
}

/// The id of the next session: the time in milliseconds, or one past the newest existing
/// id if the clock did not advance.
pub open spec fn next_id(now_ms: u128, newest: Option<u128>) -> u128 {
    let last = match newest {
        Some(id) => id,
        None => 0,
    };
    if last == u128::MAX {
        u128::MAX
    } else if now_ms > last {
        now_ms
    } else {
        (last + 1) as u128
    }
}

/// A strictly-increasing session id, so "newest first" is always well-defined.
pub fn next_session_id(now_ms: u128, newest: Option<u128>) -> (id: u128)
    ensures
        id == next_id(now_ms, newest),
{
    let last: u128 = match newest {
        Some(id) => id,
        None => 0,
    };
    let bumped: u128 = last.saturating_add(1);
    if now_ms > bumped {
        now_ms
    } else {
        bumped
    }
}

/// The sessions to remove before a new one is created: all but the newest ones that still
/// have a place beside it.
pub fn sessions_to_prune(order: &Vec<(u128, usize)>) -> (old: Vec<(u128, usize)>)
    ensures
        old@ == (if order@.len() < KEEP_SESSIONS {
            Seq::<(u128, usize)>::empty()
        } else {
            order@.skip(KEEP_SESSIONS - 1)
        }),
{
    let mut old: Vec<(u128, usize)> = Vec::new();
    let mut i: usize = KEEP_SESSIONS - 1;
    while i < order.len()
        invariant
            KEEP_SESSIONS - 1 <= i,
            i <= order@.len() || i == KEEP_SESSIONS - 1,
            old@.len() == i - (KEEP_SESSIONS - 1),
            forall|k: int| 0 <= k < old@.len() ==> old@[k] == order@[k + KEEP_SESSIONS - 1],
        decreases order@.len() - i,
    {
        old.push(order[i]);
        i += 1;
    }
    assert(order@.len() >= KEEP_SESSIONS ==> old@ =~= order@.skip(KEEP_SESSIONS - 1));
    assert(order@.len() < KEEP_SESSIONS ==> old@ =~= Seq::<(u128, usize)>::empty());
    old
}

/// Whether two recovery directories are the same session: by id, or by path where either
/// has none.
pub fn same_session(a: Option<u128>, b: Option<u128>, same_path: bool) -> (r: bool)
    ensures
        r == (if a is Some && b is Some {
            a == b
        } else {
            same_path
        }),
{
    match (a, b) {
        (Some(x), Some(y)) => x == y,
        _ => same_path,
    }
}

/// What is known of a session when looking for one to recover.
#[derive(Debug, Clone, Copy, PartialEq, Eq, Structural)]
pub struct Candidate {
    /// Whether it backs the clip that is loaded now.
    pub loaded: bool,
    /// Whether its manifest exists.
    pub has_manifest: bool,
    /// How many frames its store holds, if it can be opened.
    pub frames: Option<usize>,
}

/// Whether a session can be recovered: it is not the loaded one, and it holds a manifest
/// and frames.
pub open spec fn recoverable(c: Candidate) -> bool {
    !c.loaded && c.has_manifest && c.frames is Some && c.frames->Some_0 > 0
}

/// The first session in the list that can be recovered. Skips empty and torn stores: a take
/// that crashed at the very start leaves only a placeholder, so recovery lands on the most
/// recent real content.
pub fn latest_recoverable(candidates: &Vec<Candidate>) -> (r: Option<usize>)
    ensures
        match r {
            Some(i) => i < candidates@.len() && recoverable(candidates@[i as int]) && forall|k: int|
                0 <= k < i ==> !recoverable(#[trigger] candidates@[k]),
            None => forall|k: int|
                0 <= k < candidates@.len() ==> !recoverable(#[trigger] candidates@[k]),
        },
{
    let mut i: usize = 0;
    while i < candidates.len()
        invariant
            i <= candidates@.len(),
            forall|k: int| 0 <= k < i ==> !recoverable(#[trigger] candidates@[k]),
        decreases candidates@.len() - i,
    {
        let c: Candidate = candidates[i];
        let found = match c.frames {
            Some(n) => !c.loaded && c.has_manifest && n > 0,
            None => false,
        };
        if found {
            return Some(i);
        }
        i += 1;
    }
    None
}

/// A new session is newer than every existing one, as long as ids are left.
pub proof fn new_sessions_are_newest(now_ms: u128, newest: Option<u128>)
    requires
        newest is Some ==> newest->Some_0 < u128::MAX,
    ensures
        newest is Some ==> next_id(now_ms, newest) > newest->Some_0,
        next_id(now_ms, newest) >= now_ms,
{
}

/// Pruning always leaves the newest existing session, and with the new one as many as are
/// retained.
pub proof fn pruning_keeps_the_newest(order: Seq<(u128, usize)>)
    requires
        newest_first(order),
        order.len() >= KEEP_SESSIONS,
    ensures
        !order.skip(KEEP_SESSIONS - 1).contains(order[0]),
        order.len() - order.skip(KEEP_SESSIONS - 1).len() + 1 == KEEP_SESSIONS,
{
    let old = order.skip(KEEP_SESSIONS - 1);
    if old.contains(order[0]) {
        let k = choose|k: int| 0 <= k < old.len() && old[k] == order[0];
        assert(old[k] == order[k + 1]);
        assert(comes_before(order[0], order[k + 1]));
    }
}

/// A session is named by its number: every number's digits name it, and nothing but digits, or
/// digits behind a plus sign, names one.
pub proof fn numbers_name_sessions(n: u128, name: Seq<char>)
    ensures
        session_id(decimal(n as nat)) == Some(n),
        session_id(name) is Some && name[0] != '+' ==> name.len() > 0 && (forall|i: int|
            0 <= i < name.len() ==> '0' <= #[trigger] name[i] <= '9') && session_id(name)->Some_0
            == read_decimal(name),
{
    let d = decimal(n as nat);
    decimals_read_back(n as nat);
    assert('0' <= d[0] <= '9');
    assert forall|i: int| 0 <= i < d.len() implies is_digit(#[trigger] d[i]) by {}
    lemma_digits_value(d);
    if session_id(name) is Some && name[0] != '+' {
        assert(numeral_digits(name) == name);
        assert forall|i: int| 0 <= i < name.len() implies '0' <= #[trigger] name[i] <= '9' by {
            assert(is_digit(name[i]));
        }
        lemma_digits_value(name);
    }
}

/// Digits stand for the number that they are read as.
proof fn lemma_digits_value(s: Seq<char>)
    requires
        forall|i: int| 0 <= i < s.len() ==> is_digit(#[trigger] s[i]),
    ensures
        digits_value(s) == read_decimal(s),
    decreases s.len(),
{
    if s.len() > 0 {
        let rest = s.drop_last();
        assert forall|i: int| 0 <= i < rest.len() implies is_digit(#[trigger] rest[i]) by {
            assert(rest[i] == s[i]);
        }
        assert(is_digit(s[s.len() - 1]));
        lemma_digits_value(rest);
    }
}

/// A session is numbered by the time, or by the next number if that was taken already.
pub proof fn sessions_are_numbered_by_time(now_ms: u128, newest: u128)
    ensures
        now_ms > 0 ==> next_id(now_ms, None) == now_ms,
        now_ms > newest && newest < u128::MAX ==> next_id(now_ms, Some(newest)) == now_ms,
        now_ms <= newest < u128::MAX ==> next_id(now_ms, Some(newest)) == newest + 1,
{
}

/// A session can be recovered if it is not the one that is loaded, has a manifest, and its
/// store opens and holds frames.
pub proof fn sessions_with_frames_are_recoverable(c: Candidate)
    ensures
        recoverable(c) ==> !c.loaded && c.has_manifest && c.frames is Some && c.frames->Some_0 >= 1,
        !c.loaded && c.has_manifest && c.frames is Some && c.frames->Some_0 >= 1 ==> recoverable(c),
{
}

} // verus!
