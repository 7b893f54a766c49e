//! Durable key/value preferences, kept as a flat JSON object.
//!
//! Best-effort by design: a text that cannot be read counts as holding nothing.

use crate::text::same_text;
use vstd::prelude::*;

verus! {

/// The preferences that `serde_json` reads from a text as a map of strings; `None` where it
/// reports an error.
pub uninterp spec fn prefs_entries(text: Seq<char>) -> Option<Map<Seq<char>, Seq<char>>>;

/// The text that `serde_json` writes for preferences, indented.
pub uninterp spec fn prefs_text(entries: Map<Seq<char>, Seq<char>>) -> Seq<char>;

/// Whether a text comes before another: they differ first in a character that is smaller, or
/// the other goes on where it ends.
pub open spec fn text_before(a: Seq<char>, b: Seq<char>) -> bool
    decreases a.len(),
{
    if b.len() == 0 {
        false
    } else if a.len() == 0 {
        true
    } else {
        a[0] < b[0] || (a[0] == b[0] && text_before(a.drop_first(), b.drop_first()))
    }
}

/// Whether entries stand in the order of their keys, each key once.
pub open spec fn keys_sorted(entries: Seq<(String, String)>) -> bool {
    forall|i: int, j: int|
        0 <= i < j < entries.len() ==> text_before(
            (#[trigger] entries[i]).0@,
            (#[trigger] entries[j]).0@,
        )
}

/// Whether entry `i` is the one under a key.
pub open spec fn is_under(entries: Seq<(String, String)>, key: Seq<char>, i: int) -> bool {
    0 <= i < entries.len() && entries[i].0@ == key
}

/// The map that a list of entries stands for.
pub open spec fn stored(entries: Seq<(String, String)>) -> Map<Seq<char>, Seq<char>> {
    Map::new(
        |key: Seq<char>| exists|i: int| is_under(entries, key, i),
        |key: Seq<char>| entries[choose|i: int| is_under(entries, key, i)].1@,
    )
}

/// The preferences that a text stands for: none if it cannot be read.
pub open spec fn prefs_of(text: Seq<char>) -> Map<Seq<char>, Seq<char>> {
    match prefs_entries(text) {
        Some(entries) => entries,
        None => Map::empty(),
    }
}

/// `serde_json::from_str` reads a `BTreeMap<String, String>`.
///
/// Its entries come in the order in which a `BTreeMap` is walked: that of its keys, which are
/// ordered by their code points.
#[verifier::external_body]
fn read_entries(text: &str) -> (r: Result<Vec<(String, String)>, serde_json::Error>)
    ensures
        r matches Ok(entries) ==> keys_sorted(entries@),
        r matches Ok(entries) ==> prefs_entries(text@) == Some(stored(entries@)),
        r is Err ==> prefs_entries(text@) is None,
{
    let map: std::collections::BTreeMap<String, String> = serde_json::from_str(text)?;
    Ok(map.into_iter().collect())
}

/// `serde_json::to_string_pretty` writes a `BTreeMap` of strings.
///
/// It fails for keys that are no strings alone. Reading the text gives the entries back.
#[verifier::external_body]
fn write_entries(entries: &Vec<(String, String)>) -> (r: Result<String, serde_json::Error>)
    requires
        keys_sorted(entries@),
    ensures
        r is Ok,
        r->Ok_0@ == prefs_text(stored(entries@)),
        prefs_entries(r->Ok_0@) == Some(stored(entries@)),
{
    let map: std::collections::BTreeMap<&String, &String> =
        entries.iter().map(|e| (&e.0, &e.1)).collect();
    serde_json::to_string_pretty(&map)
}

/// No text comes before itself.
proof fn lemma_not_before_itself(a: Seq<char>)
    ensures
        !text_before(a, a),
    decreases a.len(),
{
    if a.len() > 0 {
        lemma_not_before_itself(a.drop_first());
    }
}

/// Of two different texts one comes before the other.
proof fn lemma_before_or_after(a: Seq<char>, b: Seq<char>)
    ensures
        a == b || text_before(a, b) || text_before(b, a),
    decreases a.len(),
{
    if a.len() == 0 {
        if b.len() == 0 {
            assert(a =~= b);
        }
    } else if b.len() > 0 && a[0] == b[0] {
        lemma_before_or_after(a.drop_first(), b.drop_first());
        if a.drop_first() == b.drop_first() {
            assert(a =~= seq![a[0]] + a.drop_first());
            assert(b =~= seq![b[0]] + b.drop_first());
        }
    }
}

/// What comes before a text comes before all that follow it.
proof fn lemma_before_all(a: Seq<char>, b: Seq<char>, c: Seq<char>)
    requires
        text_before(a, b),
        text_before(b, c),
    ensures
        text_before(a, c),
    decreases a.len(),
{
    if a.len() > 0 && a[0] == b[0] && b[0] == c[0] {
        lemma_before_all(a.drop_first(), b.drop_first(), c.drop_first());
    }
}

/// Whether a text comes before another.
fn comes_before(a: &str, b: &str) -> (r: bool)
    ensures
        r == text_before(a@, b@),
{
    let n: usize = a.unicode_len();
    let m: usize = b.unicode_len();
    let mut i: usize = 0;
    assert(a@.skip(0) =~= a@ && b@.skip(0) =~= b@);
    while i < n && i < m
        invariant
            n == a@.len(),
            m == b@.len(),
            i <= n,
            i <= m,
            text_before(a@, b@) == text_before(a@.skip(i as int), b@.skip(i as int)),
        decreases n - i,
    {
        let c: char = a.get_char(i);
        let d: char = b.get_char(i);
        proof {
            assert(a@.skip(i as int).drop_first() =~= a@.skip(i + 1));
            assert(b@.skip(i as int).drop_first() =~= b@.skip(i + 1));
        }
        if c != d {
            return c < d;
        }
        i += 1;
    }
    i < m
}

/// In sorted entries a key stands once.
proof fn lemma_under_once(entries: Seq<(String, String)>, key: Seq<char>, i: int)
    requires
        keys_sorted(entries),
        is_under(entries, key, i),
    ensures
        stored(entries).contains_key(key),
        stored(entries)[key] == entries[i].1@,
{
    let k = choose|k: int| is_under(entries, key, k);
    lemma_not_before_itself(key);
    assert(k == i) by {
        if k < i {
            assert(text_before(entries[k].0@, entries[i].0@));
        }
        if i < k {
            assert(text_before(entries[i].0@, entries[k].0@));
        }
    }
}

/// The value stored under a key.
pub fn lookup(entries: &Vec<(String, String)>, key: &str) -> (r: Option<String>)
    requires
        keys_sorted(entries@),
    ensures
        match r {
            Some(v) => stored(entries@).contains_key(key@) && v@ == stored(entries@)[key@],
            None => !stored(entries@).contains_key(key@),
        },
{
    let mut i: usize = 0;
    while i < entries.len()
        invariant
            i <= entries@.len(),
            keys_sorted(entries@),
            forall|k: int| 0 <= k < i ==> (#[trigger] entries@[k]).0@ != key@,
        decreases entries@.len() - i,
    {
        if same_text(entries[i].0.as_str(), key) {
            proof {
                lemma_under_once(entries@, key@, i as int);
            }
            return Some(entries[i].1.clone());
        }
        i += 1;
    }
    None
}

/// Store a value under a key, in place of the one that was there.
pub fn put(entries: &mut Vec<(String, String)>, key: String, value: String)
    requires
        keys_sorted(old(entries)@),
    ensures
        keys_sorted(final(entries)@),
        stored(final(entries)@) == stored(old(entries)@).insert(key@, value@),
{
    let ghost before = entries@;
    let ghost k = key@;
    let ghost v = value@;
    let mut at: usize = 0;
    while at < entries.len() && comes_before(entries[at].0.as_str(), key.as_str())
        invariant
            at <= entries@.len(),
            entries@ == before,
            k == key@,
            forall|i: int| 0 <= i < at ==> text_before((#[trigger] before[i]).0@, k),
        decreases entries@.len() - at,
    {
        at += 1;
    }
    if at < entries.len() && same_text(entries[at].0.as_str(), key.as_str()) {
        let _ = entries.remove(at);
        entries.insert(at, (key, value));
        proof {
            assert(entries@ =~= before.update(at as int, entries@[at as int]));
            assert(keys_sorted(entries@)) by {
                assert forall|i: int, j: int| 0 <= i < j < entries@.len() implies text_before(
                    (#[trigger] entries@[i]).0@,
                    (#[trigger] entries@[j]).0@,
                ) by {
                    assert(text_before(before[i].0@, before[j].0@));
                }
            }
        }
    } else {
        entries.insert(at, (key, value));
        proof {
            assert(entries@ =~= before.insert(at as int, entries@[at as int]));
            if at < before.len() {
                lemma_before_or_after(before[at as int].0@, k);
            }
            assert forall|j: int| at <= j < before.len() implies text_before(
                k,
                (#[trigger] before[j]).0@,
            ) by {
                if at < j {
                    assert(text_before(before[at as int].0@, before[j].0@));
                    lemma_before_all(k, before[at as int].0@, before[j].0@);
                }
            }
            assert forall|i: int, j: int| 0 <= i < j < entries@.len() implies text_before(
                (#[trigger] entries@[i]).0@,
                (#[trigger] entries@[j]).0@,
            ) by {
                let a = if i > at { i - 1 } else { i };
                let b = if j > at { j - 1 } else { j };
                if i != at && j != at {
                    assert(text_before(before[a].0@, before[b].0@));
                } else if i == at {
                    assert(text_before(k, before[b].0@));
                } else {
                    assert(text_before(before[a].0@, k));
                }
            }
        }
    }
    proof {
        lemma_put(before, entries@, at as int, k, v);
    }
}

/// What a list with one entry more, or one replaced, stands for.
proof fn lemma_put(
    before: Seq<(String, String)>,
    after: Seq<(String, String)>,
    at: int,
    key: Seq<char>,
    value: Seq<char>,
)
    requires
        keys_sorted(before),
        keys_sorted(after),
        0 <= at < after.len(),
        after[at].0@ == key,
        after[at].1@ == value,
        at <= before.len(),
        (at < before.len() && before[at].0@ == key && after == before.update(at, after[at]))
            || after == before.insert(at, after[at]),
    ensures
        stored(after) == stored(before).insert(key, value),
{
    let wanted = stored(before).insert(key, value);
    lemma_under_once(after, key, at);
    assert forall|k: Seq<char>| #[trigger] stored(after).dom().contains(k) == wanted.dom().contains(
        k,
    ) && (wanted.dom().contains(k) ==> stored(after)[k] == wanted[k]) by {
        if k != key {
            if stored(after).contains_key(k) {
                let i = choose|i: int| is_under(after, k, i);
                let j = if after.len() == before.len() || i < at {
                    i
                } else {
                    i - 1
                };
                assert(before[j] == after[i]);
                assert(is_under(before, k, j));
                lemma_under_once(before, k, j);
                lemma_under_once(after, k, i);
            }
            if stored(before).contains_key(k) {
                let j = choose|j: int| is_under(before, k, j);
                let i = if after.len() == before.len() || j < at {
                    j
                } else {
                    j + 1
                };
                assert(after[i] == before[j]);
                assert(is_under(after, k, i));
            }
        }
    }
    assert(stored(after).dom() =~= wanted.dom());
    assert(stored(after) =~= wanted);
}

/// The preferences in a text.
fn load(text: &str) -> (entries: Vec<(String, String)>)
    ensures
        keys_sorted(entries@),
        stored(entries@) == prefs_of(text@),
{
    match read_entries(text) {
        Ok(entries) => entries,
        Err(_) => {
            let none: Vec<(String, String)> = Vec::new();
            assert(stored(none@) =~= Map::empty());
            none
        },
    }
}

/// Read a preference from a stored text; `None` if it is unset or the text unreadable.
pub fn get_pref(text: &str, key: &str) -> (r: Option<String>)
    ensures
        match r {
            Some(v) => prefs_of(text@).contains_key(key@) && v@ == prefs_of(text@)[key@],
            None => !prefs_of(text@).contains_key(key@),
        },
{
    lookup(&load(text), key)
}

/// The text to store after a preference was set. It holds that preference and all others as
/// they were; an unreadable text held none.
pub fn set_pref(text: &str, key: String, value: String) -> (r: String)
    ensures
        r@ == prefs_text(prefs_of(text@).insert(key@, value@)),
        prefs_of(r@) == prefs_of(text@).insert(key@, value@),
{
    let mut entries = load(text);
    put(&mut entries, key, value);
    write_entries(&entries).unwrap()
}

/// Texts are ordered by their first different character, and one that begins another comes
/// before it.
pub proof fn texts_are_ordered_by_their_first_difference(
    head: Seq<char>,
    a: char,
    b: char,
    x: Seq<char>,
    y: Seq<char>,
)
    requires
        a != b,
    ensures
        text_before(head + seq![a] + x, head + seq![b] + y) <==> a < b,
        text_before(head, head + seq![a] + x),
        !text_before(head + seq![a] + x, head),
        !text_before(head, head),
    decreases head.len(),
{
    let l = head + seq![a] + x;
    let r = head + seq![b] + y;
    if head.len() > 0 {
        let rest = head.drop_first();
        texts_are_ordered_by_their_first_difference(rest, a, b, x, y);
        assert(l.drop_first() =~= rest + seq![a] + x);
        assert(r.drop_first() =~= rest + seq![b] + y);
        assert(l[0] == head[0] && r[0] == head[0]);
    } else {
        assert(l[0] == a && r[0] == b);
    }
}

} // verus!
