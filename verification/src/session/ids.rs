//! Finding annotations by id, and fresh ids.

use crate::project::annotation::{ArrowAnnotation, HighlightBox, TextAnnotation};
use crate::project::model::{Project, ProjectModel};
use crate::units::greater;
use vstd::prelude::*;

verus! {

/// Something with an id.
pub trait Keyed: Sized {
    /// Its id.
    spec fn key(self) -> u32;

    /// Its id.
    fn id_of(&self) -> (id: u32)
        ensures
            id == self.key(),
    ;
}

impl Keyed for TextAnnotation {
    open spec fn key(self) -> u32 {
        self.id
    }

    fn id_of(&self) -> (id: u32) {
        self.id
    }
}

impl Keyed for ArrowAnnotation {
    open spec fn key(self) -> u32 {
        self.id
    }

    fn id_of(&self) -> (id: u32) {
        self.id
    }
}

impl Keyed for HighlightBox {
    open spec fn key(self) -> u32 {
        self.id
    }

    fn id_of(&self) -> (id: u32) {
        self.id
    }
}

/// The first place at or behind `from` of an item with an id.
pub open spec fn found_from<T: Keyed>(s: Seq<T>, id: u32, from: int) -> Option<int>
    decreases s.len() - from,
{
    if from < 0 || from >= s.len() {
        None
    } else if s[from].key() == id {
        Some(from)
    } else {
        found_from(s, id, from + 1)
    }
}

/// The first place of an item with an id.
pub open spec fn found<T: Keyed>(s: Seq<T>, id: u32) -> Option<int> {
    found_from(s, id, 0)
}

/// Find the first item with an id.
pub fn find<T: Keyed>(v: &Vec<T>, id: u32) -> (r: Option<usize>)
    ensures
        match r {
            Some(i) => i < v@.len() && found(v@, id) == Some(i as int),
            None => found(v@, id) is None,
        },
{
    let mut i: usize = 0;
    while i < v.len()
        invariant
            i <= v@.len(),
            found(v@, id) == found_from(v@, id, i as int),
        decreases v@.len() - i,
    {
        if v[i].id_of() == id {
            return Some(i);
        }
        i += 1;
    }
    None
}

/// The items without those that have an id.
pub open spec fn without<T: Keyed>(s: Seq<T>, id: u32) -> Seq<T>
    decreases s.len(),
{
    if s.len() == 0 {
        Seq::empty()
    } else {
        let rest = without(s.drop_last(), id);
        if s.last().key() == id {
            rest
        } else {
            rest.push(s.last())
        }
    }
}

/// Remove every item with an id.
pub fn remove_all<T: Keyed>(v: &mut Vec<T>, id: u32)
    ensures
        final(v)@ == without(old(v)@, id),
{
    let ghost all = v@;
    let ghost mut k: int = 0;
    let mut i: usize = 0;
    proof {
        assert(all.take(0) =~= Seq::empty());
        assert(v@ =~= without(all.take(0), id) + all.skip(0));
    }
    while i < v.len()
        invariant
            0 <= k <= all.len(),
            i <= v@.len(),
            i == without(all.take(k), id).len(),
            v@ == without(all.take(k), id) + all.skip(k),
        decreases v@.len() - i,
    {
        let ghost kept = without(all.take(k), id);
        proof {
            assert(v@[i as int] == all[k]);
            assert(all.take(k + 1).drop_last() =~= all.take(k));
            assert(all.take(k + 1).last() == all[k]);
        }
        if v[i].id_of() == id {
            v.remove(i);
            assert(v@ =~= kept + all.skip(k + 1));
        } else {
            i += 1;
            assert(v@ =~= kept.push(all[k]) + all.skip(k + 1));
        }
        proof {
            k = k + 1;
        }
    }
    proof {
        assert(all.skip(k).len() == 0);
        assert(all.take(k) =~= all);
        assert(v@ =~= without(all, id));
    }
}

/// Nothing with the id is left after removing it, and everything else stays in order.
pub proof fn removing_removes<T: Keyed>(s: Seq<T>, id: u32)
    ensures
        found(without(s, id), id) is None,
        forall|i: int|
            0 <= i < without(s, id).len() ==> (#[trigger] without(s, id)[i]).key() != id,
        without(s, id) == s.filter(|x: T| x.key() != id),
{
    lemma_without(s, id);
    lemma_not_found(without(s, id), id, 0);
    lemma_without_filters(s, id);
}

proof fn lemma_without_filters<T: Keyed>(s: Seq<T>, id: u32)
    ensures
        without(s, id) == s.filter(|x: T| x.key() != id),
    decreases s.len(),
{
    reveal(Seq::filter);
    if s.len() > 0 {
        lemma_without_filters(s.drop_last(), id);
    }
}

proof fn lemma_without<T: Keyed>(s: Seq<T>, id: u32)
    ensures
        forall|i: int|
            0 <= i < without(s, id).len() ==> (#[trigger] without(s, id)[i]).key() != id,
    decreases s.len(),
{
    if s.len() > 0 {
        let rest = without(s.drop_last(), id);
        lemma_without(s.drop_last(), id);
        assert forall|i: int| 0 <= i < without(s, id).len() implies (#[trigger] without(
            s,
            id,
        )[i]).key() != id by {
            if i < rest.len() {
                assert(without(s, id)[i] == rest[i]);
            }
        }
    }
}

proof fn lemma_not_found<T: Keyed>(s: Seq<T>, id: u32, from: int)
    requires
        0 <= from,
        forall|i: int| 0 <= i < s.len() ==> (#[trigger] s[i]).key() != id,
    ensures
        found_from(s, id, from) is None,
    decreases s.len() - from,
{
    if from < s.len() {
        lemma_not_found(s, id, from + 1);
    }
}

/// The highest id of some items; zero where there are none.
pub open spec fn highest<T: Keyed>(s: Seq<T>) -> int
    decreases s.len(),
{
    if s.len() == 0 {
        0
    } else {
        greater(highest(s.drop_last()), s.last().key() as int)
    }
}

/// The highest id in use.
pub open spec fn max_id(p: ProjectModel) -> int {
    greater(greater(highest(p.texts), highest(p.arrows)), highest(p.highlights))
}

/// The highest id of some items.
fn find_highest<T: Keyed>(v: &Vec<T>) -> (n: u32)
    ensures
        n == highest(v@),
{
    let mut n: u32 = 0;
    let mut i: usize = 0;
    assert(v@.take(0) =~= Seq::empty());
    while i < v.len()
        invariant
            i <= v@.len(),
            n == highest(v@.take(i as int)),
        decreases v@.len() - i,
    {
        proof {
            assert(v@.take(i + 1).drop_last() =~= v@.take(i as int));
            assert(v@.take(i + 1).last() == v@[i as int]);
        }
        let id: u32 = v[i].id_of();
        if id > n {
            n = id;
        }
        i += 1;
    }
    assert(v@.take(i as int) =~= v@);
    n
}

/// The highest id in use.
pub fn highest_id(p: &Project) -> (n: u32)
    ensures
        n == max_id(p@),
{
    let a: u32 = find_highest(&p.texts);
    let b: u32 = find_highest(&p.arrows);
    let c: u32 = find_highest(&p.highlights);
    let ab: u32 = if b > a {
        b
    } else {
        a
    };
    if c > ab {
        c
    } else {
        ab
    }
}

/// An id that no annotation has.
pub fn next_id(p: &Project) -> (id: u32)
    requires
        max_id(p@) < u32::MAX,
    ensures
        id == max_id(p@) + 1,
{
    highest_id(p) + 1
}

/// No item has an id above the highest.
pub proof fn lemma_highest<T: Keyed>(s: Seq<T>, i: int)
    requires
        0 <= i < s.len(),
    ensures
        s[i].key() <= highest(s),
    decreases s.len(),
{
    if i < s.len() - 1 {
        lemma_highest(s.drop_last(), i);
    }
}

/// A new id is no annotation's id.
pub proof fn new_ids_are_fresh(p: ProjectModel)
    ensures
        forall|i: int| 0 <= i < p.texts.len() ==> (#[trigger] p.texts[i]).id != max_id(p) + 1,
        forall|i: int| 0 <= i < p.arrows.len() ==> (#[trigger] p.arrows[i]).id != max_id(p) + 1,
        forall|i: int|
            0 <= i < p.highlights.len() ==> (#[trigger] p.highlights[i]).id != max_id(p) + 1,
{
    assert forall|i: int| 0 <= i < p.texts.len() implies (#[trigger] p.texts[i]).id != max_id(p) + 1 by {
        lemma_highest(p.texts, i);
    }
    assert forall|i: int| 0 <= i < p.arrows.len() implies (#[trigger] p.arrows[i]).id != max_id(p)
        + 1 by {
        lemma_highest(p.arrows, i);
    }
    assert forall|i: int| 0 <= i < p.highlights.len() implies (#[trigger] p.highlights[i]).id
        != max_id(p) + 1 by {
        lemma_highest(p.highlights, i);
    }
}

/// Whether a place is the first with an id.
pub open spec fn is_first<T: Keyed>(s: Seq<T>, id: u32, i: int) -> bool {
    &&& 0 <= i < s.len()
    &&& s[i].key() == id
    &&& forall|j: int| 0 <= j < i ==> (#[trigger] s[j]).key() != id
}

/// Whether no place has an id.
pub open spec fn is_absent<T: Keyed>(s: Seq<T>, id: u32) -> bool {
    forall|j: int| 0 <= j < s.len() ==> (#[trigger] s[j]).key() != id
}

/// What has an id is found at the first place that has it, and nowhere else.
pub proof fn the_first_match_is_found<T: Keyed>(s: Seq<T>, id: u32, i: int)
    ensures
        found(s, id) == Some(i) <==> is_first(s, id, i),
        found(s, id) is None <==> is_absent(s, id),
{
    lemma_found_from(s, id, 0);
    if let Some(k) = found(s, id) {
        if is_first(s, id, i) && k != i {
            if k < i {
                assert(s[k].key() != id);
            } else {
                assert(s[i].key() != id);
            }
        }
        assert(s[k].key() == id);
    }
}

/// Where the search from a place ends.
proof fn lemma_found_from<T: Keyed>(s: Seq<T>, id: u32, from: int)
    requires
        0 <= from <= s.len(),
    ensures
        match found_from(s, id, from) {
            Some(k) => {
                &&& from <= k < s.len()
                &&& s[k].key() == id
                &&& forall|j: int| from <= j < k ==> (#[trigger] s[j]).key() != id
            },
            None => forall|j: int| from <= j < s.len() ==> (#[trigger] s[j]).key() != id,
        },
    decreases s.len() - from,
{
    if from < s.len() && s[from].key() != id {
        lemma_found_from(s, id, from + 1);
    }
}

/// The highest id is one that occurs, or nothing.
pub proof fn the_highest_id_occurs<T: Keyed>(s: Seq<T>) -> (i: int)
    ensures
        highest(s) == 0 || (0 <= i < s.len() && s[i].key() == highest(s)),
        forall|j: int| 0 <= j < s.len() ==> (#[trigger] s[j]).key() <= highest(s),
    decreases s.len(),
{
    if s.len() == 0 {
        0
    } else {
        let i = the_highest_id_occurs(s.drop_last());
        assert forall|j: int| 0 <= j < s.len() implies (#[trigger] s[j]).key() <= highest(s) by {
            lemma_highest(s, j);
        }
        if highest(s.drop_last()) >= s.last().key() {
            i
        } else {
            s.len() - 1
        }
    }
}

/// The highest id of a project is that of some annotation, or nothing, so the next one is the
/// first that is free above all others.
pub proof fn the_next_id_follows_the_highest(p: ProjectModel)
    ensures
        max_id(p) == 0 || (exists|i: int|
            0 <= i < p.texts.len() && (#[trigger] p.texts[i]).id == max_id(p)) || (exists|i: int|
            0 <= i < p.arrows.len() && (#[trigger] p.arrows[i]).id == max_id(p)) || (exists|i: int|
            0 <= i < p.highlights.len() && (#[trigger] p.highlights[i]).id == max_id(p)),
{
    let a = the_highest_id_occurs(p.texts);
    let b = the_highest_id_occurs(p.arrows);
    let c = the_highest_id_occurs(p.highlights);
    if max_id(p) != 0 {
        if max_id(p) == highest(p.texts) {
            assert(p.texts[a].id == max_id(p));
        } else if max_id(p) == highest(p.arrows) {
            assert(p.arrows[b].id == max_id(p));
        } else {
            assert(p.highlights[c].id == max_id(p));
        }
    }
}

} // verus!
