//! Stable sorting of timed items.

use vstd::prelude::*;

verus! {

/// Something that stands at a time on the timeline.
pub trait Timed: Sized {
    /// The time it stands at.
    spec fn at(self) -> i64;

    /// The time it stands at.
    fn when(&self) -> (t: i64)
        ensures
            t == self.at(),
    ;
}

impl Timed for i64 {
    open spec fn at(self) -> i64 {
        self
    }

    fn when(&self) -> (t: i64) {
        *self
    }
}

/// Whether items stand in the order of their times.
pub open spec fn sorted<T: Timed>(z: Seq<T>) -> bool {
    forall|i: int, j: int| 0 <= i <= j < z.len() ==> (#[trigger] z[i]).at() <= (#[trigger] z[j]).at()
}

/// The place behind the last item that stands no later than `t`.
pub open spec fn place_after<T: Timed>(z: Seq<T>, t: i64) -> int
    decreases z.len(),
{
    if z.len() == 0 {
        0
    } else if z.last().at() <= t {
        z.len() as int
    } else {
        place_after(z.drop_last(), t)
    }
}

/// Items in the order of their times; equal times keep their order.
pub open spec fn in_order<T: Timed>(z: Seq<T>) -> Seq<T>
    decreases z.len(),
{
    if z.len() == 0 {
        Seq::empty()
    } else {
        let rest = in_order(z.drop_last());
        rest.insert(place_after(rest, z.last().at()), z.last())
    }
}

/// What the place behind the last item no later than `t` says of the items.
pub proof fn lemma_place<T: Timed>(z: Seq<T>, t: i64)
    ensures
        0 <= place_after(z, t) <= z.len(),
        place_after(z, t) > 0 ==> z[place_after(z, t) - 1].at() <= t,
        forall|i: int| place_after(z, t) <= i < z.len() ==> (#[trigger] z[i]).at() > t,
        sorted(z) ==> forall|i: int|
            0 <= i < place_after(z, t) ==> (#[trigger] z[i]).at() <= t,
    decreases z.len(),
{
    if z.len() > 0 && z.last().at() > t {
        let rest = z.drop_last();
        lemma_place(rest, t);
        assert forall|i: int| place_after(z, t) <= i < z.len() implies (#[trigger] z[i]).at() > t by {
            if i < rest.len() {
                assert(rest[i] == z[i]);
            }
        }
        if place_after(z, t) > 0 {
            assert(rest[place_after(z, t) - 1] == z[place_after(z, t) - 1]);
        }
    }
    if sorted(z) && place_after(z, t) > 0 {
        let last = place_after(z, t) - 1;
        assert(z[last].at() <= t);
        assert forall|i: int| 0 <= i < place_after(z, t) implies (#[trigger] z[i]).at() <= t by {
            assert(z[i].at() <= z[last].at());
        }
    }
}

/// Inserting behind the last item that is no later keeps a list sorted.
pub proof fn lemma_insert_sorted<T: Timed>(z: Seq<T>, k: T)
    requires
        sorted(z),
    ensures
        0 <= place_after(z, k.at()) <= z.len(),
        sorted(z.insert(place_after(z, k.at()), k)),
{
    lemma_place(z, k.at());
    let at = place_after(z, k.at());
    let out = z.insert(at, k);
    assert forall|i: int, j: int| 0 <= i <= j < out.len() implies (#[trigger] out[i]).at()
        <= (#[trigger] out[j]).at() by {
        let bi = if i < at {
            i
        } else {
            i - 1
        };
        let bj = if j < at {
            j
        } else {
            j - 1
        };
        if i != at && j != at {
            assert(out[i] == z[bi] && out[j] == z[bj]);
            assert(z[bi].at() <= z[bj].at());
        } else if i != at {
            assert(out[i] == z[bi]);
        } else if j != at {
            assert(out[j] == z[bj]);
        }
    }
}

/// Sorting gives a sorted list of the same items.
pub proof fn sorting_sorts<T: Timed>(z: Seq<T>)
    ensures
        sorted(in_order(z)),
        in_order(z).len() == z.len(),
        in_order(z).to_multiset() == z.to_multiset(),
    decreases z.len(),
{
    broadcast use vstd::seq_lib::group_to_multiset_ensures;

    if z.len() > 0 {
        let rest = in_order(z.drop_last());
        sorting_sorts(z.drop_last());
        lemma_insert_sorted(rest, z.last());
        vstd::seq_lib::to_multiset_insert(rest, place_after(rest, z.last().at()), z.last());
        assert(z =~= z.drop_last().push(z.last()));
        assert(z.to_multiset() =~= z.drop_last().to_multiset().insert(z.last()));
    } else {
        assert(in_order(z) =~= z);
    }
}

/// A list that is sorted already stays as it is.
pub proof fn sorting_keeps_sorted_lists<T: Timed>(z: Seq<T>)
    requires
        sorted(z),
    ensures
        in_order(z) == z,
    decreases z.len(),
{
    if z.len() > 0 {
        let rest = z.drop_last();
        assert(sorted(rest)) by {
            assert forall|i: int, j: int| 0 <= i <= j < rest.len() implies (#[trigger] rest[i]).at()
                <= (#[trigger] rest[j]).at() by {
                assert(z[i].at() <= z[j].at());
            }
        }
        sorting_keeps_sorted_lists(rest);
        if rest.len() > 0 {
            assert(rest.last() == z[z.len() - 2]);
            assert(z[z.len() - 2].at() <= z[z.len() - 1].at());
        }
        assert(place_after(rest, z.last().at()) == rest.len());
        assert(in_order(z) =~= z);
    } else {
        assert(in_order(z) =~= z);
    }
}

/// Find the place behind the last item that stands no later than `t`.
pub fn place_for<T: Timed>(z: &Vec<T>, t: i64) -> (at: usize)
    ensures
        at == place_after(z@, t),
        at <= z@.len(),
{
    let mut at: usize = z.len();
    assert(z@.take(at as int) =~= z@);
    while at > 0 && z[at - 1].when() > t
        invariant
            at <= z@.len(),
            place_after(z@, t) == place_after(z@.take(at as int), t),
        decreases at,
    {
        assert(z@.take(at as int).drop_last() =~= z@.take(at - 1));
        at -= 1;
    }
    proof {
        let head = z@.take(at as int);
        if at > 0 {
            assert(head.last() == z@[at - 1]);
        }
    }
    at
}

/// Sort items by time (stable).
pub fn sort_by_time<T: Timed + Copy>(v: &mut Vec<T>)
    ensures
        final(v)@ == in_order(old(v)@),
{
    let mut out: Vec<T> = Vec::new();
    let mut i: usize = 0;
    assert(v@.take(0) =~= Seq::<T>::empty());
    while i < v.len()
        invariant
            i <= v@.len(),
            v@ == old(v)@,
            out@ == in_order(v@.take(i as int)),
        decreases v@.len() - i,
    {
        let k: T = v[i];
        let at: usize = place_for(&out, k.when());
        proof {
            let more = v@.take(i + 1);
            assert(more.drop_last() =~= v@.take(i as int));
            assert(more.last() == k);
        }
        out.insert(at, k);
        i += 1;
    }
    assert(v@.take(i as int) =~= v@);
    *v = out;
}

/// Sorting loses no item and adds none: each stands somewhere in the sorted list.
pub proof fn sorting_keeps_the_items<T: Timed>(z: Seq<T>, i: int, j: int) -> (k: (int, int))
    ensures
        0 <= i < z.len() ==> 0 <= k.0 < z.len() && in_order(z)[k.0] == z[i],
        0 <= j < z.len() ==> 0 <= k.1 < z.len() && in_order(z)[j] == z[k.1],
{
    let out = in_order(z);
    sorting_sorts(z);
    z.to_multiset_ensures();
    out.to_multiset_ensures();
    let a = if 0 <= i < z.len() {
        assert(z.to_multiset().count(z[i]) > 0);
        assert(out.contains(z[i]));
        choose|k: int| 0 <= k < out.len() && out[k] == z[i]
    } else {
        0
    };
    let b = if 0 <= j < z.len() {
        assert(out.to_multiset().count(out[j]) > 0);
        assert(z.contains(out[j]));
        choose|k: int| 0 <= k < z.len() && z[k] == out[j]
    } else {
        0
    };
    (a, b)
}

} // verus!
