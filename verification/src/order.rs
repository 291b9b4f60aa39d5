//! Ordering by recency. Sessions and projects are listed newest first, by the
//! text of their time stamp, and items with equal stamps keep the order in
//! which they were found.

use crate::text::{
    lemma_less_irreflexive, lemma_less_transitive, less, text_less,
};
use vstd::prelude::*;

verus! {

/// A value that carries a time stamp.
pub trait Stamped {
    spec fn stamp(&self) -> Seq<char>;
}

/// A value whose time stamp can be read.
pub trait Dated: Stamped + Sized {
    fn stamp_chars(&self) -> (r: Vec<char>)
        ensures
            r@ == self.stamp(),
    ;
}

/// The first position at or after `from` whose item is older than `key`, or the
/// length where no item is.
pub open spec fn slot<V: Stamped>(s: Seq<V>, key: Seq<char>, from: int) -> int
    decreases s.len() - from,
{
    if from < 0 || from >= s.len() {
        s.len() as int
    } else if text_less(s[from].stamp(), key) {
        from
    } else {
        slot(s, key, from + 1)
    }
}

/// The sequence with `x` placed behind every item that is not older than it.
pub open spec fn placed<V: Stamped>(s: Seq<V>, x: V) -> Seq<V> {
    s.insert(slot(s, x.stamp(), 0), x)
}

/// The items ordered newest first; items with equal stamps keep their order.
pub open spec fn newest_first<V: Stamped>(s: Seq<V>) -> Seq<V>
    decreases s.len(),
{
    if s.len() == 0 {
        Seq::empty()
    } else {
        placed(newest_first(s.drop_last()), s.last())
    }
}

/// No item stands before a newer one.
pub open spec fn is_newest_first<V: Stamped>(s: Seq<V>) -> bool {
    forall|i: int, j: int|
        0 <= i < j < s.len() ==> !text_less((#[trigger] s[i]).stamp(), (#[trigger] s[j]).stamp())
}

/// The items that carry the stamp `k`, in order.
pub open spec fn stamped_at<V: Stamped>(s: Seq<V>, k: Seq<char>) -> Seq<V>
    decreases s.len(),
{
    if s.len() == 0 {
        Seq::empty()
    } else if s.last().stamp() == k {
        stamped_at(s.drop_last(), k).push(s.last())
    } else {
        stamped_at(s.drop_last(), k)
    }
}

/// `slot` lies within the sequence; every item before it, from `from` on, is
/// not older than `key`; the item at it, if there is one, is older.
pub proof fn lemma_slot<V: Stamped>(s: Seq<V>, key: Seq<char>, from: int)
    requires
        0 <= from <= s.len(),
    ensures
        from <= slot(s, key, from) <= s.len(),
        forall|j: int| from <= j < slot(s, key, from) ==> !text_less((#[trigger] s[j]).stamp(), key),
        slot(s, key, from) < s.len() ==> text_less(s[slot(s, key, from)].stamp(), key),
    decreases s.len() - from,
{
    if from < s.len() && !text_less(s[from].stamp(), key) {
        lemma_slot(s, key, from + 1);
    }
}

/// Placing an item into an ordered sequence keeps it ordered.
pub proof fn lemma_placed_sorted<V: Stamped>(s: Seq<V>, x: V)
    requires
        is_newest_first(s),
    ensures
        is_newest_first(placed(s, x)),
{
    let key = x.stamp();
    let p = slot(s, key, 0);
    lemma_slot(s, key, 0);
    let t = placed(s, x);
    assert forall|i: int, j: int| 0 <= i < j < t.len() implies !text_less(
        (#[trigger] t[i]).stamp(),
        (#[trigger] t[j]).stamp(),
    ) by {
        if j == p {
            assert(t[i] == s[i]);
        } else if i == p {
            assert(t[j] == s[j - 1]);
            if text_less(key, s[j - 1].stamp()) {
                lemma_less_transitive(s[p].stamp(), key, s[j - 1].stamp(), 0);
                if j - 1 == p {
                    lemma_less_irreflexive(s[p].stamp(), 0);
                } else {
                    assert(!text_less(s[p].stamp(), s[j - 1].stamp()));
                }
            }
        } else {
            let a = if i < p {
                i
            } else {
                i - 1
            };
            let b = if j < p {
                j
            } else {
                j - 1
            };
            assert(t[i] == s[a]);
            assert(t[j] == s[b]);
            assert(!text_less(s[a].stamp(), s[b].stamp()));
        }
    }
}

/// The items with a given stamp, taken from two parts, are those of the first
/// part followed by those of the second.
pub proof fn lemma_stamped_at_concat<V: Stamped>(a: Seq<V>, b: Seq<V>, k: Seq<char>)
    ensures
        stamped_at(a + b, k) == stamped_at(a, k) + stamped_at(b, k),
    decreases b.len(),
{
    if b.len() == 0 {
        assert(a + b =~= a);
        assert(stamped_at(a, k) + stamped_at(b, k) =~= stamped_at(a, k));
    } else {
        lemma_stamped_at_concat(a, b.drop_last(), k);
        assert((a + b).drop_last() =~= a + b.drop_last());
        assert((a + b).last() == b.last());
        if b.last().stamp() == k {
            assert((stamped_at(a, k) + stamped_at(b.drop_last(), k)).push(b.last()) =~= stamped_at(
                a,
                k,
            ) + stamped_at(b.drop_last(), k).push(b.last()));
        }
    }
}

/// A sequence in which no item carries the stamp `k` gives nothing for `k`.
pub proof fn lemma_stamped_at_none<V: Stamped>(s: Seq<V>, k: Seq<char>)
    requires
        forall|j: int| 0 <= j < s.len() ==> (#[trigger] s[j]).stamp() != k,
    ensures
        stamped_at(s, k) == Seq::<V>::empty(),
    decreases s.len(),
{
    if s.len() > 0 {
        lemma_stamped_at_none(s.drop_last(), k);
    }
}

/// Placing an item into an ordered sequence puts it behind the items that
/// carry its stamp and leaves the items of every stamp in their order.
pub proof fn lemma_placed_stable<V: Stamped>(s: Seq<V>, x: V, k: Seq<char>)
    requires
        is_newest_first(s),
    ensures
        stamped_at(placed(s, x), k) == stamped_at(s.push(x), k),
{
    let key = x.stamp();
    let p = slot(s, key, 0);
    lemma_slot(s, key, 0);
    let head = s.take(p);
    let tail = s.skip(p);
    assert(s =~= head + tail);
    assert(placed(s, x) =~= head.push(x) + tail);
    lemma_stamped_at_concat(head, tail, k);
    lemma_stamped_at_concat(head.push(x), tail, k);
    assert(head.push(x).drop_last() =~= head);
    assert(s.push(x).drop_last() =~= s);
    if key == k {
        assert forall|j: int| 0 <= j < tail.len() implies (#[trigger] tail[j]).stamp() != k by {
            assert(tail[j] == s[p + j]);
            if s[p + j].stamp() == k {
                if j == 0 {
                    lemma_less_irreflexive(k, 0);
                } else {
                    assert(!text_less(s[p].stamp(), s[p + j].stamp()));
                }
            }
        }
        lemma_stamped_at_none(tail, k);
        assert(stamped_at(head.push(x), k) + Seq::<V>::empty() =~= stamped_at(head.push(x), k));
        assert(stamped_at(head, k) + Seq::<V>::empty() =~= stamped_at(head, k));
    }
}

/// Listing newest first orders the items: no item stands before a newer one.
pub proof fn lemma_newest_first_sorted<V: Stamped>(s: Seq<V>)
    ensures
        is_newest_first(newest_first(s)),
        newest_first(s).len() == s.len(),
    decreases s.len(),
{
    if s.len() > 0 {
        lemma_newest_first_sorted(s.drop_last());
        lemma_placed_sorted(newest_first(s.drop_last()), s.last());
        lemma_slot(newest_first(s.drop_last()), s.last().stamp(), 0);
    }
}

/// Listing newest first is stable and loses nothing: for every stamp, the items
/// that carry it are the same, in the same order, before and after.
pub proof fn lemma_newest_first_stable<V: Stamped>(s: Seq<V>, k: Seq<char>)
    ensures
        stamped_at(newest_first(s), k) == stamped_at(s, k),
    decreases s.len(),
{
    if s.len() > 0 {
        let before = newest_first(s.drop_last());
        lemma_newest_first_stable(s.drop_last(), k);
        lemma_newest_first_sorted(s.drop_last());
        lemma_placed_stable(before, s.last(), k);
        assert(before.push(s.last()).drop_last() =~= before);
    }
}

/// Listing newest first keeps the items: each listed item is one of those given.
pub proof fn lemma_newest_first_keeps<V: Stamped>(s: Seq<V>)
    ensures
        forall|i: int| 0 <= i < newest_first(s).len() ==> s.contains(#[trigger] newest_first(s)[i]),
    decreases s.len(),
{
    if s.len() > 0 {
        let before = newest_first(s.drop_last());
        lemma_newest_first_keeps(s.drop_last());
        lemma_slot(before, s.last().stamp(), 0);
        let p = slot(before, s.last().stamp(), 0);
        assert forall|i: int| 0 <= i < newest_first(s).len() implies s.contains(
            #[trigger] newest_first(s)[i],
        ) by {
            if i == p {
                assert(newest_first(s)[i] == s[s.len() - 1]);
            } else {
                let j = if i < p {
                    i
                } else {
                    i - 1
                };
                assert(newest_first(s)[i] == before[j]);
                assert(s.drop_last().contains(before[j]));
                let k = choose|k: int| 0 <= k < s.drop_last().len() && s.drop_last()[k] == before[j];
                assert(s[k] == before[j]);
            }
        }
    }
}

/// One item alone is its own listing.
pub proof fn lemma_newest_first_single<V: Stamped>(x: V)
    ensures
        newest_first(seq![x]) == seq![x],
{
    let one = seq![x];
    assert(one.drop_last() =~= Seq::<V>::empty());
    assert(newest_first(one.drop_last()) =~= Seq::<V>::empty());
    assert(slot(Seq::<V>::empty(), x.stamp(), 0) == 0);
    assert(placed(Seq::<V>::empty(), x) =~= one);
}

/// Of two items, the newer one is listed first.
pub proof fn lemma_newer_comes_first<V: Stamped>(older: V, newer: V)
    requires
        text_less(older.stamp(), newer.stamp()),
    ensures
        newest_first(seq![older, newer]) == seq![newer, older],
        newest_first(seq![newer, older]) == seq![newer, older],
{
    lemma_less_irreflexive(older.stamp(), 0);
    if text_less(newer.stamp(), older.stamp()) {
        lemma_less_transitive(older.stamp(), newer.stamp(), older.stamp(), 0);
    }
    let one = seq![older, newer];
    assert(one.drop_last() =~= seq![older]);
    lemma_newest_first_single(older);
    assert(slot(seq![older], newer.stamp(), 0) == 0);
    assert(newest_first(one) =~= seq![newer, older]);
    let two = seq![newer, older];
    assert(two.drop_last() =~= seq![newer]);
    lemma_newest_first_single(newer);
    assert(slot(seq![newer], older.stamp(), 1) == 1);
    assert(slot(seq![newer], older.stamp(), 0) == 1);
    assert(newest_first(two) =~= seq![newer, older]);
}

/// The items ordered newest first; items with equal stamps keep their order.
pub fn sort_newest_first<T: Dated>(items: Vec<T>) -> (r: Vec<T>)
    ensures
        r@ == newest_first(items@),
{
    let mut rest = items;
    let mut out: Vec<T> = Vec::new();
    let mut keys: Vec<Vec<char>> = Vec::new();
    let ghost mut done: Seq<T> = Seq::empty();
    assert(done + rest@ =~= items@);
    while rest.len() > 0
        invariant
            done + rest@ == items@,
            out@ == newest_first(done),
            keys@.len() == out@.len(),
            forall|j: int| 0 <= j < keys@.len() ==> (#[trigger] keys@[j])@ == out@[j].stamp(),
        decreases rest.len(),
    {
        let x = rest.remove(0);
        let key = x.stamp_chars();
        let mut p: usize = 0;
        while p < out.len() && !less(&keys[p], &key)
            invariant
                p <= out.len(),
                keys@.len() == out@.len(),
                forall|j: int| 0 <= j < keys@.len() ==> (#[trigger] keys@[j])@ == out@[j].stamp(),
                slot(out@, key@, 0) == slot(out@, key@, p as int),
            decreases out.len() - p,
        {
            p += 1;
        }
        proof {
            assert(done.push(x).drop_last() =~= done);
            assert(done.push(x) + rest@ =~= items@);
            done = done.push(x);
        }
        out.insert(p, x);
        keys.insert(p, key);
    }
    assert(done =~= items@);
    out
}

} // verus!
