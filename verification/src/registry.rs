//! Listing the keys of the component containers, so that the systems can
//! walk a fixed list while they change the containers.

use std::collections::{HashMap, HashSet};
use vstd::prelude::*;
use vstd::std_specs::iter::IteratorSpec;

verus! {

broadcast use vstd::std_specs::hash::group_hash_axioms;

/// The members of `set`, each once, in the order the set yields them.
pub fn set_members(set: &HashSet<usize>) -> (ids: Vec<usize>)
    ensures
        ids@.no_duplicates(),
        ids@.to_set() == set@,
{
    let mut ids: Vec<usize> = Vec::new();
    for id in it: set.iter()
        invariant
            ids@.len() == it.index(),
            forall|j: int| 0 <= j < ids@.len() ==> ids@[j] == *it.seq()[j],
    {
        ids.push(*id);
    }
    proof {
        let rest = set.iter().remaining();
        assert(ids@ =~= rest.unref());
    }
    ids
}

/// The keys of `map`, each once, in the order the map yields them.
pub fn map_keys<V>(map: &HashMap<usize, V>) -> (ids: Vec<usize>)
    ensures
        ids@.no_duplicates(),
        ids@.to_set() == map@.dom(),
{
    let mut ids: Vec<usize> = Vec::new();
    for id in it: map.keys()
        invariant
            ids@.len() == it.index(),
            forall|j: int| 0 <= j < ids@.len() ==> ids@[j] == *it.seq()[j],
    {
        ids.push(*id);
    }
    proof {
        let rest = map.keys().remaining();
        assert(ids@ =~= rest.unref());
    }
    ids
}

/// A list with the same items in the same order.
pub fn copy_list<T: Copy>(items: &Vec<T>) -> (copy: Vec<T>)
    ensures
        copy@ == items@,
{
    let mut copy: Vec<T> = Vec::new();
    let mut i: usize = 0;
    while i < items.len()
        invariant
            0 <= i <= items.len(),
            copy@ == items@.subrange(0, i as int),
        decreases items.len() - i,
    {
        copy.push(items[i]);
        assert(copy@ =~= items@.subrange(0, i as int + 1));
        i += 1;
    }
    assert(copy@ =~= items@);
    copy
}

/// The first `i + 1` items of a list are its first `i` items and the item
/// at `i`; in a list without repeats that item is not among the first `i`.
pub proof fn lemma_prefix_step<T>(items: Seq<T>, i: int)
    requires
        0 <= i < items.len(),
    ensures
        items.subrange(0, i + 1) == items.subrange(0, i).push(items[i]),
        ({
            let n = i + 1;
            forall|x: T| #[trigger]
                items.subrange(0, n).contains(x) <==> (items.subrange(0, i).contains(x) || x
                    == items[i])
        }),
        forall|x: T| #[trigger]
            items.subrange(0, i).contains(x) ==> items.subrange(0, i + 1).contains(x),
        items.subrange(0, i + 1).contains(items[i]),
        items.no_duplicates() ==> !items.subrange(0, i).contains(items[i]),
        items.contains(items[i]),
{
    let done = items.subrange(0, i);
    let more = items.subrange(0, i + 1);
    assert(more =~= done.push(items[i]));
    assert forall|x: T| more.contains(x) <==> (done.contains(x) || x == items[i]) by {
        if more.contains(x) {
            let j = choose|j: int| 0 <= j < more.len() && more[j] == x;
            if j < done.len() {
                assert(done[j] == x);
            }
        }
        if done.contains(x) {
            let j = choose|j: int| 0 <= j < done.len() && done[j] == x;
            assert(more[j] == x);
        }
        if x == items[i] {
            assert(more[i] == x);
        }
    }
    if items.no_duplicates() && done.contains(items[i]) {
        let j = choose|j: int| 0 <= j < done.len() && done[j] == items[i];
        assert(items[j] == items[i]);
    }
    assert(items[i] == items[i]);
}

/// What a list holds after one more item was put at its end.
pub proof fn lemma_push_contains<T>(items: Seq<T>, last: T)
    ensures
        forall|x: T| items.push(last).contains(x) <==> (items.contains(x) || x == last),
        items.no_duplicates() && !items.contains(last) ==> items.push(last).no_duplicates(),
{
    let more = items.push(last);
    assert forall|x: T| more.contains(x) <==> (items.contains(x) || x == last) by {
        if more.contains(x) {
            let j = choose|j: int| 0 <= j < more.len() && more[j] == x;
            if j < items.len() {
                assert(items[j] == x);
            }
        }
        if items.contains(x) {
            let j = choose|j: int| 0 <= j < items.len() && items[j] == x;
            assert(more[j] == x);
        }
        if x == last {
            assert(more[items.len() as int] == x);
        }
    }
    if items.no_duplicates() && !items.contains(last) {
        assert forall|a: int, b: int| 0 <= a < more.len() && 0 <= b < more.len() && a != b implies more[a]
            != more[b] by {
            if a < items.len() {
                assert(items[a] == more[a]);
            }
            if b < items.len() {
                assert(items[b] == more[b]);
            }
        }
    }
}

/// A list taken whole is its own prefix.
pub proof fn lemma_prefix_whole<T>(items: Seq<T>)
    ensures
        items.subrange(0, items.len() as int) == items,
        forall|x: T| items.to_set().contains(x) <==> items.contains(x),
{
    assert(items.subrange(0, items.len() as int) =~= items);
}

} // verus!
