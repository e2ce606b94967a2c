//! Walking a set: its members as a vector, and what holds of a vector's prefixes.

use vstd::prelude::*;
use vstd::std_specs::iter::IteratorSpec;
use std::collections::{HashMap, HashSet};
use crate::types::PointIdType;

verus! {

broadcast use vstd::std_specs::hash::group_hash_axioms;

/// The ids in `set`, each once, in no particular order.
pub fn listing(set: &HashSet<PointIdType>) -> (ids: Vec<PointIdType>)
    ensures
        ids@.to_set() == set@,
        ids@.no_duplicates(),
{
    let mut ids: Vec<PointIdType> = Vec::new();
    let ghost all: Seq<&PointIdType> = set.iter().remaining();
    for id in it: set.iter()
        invariant
            it.seq() == all,
            ids@ == all.take(it.index()).unref(),
    {
        ids.push(*id);
    }
    assert(ids@ =~= all.unref());
    ids
}

/// The keys of `map`, each once, in no particular order.
pub fn keys_of<V>(map: &HashMap<usize, V>) -> (keys: Vec<usize>)
    ensures
        keys@.to_set() == map@.dom(),
        keys@.no_duplicates(),
{
    let mut keys: Vec<usize> = Vec::new();
    let ghost all: Seq<&usize> = map.keys().remaining();
    for key in it: map.keys()
        invariant
            it.seq() == all,
            keys@ == all.take(it.index()).unref(),
    {
        keys.push(*key);
    }
    assert(keys@ =~= all.unref());
    keys
}

/// One more element of `s` taken: the prefix grows by `s[i]`.
pub proof fn lemma_take_step<A>(s: Seq<A>, i: int)
    requires
        0 <= i < s.len(),
    ensures
        s.take(i + 1) == s.take(i).push(s[i]),
        s.take(i + 1).to_set() == s.take(i).to_set().insert(s[i]),
        forall|x: A| s.take(i + 1).contains(x) <==> s.take(i).contains(x) || x == s[i],
{
    assert(s.take(i + 1) =~= s.take(i).push(s[i]));
    s.take(i).lemma_push_to_set_commute(s[i]);
    assert forall|x: A| s.take(i + 1).contains(x) <==> s.take(i).contains(x) || x == s[i] by {
        vstd::seq_lib::lemma_seq_contains_after_push(s.take(i), s[i], x);
    }
}

/// A new element at the end keeps a sequence free of duplicates.
pub proof fn lemma_push_fresh<A>(s: Seq<A>, x: A)
    requires
        s.no_duplicates(),
        !s.contains(x),
    ensures
        s.push(x).no_duplicates(),
        forall|y: A| s.push(x).contains(y) <==> s.contains(y) || y == x,
{
    assert forall|y: A| s.push(x).contains(y) <==> s.contains(y) || y == x by {
        vstd::seq_lib::lemma_seq_contains_after_push(s, x, y);
    }
    assert forall|i: int, j: int| 0 <= i < s.push(x).len() && 0 <= j < s.push(x).len() && i != j implies s.push(
        x,
    )[i] != s.push(x)[j] by {
        if i < s.len() {
            assert(s.contains(s[i]));
        }
        if j < s.len() {
            assert(s.contains(s[j]));
        }
    }
}

/// Nothing taken, and everything taken.
pub proof fn lemma_take_ends<A>(s: Seq<A>)
    ensures
        s.take(0) == Seq::<A>::empty(),
        s.take(0).to_set() == Set::<A>::empty(),
        s.take(s.len() as int) == s,
{
    assert(s.take(0) =~= Seq::<A>::empty());
    assert(s.take(0).to_set() =~= Set::<A>::empty());
    assert(s.take(s.len() as int) =~= s);
}

} // verus!
