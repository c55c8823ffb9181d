//! What a type must offer to key the tables of this library, and how the keys of
//! a table are walked.
use std::collections::HashMap;
use std::collections::HashSet;
use std::hash::Hash;
use vstd::laws_eq::obeys_concrete_eq;
use vstd::prelude::*;
use vstd::std_specs::hash::obeys_key_model;

verus! {

/// Whether values of `K` can key a table: `==` decides whether two values are the
/// same, a clone is the same value, and hashing goes along with both.
pub open spec fn is_key<K: Clone + Eq + Hash>() -> bool {
    &&& obeys_key_model::<K>()
    &&& obeys_concrete_eq::<K>()
    &&& forall|a: K, b: K| #[trigger] cloned(a, b) ==> a == b
}

/// The integers that key tables of this library are keys, and so are the integer
/// types that its users are likely to choose.
pub proof fn lemma_integers_are_keys()
    ensures
        is_key::<u32>(),
        is_key::<u64>(),
        is_key::<u128>(),
        is_key::<usize>(),
{
    broadcast use vstd::laws_eq::group_laws_eq;

}

/// Whether `list` holds every element of `s` once and nothing else.
pub open spec fn lists<A>(list: Seq<A>, s: Set<A>) -> bool {
    &&& list.no_duplicates()
    &&& forall|a: A| #[trigger] s.contains(a) <==> list.contains(a)
}

/// A copy of a key.
pub fn copy_key<K: Clone + Eq + Hash>(k: &K) -> (c: K)
    requires
        is_key::<K>(),
    ensures
        c == *k,
{
    let c = k.clone();
    assert(cloned(*k, c));
    c
}

/// Whether two keys are the same.
pub fn same_key<K: Clone + Eq + Hash>(a: &K, b: &K) -> (r: bool)
    requires
        is_key::<K>(),
    ensures
        r == (*a == *b),
{
    proof {
        reveal(obeys_concrete_eq);
    }
    *a == *b
}

/// The keys of a table, each once, in no particular order.
pub fn map_keys<K: Clone + Eq + Hash, V>(m: &HashMap<K, V>) -> (keys: Vec<K>)
    requires
        is_key::<K>(),
    ensures
        lists(keys@, m@.dom()),
{
    let mut keys: Vec<K> = Vec::new();
    for k in it: m.keys()
        invariant
            is_key::<K>(),
            keys@.len() == it.index(),
            forall|i: int| 0 <= i < keys@.len() ==> keys@[i] == *it.seq()[i],
    {
        keys.push(copy_key(k));
    }
    proof {
        let walk = vstd::std_specs::hash::spec_keys_iter(m);
        assert(keys@ =~= vstd::std_specs::iter::IteratorSpec::remaining(&walk).unref());
        assert forall|a: K| #[trigger] m@.dom().contains(a) <==> keys@.contains(a) by {
            assert(keys@.to_set().contains(a) <==> m@.dom().contains(a));
        }
    }
    keys
}

/// The elements of a set, each once, in no particular order.
pub fn set_elements<K: Clone + Eq + Hash>(s: &HashSet<K>) -> (keys: Vec<K>)
    requires
        is_key::<K>(),
    ensures
        lists(keys@, s@),
{
    let mut keys: Vec<K> = Vec::new();
    for k in it: s.iter()
        invariant
            is_key::<K>(),
            keys@.len() == it.index(),
            forall|i: int| 0 <= i < keys@.len() ==> keys@[i] == *it.seq()[i],
    {
        keys.push(copy_key(k));
    }
    proof {
        let walk = vstd::std_specs::hash::spec_hash_keys_iter(s);
        assert(keys@ =~= vstd::std_specs::iter::IteratorSpec::remaining(&walk).unref());
        assert forall|a: K| #[trigger] s@.contains(a) <==> keys@.contains(a) by {
            assert(keys@.to_set().contains(a) <==> s@.contains(a));
        }
    }
    keys
}

} // verus!
