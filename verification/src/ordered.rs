//! Ordered maps with integer keys.

use std::collections::BTreeMap;

use vstd::prelude::*;

verus! {

/// An integer that keys an ordered map.
pub trait MapKey: Ord + Copy {
    /// The number that the key is.
    spec fn number(self) -> int;

    /// The order of the keys is the order of the numbers.
    proof fn lemma_ordered()
        ensures
            vstd::laws_cmp::obeys_cmp::<Self>(),
            forall|left: Self, right: Self|
                #![trigger vstd::std_specs::cmp::OrdSpec::cmp_spec(&left, &right)]
                vstd::std_specs::cmp::OrdSpec::cmp_spec(&left, &right) is Less <==> left.number()
                    < right.number(),
            forall|left: Self, right: Self|
                #![trigger left.number(), right.number()]
                left.number() == right.number() ==> left == right,
    ;
}

impl MapKey for u8 {
    open spec fn number(self) -> int {
        self as int
    }

    proof fn lemma_ordered() {
        broadcast use vstd::laws_cmp::group_laws_cmp;

    }
}

impl MapKey for u16 {
    open spec fn number(self) -> int {
        self as int
    }

    proof fn lemma_ordered() {
        broadcast use vstd::laws_cmp::group_laws_cmp;

    }
}

impl MapKey for u32 {
    open spec fn number(self) -> int {
        self as int
    }

    proof fn lemma_ordered() {
        broadcast use vstd::laws_cmp::group_laws_cmp;

    }
}

impl MapKey for u64 {
    open spec fn number(self) -> int {
        self as int
    }

    proof fn lemma_ordered() {
        broadcast use vstd::laws_cmp::group_laws_cmp;

    }
}

impl MapKey for u128 {
    open spec fn number(self) -> int {
        self as int
    }

    proof fn lemma_ordered() {
        broadcast use vstd::laws_cmp::group_laws_cmp;

    }
}

/// A set of keys that is walked in ascending order.
pub type KeySet<K> = BTreeMap<K, ()>;

/// Every key of a map exactly once, in ascending order.
pub open spec fn ascending_keys<K: MapKey, V>(keys: Seq<K>, map: Map<K, V>) -> bool {
    &&& forall|i: int, j: int|
        #![trigger keys[i], keys[j]]
        0 <= i < j < keys.len() ==> keys[i].number() < keys[j].number()
    &&& forall|i: int| 0 <= i < keys.len() ==> map.contains_key(#[trigger] keys[i])
    &&& forall|key: K| #[trigger] map.contains_key(key) ==> keys.contains(key)
    &&& keys.len() == map.len()
}

/// What a map holds under a key.
pub open spec fn lookup<K, V>(map: Map<K, V>, key: K) -> Option<V> {
    if map.contains_key(key) {
        Some(map[key])
    } else {
        None
    }
}

pub(crate) fn keys_of<K: MapKey, V>(map: &BTreeMap<K, V>) -> (keys: Vec<K>)
    ensures
        ascending_keys(keys@, map@),
{
    broadcast use vstd::std_specs::btree::group_btree_axioms;

    proof {
        K::lemma_ordered();
    }
    let mut keys: Vec<K> = Vec::new();
    let entries = map.iter();
    let ghost pairs = vstd::std_specs::iter::IteratorSpec::remaining(
        &vstd::std_specs::btree::spec_btree_map_iter(map),
    );
    let ghost sorted = pairs.map_values(|kv: (&K, &V)| *kv.0);
    assert(vstd::std_specs::btree::key_obeys_cmp_spec::<K>());
    assert(vstd::std_specs::btree::increasing_seq(sorted));
    for entry in iterator: entries
        invariant
            iterator.seq() == pairs,
            keys@.len() == iterator.index(),
            forall|i: int| 0 <= i < keys@.len() ==> keys@[i] == *pairs[i].0,
    {
        keys.push(*entry.0);
    }
    assert(keys@ =~= sorted);
    assert forall|key: K| #[trigger] map@.contains_key(key) implies keys@.contains(key) by {
        assert(pairs.contains((&key, &map@[key])));
        let i = choose|i: int| 0 <= i < pairs.len() && pairs[i] == (&key, &map@[key]);
        assert(keys@[i] == key);
    }
    assert forall|i: int, j: int|
        #![trigger keys@[i], keys@[j]]
        0 <= i < j < keys@.len() implies keys@[i].number() < keys@[j].number() by {
        assert(vstd::std_specs::cmp::OrdSpec::cmp_spec(&sorted[i], &sorted[j]) is Less);
    }
    keys
}

pub(crate) fn find<K: MapKey, V>(map: &BTreeMap<K, V>, key: K) -> (value: Option<&V>)
    ensures
        value == match lookup(map@, key) {
            Some(found) => Some(&found),
            None => None,
        },
{
    broadcast use vstd::std_specs::btree::group_btree_axioms;

    proof {
        K::lemma_ordered();
    }
    map.get(&key)
}

pub(crate) fn holds<K: MapKey, V>(map: &BTreeMap<K, V>, key: K) -> (found: bool)
    ensures
        found == map@.contains_key(key),
{
    broadcast use vstd::std_specs::btree::group_btree_axioms;

    proof {
        K::lemma_ordered();
    }
    map.contains_key(&key)
}

pub(crate) fn put<K: MapKey, V>(map: &mut BTreeMap<K, V>, key: K, value: V) -> (previous: Option<
    V,
>)
    ensures
        final(map)@ == old(map)@.insert(key, value),
        previous == lookup(old(map)@, key),
{
    broadcast use vstd::std_specs::btree::group_btree_axioms;

    proof {
        K::lemma_ordered();
    }
    map.insert(key, value)
}

pub(crate) fn take<K: MapKey, V>(map: &mut BTreeMap<K, V>, key: K) -> (previous: Option<V>)
    ensures
        final(map)@ == old(map)@.remove(key),
        previous == lookup(old(map)@, key),
{
    broadcast use vstd::std_specs::btree::group_btree_axioms;

    proof {
        K::lemma_ordered();
    }
    map.remove(&key)
}

pub(crate) fn size<K: MapKey, V>(map: &BTreeMap<K, V>) -> (count: usize)
    ensures
        count == map@.len(),
        map@.dom().finite(),
{
    broadcast use vstd::std_specs::btree::group_btree_axioms;

    proof {
        K::lemma_ordered();
    }
    map.len()
}

} // verus!
