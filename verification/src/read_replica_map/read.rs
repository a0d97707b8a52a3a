//! Reading a read replica. Tombstones read as absent, except in the snapshot.

use std::sync::Arc;

use vstd::prelude::*;

use crate::bounds::{Duplicate, Key, Value};
use crate::entry::State;
use crate::live;
use crate::ordered_map;
use crate::ordered_map::{KeyRange, OrderedMap};
use crate::read_replica_map::ReadReplicaMap;
use crate::store;
use crate::value_ref::{Snapshot, ValueRef};

verus! {

impl<K: Key, V: Value> ReadReplicaMap<K, V> {
    /// The undated map as it stands, tombstones included. Later updates do not show in it.
    pub fn snapshot(&self) -> (map: Arc<OrderedMap<K, State<V>>>)
        ensures
            map@ == self.tree@,
            map.sequence() == self.tree.sequence(),
    {
        self.tree.clone()
    }

    /// The live value for `k`. The handle goes on showing the same value across later updates.
    pub fn get(&self, k: &K) -> (value: Option<ValueRef<K, V>>)
        ensures
            ordered_map::optional(value) == live::live_at(self.tree@, k@),
    {
        match self.tree.get(k) {
            Some(state) => ValueRef::new(Snapshot::Projected(k.duplicate(), state.duplicate())),
            None => None,
        }
    }

    /// The live value for `k`, copied.
    pub fn get_cloned(&self, k: &K) -> (value: Option<V>)
        ensures
            ordered_map::optional(value) == live::live_at(self.tree@, k@),
    {
        live::get_live(&self.tree, k)
    }

    /// The number of live entries. Smaller than the raw map: tombstones linger.
    pub fn len(&self) -> (n: usize)
        ensures
            n == store::live(self.tree.sequence()).len(),
            n == live::live_keys_of(self.tree@).len(),
    {
        live::count_live(&self.tree)
    }

    /// Whether no entry is live. A map that holds only tombstones is empty.
    pub fn is_empty(&self) -> (empty: bool)
        ensures
            empty == (store::live(self.tree.sequence()).len() == 0),
            empty == (live::live_keys_of(self.tree@) == Set::<K::V>::empty()),
    {
        live::none_live(&self.tree)
    }

    /// Whether `k` holds a live value.
    pub fn contains_key(&self, k: &K) -> (present: bool)
        ensures
            present == (live::live_at(self.tree@, k@) is Some),
    {
        live::is_live(&self.tree, k)
    }

    /// The smallest live key and its value.
    pub fn first_key_value(&self) -> (first: Option<(K, V)>)
        ensures
            first is Some <==> store::live(self.tree.sequence()).len() > 0,
            first matches Some((k, v)) ==> (k@, v@) == store::live(self.tree.sequence())[0],
            first matches Some((k, v)) ==> live::live_at(self.tree@, k@) == Some(v@)
                && forall|other: K::V| #[trigger]
                live::live_at(self.tree@, other) is Some ==> other == k@ || K::precedes(k@, other),
    {
        live::first_live(&self.tree)
    }

    /// The largest live key and its value.
    pub fn last_key_value(&self) -> (last: Option<(K, V)>)
        ensures
            last is Some <==> store::live(self.tree.sequence()).len() > 0,
            last matches Some((k, v)) ==> (k@, v@) == store::live(self.tree.sequence()).last(),
            last matches Some((k, v)) ==> live::live_at(self.tree@, k@) == Some(v@)
                && forall|other: K::V| #[trigger]
                live::live_at(self.tree@, other) is Some ==> other == k@ || K::precedes(other, k@),
    {
        live::last_live(&self.tree)
    }

    /// Carry `f` over every live entry, in key order, from `start`.
    pub fn for_each<A, F>(&self, start: A, f: F) -> (end: A) where F: Fn(A, &K, &V) -> A
        requires
            forall|so_far: A, key: &K, value: &V| call_requires(f, (so_far, key, value)),
        ensures
            live::carries::<K, V, A, F>(f, start, store::live(self.tree.sequence()), end),
    {
        let range: KeyRange<K> = KeyRange::all();
        let map = &self.tree;
        proof {
            live::lemma_all::<K, State<V::V>>(map.sequence(), range@);
        }
        live::fold_live(map, &range, start, f)
    }

    /// Carry `f` over every live entry whose key lies in `range`, in key order, from `start`.
    pub fn for_each_in_range<A, F>(&self, range: &KeyRange<K>, start: A, f: F) -> (end: A) where
        F: Fn(A, &K, &V) -> A,

        requires
            forall|so_far: A, key: &K, value: &V| call_requires(f, (so_far, key, value)),
        ensures
            live::carries::<K, V, A, F>(
                f,
                start,
                store::live(ordered_map::within::<K, State<V::V>>(self.tree.sequence(), range@)),
                end,
            ),
    {
        live::fold_live(&self.tree, range, start, f)
    }

    /// All live entries, in key order, copied.
    pub fn to_vec(&self) -> (entries: Vec<(K, V)>)
        ensures
            ordered_map::pairs(entries@) == store::live(self.tree.sequence()),
            ordered_map::increasing::<K, V::V>(ordered_map::pairs(entries@)),
            forall|k: K::V, v: V::V| #[trigger]
                ordered_map::pairs(entries@).contains((k, v)) <==> live::live_at(self.tree@, k) == Some(v),
    {
        let range: KeyRange<K> = KeyRange::all();
        let map = &self.tree;
        proof {
            live::lemma_all::<K, State<V::V>>(map.sequence(), range@);
        }
        live::collect_live(map, &range)
    }

    /// The live entries whose keys lie in `range`, in key order, copied.
    pub fn range_to_vec(&self, range: &KeyRange<K>) -> (entries: Vec<(K, V)>)
        ensures
            ordered_map::pairs(entries@) == store::live(
                ordered_map::within::<K, State<V::V>>(self.tree.sequence(), range@),
            ),
            ordered_map::increasing::<K, V::V>(ordered_map::pairs(entries@)),
            forall|k: K::V, v: V::V| #[trigger]
                ordered_map::pairs(entries@).contains((k, v)) <==> ordered_map::in_range::<K>(
                    range@,
                    k,
                ) && live::live_at(self.tree@, k) == Some(v),
    {
        live::collect_live(&self.tree, range)
    }

    /// The keys of all live entries, in key order.
    pub fn keys(&self) -> (keys: Vec<K>)
        ensures
            keys@.map_values(|k: K| k@) == ordered_map::keys_of(store::live(self.tree.sequence())),
    {
        live::live_keys(&self.tree)
    }

    /// The values of all live entries, in key order.
    pub fn values(&self) -> (values: Vec<V>)
        ensures
            values@.map_values(|v: V| v@) == live::values_of(store::live(self.tree.sequence())),
    {
        live::live_values(&self.tree)
    }
}

} // verus!
