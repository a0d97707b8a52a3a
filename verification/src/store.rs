//! The dated map of a full replica, with the two indices derived from it: the timestamp-less
//! projection that read replicas mirror, and the set of keys that hold a tombstone.

use std::sync::Arc;

use vstd::prelude::*;

use crate::bounds::{Key, Value};
use crate::clock::Timestamp;
use crate::entry::{Entry, State};
use crate::ordered_map;
use crate::ordered_map::OrderedMap;

verus! {

/// A sequence of dated entries without their timestamps.
pub open spec fn undated<Q, X>(s: Seq<(Q, Entry<Timestamp, X>)>) -> Seq<(Q, State<X>)> {
    s.map_values(|e: (Q, Entry<Timestamp, X>)| (e.0, e.1.state))
}

/// A map of dated entries without their timestamps.
pub open spec fn projected<Q, X>(m: Map<Q, Entry<Timestamp, X>>) -> Map<Q, State<X>> {
    m.map_values(|e: Entry<Timestamp, X>| e.state)
}

/// The keys that hold a tombstone, in order.
pub open spec fn marks<Q, X>(s: Seq<(Q, State<X>)>) -> Seq<(Q, ())>
    decreases s.len(),
{
    if s.len() == 0 {
        Seq::empty()
    } else {
        match s.last().1 {
            State::Present(_) => marks(s.drop_last()),
            State::Tombstone => marks(s.drop_last()).push((s.last().0, ())),
        }
    }
}

/// The live entries, in order.
pub open spec fn live<Q, X>(s: Seq<(Q, State<X>)>) -> Seq<(Q, X)>
    decreases s.len(),
{
    if s.len() == 0 {
        Seq::empty()
    } else {
        match s.last().1 {
            State::Present(value) => live(s.drop_last()).push((s.last().0, value)),
            State::Tombstone => live(s.drop_last()),
        }
    }
}

/// The keys of `m` that hold a tombstone.
pub open spec fn marked<Q, X>(m: Map<Q, State<X>>) -> Set<Q> {
    Set::new(|k: Q| m.contains_key(k) && m[k] is Tombstone)
}

/// Every entry is either live or marked deleted.
pub proof fn live_and_marks_partition<Q, X>(s: Seq<(Q, State<X>)>)
    ensures
        live(s).len() + marks(s).len() == s.len(),
    decreases s.len(),
{
    if s.len() > 0 {
        live_and_marks_partition(s.drop_last());
    }
}

/// Taking the timestamps off keeps the order and the keys.
pub proof fn lemma_undated<K: Key, X>(s: Seq<(K::V, Entry<Timestamp, X>)>)
    requires
        ordered_map::increasing::<K, Entry<Timestamp, X>>(s),
    ensures
        ordered_map::increasing::<K, State<X>>(undated(s)),
        ordered_map::entry_map(undated(s)) == projected(ordered_map::entry_map(s)),
{
    let t = undated(s);
    let m = ordered_map::entry_map(s);
    assert forall|i: int| 0 <= i < t.len() implies projected(m).contains_key(#[trigger] t[i].0)
        && projected(m)[t[i].0] == t[i].1 by {
        ordered_map::lemma_entry_map_at::<K, Entry<Timestamp, X>>(s, i);
    }
    assert forall|key: K::V| #[trigger] projected(m).contains_key(key) implies exists|i: int| #[trigger]
        ordered_map::holds_at(t, key, i) by {
        let i = choose|i: int| #[trigger] ordered_map::holds_at(s, key, i);
        assert(ordered_map::holds_at(t, key, i));
    }
    ordered_map::lemma_entry_map_is::<K, State<X>>(t, projected(m));
}

/// Every mark stands for an entry that is a tombstone, at or before the end of `s`.
proof fn lemma_mark_origin<Q, X>(s: Seq<(Q, State<X>)>, i: int) -> (origin: int)
    requires
        0 <= i < marks(s).len(),
    ensures
        0 <= origin < s.len(),
        s[origin].0 == marks(s)[i].0,
        s[origin].1 is Tombstone,
    decreases s.len(),
{
    if s.last().1 is Tombstone && i == marks(s).len() - 1 {
        s.len() - 1
    } else {
        lemma_mark_origin(s.drop_last(), i)
    }
}

/// Every tombstone entry has a mark.
proof fn lemma_mark_of<Q, X>(s: Seq<(Q, State<X>)>, origin: int) -> (i: int)
    requires
        0 <= origin < s.len(),
        s[origin].1 is Tombstone,
    ensures
        0 <= i < marks(s).len(),
        marks(s)[i].0 == s[origin].0,
    decreases s.len(),
{
    if origin == s.len() - 1 {
        marks(s).len() - 1
    } else {
        lemma_mark_of(s.drop_last(), origin)
    }
}

/// The marks of an ordered sequence are ordered.
proof fn lemma_marks_increasing<K: Key, X>(s: Seq<(K::V, State<X>)>)
    requires
        ordered_map::increasing::<K, State<X>>(s),
    ensures
        ordered_map::increasing::<K, ()>(marks(s)),
    decreases s.len(),
{
    if s.len() > 0 {
        let rest = s.drop_last();
        assert forall|i: int, j: int| #![trigger rest[i], rest[j]] 0 <= i < j < rest.len() implies K::precedes(
            rest[i].0,
            rest[j].0,
        ) by {
            assert(rest[i] == s[i] && rest[j] == s[j]);
        }
        lemma_marks_increasing::<K, X>(rest);
        if s.last().1 is Tombstone {
            let t = marks(s);
            assert forall|i: int, j: int| #![trigger t[i], t[j]] 0 <= i < j < t.len() implies K::precedes(
                t[i].0,
                t[j].0,
            ) by {
                if j == t.len() - 1 {
                    assert(t[i] == marks(rest)[i]);
                    let origin = lemma_mark_origin(rest, i);
                    assert(rest[origin] == s[origin]);
                } else {
                    assert(t[i] == marks(rest)[i] && t[j] == marks(rest)[j]);
                }
            }
        }
    }
}

/// The marks of an ordered sequence are exactly the keys of its map that hold a tombstone.
pub proof fn lemma_marks<K: Key, X>(s: Seq<(K::V, State<X>)>)
    requires
        ordered_map::increasing::<K, State<X>>(s),
    ensures
        ordered_map::increasing::<K, ()>(marks(s)),
        ordered_map::entry_map(marks(s)) == Map::new(
            |k: K::V| marked(ordered_map::entry_map(s)).contains(k),
            |k: K::V| (),
        ),
{
    lemma_marks_increasing::<K, X>(s);
    let m = ordered_map::entry_map(s);
    let t = marks(s);
    let set = Map::new(|k: K::V| marked(m).contains(k), |k: K::V| ());
    assert forall|i: int| 0 <= i < t.len() implies set.contains_key(#[trigger] t[i].0) && set[t[i].0]
        == t[i].1 by {
        let origin = lemma_mark_origin(s, i);
        ordered_map::lemma_entry_map_at::<K, State<X>>(s, origin);
    }
    assert forall|k: K::V| #[trigger] set.contains_key(k) implies exists|i: int| #[trigger]
        ordered_map::holds_at(t, k, i) by {
        let origin = choose|i: int| #[trigger] ordered_map::holds_at(s, k, i);
        ordered_map::lemma_entry_map_at::<K, State<X>>(s, origin);
        let i = lemma_mark_of(s, origin);
        assert(ordered_map::holds_at(t, k, i));
    }
    ordered_map::lemma_entry_map_is::<K, ()>(t, set);
}

/// The dated map and the two indices kept in step with it.
pub struct Store<K: Key, V: Value> {
    map: Arc<OrderedMap<K, Entry<Timestamp, V>>>,
    projection: Arc<OrderedMap<K, State<V>>>,
    live_tombstones: OrderedMap<K, ()>,
}

impl<K: Key, V: Value> View for Store<K, V> {
    type V = Map<K::V, Entry<Timestamp, V::V>>;

    open spec fn view(&self) -> Map<K::V, Entry<Timestamp, V::V>> {
        ordered_map::entry_map(self.sequence())
    }
}

impl<K: Key, V: Value> Store<K, V> {
    /// The dated entries, in key order.
    pub closed spec fn sequence(&self) -> Seq<(K::V, Entry<Timestamp, V::V>)> {
        self.map.sequence()
    }

    /// The dated map itself.
    pub closed spec fn dated(&self) -> OrderedMap<K, Entry<Timestamp, V>> {
        *self.map
    }

    /// The projection itself.
    pub closed spec fn valued(&self) -> OrderedMap<K, State<V>> {
        *self.projection
    }

    /// The projection is the map without its timestamps, and the index names exactly the keys that
    /// hold a tombstone.
    #[verifier::type_invariant]
    closed spec fn in_step(&self) -> bool {
        &&& ordered_map::increasing::<K, Entry<Timestamp, V::V>>(self.map.sequence())
        &&& self.projection.sequence() == undated(self.map.sequence())
        &&& self.live_tombstones.sequence() == marks(undated(self.map.sequence()))
    }

    /// The empty store.
    pub fn new() -> (store: Self)
        ensures
            store@ == Map::<K::V, Entry<Timestamp, V::V>>::empty(),
            store.sequence() == Seq::<(K::V, Entry<Timestamp, V::V>)>::empty(),
    {
        let map: OrderedMap<K, Entry<Timestamp, V>> = OrderedMap::new();
        let projection: OrderedMap<K, State<V>> = OrderedMap::new();
        let live_tombstones: OrderedMap<K, ()> = OrderedMap::new();
        proof {
            assert(undated(map.sequence()) =~= projection.sequence());
        }
        Store { map: Arc::new(map), projection: Arc::new(projection), live_tombstones }
    }

    /// The dated map.
    pub fn map(&self) -> (map: &OrderedMap<K, Entry<Timestamp, V>>)
        ensures
            *map == self.dated(),
            map.sequence() == self.sequence(),
            map@ == self@,
    {
        &self.map
    }

    /// The dated map as it stands, shared rather than copied. Later writes do not show in it.
    pub fn share_map(&self) -> (map: Arc<OrderedMap<K, Entry<Timestamp, V>>>)
        ensures
            *map == self.dated(),
            map.sequence() == self.sequence(),
            map@ == self@,
    {
        self.map.clone()
    }

    /// The projection as it stands, shared rather than copied. Later writes do not show in it.
    pub fn share_projection(&self) -> (projection: Arc<OrderedMap<K, State<V>>>)
        ensures
            *projection == self.valued(),
            projection.sequence() == undated(self.sequence()),
            projection@ == projected(self@),
    {
        proof {
            use_type_invariant(self);
            lemma_undated::<K, V::V>(self.map.sequence());
        }
        self.projection.clone()
    }

    /// The timestamp-less projection of the dated map.
    pub fn projection(&self) -> (projection: &OrderedMap<K, State<V>>)
        ensures
            *projection == self.valued(),
            projection.sequence() == undated(self.sequence()),
            projection@ == projected(self@),
    {
        proof {
            use_type_invariant(self);
            lemma_undated::<K, V::V>(self.map.sequence());
        }
        &self.projection
    }

    /// The keys that hold a tombstone.
    pub fn live_tombstones(&self) -> (keys: &OrderedMap<K, ()>)
        ensures
            keys.sequence() == marks(undated(self.sequence())),
            keys@.dom() == marked(projected(self@)),
    {
        proof {
            use_type_invariant(self);
            lemma_undated::<K, V::V>(self.map.sequence());
            lemma_marks::<K, V::V>(undated(self.map.sequence()));
            assert(self.live_tombstones@.dom() =~= marked(projected(self@)));
        }
        &self.live_tombstones
    }

    /// Set the entry for `key`, mirroring it into both indices, and hand back the previous entry.
    pub fn map_insert(&mut self, key: K, value: Entry<Timestamp, V>) -> (previous: Option<
        Entry<Timestamp, V>,
    >)
        ensures
            final(self)@ == old(self)@.insert(key@, value@),
            previous is Some <==> old(self)@.contains_key(key@),
            previous matches Some(p) ==> p@ == old(self)@[key@],
    {
        proof {
            use_type_invariant(&*self);
        }
        let ghost before = self.map.sequence();
        let ghost m0 = self@;
        let mut scratch: Store<K, V> = Store::new();
        std::mem::swap(self, &mut scratch);
        let Store { map, projection, mut live_tombstones } = scratch;
        let mut map = ordered_map::unshared(map);
        let mut projection = ordered_map::unshared(projection);
        proof {
            lemma_undated::<K, V::V>(before);
            lemma_marks::<K, V::V>(undated(before));
        }
        let ghost k = key@;
        let ghost e = value@;
        if value.is_tombstone() {
            live_tombstones.insert(key.duplicate(), ());
        } else {
            live_tombstones.remove(&key);
        }
        projection.insert(key.duplicate(), value.project());
        let previous = map.insert(key, value);
        proof {
            use_type_invariant(&map);
            use_type_invariant(&projection);
            use_type_invariant(&live_tombstones);
            let after = map.sequence();
            lemma_undated::<K, V::V>(after);
            assert(map@ == m0.insert(k, e));
            assert(projected(m0.insert(k, e)) =~= projected(m0).insert(k, e.state));
            ordered_map::lemma_entry_map_injective::<K, State<V::V>>(projection.sequence(), undated(after));
            lemma_marks::<K, V::V>(undated(after));
            assert(live_tombstones@ =~= ordered_map::entry_map(marks(undated(after))));
            ordered_map::lemma_entry_map_injective::<K, ()>(live_tombstones.sequence(), marks(undated(after)));
        }
        *self = Store { map: Arc::new(map), projection: Arc::new(projection), live_tombstones };
        previous
    }
}

/// The projection holds the same keys, each with the state of its entry.
pub proof fn projecting_keeps_keys_and_states<Q, X>(m: Map<Q, Entry<Timestamp, X>>, key: Q)
    ensures
        projected(m).contains_key(key) <==> m.contains_key(key),
        m.contains_key(key) ==> projected(m)[key] == m[key].state,
        marked(projected(m)).contains(key) <==> m.contains_key(key) && m[key].state is Tombstone,
{
}

/// Taking the timestamps off changes nothing else, entry by entry.
pub proof fn undating_keeps_every_entry<Q, X>(s: Seq<(Q, Entry<Timestamp, X>)>)
    ensures
        undated(s).len() == s.len(),
        forall|i: int| 0 <= i < s.len() ==> #[trigger] undated(s)[i] == (s[i].0, s[i].1.state),
{
}

/// The marks and the live entries of `s` are its tombstones and its values, each at the place of its
/// own, in order: `deleted` and `kept` are those places, and between them they are all there are.
pub proof fn every_entry_is_marked_or_live<Q, X>(s: Seq<(Q, State<X>)>) -> (places: (Seq<int>, Seq<int>))
    ensures
        ({
            let (deleted, kept) = places;
            &&& deleted.len() == marks(s).len()
            &&& kept.len() == live(s).len()
            &&& deleted.len() + kept.len() == s.len()
            &&& forall|i: int|
                0 <= i < deleted.len() ==> 0 <= #[trigger] deleted[i] < s.len() && s[deleted[i]].1 is Tombstone
                    && s[deleted[i]].0 == marks(s)[i].0
            &&& forall|i: int|
                0 <= i < kept.len() ==> 0 <= #[trigger] kept[i] < s.len() && s[kept[i]] == (
                    live(s)[i].0,
                    State::Present(live(s)[i].1),
                )
            &&& forall|i: int, j: int|
                0 <= i < j < deleted.len() ==> #[trigger] deleted[i] < #[trigger] deleted[j]
            &&& forall|i: int, j: int| 0 <= i < j < kept.len() ==> #[trigger] kept[i] < #[trigger] kept[j]
            &&& forall|k: int|
                0 <= k < s.len() ==> if (#[trigger] s[k]).1 is Tombstone {
                    deleted.contains(k)
                } else {
                    kept.contains(k)
                }
        }),
    decreases s.len(),
{
    if s.len() == 0 {
        (Seq::empty(), Seq::empty())
    } else {
        let rest = s.drop_last();
        let (deleted, kept) = every_entry_is_marked_or_live(rest);
        let last = s.len() - 1;
        assert forall|i: int| 0 <= i < deleted.len() implies s[#[trigger] deleted[i]] == rest[deleted[i]] by {}
        assert forall|i: int| 0 <= i < kept.len() implies s[#[trigger] kept[i]] == rest[kept[i]] by {}
        let (all_deleted, all_kept) = match s.last().1 {
            State::Present(_) => (deleted, kept.push(last)),
            State::Tombstone => (deleted.push(last), kept),
        };
        assert(s[last] == s.last());
        assert forall|k: int| 0 <= k < s.len() implies if (#[trigger] s[k]).1 is Tombstone {
            all_deleted.contains(k)
        } else {
            all_kept.contains(k)
        } by {
            if k < last {
                assert(rest[k] == s[k]);
                if s[k].1 is Tombstone {
                    let i = choose|i: int| 0 <= i < deleted.len() && deleted[i] == k;
                    assert(all_deleted[i] == k);
                } else {
                    let i = choose|i: int| 0 <= i < kept.len() && kept[i] == k;
                    assert(all_kept[i] == k);
                }
            } else if s[k].1 is Tombstone {
                assert(all_deleted[deleted.len() as int] == k);
            } else {
                assert(all_kept[kept.len() as int] == k);
            }
        }
        (all_deleted, all_kept)
    }
}

/// The marked keys are those that hold a tombstone.
pub proof fn marked_keys_hold_a_tombstone<Q, X>(m: Map<Q, State<X>>, key: Q)
    ensures
        marked(m).contains(key) <==> m.contains_key(key) && m[key] == State::<X>::Tombstone,
{
}

} // verus!
