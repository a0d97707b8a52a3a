//! Reading the live entries of an undated map: tombstones read as absent.

use vstd::prelude::*;

use crate::bounds::{Key, Value};
use crate::entry;
use crate::entry::State;
use crate::ordered_map;
use crate::ordered_map::{KeyRange, OrderedMap};
use crate::store;

verus! {

/// The live value for `key`, if it has one.
pub open spec fn live_at<Q, X>(m: Map<Q, State<X>>, key: Q) -> Option<X> {
    if m.contains_key(key) {
        entry::live_value(m[key])
    } else {
        None
    }
}

/// The live entries of a prefix are a prefix of the live entries.
pub proof fn lemma_live_prefix<Q, X>(s: Seq<(Q, State<X>)>, i: int)
    requires
        0 <= i <= s.len(),
    ensures
        store::live(s.take(i)).len() <= store::live(s).len(),
        forall|j: int|
            0 <= j < store::live(s.take(i)).len() ==> store::live(s)[j] == #[trigger] store::live(
                s.take(i),
            )[j],
    decreases s.len() - i,
{
    if i == s.len() {
        assert(s.take(i) =~= s);
    } else {
        lemma_live_prefix(s, i + 1);
        let longer = s.take(i + 1);
        assert(longer.drop_last() =~= s.take(i));
        assert forall|j: int| 0 <= j < store::live(s.take(i)).len() implies store::live(s)[j] == #[trigger] store::live(
            s.take(i),
        )[j] by {
            assert(store::live(longer)[j] == store::live(s.take(i))[j]);
        }
    }
}

/// A key is live in the map exactly when it is among the live entries, and with the same value.
pub proof fn live_entries_are_the_live_keys<K: Key, X>(s: Seq<(K::V, State<X>)>, key: K::V, value: X)
    requires
        ordered_map::increasing::<K, State<X>>(s),
    ensures
        live_at(ordered_map::entry_map(s), key) == Some(value) <==> store::live(s).contains((key, value)),
    decreases s.len(),
{
    let m = ordered_map::entry_map(s);
    if live_at(m, key) == Some(value) {
        let i = choose|i: int| #[trigger] ordered_map::holds_at(s, key, i);
        ordered_map::lemma_entry_map_at::<K, State<X>>(s, i);
        let longer = s.take(i + 1);
        assert(longer.last() == s[i]);
        let j = store::live(longer).len() - 1;
        assert(store::live(longer)[j] == (key, value));
        lemma_live_prefix(s, i + 1);
        assert(store::live(s)[j] == (key, value));
    }
    if store::live(s).contains((key, value)) {
        let j = choose|j: int| 0 <= j < store::live(s).len() && store::live(s)[j] == (key, value);
        let i = lemma_live_origin(s, j);
        ordered_map::lemma_entry_map_at::<K, State<X>>(s, i);
    }
}

/// The keys that hold a live value.
pub open spec fn live_keys_of<Q, X>(m: Map<Q, State<X>>) -> Set<Q> {
    Set::new(|key: Q| live_at(m, key) is Some)
}

/// There are as many live entries as keys that hold a live value.
pub proof fn live_entries_count_the_live_keys<K: Key, X>(s: Seq<(K::V, State<X>)>)
    requires
        ordered_map::increasing::<K, State<X>>(s),
    ensures
        live_keys_of(ordered_map::entry_map(s)).finite(),
        live_keys_of(ordered_map::entry_map(s)).len() == store::live(s).len(),
{
    let entries = store::live(s);
    let m = ordered_map::entry_map(s);
    live_entries_are_ordered::<K, X>(s);
    ordered_map::lemma_entry_map_len::<K, X>(entries);
    assert forall|key: K::V| live_keys_of(m).contains(key) <==> ordered_map::entry_map(
        entries,
    ).dom().contains(key) by {
        if live_at(m, key) is Some {
            live_entries_are_the_live_keys::<K, X>(s, key, live_at(m, key)->0);
            let i = choose|i: int| 0 <= i < entries.len() && entries[i] == (key, live_at(m, key)->0);
            ordered_map::lemma_entry_map_at::<K, X>(entries, i);
        }
        if ordered_map::entry_map(entries).dom().contains(key) {
            let i = choose|i: int| #[trigger] ordered_map::holds_at(entries, key, i);
            assert(entries.contains((key, entries[i].1)));
            live_entries_are_the_live_keys::<K, X>(s, key, entries[i].1);
        }
    }
    assert(live_keys_of(m) =~= ordered_map::entry_map(entries).dom());
}

/// The first live entry has the smallest live key, and the last one the largest.
proof fn lemma_live_ends<K: Key, X>(s: Seq<(K::V, State<X>)>)
    requires
        ordered_map::increasing::<K, State<X>>(s),
    ensures
        store::live(s).len() > 0 ==> {
            let m = ordered_map::entry_map(s);
            let (first, last) = (store::live(s)[0], store::live(s).last());
            &&& live_at(m, first.0) == Some(first.1)
            &&& live_at(m, last.0) == Some(last.1)
            &&& forall|other: K::V| #[trigger]
                live_at(m, other) is Some ==> other == first.0 || K::precedes(first.0, other)
            &&& forall|other: K::V| #[trigger]
                live_at(m, other) is Some ==> other == last.0 || K::precedes(other, last.0)
        },
{
    let entries = store::live(s);
    if entries.len() > 0 {
        let m = ordered_map::entry_map(s);
        let (first, last) = (entries[0], entries.last());
        live_entries_are_ordered::<K, X>(s);
        assert(entries.contains(first) && entries.contains(last));
        live_entries_are_the_live_keys::<K, X>(s, first.0, first.1);
        live_entries_are_the_live_keys::<K, X>(s, last.0, last.1);
        assert forall|other: K::V| #[trigger] live_at(m, other) is Some implies (other == first.0
            || K::precedes(first.0, other)) && (other == last.0 || K::precedes(other, last.0)) by {
            live_entries_are_the_live_keys::<K, X>(s, other, live_at(m, other)->0);
            let i = choose|i: int| 0 <= i < entries.len() && entries[i] == (other, live_at(m, other)->0);
            assert(entries[entries.len() - 1] == last);
        }
    }
}

/// A window of an ordered sequence holds the live entries whose keys lie in it.
proof fn lemma_live_window<K: Key, X>(s: Seq<(K::V, State<X>)>, range: KeyRange<K::V>, lo: int, hi: int)
    requires
        ordered_map::increasing::<K, State<X>>(s),
        0 <= lo <= hi <= s.len(),
        ordered_map::within::<K, State<X>>(s, range) == s.subrange(lo, hi),
    ensures
        ordered_map::increasing::<K, X>(store::live(s.subrange(lo, hi))),
        forall|key: K::V, value: X| #[trigger]
            store::live(s.subrange(lo, hi)).contains((key, value)) <==> ordered_map::in_range::<K>(
                range,
                key,
            ) && live_at(ordered_map::entry_map(s), key) == Some(value),
{
    let cut = s.subrange(lo, hi);
    let keep = |entry: (K::V, State<X>)| ordered_map::in_range::<K>(range, entry.0);
    assert forall|i: int, j: int| #![trigger cut[i], cut[j]] 0 <= i < j < cut.len() implies K::precedes(
        cut[i].0,
        cut[j].0,
    ) by {
        assert(cut[i] == s[lo + i] && cut[j] == s[lo + j]);
    }
    live_entries_are_ordered::<K, X>(cut);
    assert forall|key: K::V, value: X| #[trigger] store::live(cut).contains((key, value))
        <==> ordered_map::in_range::<K>(range, key) && live_at(ordered_map::entry_map(s), key) == Some(
        value,
    ) by {
        live_entries_are_the_live_keys::<K, X>(cut, key, value);
        if live_at(ordered_map::entry_map(cut), key) == Some(value) {
            let i = choose|i: int| #[trigger] ordered_map::holds_at(cut, key, i);
            ordered_map::lemma_entry_map_at::<K, State<X>>(cut, i);
            assert(cut[i] == s[lo + i]);
            ordered_map::lemma_entry_map_at::<K, State<X>>(s, lo + i);
            assert(s.filter(keep)[i] == cut[i]);
            assert(keep(s.filter(keep)[i]));
        }
        if ordered_map::in_range::<K>(range, key) && live_at(ordered_map::entry_map(s), key) == Some(value) {
            let i = choose|i: int| #[trigger] ordered_map::holds_at(s, key, i);
            ordered_map::lemma_entry_map_at::<K, State<X>>(s, i);
            assert(keep(s[i]));
            assert(s.filter(keep).contains(s[i]));
            let j = choose|j: int| 0 <= j < cut.len() && cut[j] == s[i];
            ordered_map::lemma_entry_map_at::<K, State<X>>(cut, j);
        }
    }
}

/// The live entries come in strictly increasing key order.
pub proof fn live_entries_are_ordered<K: Key, X>(s: Seq<(K::V, State<X>)>)
    requires
        ordered_map::increasing::<K, State<X>>(s),
    ensures
        ordered_map::increasing::<K, X>(store::live(s)),
    decreases s.len(),
{
    if s.len() > 0 {
        let rest = s.drop_last();
        assert forall|i: int, j: int| #![trigger rest[i], rest[j]] 0 <= i < j < rest.len() implies K::precedes(
            rest[i].0,
            rest[j].0,
        ) by {
            assert(rest[i] == s[i] && rest[j] == s[j]);
        }
        live_entries_are_ordered::<K, X>(rest);
        let t = store::live(s);
        assert forall|i: int, j: int| #![trigger t[i], t[j]] 0 <= i < j < t.len() implies K::precedes(
            t[i].0,
            t[j].0,
        ) by {
            if s.last().1 is Present && j == t.len() - 1 {
                assert(t[i] == store::live(rest)[i]);
                let origin = lemma_live_origin(rest, i);
                assert(rest[origin] == s[origin]);
            } else {
                assert(t[i] == store::live(rest)[i] && t[j] == store::live(rest)[j]);
            }
        }
    }
}

/// Every live entry stands for an entry that holds its value.
pub proof fn lemma_live_origin<Q, X>(s: Seq<(Q, State<X>)>, j: int) -> (i: int)
    requires
        0 <= j < store::live(s).len(),
    ensures
        0 <= i < s.len(),
        s[i] == (store::live(s)[j].0, State::Present(store::live(s)[j].1)),
    decreases s.len(),
{
    if s.last().1 is Present && j == store::live(s).len() - 1 {
        s.len() - 1
    } else {
        lemma_live_origin(s.drop_last(), j)
    }
}

/// Every key lies in the range without ends.
pub proof fn lemma_all<K: Key, X>(s: Seq<(K::V, X)>, range: KeyRange<K::V>)
    requires
        range.lower is Unbounded,
        range.upper is Unbounded,
    ensures
        ordered_map::within::<K, X>(s, range) == s,
{
    let keep = |entry: (K::V, X)| ordered_map::in_range::<K>(range, entry.0);
    ordered_map::lemma_filter_is_window(s, keep, 0, s.len() as int);
    assert(s.subrange(0, s.len() as int) =~= s);
}

/// The live value for `key`, copied.
pub fn get_live<K: Key, V: Value>(map: &OrderedMap<K, State<V>>, key: &K) -> (value: Option<V>)
    ensures
        ordered_map::optional(value) == live_at(map@, key@),
{
    match map.get(key) {
        Some(State::Present(value)) => Some(value.duplicate()),
        _ => None,
    }
}

/// Whether `key` holds a live value.
pub fn is_live<K: Key, V: Value>(map: &OrderedMap<K, State<V>>, key: &K) -> (present: bool)
    ensures
        present == (live_at(map@, key@) is Some),
{
    match map.get(key) {
        Some(State::Present(_)) => true,
        _ => false,
    }
}

/// How many entries are live.
pub fn count_live<K: Key, V: Value>(map: &OrderedMap<K, State<V>>) -> (n: usize)
    ensures
        n == store::live(map.sequence()).len(),
        live_keys_of(map@).finite(),
        n == live_keys_of(map@).len(),
{
    let ghost s = map.sequence();
    let mut n: usize = 0;
    let mut i: usize = 0;
    let total: usize = map.len();
    assert(s.take(0) =~= Seq::empty());
    while i < total
        invariant
            s == map.sequence(),
            total == s.len(),
            i <= total,
            n <= i,
            n == store::live(s.take(i as int)).len(),
        decreases total - i,
    {
        let (_, state) = map.at(i);
        assert(s.take(i + 1).drop_last() =~= s.take(i as int));
        assert(s.take(i + 1).last() == s[i as int]);
        if !state.is_tombstone() {
            n = n + 1;
        }
        i = i + 1;
    }
    assert(s.take(i as int) =~= s);
    proof {
        use_type_invariant(map);
        live_entries_count_the_live_keys::<K, V::V>(s);
    }
    n
}

/// Whether no entry is live.
pub fn none_live<K: Key, V: Value>(map: &OrderedMap<K, State<V>>) -> (empty: bool)
    ensures
        empty == (store::live(map.sequence()).len() == 0),
        empty == (live_keys_of(map@) == Set::<K::V>::empty()),
{
    proof {
        use_type_invariant(map);
        live_entries_count_the_live_keys::<K, V::V>(map.sequence());
        if store::live(map.sequence()).len() == 0 {
            assert(live_keys_of(map@) =~= Set::<K::V>::empty());
        }
    }
    match first_live(map) {
        Some(_) => false,
        None => true,
    }
}

/// The live entry with the smallest key.
pub fn first_live<K: Key, V: Value>(map: &OrderedMap<K, State<V>>) -> (first: Option<(K, V)>)
    ensures
        first is Some <==> store::live(map.sequence()).len() > 0,
        first matches Some((k, v)) ==> (k@, v@) == store::live(map.sequence())[0] && live_at(map@, k@)
            == Some(v@) && forall|other: K::V| #[trigger]
            live_at(map@, other) is Some ==> other == k@ || K::precedes(k@, other),
{
    let ghost s = map.sequence();
    proof {
        use_type_invariant(map);
    }
    let mut i: usize = 0;
    let total: usize = map.len();
    assert(s.take(0) =~= Seq::empty());
    while i < total
        invariant
            s == map.sequence(),
            total == s.len(),
            i <= total,
            ordered_map::increasing::<K, State<V::V>>(s),
            store::live(s.take(i as int)).len() == 0,
        decreases total - i,
    {
        let (key, state) = map.at(i);
        proof {
            assert(s.take(i + 1).drop_last() =~= s.take(i as int));
            assert(s.take(i + 1).last() == s[i as int]);
            lemma_live_prefix(s, i + 1);
        }
        match state {
            State::Present(value) => {
                proof {
                    assert(store::live(s.take(i + 1))[0] == (key@, value@));
                    lemma_live_ends::<K, V::V>(s);
                }
                return Some((key.duplicate(), value.duplicate()));
            },
            State::Tombstone => {},
        }
        i = i + 1;
    }
    assert(s.take(i as int) =~= s);
    None
}

/// The live entry with the largest key.
pub fn last_live<K: Key, V: Value>(map: &OrderedMap<K, State<V>>) -> (last: Option<(K, V)>)
    ensures
        last is Some <==> store::live(map.sequence()).len() > 0,
        last matches Some((k, v)) ==> (k@, v@) == store::live(map.sequence()).last() && live_at(
            map@,
            k@,
        ) == Some(v@) && forall|other: K::V| #[trigger]
            live_at(map@, other) is Some ==> other == k@ || K::precedes(other, k@),
{
    let ghost s = map.sequence();
    proof {
        use_type_invariant(map);
    }
    let mut index: usize = map.len();
    assert(s.take(index as int) =~= s);
    while index > 0
        invariant
            s == map.sequence(),
            index <= s.len(),
            ordered_map::increasing::<K, State<V::V>>(s),
            store::live(s) == store::live(s.take(index as int)),
        decreases index,
    {
        let ghost longer = s.take(index as int);
        index = index - 1;
        let (key, state) = map.at(index);
        assert(longer.drop_last() =~= s.take(index as int));
        assert(longer.last() == s[index as int]);
        match state {
            State::Present(value) => {
                proof {
                    lemma_live_ends::<K, V::V>(s);
                }
                return Some((key.duplicate(), value.duplicate()));
            },
            State::Tombstone => {},
        }
    }
    assert(s.take(0) =~= Seq::empty());
    None
}

/// The live entries whose keys lie in `range`, in key order, copied.
pub fn collect_live<K: Key, V: Value>(map: &OrderedMap<K, State<V>>, range: &KeyRange<K>) -> (entries: Vec<
    (K, V),
>)
    ensures
        ordered_map::pairs(entries@) == store::live(
            ordered_map::within::<K, State<V::V>>(map.sequence(), range@),
        ),
        ordered_map::increasing::<K, V::V>(ordered_map::pairs(entries@)),
        forall|k: K::V, v: V::V| #[trigger]
            ordered_map::pairs(entries@).contains((k, v)) <==> ordered_map::in_range::<K>(range@, k)
                && live_at(map@, k) == Some(v),
{
    let (lo, hi) = map.window(range);
    let ghost s = map.sequence();
    let ghost cut = s.subrange(lo as int, hi as int);
    let mut entries: Vec<(K, V)> = Vec::new();
    let mut i: usize = lo;
    assert(cut.take(0) =~= Seq::empty());
    assert(ordered_map::pairs(entries@) =~= Seq::empty());
    while i < hi
        invariant
            s == map.sequence(),
            lo <= i <= hi <= s.len(),
            cut == s.subrange(lo as int, hi as int),
            ordered_map::pairs(entries@) == store::live(cut.take(i - lo)),
        decreases hi - i,
    {
        let (key, state) = map.at(i);
        let ghost before = entries@;
        proof {
            assert(cut.take(i - lo + 1).drop_last() =~= cut.take(i - lo));
            assert(cut.take(i - lo + 1).last() == s[i as int]);
        }
        match state {
            State::Present(value) => {
                entries.push((key.duplicate(), value.duplicate()));
                assert(ordered_map::pairs(entries@) =~= ordered_map::pairs(before).push((key@, value@)));
            },
            State::Tombstone => {},
        }
        i = i + 1;
    }
    assert(cut.take(hi - lo) =~= cut);
    proof {
        use_type_invariant(map);
        lemma_live_window::<K, V::V>(s, range@, lo as int, hi as int);
    }
    entries
}

/// The keys of all live entries, in order, copied.
pub fn live_keys<K: Key, V: Value>(map: &OrderedMap<K, State<V>>) -> (keys: Vec<K>)
    ensures
        keys@.map_values(|k: K| k@) == ordered_map::keys_of(store::live(map.sequence())),
{
    let ghost s = map.sequence();
    let mut keys: Vec<K> = Vec::new();
    let mut i: usize = 0;
    let total: usize = map.len();
    assert(s.take(0) =~= Seq::empty());
    assert(keys@.map_values(|k: K| k@) =~= ordered_map::keys_of(store::live(s.take(0))));
    while i < total
        invariant
            s == map.sequence(),
            total == s.len(),
            i <= total,
            keys@.map_values(|k: K| k@) == ordered_map::keys_of(store::live(s.take(i as int))),
        decreases total - i,
    {
        let (key, state) = map.at(i);
        let ghost before = keys@;
        proof {
            assert(s.take(i + 1).drop_last() =~= s.take(i as int));
            assert(s.take(i + 1).last() == s[i as int]);
        }
        if !state.is_tombstone() {
            keys.push(key.duplicate());
            proof {
                assert(keys@.map_values(|k: K| k@) =~= before.map_values(|k: K| k@).push(key@));
                assert(ordered_map::keys_of(store::live(s.take(i + 1))) =~= ordered_map::keys_of(
                    store::live(s.take(i as int)),
                ).push(key@));
            }
        }
        i = i + 1;
    }
    assert(s.take(i as int) =~= s);
    keys
}

/// The values of a sequence of entries, in order.
pub open spec fn values_of<Q, X>(s: Seq<(Q, X)>) -> Seq<X> {
    s.map_values(|e: (Q, X)| e.1)
}

/// The values of all live entries, in key order, copied.
pub fn live_values<K: Key, V: Value>(map: &OrderedMap<K, State<V>>) -> (values: Vec<V>)
    ensures
        values@.map_values(|v: V| v@) == values_of(store::live(map.sequence())),
{
    let ghost s = map.sequence();
    let mut values: Vec<V> = Vec::new();
    let mut i: usize = 0;
    let total: usize = map.len();
    assert(s.take(0) =~= Seq::empty());
    assert(values@.map_values(|v: V| v@) =~= values_of(store::live(s.take(0))));
    while i < total
        invariant
            s == map.sequence(),
            total == s.len(),
            i <= total,
            values@.map_values(|v: V| v@) == values_of(store::live(s.take(i as int))),
        decreases total - i,
    {
        let (_, state) = map.at(i);
        let ghost before = values@;
        proof {
            assert(s.take(i + 1).drop_last() =~= s.take(i as int));
            assert(s.take(i + 1).last() == s[i as int]);
        }
        match state {
            State::Present(value) => {
                values.push(value.duplicate());
                proof {
                    assert(values@.map_values(|v: V| v@) =~= before.map_values(|v: V| v@).push(value@));
                    assert(values_of(store::live(s.take(i + 1))) =~= values_of(
                        store::live(s.take(i as int)),
                    ).push(value@));
                }
            },
            State::Tombstone => {},
        }
        i = i + 1;
    }
    assert(s.take(i as int) =~= s);
    values
}

/// `visit` may turn `before` into `after` on a key and a value that stand for `entry`.
pub open spec fn visits<K: Key, V: Value, A, F>(visit: F, before: A, entry: (K::V, V::V), after: A) -> bool where
    F: Fn(A, &K, &V) -> A,
 {
    exists|key: K, value: V|
        key@ == entry.0 && value@ == entry.1 && #[trigger] visits_pair(visit, before, key, value, after)
}

/// `visit` may turn `before` into `after` on this key and this value.
pub open spec fn visits_pair<K: Key, V: Value, A, F>(visit: F, before: A, key: K, value: V, after: A) -> bool where
    F: Fn(A, &K, &V) -> A,
 {
    call_ensures(visit, (before, &key, &value), after)
}

/// `visit`, carried over `entries` in order, may turn `start` into `end`.
pub open spec fn carries<K: Key, V: Value, A, F>(
    visit: F,
    start: A,
    entries: Seq<(K::V, V::V)>,
    end: A,
) -> bool where F: Fn(A, &K, &V) -> A {
    exists|steps: Seq<A>| #[trigger] is_trace::<K, V, A, F>(visit, start, entries, steps) && steps.last() == end
}

/// `steps` are the intermediate results of carrying `visit` over `entries`.
pub open spec fn is_trace<K: Key, V: Value, A, F>(
    visit: F,
    start: A,
    entries: Seq<(K::V, V::V)>,
    steps: Seq<A>,
) -> bool where F: Fn(A, &K, &V) -> A {
    &&& steps.len() == entries.len() + 1
    &&& steps[0] == start
    &&& forall|i: int|
        0 <= i < entries.len() ==> visits::<K, V, A, F>(
            visit,
            steps[i],
            #[trigger] entries[i],
            steps[i + 1],
        )
}

/// Carry `visit` over the live entries whose keys lie in `range`, in key order.
pub fn fold_live<K: Key, V: Value, A, F>(
    map: &OrderedMap<K, State<V>>,
    range: &KeyRange<K>,
    start: A,
    visit: F,
) -> (end: A) where F: Fn(A, &K, &V) -> A
    requires
        forall|so_far: A, key: &K, value: &V| call_requires(visit, (so_far, key, value)),
    ensures
        carries::<K, V, A, F>(
            visit,
            start,
            store::live(ordered_map::within::<K, State<V::V>>(map.sequence(), range@)),
            end,
        ),
{
    let (lo, hi) = map.window(range);
    let ghost s = map.sequence();
    let ghost cut = s.subrange(lo as int, hi as int);
    let ghost mut steps: Seq<A> = seq![start];
    let mut so_far: A = start;
    let mut i: usize = lo;
    proof {
        assert(cut.take(0) =~= Seq::empty());
        assert(is_trace::<K, V, A, F>(visit, start, store::live(cut.take(0)), steps));
    }
    while i < hi
        invariant
            s == map.sequence(),
            lo <= i <= hi <= s.len(),
            cut == s.subrange(lo as int, hi as int),
            forall|so_far: A, key: &K, value: &V| call_requires(visit, (so_far, key, value)),
            is_trace::<K, V, A, F>(visit, start, store::live(cut.take(i - lo)), steps),
            steps.last() == so_far,
        decreases hi - i,
    {
        let (key, state) = map.at(i);
        let ghost entries = store::live(cut.take(i - lo));
        proof {
            assert(cut.take(i - lo + 1).drop_last() =~= cut.take(i - lo));
            assert(cut.take(i - lo + 1).last() == s[i as int]);
        }
        match state {
            State::Present(value) => {
                let ghost before = so_far;
                so_far = visit(so_far, key, value);
                proof {
                    let grown = entries.push((key@, value@));
                    let longer = steps.push(so_far);
                    assert(visits_pair(visit, before, *key, *value, so_far));
                    assert(visits::<K, V, A, F>(visit, before, (key@, value@), so_far));
                    assert forall|j: int| 0 <= j < grown.len() implies visits::<K, V, A, F>(
                        visit,
                        longer[j],
                        #[trigger] grown[j],
                        longer[j + 1],
                    ) by {
                        if j < entries.len() {
                            assert(grown[j] == entries[j]);
                        }
                    }
                    assert(is_trace::<K, V, A, F>(visit, start, grown, longer));
                    steps = longer;
                }
            },
            State::Tombstone => {},
        }
        i = i + 1;
    }
    assert(cut.take(hi - lo) =~= cut);
    so_far
}

/// What a carried function was called with is what a listing of the same entries holds, be it all
/// live entries or those of a range: once for each listed entry, in the order of the listing, each
/// call going on from what the one before it left, and on nothing else.
pub proof fn each_listed_entry_is_visited_in_turn<K: Key, V: Value, A, F>(
    entries: Seq<(K::V, V::V)>,
    listed: Seq<(K, V)>,
    visit: F,
    start: A,
    end: A,
) -> (steps: Seq<A>) where F: Fn(A, &K, &V) -> A
    requires
        ordered_map::pairs(listed) == entries,
        carries::<K, V, A, F>(visit, start, entries, end),
    ensures
        steps.len() == listed.len() + 1,
        steps[0] == start,
        steps.last() == end,
        forall|i: int|
            0 <= i < listed.len() ==> visits::<K, V, A, F>(
                visit,
                steps[i],
                ((#[trigger] listed[i]).0@, listed[i].1@),
                steps[i + 1],
            ),
{
    let steps = choose|steps: Seq<A>| #[trigger]
        is_trace::<K, V, A, F>(visit, start, entries, steps) && steps.last() == end;
    assert forall|i: int| 0 <= i < listed.len() implies visits::<K, V, A, F>(
        visit,
        steps[i],
        ((#[trigger] listed[i]).0@, listed[i].1@),
        steps[i + 1],
    ) by {
        assert(entries[i] == (listed[i].0@, listed[i].1@));
    }
    steps
}

/// Carrying a function over every key is carrying it over the whole map.
pub proof fn every_key_is_the_whole_map<K: Key, V: Value, A, F>(
    s: Seq<(K::V, State<V::V>)>,
    range: KeyRange<K::V>,
    visit: F,
    start: A,
    end: A,
) where F: Fn(A, &K, &V) -> A
    requires
        range.lower is Unbounded,
        range.upper is Unbounded,
    ensures
        carries::<K, V, A, F>(
            visit,
            start,
            store::live(ordered_map::within::<K, State<V::V>>(s, range)),
            end,
        ) == carries::<K, V, A, F>(visit, start, store::live(s), end),
{
    lemma_all::<K, State<V::V>>(s, range);
}

/// A key reads as the value it holds, and a deleted or unknown one as nothing.
pub proof fn keys_read_as_what_they_hold<Q, X>(m: Map<Q, State<X>>, key: Q, value: X)
    ensures
        live_at(m, key) == Some(value) <==> m.contains_key(key) && m[key] == State::Present(value),
        live_keys_of(m).contains(key) <==> m.contains_key(key) && !(m[key] is Tombstone),
{
}

/// The values of a sequence of entries, place by place.
pub proof fn values_keep_their_places<Q, X>(s: Seq<(Q, X)>)
    ensures
        values_of(s).len() == s.len(),
        forall|i: int| 0 <= i < s.len() ==> #[trigger] values_of(s)[i] == s[i].1,
{
}

/// A carried function sees the entry itself: a key and a value that stand for it.
pub proof fn visits_see_the_entry<K: Key, V: Value, A, F>(visit: F, before: A, key: K, value: V, after: A) where
    F: Fn(A, &K, &V) -> A,

    ensures
        call_ensures(visit, (before, &key, &value), after) ==> visits::<K, V, A, F>(
            visit,
            before,
            (key@, value@),
            after,
        ),
        (forall|k: K, v: V, a: A| #[trigger]
            call_ensures(visit, (before, &k, &v), a) ==> k@ != key@ || v@ != value@) ==> !visits::<K, V, A, F>(
            visit,
            before,
            (key@, value@),
            after,
        ),
{
    if call_ensures(visit, (before, &key, &value), after) {
        assert(visits_pair(visit, before, key, value, after));
    }
}

} // verus!
