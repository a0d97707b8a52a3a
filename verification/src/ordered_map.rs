//! A map kept in key order.

use std::sync::Arc;

use vstd::prelude::*;

use crate::bounds::{Duplicate, Key, Placement};

verus! {

// ---------------------------------------------------------------------------------------------
// The model
// ---------------------------------------------------------------------------------------------

/// The keys of `s` are strictly increasing.
pub open spec fn increasing<K: Key, X>(s: Seq<(K::V, X)>) -> bool {
    forall|i: int, j: int| #![trigger s[i], s[j]] 0 <= i < j < s.len() ==> K::precedes(s[i].0, s[j].0)
}

/// `s` holds an entry for `key` at `i`.
pub open spec fn holds_at<Q, X>(s: Seq<(Q, X)>, key: Q, i: int) -> bool {
    0 <= i < s.len() && s[i].0 == key
}

/// The map that a sequence of entries with distinct keys stands for.
pub open spec fn entry_map<Q, X>(s: Seq<(Q, X)>) -> Map<Q, X> {
    Map::new(|key: Q| exists|i: int| #[trigger] holds_at(s, key, i), |key: Q| s[choose|i: int| #[trigger] holds_at(s, key, i)].1)
}

/// What a sequence of exec pairs stands for.
pub open spec fn pairs<A: View, B: View>(s: Seq<(A, B)>) -> Seq<(A::V, B::V)> {
    s.map_values(|e: (A, B)| (e.0@, e.1@))
}

/// What an optional exec value stands for.
pub open spec fn optional<T: View>(value: Option<T>) -> Option<T::V> {
    match value {
        Some(v) => Some(v@),
        None => None,
    }
}

/// In an increasing sequence, every entry is what the map holds for its key.
pub proof fn lemma_entry_map_at<K: Key, X>(s: Seq<(K::V, X)>, i: int)
    requires
        increasing::<K, X>(s),
        0 <= i < s.len(),
    ensures
        entry_map(s).contains_key(s[i].0),
        entry_map(s)[s[i].0] == s[i].1,
{
    let key = s[i].0;
    assert(holds_at(s, key, i));
    let j = choose|j: int| #[trigger] holds_at(s, key, j);
    if i < j {
        K::precedes_irreflexive(key);
    } else if j < i {
        K::precedes_irreflexive(key);
    }
}

/// Two maps of increasing sequences agree when they agree entry by entry.
pub proof fn lemma_entry_map_is<K: Key, X>(s: Seq<(K::V, X)>, m: Map<K::V, X>)
    requires
        increasing::<K, X>(s),
        forall|i: int| 0 <= i < s.len() ==> m.contains_key(#[trigger] s[i].0) && m[s[i].0] == s[i].1,
        forall|key: K::V| #[trigger] m.contains_key(key) ==> exists|i: int| #[trigger] holds_at(s, key, i),
    ensures
        entry_map(s) == m,
{
    assert forall|key: K::V| #[trigger] entry_map(s).contains_key(key) implies m.contains_key(key)
        && m[key] == entry_map(s)[key] by {
        let i = choose|i: int| #[trigger] holds_at(s, key, i);
        lemma_entry_map_at::<K, X>(s, i);
        assert(s[i].0 == key);
    }
    assert(entry_map(s) =~= m);
}

/// An increasing sequence is determined by the map it stands for.
pub proof fn lemma_entry_map_injective<K: Key, X>(a: Seq<(K::V, X)>, b: Seq<(K::V, X)>)
    requires
        increasing::<K, X>(a),
        increasing::<K, X>(b),
        entry_map(a) == entry_map(b),
    ensures
        a == b,
    decreases a.len(),
{
    if a.len() == 0 {
        if b.len() > 0 {
            lemma_entry_map_at::<K, X>(b, 0);
            let i = choose|i: int| #[trigger] holds_at(a, b[0].0, i);
        }
        assert(a =~= b);
    } else if b.len() == 0 {
        lemma_entry_map_at::<K, X>(a, 0);
        let i = choose|i: int| #[trigger] holds_at(b, a[0].0, i);
    } else {
        let m = a.len() - 1;
        let n = b.len() - 1;
        lemma_entry_map_at::<K, X>(a, m);
        lemma_entry_map_at::<K, X>(b, n);
        let i = choose|i: int| #[trigger] holds_at(b, a[m].0, i);
        let j = choose|j: int| #[trigger] holds_at(a, b[n].0, j);
        if a[m].0 != b[n].0 {
            lemma_exclusive::<K>(b[i].0, b[n].0);
            lemma_exclusive::<K>(a[j].0, a[m].0);
        }
        lemma_take_out::<K, X>(a, m);
        lemma_take_out::<K, X>(b, n);
        assert(a.remove(m) =~= a.drop_last());
        assert(b.remove(n) =~= b.drop_last());
        lemma_entry_map_injective::<K, X>(a.drop_last(), b.drop_last());
        assert(a =~= a.drop_last().push(a[m]));
        assert(b =~= b.drop_last().push(b[n]));
    }
}

/// No entries, no keys.
pub proof fn lemma_entry_map_empty<Q, X>(s: Seq<(Q, X)>)
    requires
        s.len() == 0,
    ensures
        entry_map(s) == Map::<Q, X>::empty(),
{
    assert forall|key: Q| !entry_map(s).contains_key(key) by {
        if entry_map(s).contains_key(key) {
            let i = choose|i: int| #[trigger] holds_at(s, key, i);
        }
    }
    assert(entry_map(s) =~= Map::<Q, X>::empty());
}

/// Prefixes of an increasing sequence are increasing, and grow the map one entry at a time.
pub proof fn lemma_entry_map_take<K: Key, X>(s: Seq<(K::V, X)>, i: int)
    requires
        increasing::<K, X>(s),
        0 <= i < s.len(),
    ensures
        increasing::<K, X>(s.take(i)),
        increasing::<K, X>(s.take(i + 1)),
        entry_map(s.take(i + 1)) == entry_map(s.take(i)).insert(s[i].0, s[i].1),
        !entry_map(s.take(i)).contains_key(s[i].0),
        s.take(i + 1) == s.take(i).push(s[i]),
{
    let t = s.take(i);
    assert forall|a: int, b: int| #![trigger t[a], t[b]] 0 <= a < b < t.len() implies K::precedes(
        t[a].0,
        t[b].0,
    ) by {
        assert(t[a] == s[a] && t[b] == s[b]);
    }
    assert forall|j: int| 0 <= j < t.len() implies K::precedes(#[trigger] t[j].0, s[i].0) by {
        assert(t[j] == s[j]);
    }
    lemma_place::<K, X>(t, t.len() as int, s[i].0, s[i].1);
    assert(t.insert(t.len() as int, s[i]) =~= s.take(i + 1));
    assert(t.push(s[i]) =~= s.take(i + 1));
}

/// `m` after writing each entry of `batch`, in turn.
pub open spec fn written<Q, X>(m: Map<Q, X>, batch: Seq<(Q, X)>) -> Map<Q, X>
    decreases batch.len(),
{
    if batch.len() == 0 {
        m
    } else {
        written(m, batch.drop_last()).insert(batch.last().0, batch.last().1)
    }
}

/// Writing the entries of an increasing sequence to an empty map gives the map the sequence stands
/// for.
pub proof fn lemma_written<K: Key, X>(s: Seq<(K::V, X)>)
    requires
        increasing::<K, X>(s),
    ensures
        written(Map::empty(), s) == entry_map(s),
    decreases s.len(),
{
    if s.len() == 0 {
        lemma_entry_map_empty(s);
    } else {
        let i = s.len() - 1;
        lemma_entry_map_take::<K, X>(s, i);
        assert(s.take(i) =~= s.drop_last());
        assert(s.take(i + 1) =~= s);
        lemma_written::<K, X>(s.drop_last());
    }
}

/// The keys of a sequence of entries, in order.
pub open spec fn keys_of<Q, X>(s: Seq<(Q, X)>) -> Seq<Q> {
    s.map_values(|e: (Q, X)| e.0)
}

/// An increasing sequence has as many entries as its map has keys.
pub proof fn lemma_entry_map_len<K: Key, X>(s: Seq<(K::V, X)>)
    requires
        increasing::<K, X>(s),
    ensures
        entry_map(s).dom().finite(),
        entry_map(s).dom().len() == s.len(),
    decreases s.len(),
{
    if s.len() == 0 {
        lemma_entry_map_empty(s);
    } else {
        let i = s.len() - 1;
        lemma_entry_map_take::<K, X>(s, i);
        assert(s.take(i) =~= s.drop_last());
        assert(s.take(i + 1) =~= s);
        lemma_entry_map_len::<K, X>(s.drop_last());
        assert(entry_map(s).dom() =~= entry_map(s.drop_last()).dom().insert(s[i].0));
    }
}

/// Placing a new entry between its neighbours keeps the order and adds exactly that entry.
proof fn lemma_place<K: Key, X>(s: Seq<(K::V, X)>, at: int, key: K::V, value: X)
    requires
        increasing::<K, X>(s),
        0 <= at <= s.len(),
        forall|i: int| 0 <= i < at ==> K::precedes(#[trigger] s[i].0, key),
        forall|i: int| at <= i < s.len() ==> K::precedes(key, #[trigger] s[i].0),
    ensures
        increasing::<K, X>(s.insert(at, (key, value))),
        entry_map(s.insert(at, (key, value))) == entry_map(s).insert(key, value),
        !entry_map(s).contains_key(key),
{
    let t = s.insert(at, (key, value));
    assert forall|i: int, j: int| #![trigger t[i], t[j]] 0 <= i < j < t.len() implies K::precedes(
        t[i].0,
        t[j].0,
    ) by {
        let a = if i < at { i } else { i - 1 };
        let b = if j < at { j } else { j - 1 };
        if i != at {
            assert(t[i] == s[a]);
        }
        if j != at {
            assert(t[j] == s[b]);
        }
    }
    if entry_map(s).contains_key(key) {
        let i = choose|i: int| #[trigger] holds_at(s, key, i);
        K::precedes_irreflexive(key);
        assert(s[i].0 == key);
    }
    let m = entry_map(s).insert(key, value);
    assert forall|i: int| 0 <= i < t.len() implies m.contains_key(#[trigger] t[i].0) && m[t[i].0]
        == t[i].1 by {
        if i != at {
            let a = if i < at { i } else { i - 1 };
            assert(t[i] == s[a]);
            lemma_entry_map_at::<K, X>(s, a);
        }
    }
    assert forall|k: K::V| #[trigger] m.contains_key(k) implies exists|i: int| #[trigger] holds_at(
        t,
        k,
        i,
    ) by {
        if k == key {
            assert(holds_at(t, k, at));
        } else {
            let a = choose|a: int| #[trigger] holds_at(s, k, a);
            let i = if a < at { a } else { a + 1 };
            assert(t[i] == s[a]);
            assert(holds_at(t, k, i));
        }
    }
    lemma_entry_map_is::<K, X>(t, m);
}

/// Taking an entry out keeps the order and removes exactly that entry.
proof fn lemma_take_out<K: Key, X>(s: Seq<(K::V, X)>, at: int)
    requires
        increasing::<K, X>(s),
        0 <= at < s.len(),
    ensures
        increasing::<K, X>(s.remove(at)),
        entry_map(s.remove(at)) == entry_map(s).remove(s[at].0),
{
    let t = s.remove(at);
    let key = s[at].0;
    assert forall|i: int, j: int| #![trigger t[i], t[j]] 0 <= i < j < t.len() implies K::precedes(
        t[i].0,
        t[j].0,
    ) by {
        let a = if i < at { i } else { i + 1 };
        let b = if j < at { j } else { j + 1 };
        assert(t[i] == s[a] && t[j] == s[b]);
    }
    let m = entry_map(s).remove(key);
    assert forall|i: int| 0 <= i < t.len() implies m.contains_key(#[trigger] t[i].0) && m[t[i].0]
        == t[i].1 by {
        let a = if i < at { i } else { i + 1 };
        assert(t[i] == s[a]);
        lemma_entry_map_at::<K, X>(s, a);
        if s[a].0 == key {
            K::precedes_irreflexive(key);
            assert(s[a].0 == s[at].0);
        }
    }
    assert forall|k: K::V| #[trigger] m.contains_key(k) implies exists|i: int| #[trigger] holds_at(
        t,
        k,
        i,
    ) by {
        let a = choose|a: int| #[trigger] holds_at(s, k, a);
        let i = if a < at { a } else { a - 1 };
        assert(t[i] == s[a]);
        assert(holds_at(t, k, i));
    }
    lemma_entry_map_is::<K, X>(t, m);
}

// ---------------------------------------------------------------------------------------------
// Key ranges
// ---------------------------------------------------------------------------------------------

/// One end of a key range.
#[derive(Debug)]
pub enum KeyBound<Q> {
    /// The range reaches this key and contains it.
    Included(Q),
    /// The range reaches up to this key without containing it.
    Excluded(Q),
    /// The range has no end on this side.
    Unbounded,
}

impl<Q: View> View for KeyBound<Q> {
    type V = KeyBound<Q::V>;

    open spec fn view(&self) -> KeyBound<Q::V> {
        match self {
            KeyBound::Included(key) => KeyBound::Included(key@),
            KeyBound::Excluded(key) => KeyBound::Excluded(key@),
            KeyBound::Unbounded => KeyBound::Unbounded,
        }
    }
}

/// A contiguous range of keys.
#[derive(Debug)]
pub struct KeyRange<Q> {
    /// Where it begins.
    pub lower: KeyBound<Q>,
    /// Where it ends.
    pub upper: KeyBound<Q>,
}

impl<Q: View> View for KeyRange<Q> {
    type V = KeyRange<Q::V>;

    open spec fn view(&self) -> KeyRange<Q::V> {
        KeyRange { lower: self.lower@, upper: self.upper@ }
    }
}

impl<Q> KeyRange<Q> {
    /// Every key.
    pub fn all() -> (range: Self)
        ensures
            range == (KeyRange { lower: KeyBound::<Q>::Unbounded, upper: KeyBound::<Q>::Unbounded }),
    {
        KeyRange { lower: KeyBound::Unbounded, upper: KeyBound::Unbounded }
    }

    /// Every key strictly after `key`.
    pub fn after(key: Q) -> (range: Self)
        ensures
            range == (KeyRange { lower: KeyBound::Excluded(key), upper: KeyBound::<Q>::Unbounded }),
    {
        KeyRange { lower: KeyBound::Excluded(key), upper: KeyBound::Unbounded }
    }
}

/// `key` is on the inner side of a lower bound.
pub open spec fn above<K: Key>(bound: KeyBound<K::V>, key: K::V) -> bool {
    match bound {
        KeyBound::Included(edge) => edge == key || K::precedes(edge, key),
        KeyBound::Excluded(edge) => K::precedes(edge, key),
        KeyBound::Unbounded => true,
    }
}

/// `key` is on the inner side of an upper bound.
pub open spec fn below<K: Key>(bound: KeyBound<K::V>, key: K::V) -> bool {
    match bound {
        KeyBound::Included(edge) => edge == key || K::precedes(key, edge),
        KeyBound::Excluded(edge) => K::precedes(key, edge),
        KeyBound::Unbounded => true,
    }
}

/// `key` lies in the range.
pub open spec fn in_range<K: Key>(range: KeyRange<K::V>, key: K::V) -> bool {
    above::<K>(range.lower, key) && below::<K>(range.upper, key)
}

/// The entries of `s` whose keys lie in `range`, in order.
pub open spec fn within<K: Key, X>(s: Seq<(K::V, X)>, range: KeyRange<K::V>) -> Seq<(K::V, X)> {
    s.filter(|entry: (K::V, X)| in_range::<K>(range, entry.0))
}

/// When exactly the entries at `lo..hi` satisfy `keep`, filtering by `keep` cuts out that window.
pub proof fn lemma_filter_is_window<A>(s: Seq<A>, keep: spec_fn(A) -> bool, lo: int, hi: int)
    requires
        0 <= lo <= hi <= s.len(),
        forall|i: int| 0 <= i < s.len() ==> (keep(#[trigger] s[i]) <==> lo <= i < hi),
    ensures
        s.filter(keep) == s.subrange(lo, hi),
    decreases s.len(),
{
    reveal(Seq::filter);
    if s.len() > 0 {
        let last = s.len() - 1;
        let rest = s.drop_last();
        assert(keep(s[last]) <==> lo <= last < hi);
        if hi == s.len() && lo < hi {
            assert forall|i: int| 0 <= i < rest.len() implies (keep(#[trigger] rest[i]) <==> lo <= i
                < hi - 1) by {
                assert(rest[i] == s[i]);
            }
            lemma_filter_is_window(rest, keep, lo, hi - 1);
            assert(s.subrange(lo, hi) =~= rest.subrange(lo, hi - 1).push(s[last]));
        } else {
            let (l, h) = if hi == s.len() {
                (lo - 1, hi - 1)
            } else {
                (lo, hi)
            };
            assert forall|i: int| 0 <= i < rest.len() implies (keep(#[trigger] rest[i]) <==> l <= i
                < h) by {
                assert(rest[i] == s[i]);
            }
            lemma_filter_is_window(rest, keep, l, h);
            assert(s.subrange(lo, hi) =~= rest.subrange(l, h));
        }
    }
}

// ---------------------------------------------------------------------------------------------
// The map
// ---------------------------------------------------------------------------------------------

/// A map from `K` to `T`, kept in key order.
pub struct OrderedMap<K: Key, T: View> {
    entries: Vec<(K, T)>,
}

impl<K: Key, T: View> View for OrderedMap<K, T> {
    type V = Map<K::V, T::V>;

    open spec fn view(&self) -> Map<K::V, T::V> {
        entry_map(self.sequence())
    }
}

impl<K: Key, T: View> OrderedMap<K, T> {
    /// The entries, in key order.
    pub closed spec fn sequence(&self) -> Seq<(K::V, T::V)> {
        Seq::new(self.entries@.len(), |i: int| (self.entries@[i].0@, self.entries@[i].1@))
    }

    /// Keys are strictly increasing.
    #[verifier::type_invariant]
    pub open spec fn is_sorted(&self) -> bool {
        increasing::<K, T::V>(self.sequence())
    }

    /// The empty map.
    pub fn new() -> (map: Self)
        ensures
            map.sequence() == Seq::<(K::V, T::V)>::empty(),
            map@ == Map::<K::V, T::V>::empty(),
    {
        let map = OrderedMap { entries: Vec::new() };
        assert(map.sequence() =~= Seq::<(K::V, T::V)>::empty());
        proof {
            lemma_entry_map_empty(map.sequence());
        }
        map
    }

    /// The number of entries.
    pub fn len(&self) -> (n: usize)
        ensures
            n == self.sequence().len(),
            self@.dom().finite(),
            n == self@.dom().len(),
    {
        proof {
            use_type_invariant(self);
            lemma_entry_map_len::<K, T::V>(self.sequence());
        }
        self.entries.len()
    }

    /// The entry at position `i` in key order.
    pub fn at(&self, i: usize) -> (entry: (&K, &T))
        requires
            i < self.sequence().len(),
        ensures
            (entry.0@, entry.1@) == self.sequence()[i as int],
            self@.contains_key(entry.0@),
            self@[entry.0@] == entry.1@,
    {
        proof {
            use_type_invariant(self);
            lemma_entry_map_at::<K, T::V>(self.sequence(), i as int);
        }
        let entry = &self.entries[i];
        (&entry.0, &entry.1)
    }

    /// The position at which `key` stands, or would stand.
    fn position(&self, key: &K) -> (at: usize)
        ensures
            at <= self.sequence().len(),
            forall|i: int| 0 <= i < at ==> K::precedes(#[trigger] self.sequence()[i].0, key@),
            forall|i: int|
                at <= i < self.sequence().len() ==> #[trigger] self.sequence()[i].0 == key@
                    || K::precedes(key@, self.sequence()[i].0),
    {
        proof {
            use_type_invariant(self);
        }
        let ghost s = self.sequence();
        let mut lo: usize = 0;
        let mut hi: usize = self.entries.len();
        while lo < hi
            invariant
                s == self.sequence(),
                increasing::<K, T::V>(s),
                s.len() == self.entries@.len(),
                lo <= hi <= s.len(),
                forall|i: int| 0 <= i < lo ==> K::precedes(#[trigger] s[i].0, key@),
                forall|i: int| hi <= i < s.len() ==> #[trigger] s[i].0 == key@ || K::precedes(key@, s[i].0),
            decreases hi - lo,
        {
            let mid: usize = lo + (hi - lo) / 2;
            let probe = &self.entries[mid].0;
            assert(probe@ == s[mid as int].0);
            match probe.place(key) {
                Placement::Before => {
                    assert forall|i: int| 0 <= i < mid + 1 implies K::precedes(
                        #[trigger] s[i].0,
                        key@,
                    ) by {
                        if i < mid {
                            K::precedes_transitive(s[i].0, s[mid as int].0, key@);
                        }
                    }
                    lo = mid + 1;
                },
                _ => {
                    assert forall|i: int| mid <= i < s.len() implies #[trigger] s[i].0 == key@
                        || K::precedes(key@, s[i].0) by {
                        if mid < i && probe@ != key@ {
                            K::precedes_transitive(key@, s[mid as int].0, s[i].0);
                        }
                    }
                    hi = mid;
                },
            }
        }
        lo
    }

    /// Whether `key` stands at `at`, as [`position`](Self::position) found it.
    fn stands_at(&self, key: &K, at: usize) -> (found: bool)
        requires
            at <= self.sequence().len(),
            forall|i: int| 0 <= i < at ==> K::precedes(#[trigger] self.sequence()[i].0, key@),
            forall|i: int|
                at <= i < self.sequence().len() ==> #[trigger] self.sequence()[i].0 == key@
                    || K::precedes(key@, self.sequence()[i].0),
        ensures
            found ==> at < self.sequence().len() && self.sequence()[at as int].0 == key@,
            found == self@.contains_key(key@),
            !found ==> forall|i: int|
                at <= i < self.sequence().len() ==> K::precedes(
                    key@,
                    #[trigger] self.sequence()[i].0,
                ),
    {
        proof {
            use_type_invariant(self);
        }
        let ghost s = self.sequence();
        let found: bool = at < self.entries.len() && match self.entries[at].0.place(key) {
            Placement::Same => true,
            _ => false,
        };
        proof {
            if found {
                assert(holds_at(s, key@, at as int));
            } else {
                assert forall|i: int| at <= i < s.len() implies K::precedes(
                    key@,
                    #[trigger] s[i].0,
                ) by {
                    if s[i].0 == key@ && at < i {
                        K::precedes_irreflexive(key@);
                        if s[at as int].0 == key@ {
                        } else {
                            K::precedes_transitive(key@, s[at as int].0, key@);
                        }
                    }
                }
                if self@.contains_key(key@) {
                    let i = choose|i: int| #[trigger] holds_at(s, key@, i);
                    K::precedes_irreflexive(key@);
                    assert(s[i].0 == key@);
                }
            }
        }
        found
    }

    /// What the map holds for `key`.
    pub fn get(&self, key: &K) -> (value: Option<&T>)
        ensures
            value is Some <==> self@.contains_key(key@),
            value matches Some(v) ==> v@ == self@[key@],
    {
        let at: usize = self.position(key);
        if self.stands_at(key, at) {
            proof {
                use_type_invariant(self);
                lemma_entry_map_at::<K, T::V>(self.sequence(), at as int);
            }
            Some(&self.entries[at].1)
        } else {
            None
        }
    }

    /// Whether the map holds anything for `key`.
    pub fn contains_key(&self, key: &K) -> (present: bool)
        ensures
            present == self@.contains_key(key@),
    {
        let at: usize = self.position(key);
        self.stands_at(key, at)
    }

    /// Set what the map holds for `key`, handing back what it held before.
    pub fn insert(&mut self, key: K, value: T) -> (previous: Option<T>)
        ensures
            final(self)@ == old(self)@.insert(key@, value@),
            previous is Some <==> old(self)@.contains_key(key@),
            previous matches Some(v) ==> v@ == old(self)@[key@],
    {
        proof {
            use_type_invariant(&*self);
        }
        let ghost s = self.sequence();
        let at: usize = self.position(&key);
        let found: bool = self.stands_at(&key, at);
        let mut entries: Vec<(K, T)> = Vec::new();
        std::mem::swap(&mut entries, &mut self.entries);
        let ghost before = entries@;
        if found {
            proof {
                lemma_entry_map_at::<K, T::V>(s, at as int);
                lemma_take_out::<K, T::V>(s, at as int);
                let t = s.remove(at as int);
                assert forall|i: int| 0 <= i < at implies K::precedes(#[trigger] t[i].0, key@) by {
                    assert(t[i] == s[i]);
                }
                assert forall|i: int| at <= i < t.len() implies K::precedes(
                    key@,
                    #[trigger] t[i].0,
                ) by {
                    assert(t[i] == s[i + 1]);
                    assert(K::precedes(s[at as int].0, s[i + 1].0));
                }
                lemma_place::<K, T::V>(t, at as int, key@, value@);
            }
            let ghost entry = (key, value);
            let previous: (K, T) = entries.remove(at);
            entries.insert(at, (key, value));
            proof {
                assert(Seq::new(entries@.len(), |i: int| (entries@[i].0@, entries@[i].1@))
                    =~= s.remove(at as int).insert(at as int, (entry.0@, entry.1@)));
                assert(s.remove(at as int).insert(at as int, (entry.0@, entry.1@)) =~= s.update(at as int, (entry.0@, entry.1@)));
                assert(entry_map(s).remove(entry.0@).insert(entry.0@, entry.1@) =~= entry_map(s).insert(entry.0@, entry.1@));
            }
            self.entries = entries;
            Some(previous.1)
        } else {
            proof {
                lemma_place::<K, T::V>(s, at as int, key@, value@);
            }
            let ghost entry = (key, value);
            entries.insert(at, (key, value));
            proof {
                assert(Seq::new(entries@.len(), |i: int| (entries@[i].0@, entries@[i].1@))
                    =~= s.insert(at as int, (entry.0@, entry.1@)));
            }
            self.entries = entries;
            None
        }
    }

    /// Drop what the map holds for `key`, handing it back.
    pub fn remove(&mut self, key: &K) -> (previous: Option<T>)
        ensures
            final(self)@ == old(self)@.remove(key@),
            previous is Some <==> old(self)@.contains_key(key@),
            previous matches Some(v) ==> v@ == old(self)@[key@],
    {
        proof {
            use_type_invariant(&*self);
        }
        let ghost s = self.sequence();
        let at: usize = self.position(key);
        if self.stands_at(key, at) {
            let mut entries: Vec<(K, T)> = Vec::new();
            std::mem::swap(&mut entries, &mut self.entries);
            proof {
                lemma_entry_map_at::<K, T::V>(s, at as int);
                lemma_take_out::<K, T::V>(s, at as int);
            }
            let previous: (K, T) = entries.remove(at);
            proof {
                assert(Seq::new(entries@.len(), |i: int| (entries@[i].0@, entries@[i].1@))
                    =~= s.remove(at as int));
            }
            self.entries = entries;
            Some(previous.1)
        } else {
            assert(self@.remove(key@) =~= self@);
            None
        }
    }

    /// The keys, in order.
    pub fn keys(&self) -> (keys: Vec<K>)
        ensures
            keys@.len() == self.sequence().len(),
            forall|i: int| 0 <= i < keys@.len() ==> (#[trigger] keys@[i])@ == self.sequence()[i].0,
    {
        let mut keys: Vec<K> = Vec::new();
        let mut i: usize = 0;
        while i < self.entries.len()
            invariant
                i <= self.entries@.len(),
                keys@.len() == i,
                forall|j: int| 0 <= j < i ==> (#[trigger] keys@[j])@ == self.sequence()[j].0,
            decreases self.entries@.len() - i,
        {
            keys.push(self.entries[i].0.duplicate());
            i = i + 1;
        }
        keys
    }

    /// The positions of the entries whose keys lie in `range`: from the first of the pair up to,
    /// and without, the second.
    pub fn window(&self, range: &KeyRange<K>) -> (window: (usize, usize))
        ensures
            window.0 <= window.1 <= self.sequence().len(),
            within::<K, T::V>(self.sequence(), range@) == self.sequence().subrange(
                window.0 as int,
                window.1 as int,
            ),
    {
        proof {
            use_type_invariant(self);
        }
        let ghost s = self.sequence();
        let n: usize = self.entries.len();
        let lo: usize = match &range.lower {
            KeyBound::Unbounded => 0,
            KeyBound::Included(edge) => self.position(edge),
            KeyBound::Excluded(edge) => {
                let at: usize = self.position(edge);
                if self.stands_at(edge, at) {
                    at + 1
                } else {
                    at
                }
            },
        };
        let hi: usize = match &range.upper {
            KeyBound::Unbounded => n,
            KeyBound::Excluded(edge) => self.position(edge),
            KeyBound::Included(edge) => {
                let at: usize = self.position(edge);
                if self.stands_at(edge, at) {
                    at + 1
                } else {
                    at
                }
            },
        };
        proof {
            assert forall|i: int| 0 <= i < s.len() implies (above::<K>(
                range@.lower,
                #[trigger] s[i].0,
            ) <==> lo <= i) by {
                match range@.lower {
                    KeyBound::Unbounded => {},
                    KeyBound::Included(edge) => {
                        lemma_exclusive::<K>(edge, s[i].0);
                    },
                    KeyBound::Excluded(edge) => {
                        lemma_exclusive::<K>(edge, s[i].0);
                    },
                }
            }
            assert forall|i: int| 0 <= i < s.len() implies (below::<K>(
                range@.upper,
                #[trigger] s[i].0,
            ) <==> i < hi) by {
                match range@.upper {
                    KeyBound::Unbounded => {},
                    KeyBound::Included(edge) => {
                        lemma_exclusive::<K>(edge, s[i].0);
                    },
                    KeyBound::Excluded(edge) => {
                        lemma_exclusive::<K>(edge, s[i].0);
                    },
                }
            }
        }
        let end: usize = if lo <= hi {
            hi
        } else {
            lo
        };
        proof {
            let keep = |entry: (K::V, T::V)| in_range::<K>(range@, entry.0);
            assert forall|i: int| 0 <= i < s.len() implies (keep(#[trigger] s[i]) <==> lo <= i
                < end) by {
                assert(above::<K>(range@.lower, s[i].0) <==> lo <= i);
                assert(below::<K>(range@.upper, s[i].0) <==> i < hi);
            }
            lemma_filter_is_window(s, keep, lo as int, end as int);
        }
        (lo, end)
    }
}

/// No key both precedes another and follows, or equals, it.
pub proof fn lemma_exclusive<K: Key>(a: K::V, b: K::V)
    ensures
        K::precedes(a, b) ==> !K::precedes(b, a) && a != b,
        K::precedes(b, a) ==> !K::precedes(a, b) && a != b,
{
    if K::precedes(a, b) && K::precedes(b, a) {
        K::precedes_transitive(a, b, a);
    }
    K::precedes_irreflexive(a);
}

impl<K: Key, T: Duplicate> Duplicate for OrderedMap<K, T> {
    fn duplicate(&self) -> (copy: Self)
        ensures
            copy.sequence() == self.sequence(),
    {
        proof {
            use_type_invariant(self);
        }
        let mut entries: Vec<(K, T)> = Vec::new();
        let mut i: usize = 0;
        while i < self.entries.len()
            invariant
                i <= self.entries@.len(),
                entries@.len() == i,
                forall|j: int|
                    0 <= j < i ==> (#[trigger] entries@[j]).0@ == self.entries@[j].0@ && entries@[j].1@
                        == self.entries@[j].1@,
            decreases self.entries@.len() - i,
        {
            let entry = &self.entries[i];
            entries.push((entry.0.duplicate(), entry.1.duplicate()));
            i = i + 1;
        }
        proof {
            assert(Seq::new(entries@.len(), |j: int| (entries@[j].0@, entries@[j].1@))
                =~= self.sequence());
        }
        OrderedMap { entries }
    }
}

/// `std::sync::Arc::try_unwrap`: what `shared` points at where nobody else shares it, else `shared`
/// itself. Which of the two depends on who holds a copy at the time, and is left unsaid.
#[verifier::external_body]
fn try_unwrap<T>(shared: Arc<T>) -> (taken: Result<T, Arc<T>>)
    ensures
        match taken {
            Ok(value) => value == *shared,
            Err(same) => same == shared,
        },
{
    Arc::try_unwrap(shared)
}

/// A map to write to: the shared one itself where nobody else holds it, else a copy, so that
/// whoever does goes on seeing it as it was.
pub fn unshared<K: Key, T: Duplicate>(shared: Arc<OrderedMap<K, T>>) -> (map: OrderedMap<K, T>)
    ensures
        map.sequence() == shared.sequence(),
        map@ == shared@,
{
    match try_unwrap(shared) {
        Ok(map) => map,
        Err(shared) => shared.duplicate(),
    }
}

/// A range holds a key exactly when the key is past its lower bound and short of its upper one, a
/// bound itself counting where it is included.
pub proof fn ranges_hold_what_lies_between<K: Key>(range: KeyRange<K::V>, key: K::V)
    ensures
        in_range::<K>(range, key) <==> {
            &&& match range.lower {
                KeyBound::Included(edge) => edge == key || K::precedes(edge, key),
                KeyBound::Excluded(edge) => K::precedes(edge, key),
                KeyBound::Unbounded => true,
            }
            &&& match range.upper {
                KeyBound::Included(edge) => edge == key || K::precedes(key, edge),
                KeyBound::Excluded(edge) => K::precedes(key, edge),
                KeyBound::Unbounded => true,
            }
        },
{
}

/// Filtering picks out places of `s`, in order: all those that `keep` accepts, and no others.
pub proof fn filtering_picks_places<A>(s: Seq<A>, keep: spec_fn(A) -> bool) -> (places: Seq<int>)
    ensures
        places.len() == s.filter(keep).len(),
        forall|i: int|
            0 <= i < places.len() ==> 0 <= #[trigger] places[i] < s.len() && s[places[i]] == s.filter(keep)[i]
                && keep(s[places[i]]),
        forall|i: int, j: int| 0 <= i < j < places.len() ==> #[trigger] places[i] < #[trigger] places[j],
        forall|k: int| 0 <= k < s.len() && keep(#[trigger] s[k]) ==> places.contains(k),
    decreases s.len(),
{
    reveal(Seq::filter);
    if s.len() == 0 {
        Seq::empty()
    } else {
        let rest = s.drop_last();
        let before = filtering_picks_places(rest, keep);
        let last = s.len() - 1;
        let places = if keep(s.last()) {
            before.push(last)
        } else {
            before
        };
        assert forall|i: int| 0 <= i < places.len() implies 0 <= #[trigger] places[i] < s.len() && s[places[i]]
            == s.filter(keep)[i] && keep(s[places[i]]) by {
            if i < before.len() {
                assert(places[i] == before[i]);
                assert(rest[before[i]] == s[before[i]]);
            }
        }
        assert forall|i: int, j: int| 0 <= i < j < places.len() implies #[trigger] places[i] < #[trigger] places[j] by {
            assert(places[i] == before[i]);
            if j < before.len() {
                assert(places[j] == before[j]);
            }
        }
        assert forall|k: int| 0 <= k < s.len() && keep(#[trigger] s[k]) implies places.contains(k) by {
            if k < last {
                assert(rest[k] == s[k]);
                assert(before.contains(k));
                let i = choose|i: int| 0 <= i < before.len() && before[i] == k;
                assert(places[i] == k);
            } else {
                assert(places[before.len() as int] == k);
            }
        }
        places
    }
}

/// The entries in a range are those of `s` whose keys lie in it, each at its place, in order.
pub proof fn ranges_cut_out_their_entries<K: Key, X>(s: Seq<(K::V, X)>, range: KeyRange<K::V>) -> (places: Seq<
    int,
>)
    ensures
        places.len() == within::<K, X>(s, range).len(),
        forall|i: int|
            0 <= i < places.len() ==> 0 <= #[trigger] places[i] < s.len() && s[places[i]] == within::<K, X>(
                s,
                range,
            )[i] && in_range::<K>(range, s[places[i]].0),
        forall|i: int, j: int| 0 <= i < j < places.len() ==> #[trigger] places[i] < #[trigger] places[j],
        forall|k: int| 0 <= k < s.len() && in_range::<K>(range, (#[trigger] s[k]).0) ==> places.contains(k),
{
    filtering_picks_places(s, |entry: (K::V, X)| in_range::<K>(range, entry.0))
}

/// After a batch was written, a key holds the last value the batch gives it; one the batch does not
/// name holds what it held.
pub proof fn the_last_of_a_batch_stays<Q, X>(m: Map<Q, X>, batch: Seq<(Q, X)>, key: Q)
    ensures
        forall|i: int|
            0 <= i < batch.len() && (#[trigger] batch[i]).0 == key && (forall|j: int|
                i < j < batch.len() ==> (#[trigger] batch[j]).0 != key) ==> written(m, batch).contains_key(key)
                && written(m, batch)[key] == batch[i].1,
        (forall|i: int| 0 <= i < batch.len() ==> (#[trigger] batch[i]).0 != key) ==> (written(
            m,
            batch,
        ).contains_key(key) <==> m.contains_key(key)) && (m.contains_key(key) ==> written(m, batch)[key]
            == m[key]),
    decreases batch.len(),
{
    if batch.len() > 0 {
        let rest = batch.drop_last();
        the_last_of_a_batch_stays(m, rest, key);
        let last = batch.len() - 1;
        assert(batch[last] == batch.last());
        assert forall|i: int|
            0 <= i < batch.len() && (#[trigger] batch[i]).0 == key && (forall|j: int|
                i < j < batch.len() ==> (#[trigger] batch[j]).0 != key) implies written(m, batch).contains_key(
            key,
        ) && written(m, batch)[key] == batch[i].1 by {
            if i < last {
                assert(batch[last].0 != key);
                assert(rest[i] == batch[i]);
                assert forall|j: int| i < j < rest.len() implies (#[trigger] rest[j]).0 != key by {
                    assert(rest[j] == batch[j]);
                }
            }
        }
        if forall|i: int| 0 <= i < batch.len() ==> (#[trigger] batch[i]).0 != key {
            assert forall|i: int| 0 <= i < rest.len() implies (#[trigger] rest[i]).0 != key by {
                assert(rest[i] == batch[i]);
            }
        }
    }
}

/// Pairs and keys of a sequence stand at the places of their entries.
pub proof fn entries_keep_their_places<A: View, B: View>(s: Seq<(A, B)>)
    ensures
        pairs(s).len() == s.len(),
        forall|i: int| 0 <= i < s.len() ==> #[trigger] pairs(s)[i] == (s[i].0@, s[i].1@),
        keys_of(s).len() == s.len(),
        forall|i: int| 0 <= i < s.len() ==> #[trigger] keys_of(s)[i] == s[i].0,
{
}

/// A map holds exactly what the increasing sequence behind it lists.
pub proof fn maps_hold_what_is_listed<K: Key, X>(s: Seq<(K::V, X)>, key: K::V, value: X)
    requires
        increasing::<K, X>(s),
    ensures
        entry_map(s).contains_key(key) && entry_map(s)[key] == value <==> exists|i: int|
            0 <= i < s.len() && #[trigger] s[i] == (key, value),
{
    if entry_map(s).contains_key(key) && entry_map(s)[key] == value {
        let i = choose|i: int| #[trigger] holds_at(s, key, i);
        lemma_entry_map_at::<K, X>(s, i);
        assert(s[i] == (key, value));
    }
    if exists|i: int| 0 <= i < s.len() && #[trigger] s[i] == (key, value) {
        let i = choose|i: int| 0 <= i < s.len() && #[trigger] s[i] == (key, value);
        lemma_entry_map_at::<K, X>(s, i);
    }
}

/// A range stands for the range with the same ends, each of the same kind; an optional value for
/// what its value stands for.
pub proof fn ranges_and_options_keep_their_kind<Q: View>(range: KeyRange<Q>, key: Q)
    ensures
        range@.lower == range.lower@,
        range@.upper == range.upper@,
        KeyBound::Included(key)@ == KeyBound::Included(key@),
        KeyBound::Excluded(key)@ == KeyBound::Excluded(key@),
        KeyBound::<Q>::Unbounded@ == KeyBound::<Q::V>::Unbounded,
        optional(Some(key)) == Some(key@),
        optional(None::<Q>) == None::<Q::V>,
{
}

} // verus!
