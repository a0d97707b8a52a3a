//! What a replica does with the messages of an authenticated, replay-checked datagram.

use vstd::prelude::*;

use crate::bounds::{Duplicate, Key, Value};
use crate::clock;
use crate::clock::Timestamp;
use crate::entry::{Entry, State};
use crate::merge;
use crate::metrics;
use crate::net::IpAddr;
use crate::observability;
use crate::ordered_map;
use crate::ordered_map::{KeyRange, OrderedMap};
use crate::replica::collision;
use crate::replica::repair;
use crate::replica::Replica;
use crate::store;
use crate::store::Store;
use crate::time::Instant;

verus! {

// ---------------------------------------------------------------------------------------------
// Messages
// ---------------------------------------------------------------------------------------------

/// A protocol message. `R` is whatever the comparison protocol exchanges about a range of keys.
pub enum Message<K, E, S, R> {
    /// A comparison item over dated entries.
    EntryFingerprint(R),
    /// A dated entry.
    EntryUpdate((K, E)),
    /// The sender holds this version of the key's tombstone.
    TombstoneAck((K, u64)),
    /// A comparison item over undated states.
    StateFingerprint(R),
    /// An undated state.
    StateUpdate((K, S)),
    /// A comparison round found nothing to say.
    ConvergenceAck,
    /// A tag this version owns no semantics for.
    Reserved6(Vec<u8>),
}

/// The messages a full replica exchanges.
pub type ReplicaMessage<K, V, R> = Message<K, Entry<Timestamp, V>, State<V>, R>;

/// A datagram's messages, by what is done with them.
pub struct DecodedDatagram<K, V, R> {
    /// Comparison items over dated entries.
    pub dated_ranges: Vec<R>,
    /// Dated entries.
    pub dated_updates: Vec<(K, Entry<Timestamp, V>)>,
    /// Tombstone acknowledgements.
    pub tombstone_acks: Vec<(K, u64)>,
    /// Whether a comparison round was acknowledged.
    pub saw_convergence_ack: bool,
    /// Comparison items over undated states.
    pub value_ranges: Vec<R>,
}

/// What one message adds to the comparison items over dated entries.
pub open spec fn dated_range<K, E, S, R>(message: Message<K, E, S, R>) -> Seq<R> {
    match message {
        Message::EntryFingerprint(range) => seq![range],
        _ => Seq::empty(),
    }
}

/// What one message adds to the dated entries.
pub open spec fn dated_update<K, E, S, R>(message: Message<K, E, S, R>) -> Seq<(K, E)> {
    match message {
        Message::EntryUpdate(update) => seq![update],
        _ => Seq::empty(),
    }
}

/// What one message adds to the tombstone acknowledgements.
pub open spec fn tombstone_ack<K, E, S, R>(message: Message<K, E, S, R>) -> Seq<(K, u64)> {
    match message {
        Message::TombstoneAck(ack) => seq![ack],
        _ => Seq::empty(),
    }
}

/// What one message adds to the comparison items over undated states.
pub open spec fn value_range<K, E, S, R>(message: Message<K, E, S, R>) -> Seq<R> {
    match message {
        Message::StateFingerprint(range) => seq![range],
        _ => Seq::empty(),
    }
}

/// Some message acknowledges a comparison round.
pub open spec fn acknowledges<K, E, S, R>(messages: Seq<Message<K, E, S, R>>) -> bool {
    exists|i: int| 0 <= i < messages.len() && #[trigger] messages[i] is ConvergenceAck
}

/// Some message is about dated entries.
pub open spec fn speaks_dated<K, E, S, R>(messages: Seq<Message<K, E, S, R>>) -> bool {
    exists|i: int|
        0 <= i < messages.len() && (#[trigger] messages[i] is EntryFingerprint || messages[i] is EntryUpdate
            || messages[i] is TombstoneAck || messages[i] is ConvergenceAck)
}

/// Put together what each message adds, in order.
pub open spec fn gathered<M, A>(messages: Seq<M>, part: spec_fn(M) -> Seq<A>) -> Seq<A>
    decreases messages.len(),
{
    if messages.len() == 0 {
        Seq::empty()
    } else {
        gathered(messages.drop_last(), part) + part(messages.last())
    }
}

/// `batch` holds each message of the datagram in its place.
pub open spec fn sorts<K, V, R>(
    messages: Seq<ReplicaMessage<K, V, R>>,
    batch: DecodedDatagram<K, V, R>,
) -> bool {
    &&& batch.dated_ranges@ == gathered(messages, |m: ReplicaMessage<K, V, R>| dated_range(m))
    &&& batch.dated_updates@ == gathered(messages, |m: ReplicaMessage<K, V, R>| dated_update(m))
    &&& batch.tombstone_acks@ == gathered(messages, |m: ReplicaMessage<K, V, R>| tombstone_ack(m))
    &&& batch.value_ranges@ == gathered(messages, |m: ReplicaMessage<K, V, R>| value_range(m))
    &&& batch.saw_convergence_ack == acknowledges(messages)
}

/// Parts put together are non-empty exactly when some message adds something.
proof fn lemma_gathered_nonempty<M, A>(messages: Seq<M>, part: spec_fn(M) -> Seq<A>)
    ensures
        gathered(messages, part).len() > 0 <==> exists|i: int|
            0 <= i < messages.len() && part(#[trigger] messages[i]).len() > 0,
    decreases messages.len(),
{
    if messages.len() > 0 {
        let rest = messages.drop_last();
        lemma_gathered_nonempty(rest, part);
        if exists|i: int| 0 <= i < rest.len() && part(#[trigger] rest[i]).len() > 0 {
            let i = choose|i: int| 0 <= i < rest.len() && part(#[trigger] rest[i]).len() > 0;
            assert(part(messages[i]).len() > 0);
        }
        if exists|i: int| 0 <= i < messages.len() && part(#[trigger] messages[i]).len() > 0 {
            let i = choose|i: int| 0 <= i < messages.len() && part(#[trigger] messages[i]).len() > 0;
            if i < rest.len() {
                assert(part(rest[i]).len() > 0);
            }
        }
        if part(messages.last()).len() > 0 {
            assert(part(messages[messages.len() - 1]).len() > 0);
        }
    }
}

/// A sorted datagram speaks of dated entries exactly when one of its messages does.
pub proof fn sorted_datagrams_keep_their_channel<K, V, R>(
    messages: Seq<ReplicaMessage<K, V, R>>,
    batch: DecodedDatagram<K, V, R>,
)
    requires
        sorts(messages, batch),
    ensures
        batch.speaks_dated() == speaks_dated(messages),
{
    let p1 = |m: ReplicaMessage<K, V, R>| dated_range(m);
    let p2 = |m: ReplicaMessage<K, V, R>| dated_update(m);
    let p3 = |m: ReplicaMessage<K, V, R>| tombstone_ack(m);
    lemma_gathered_nonempty(messages, p1);
    lemma_gathered_nonempty(messages, p2);
    lemma_gathered_nonempty(messages, p3);
    if speaks_dated(messages) {
        let i = choose|i: int|
            0 <= i < messages.len() && (#[trigger] messages[i] is EntryFingerprint || messages[i] is EntryUpdate
                || messages[i] is TombstoneAck || messages[i] is ConvergenceAck);
        if messages[i] is EntryFingerprint {
            assert(p1(messages[i]).len() > 0);
        } else if messages[i] is EntryUpdate {
            assert(p2(messages[i]).len() > 0);
        } else if messages[i] is TombstoneAck {
            assert(p3(messages[i]).len() > 0);
        }
    }
    if batch.dated_ranges@.len() > 0 {
        let i = choose|i: int| 0 <= i < messages.len() && p1(#[trigger] messages[i]).len() > 0;
        assert(messages[i] is EntryFingerprint);
    }
    if batch.dated_updates@.len() > 0 {
        let i = choose|i: int| 0 <= i < messages.len() && p2(#[trigger] messages[i]).len() > 0;
        assert(messages[i] is EntryUpdate);
    }
    if batch.tombstone_acks@.len() > 0 {
        let i = choose|i: int| 0 <= i < messages.len() && p3(#[trigger] messages[i]).len() > 0;
        assert(messages[i] is TombstoneAck);
    }
}

impl<K, V, R> DecodedDatagram<K, V, R> {
    /// The datagram carried at least one message about dated entries.
    pub open spec fn speaks_dated(&self) -> bool {
        self.dated_ranges@.len() > 0 || self.dated_updates@.len() > 0 || self.tombstone_acks@.len() > 0
            || self.saw_convergence_ack
    }

    /// Whether the datagram carried at least one message about dated entries, which is what
    /// qualifies its sender for membership.
    pub fn spoke_dated(&self) -> (dated: bool)
        ensures
            dated == self.speaks_dated(),
    {
        self.dated_ranges.len() > 0 || self.dated_updates.len() > 0 || self.tombstone_acks.len() > 0
            || self.saw_convergence_ack
    }
}

/// Sort a datagram's messages by what is done with them.
pub fn sort_messages<K, V, R>(messages: Vec<ReplicaMessage<K, V, R>>) -> (batch: DecodedDatagram<K, V, R>)
    ensures
        sorts(messages@, batch),
{
    let ghost all = messages@;
    let ghost p1 = |m: ReplicaMessage<K, V, R>| dated_range(m);
    let ghost p2 = |m: ReplicaMessage<K, V, R>| dated_update(m);
    let ghost p3 = |m: ReplicaMessage<K, V, R>| tombstone_ack(m);
    let ghost p4 = |m: ReplicaMessage<K, V, R>| value_range(m);
    let mut batch: DecodedDatagram<K, V, R> = DecodedDatagram {
        dated_ranges: Vec::new(),
        dated_updates: Vec::new(),
        tombstone_acks: Vec::new(),
        saw_convergence_ack: false,
        value_ranges: Vec::new(),
    };
    assert(all.take(0) =~= Seq::empty());
    for message in it: messages
        invariant
            it.seq() == all,
            p1 == (|m: ReplicaMessage<K, V, R>| dated_range(m)),
            p2 == (|m: ReplicaMessage<K, V, R>| dated_update(m)),
            p3 == (|m: ReplicaMessage<K, V, R>| tombstone_ack(m)),
            p4 == (|m: ReplicaMessage<K, V, R>| value_range(m)),
            batch.dated_ranges@ == gathered(all.take(it.index() as int), p1),
            batch.dated_updates@ == gathered(all.take(it.index() as int), p2),
            batch.tombstone_acks@ == gathered(all.take(it.index() as int), p3),
            batch.value_ranges@ == gathered(all.take(it.index() as int), p4),
            batch.saw_convergence_ack == acknowledges(all.take(it.index() as int)),
    {
        let ghost i = it.index() as int;
        let ghost prefix = all.take(i);
        let ghost longer = all.take(i + 1);
        proof {
            assert(message == all[i]);
            assert(longer.drop_last() =~= prefix);
            assert(longer.last() == all[i]);
            if acknowledges(prefix) {
                let j = choose|j: int| 0 <= j < prefix.len() && #[trigger] prefix[j] is ConvergenceAck;
                assert(longer[j] is ConvergenceAck);
            }
            if acknowledges(longer) && !(all[i] is ConvergenceAck) {
                let j = choose|j: int| 0 <= j < longer.len() && #[trigger] longer[j] is ConvergenceAck;
                assert(prefix[j] is ConvergenceAck);
            }
            if all[i] is ConvergenceAck {
                assert(longer[i] is ConvergenceAck);
            }
        }
        match message {
            Message::EntryFingerprint(range) => batch.dated_ranges.push(range),
            Message::EntryUpdate(update) => batch.dated_updates.push(update),
            Message::TombstoneAck(ack) => batch.tombstone_acks.push(ack),
            Message::StateFingerprint(range) => batch.value_ranges.push(range),
            Message::StateUpdate(_) => {},
            Message::ConvergenceAck => {
                batch.saw_convergence_ack = true;
            },
            Message::Reserved6(_) => {},
        }
        proof {
            assert(batch.dated_ranges@ =~= gathered(longer, p1));
            assert(batch.dated_updates@ =~= gathered(longer, p2));
            assert(batch.tombstone_acks@ =~= gathered(longer, p3));
            assert(batch.value_ranges@ =~= gathered(longer, p4));
        }
    }
    assert(all.take(all.len() as int) =~= all);
    batch
}

// ---------------------------------------------------------------------------------------------
// Comparison rounds
// ---------------------------------------------------------------------------------------------

/// The entries of `s` that lie in each of `ranges`, range by range.
pub open spec fn in_ranges<K: Key, X>(s: Seq<(K::V, X)>, ranges: Seq<KeyRange<K::V>>) -> Seq<(K::V, X)>
    decreases ranges.len(),
{
    if ranges.len() == 0 {
        Seq::empty()
    } else {
        in_ranges::<K, X>(s, ranges.drop_last()) + ordered_map::within::<K, X>(s, ranges.last())
    }
}

/// What a sequence of exec ranges stands for.
pub open spec fn range_views<K: Key>(ranges: Seq<KeyRange<K>>) -> Seq<KeyRange<K::V>> {
    ranges.map_values(|r: KeyRange<K>| r@)
}

/// Copy out the entries that lie in each of `ranges`.
pub fn copy_ranges<K: Key, T: Duplicate>(map: &OrderedMap<K, T>, ranges: &Vec<KeyRange<K>>) -> (entries: Vec<
    (K, T),
>)
    ensures
        ordered_map::pairs(entries@) == in_ranges::<K, T::V>(
            map.sequence(),
            range_views::<K>(ranges@),
        ),
{
    let ghost s = map.sequence();
    let ghost views = range_views::<K>(ranges@);
    let mut entries: Vec<(K, T)> = Vec::new();
    let mut i: usize = 0;
    assert(views.take(0) =~= Seq::empty());
    assert(ordered_map::pairs(entries@) =~= Seq::empty());
    while i < ranges.len()
        invariant
            i <= ranges@.len(),
            s == map.sequence(),
            views == range_views::<K>(ranges@),
            ordered_map::pairs(entries@) == in_ranges::<K, T::V>(s, views.take(i as int)),
        decreases ranges@.len() - i,
    {
        let (lo, hi) = map.window(&ranges[i]);
        let ghost so_far = in_ranges::<K, T::V>(s, views.take(i as int));
        let mut j: usize = lo;
        assert(so_far + s.subrange(lo as int, lo as int) =~= so_far);
        while j < hi
            invariant
                lo <= j <= hi <= s.len(),
                s == map.sequence(),
                ordered_map::pairs(entries@) == so_far + s.subrange(lo as int, j as int),
            decreases hi - j,
        {
            let (key, value) = map.at(j);
            let ghost before = entries@;
            entries.push((key.duplicate(), value.duplicate()));
            proof {
                assert(s.subrange(lo as int, j + 1) =~= s.subrange(lo as int, j as int).push(s[j as int]));
                assert(ordered_map::pairs(entries@) =~= ordered_map::pairs(before).push(s[j as int]));
                assert(so_far + s.subrange(lo as int, j + 1) =~= (so_far + s.subrange(lo as int, j as int)).push(
                    s[j as int],
                ));
            }
            j = j + 1;
        }
        proof {
            assert(views.take(i + 1).drop_last() =~= views.take(i as int));
            assert(views.take(i + 1).last() == ranges@[i as int]@);
        }
        i = i + 1;
    }
    assert(views.take(i as int) =~= views);
    entries
}

/// What is done about the ranges in which two replicas differ.
pub enum Dump<K, T, G> {
    /// Nothing is sent.
    Nothing,
    /// These entries are sent, paced, while the slot is held.
    Send(Vec<(K, T)>, G),
    /// No slot was free: the ranges are kept for later.
    Stash(Vec<KeyRange<K>>),
}

/// How a comparison round is answered.
pub struct ComparisonReply<K, T, R, G> {
    /// Finer comparison items, sent inline.
    pub refinements: Vec<R>,
    /// The differing entries.
    pub dump: Dump<K, T, G>,
    /// Whether the round is acknowledged as converged.
    pub ack: bool,
}

/// `dump` is what is owed about `differences`, given the slot that was claimed for it.
pub open spec fn dumps<K: Key, T: Duplicate, G>(
    s: Seq<(K::V, T::V)>,
    differences: Seq<KeyRange<K>>,
    slot: Option<G>,
    dump: Dump<K, T, G>,
) -> bool {
    let owed = in_ranges::<K, T::V>(s, range_views::<K>(differences));
    if differences.len() == 0 {
        dump is Nothing
    } else {
        match slot {
            None => dump matches Dump::Stash(ranges) && ranges@ == differences,
            Some(guard) => if owed.len() == 0 {
                dump is Nothing
            } else {
                dump matches Dump::Send(entries, held) && ordered_map::pairs(entries@) == owed && held
                    == guard
            },
        }
    }
}

/// Decide what to do about `differences`. The slot is given up unless something is sent.
pub fn plan_dump<K: Key, T: Duplicate, G>(
    map: &OrderedMap<K, T>,
    differences: Vec<KeyRange<K>>,
    slot: Option<G>,
) -> (dump: Dump<K, T, G>)
    ensures
        dumps(map.sequence(), differences@, slot, dump),
{
    if differences.len() == 0 {
        return Dump::Nothing;
    }
    match slot {
        None => Dump::Stash(differences),
        Some(guard) => {
            let entries = copy_ranges(map, &differences);
            assert(ordered_map::pairs(entries@).len() == entries@.len());
            if entries.len() == 0 {
                Dump::Nothing
            } else {
                Dump::Send(entries, guard)
            }
        },
    }
}

/// `reply` answers a comparison round over the dated entries of `store`. The round is acknowledged
/// exactly when the comparison protocol had nothing to refine and nothing to transfer.
pub open spec fn answers_dated<K: Key, V: Value, R, G, F, C>(
    store: Store<K, V>,
    in_comparison: Vec<R>,
    compare: F,
    claim: C,
    reply: ComparisonReply<K, Entry<Timestamp, V>, R, G>,
) -> bool where
    F: FnOnce(&OrderedMap<K, Entry<Timestamp, V>>, Vec<R>) -> (Vec<R>, Vec<KeyRange<K>>),
    C: FnOnce() -> Option<G>,
 {
    if in_comparison@.len() == 0 {
        reply.refinements@.len() == 0 && reply.dump is Nothing && !reply.ack
    } else {
        exists|out: (Vec<R>, Vec<KeyRange<K>>), slot: Option<G>|
            {
                &&& #[trigger] call_ensures(compare, (&store.dated(), in_comparison), out)
                &&& out.1@.len() > 0 ==> call_ensures(claim, (), slot)
                &&& reply.refinements == out.0
                &&& #[trigger] dumps(store.sequence(), out.1@, slot, reply.dump)
                &&& reply.ack == (out.0@.len() == 0 && out.1@.len() == 0)
            }
    }
}

/// `reply` answers a comparison round over the projection of `store`. It is never acknowledged.
pub open spec fn answers_values<K: Key, V: Value, R, G, F, C>(
    store: Store<K, V>,
    in_comparison: Vec<R>,
    compare: F,
    claim: C,
    reply: ComparisonReply<K, State<V>, R, G>,
) -> bool where
    F: FnOnce(&OrderedMap<K, State<V>>, Vec<R>) -> (Vec<R>, Vec<KeyRange<K>>),
    C: FnOnce() -> Option<G>,
 {
    &&& !reply.ack
    &&& if in_comparison@.len() == 0 {
        reply.refinements@.len() == 0 && reply.dump is Nothing
    } else {
        exists|out: (Vec<R>, Vec<KeyRange<K>>), slot: Option<G>|
            {
                &&& #[trigger] call_ensures(compare, (&store.valued(), in_comparison), out)
                &&& out.1@.len() > 0 ==> call_ensures(claim, (), slot)
                &&& reply.refinements == out.0
                &&& #[trigger] dumps(store::undated(store.sequence()), out.1@, slot, reply.dump)
            }
    }
}

impl<K: Key, V: Value> Replica<K, V> {
    /// Sort the messages of a datagram; `None` when it could not be decoded.
    pub fn decode_datagram<R>(&mut self, decoded: Option<Vec<ReplicaMessage<K, V, R>>>) -> (batch: Option<
        DecodedDatagram<K, V, R>,
    >)
        ensures
            batch is Some <==> decoded is Some,
            batch matches Some(b) ==> sorts(decoded->0@, b) && *final(self) == *old(self),
            batch is None ==> {
                &&& *final(self) == (Replica { metrics: final(self).metrics, ..*old(self) })
                &&& final(self).metrics@ == old(self).metrics@.push(
                    observability::counted_by(metrics::DATAGRAMS_DROPPED_TOTAL, "reason", "malformed"),
                )
            },
    {
        match decoded {
            Some(messages) => Some(sort_messages(messages)),
            None => {
                self.metrics.record_datagram_dropped("malformed");
                None
            },
        }
    }

    /// Answer a comparison round over dated entries. `compare` runs the comparison protocol against
    /// the dated map; `claim` asks for a transfer slot, and only where there is something to
    /// transfer.
    pub fn handle_dated_comparison<R, G, F, C>(
        &self,
        in_comparison: Vec<R>,
        compare: F,
        claim: C,
    ) -> (reply: ComparisonReply<K, Entry<Timestamp, V>, R, G>) where
        F: FnOnce(&OrderedMap<K, Entry<Timestamp, V>>, Vec<R>) -> (Vec<R>, Vec<KeyRange<K>>),
        C: FnOnce() -> Option<G>,

        requires
            in_comparison@.len() > 0 ==> call_requires(compare, (&self.store.dated(), in_comparison)),
            forall|out: (Vec<R>, Vec<KeyRange<K>>)|
                call_ensures(compare, (&self.store.dated(), in_comparison), out) && out.1@.len() > 0
                    ==> call_requires(claim, ()),
        ensures
            answers_dated(self.store, in_comparison, compare, claim, reply),
    {
        if in_comparison.len() == 0 {
            return ComparisonReply { refinements: Vec::new(), dump: Dump::Nothing, ack: false };
        }
        let map = self.store.map();
        let (refinements, differences) = compare(map, in_comparison);
        let ghost out = (refinements, differences);
        let ack: bool = refinements.len() == 0 && differences.len() == 0;
        let slot: Option<G> = if differences.len() > 0 {
            claim()
        } else {
            None
        };
        let dump = plan_dump(map, differences, slot);
        assert(call_ensures(compare, (&self.store.dated(), in_comparison), out));
        assert(dumps(self.store.sequence(), out.1@, slot, dump));
        ComparisonReply { refinements, dump, ack }
    }

    /// Answer a comparison round over undated states, from the projection. Such a round is never
    /// acknowledged, and never changes the dated map.
    pub fn handle_value_comparison<R, G, F, C>(
        &self,
        value_in_comparison: Vec<R>,
        compare: F,
        claim: C,
    ) -> (reply: ComparisonReply<K, State<V>, R, G>) where
        F: FnOnce(&OrderedMap<K, State<V>>, Vec<R>) -> (Vec<R>, Vec<KeyRange<K>>),
        C: FnOnce() -> Option<G>,

        requires
            value_in_comparison@.len() > 0 ==> call_requires(
                compare,
                (&self.store.valued(), value_in_comparison),
            ),
            forall|out: (Vec<R>, Vec<KeyRange<K>>)|
                call_ensures(compare, (&self.store.valued(), value_in_comparison), out)
                    && out.1@.len() > 0 ==> call_requires(claim, ()),
        ensures
            answers_values(self.store, value_in_comparison, compare, claim, reply),
    {
        if value_in_comparison.len() == 0 {
            return ComparisonReply { refinements: Vec::new(), dump: Dump::Nothing, ack: false };
        }
        let map = self.store.projection();
        let (refinements, differences) = compare(map, value_in_comparison);
        let ghost out = (refinements, differences);
        let slot: Option<G> = if differences.len() > 0 {
            claim()
        } else {
            None
        };
        let dump = plan_dump(map, differences, slot);
        assert(call_ensures(compare, (&self.store.valued(), value_in_comparison), out));
        assert(dumps(store::undated(self.store.sequence()), out.1@, slot, dump));
        ComparisonReply { refinements, dump, ack: false }
    }
}

// ---------------------------------------------------------------------------------------------
// Tombstone acknowledgements
// ---------------------------------------------------------------------------------------------

/// The acknowledgement table once `peer` acknowledged each of `acks`, in turn. Only an ack for a
/// tombstone that is held is kept, which bounds the table.
pub open spec fn acknowledged<Q, X>(
    table: Map<Q, Map<IpAddr, u64>>,
    held: Map<Q, Entry<Timestamp, X>>,
    acks: Seq<(Q, u64)>,
    peer: IpAddr,
) -> Map<Q, Map<IpAddr, u64>>
    decreases acks.len(),
{
    if acks.len() == 0 {
        table
    } else {
        let so_far = acknowledged(table, held, acks.drop_last(), peer);
        let (key, version) = acks.last();
        if held.contains_key(key) && held[key].state is Tombstone {
            let versions = if so_far.contains_key(key) {
                so_far[key]
            } else {
                Map::empty()
            };
            so_far.insert(key, versions.insert(peer, version))
        } else {
            so_far
        }
    }
}

/// If the table only names held tombstones, it still does after recording acks.
pub proof fn acks_are_only_kept_for_held_tombstones<Q, X>(
    table: Map<Q, Map<IpAddr, u64>>,
    held: Map<Q, Entry<Timestamp, X>>,
    acks: Seq<(Q, u64)>,
    peer: IpAddr,
)
    requires
        forall|key: Q| #[trigger] table.contains_key(key) ==> held.contains_key(key) && held[key].state is Tombstone,
    ensures
        forall|key: Q| #[trigger]
            acknowledged(table, held, acks, peer).contains_key(key) ==> held.contains_key(key)
                && held[key].state is Tombstone,
    decreases acks.len(),
{
    if acks.len() > 0 {
        acks_are_only_kept_for_held_tombstones(table, held, acks.drop_last(), peer);
        let so_far = acknowledged(table, held, acks.drop_last(), peer);
        assert forall|key: Q| #[trigger] acknowledged(table, held, acks, peer).contains_key(key) implies held.contains_key(
            key,
        ) && held[key].state is Tombstone by {
            assert(so_far.contains_key(key) || key == acks.last().0);
        }
    }
}

impl<K: Key, V: Value> Replica<K, V> {
    /// Record which versions of which tombstones `peer` acknowledges.
    pub fn record_tombstone_acks(&mut self, acks: Vec<(K, u64)>, peer: IpAddr)
        ensures
            *final(self) == (Replica { tombstone_acks: final(self).tombstone_acks, ..*old(self) }),
            final(self).tombstone_acks@ == acknowledged(
                old(self).tombstone_acks@,
                old(self).store@,
                ordered_map::pairs(acks@),
                peer,
            ),
    {
        let ghost all = ordered_map::pairs(acks@);
        let ghost table = self.tombstone_acks@;
        let ghost held = self.store@;
        assert(all.take(0) =~= Seq::empty());
        for ack in it: acks
            invariant
                all == ordered_map::pairs(it.seq()),
                *self == (Replica { tombstone_acks: self.tombstone_acks, ..*old(self) }),
                held == old(self).store@,
                self.tombstone_acks@ == acknowledged(table, held, all.take(it.index() as int), peer),
        {
            let ghost i = it.index() as int;
            let (key, version) = ack;
            proof {
                assert(all[i] == (key@, version));
                assert(all.take(i + 1).drop_last() =~= all.take(i));
                assert(all.take(i + 1).last() == all[i]);
            }
            let is_held: bool = match self.store.map().get(&key) {
                Some(entry) => entry.is_tombstone(),
                None => false,
            };
            if is_held {
                let mut versions: OrderedMap<IpAddr, u64> = match self.tombstone_acks.remove(&key) {
                    Some(versions) => versions,
                    None => OrderedMap::new(),
                };
                versions.insert(peer, version);
                self.tombstone_acks.insert(key, versions);
                assert(self.tombstone_acks@ =~= acknowledged(table, held, all.take(i + 1), peer));
            }
        }
        assert(all.take(all.len() as int) =~= all);
    }
}

// ---------------------------------------------------------------------------------------------
// Dated updates
// ---------------------------------------------------------------------------------------------

/// The tombstones acknowledged while screening: each update that cannot change the map, where the
/// map holds an equal or newer tombstone.
pub open spec fn screening_acks<Q, X>(
    m: Map<Q, Entry<Timestamp, X>>,
    updates: Seq<(Q, Entry<Timestamp, X>)>,
) -> Seq<(Q, Timestamp)> {
    updates.filter(
        |u: (Q, Entry<Timestamp, X>)| !merge::adopts(m, u.0, u.1) && m[u.0].state is Tombstone,
    ).map_values(|u: (Q, Entry<Timestamp, X>)| (u.0, m[u.0].stamp))
}

/// The tombstones acknowledged while merging: each update whose key holds a tombstone afterwards.
pub open spec fn merging_acks<Q, X>(
    m: Map<Q, Entry<Timestamp, X>>,
    updates: Seq<(Q, Entry<Timestamp, X>)>,
) -> Seq<(Q, Timestamp)>
    decreases updates.len(),
{
    if updates.len() == 0 {
        Seq::empty()
    } else {
        let so_far = merging_acks(m, updates.drop_last());
        let key = updates.last().0;
        let won = merge::merge_all(m, updates)[key];
        if won.state is Tombstone {
            so_far.push((key, won.stamp))
        } else {
            so_far
        }
    }
}

/// The stamps of a batch of updates.
pub open spec fn stamps<Q, X>(updates: Seq<(Q, Entry<Timestamp, X>)>) -> Seq<Timestamp> {
    updates.map_values(|u: (Q, Entry<Timestamp, X>)| u.1.stamp)
}

/// A batch of updates, held against the map as it was when they arrived.
pub struct ScreenedUpdates<K, V> {
    /// The updates that can change the map.
    pub to_apply: Vec<(K, Entry<Timestamp, V>)>,
    /// Tombstones to acknowledge to the sender: the key, and the stamp of the tombstone held.
    pub acks: Vec<(K, Timestamp)>,
    /// Every stamp in the batch: the local clock must move past all of them.
    pub observed: Vec<Timestamp>,
    /// Whether an update carries the stamp of what the map holds for its key, with other content.
    pub collided: bool,
}

/// What integrating a batch of updates calls for.
pub struct IntegratedUpdates<K> {
    /// Tombstones to acknowledge to the sender: the key, and the stamp of the tombstone held.
    pub acks: Vec<(K, Timestamp)>,
    /// Whether a node-id collision is to be reported now, for the first time.
    pub report_collision: bool,
}

/// What applying a batch of updates calls for.
pub struct AppliedUpdates<K> {
    /// Tombstones to acknowledge to the sender: the key, and the stamp of the tombstone held.
    pub acks: Vec<(K, Timestamp)>,
    /// Every stamp in the batch: the local clock must move past all of them.
    pub observed: Vec<Timestamp>,
    /// Whether a node-id collision is to be reported now, for the first time.
    pub report_collision: bool,
}

/// What receiving a batch of updates from `peer` leaves in the replica before any is applied: a
/// repair is noted, the transfer is noted, and the batch is counted.
pub open spec fn received<K: Key, V: Value>(
    before: Replica<K, V>,
    after: Replica<K, V>,
    n: nat,
    peer: IpAddr,
    now: Instant,
) -> bool {
    &&& after == (Replica {
        pending_repairs: after.pending_repairs,
        receiving_bulk_from: after.receiving_bulk_from,
        metrics: after.metrics,
        ..before
    })
    &&& after.pending_repairs@ == if before.pending_repairs@.contains_key(peer) {
        before.pending_repairs@
    } else {
        before.pending_repairs@.insert(peer, repair::fresh_repair(now, before.repair_interval))
    }
    &&& after.receiving_bulk_from@ == before.receiving_bulk_from@.insert(peer, now)
    &&& after.metrics@ == before.metrics@.push(
        observability::counted(metrics::UPDATES_RECEIVED_TOTAL, n as u64),
    )
}

/// One more update collides with what the map holds, or the ones before it do.
proof fn lemma_collides_step<Q, X>(
    m: Map<Q, Entry<Timestamp, X>>,
    updates: Seq<(Q, Entry<Timestamp, X>)>,
    i: int,
)
    requires
        0 <= i < updates.len(),
    ensures
        merge::collides_with_held(m, updates.take(i + 1)) == (merge::collides_with_held(
            m,
            updates.take(i),
        ) || (m.contains_key(updates[i].0) && collision::collides(m[updates[i].0], updates[i].1))),
{
    let prefix = updates.take(i);
    let longer = updates.take(i + 1);
    if merge::collides_with_held(m, prefix) {
        let j = choose|j: int|
            0 <= j < prefix.len() && m.contains_key((#[trigger] prefix[j]).0) && collision::collides(
                m[prefix[j].0],
                prefix[j].1,
            );
        assert(longer[j] == prefix[j]);
    }
    if merge::collides_with_held(m, longer) {
        let j = choose|j: int|
            0 <= j < longer.len() && m.contains_key((#[trigger] longer[j]).0) && collision::collides(
                m[longer[j].0],
                longer[j].1,
            );
        if j < i {
            assert(prefix[j] == longer[j]);
        }
    }
    assert(longer[i] == updates[i]);
}

impl<K: Key, V: Value> Replica<K, V> {
    /// Hold a batch of updates against the map, without changing it.
    pub fn screen_updates(&self, updates: Vec<(K, Entry<Timestamp, V>)>) -> (screened: ScreenedUpdates<
        K,
        V,
    >)
        ensures
            ordered_map::pairs(screened.to_apply@) == merge::adopted(
                self.store@,
                ordered_map::pairs(updates@),
            ),
            ordered_map::pairs(screened.acks@) == screening_acks(
                self.store@,
                ordered_map::pairs(updates@),
            ),
            screened.observed@ == stamps(ordered_map::pairs(updates@)),
            screened.collided == merge::collides_with_held(self.store@, ordered_map::pairs(updates@)),
    {
        let ghost all = ordered_map::pairs(updates@);
        let ghost m = self.store@;
        let ghost keep = |u: (K::V, Entry<Timestamp, V::V>)| merge::adopts(m, u.0, u.1);
        let ghost owe = |u: (K::V, Entry<Timestamp, V::V>)|
            !merge::adopts(m, u.0, u.1) && m[u.0].state is Tombstone;
        let ghost name = |u: (K::V, Entry<Timestamp, V::V>)| (u.0, m[u.0].stamp);
        let mut to_apply: Vec<(K, Entry<Timestamp, V>)> = Vec::new();
        let mut acks: Vec<(K, Timestamp)> = Vec::new();
        let mut observed: Vec<Timestamp> = Vec::new();
        let mut collided: bool = false;
        proof {
            reveal(Seq::filter);
            assert(all.take(0) =~= Seq::empty());
            assert(ordered_map::pairs(to_apply@) =~= all.take(0).filter(keep));
            assert(ordered_map::pairs(acks@) =~= all.take(0).filter(owe).map_values(name));
        }
        for update in it: updates
            invariant
                all == ordered_map::pairs(it.seq()),
                m == self.store@,
                keep == (|u: (K::V, Entry<Timestamp, V::V>)| merge::adopts(m, u.0, u.1)),
                owe == (|u: (K::V, Entry<Timestamp, V::V>)|
                    !merge::adopts(m, u.0, u.1) && m[u.0].state is Tombstone),
                name == (|u: (K::V, Entry<Timestamp, V::V>)| (u.0, m[u.0].stamp)),
                ordered_map::pairs(to_apply@) == all.take(it.index() as int).filter(keep),
                ordered_map::pairs(acks@) == all.take(it.index() as int).filter(owe).map_values(name),
                observed@ == stamps(all.take(it.index() as int)),
                collided == merge::collides_with_held(m, all.take(it.index() as int)),
        {
            let ghost i = it.index() as int;
            let ghost longer = all.take(i + 1);
            let ghost (before, owed) = (to_apply@, acks@);
            let (key, remote) = update;
            let ghost u = (key@, remote@);
            proof {
                reveal(Seq::filter);
                assert(all[i] == u);
                assert(longer.drop_last() =~= all.take(i));
                assert(longer.last() == u);
            }
            observed.push(remote.stamp);
            let held: Option<(Timestamp, bool, bool)> = match self.store.map().get(&key) {
                Some(local) => Some(
                    (
                        local.stamp,
                        local.is_tombstone(),
                        collision::is_node_id_collision(local, &remote),
                    ),
                ),
                None => None,
            };
            proof {
                lemma_collides_step(m, all, i);
            }
            match held {
                Some((stamp, deleted, collides)) => {
                    collided = collided || collides;
                    if remote.stamp.is_newer_than(&stamp) {
                        to_apply.push((key, remote));
                    } else if deleted {
                        acks.push((key, stamp));
                    }
                },
                None => to_apply.push((key, remote)),
            }
            proof {
                if owe(u) {
                    assert(longer.filter(owe) == all.take(i).filter(owe).push(u));
                    assert(ordered_map::pairs(acks@) =~= ordered_map::pairs(owed).push(name(u)));
                } else {
                    assert(acks@ == owed);
                }
                assert(ordered_map::pairs(to_apply@) =~= longer.filter(keep));
                assert(ordered_map::pairs(acks@) =~= longer.filter(owe).map_values(name));
                assert(observed@ =~= stamps(longer));
            }
        }
        assert(all.take(all.len() as int) =~= all);
        ScreenedUpdates { to_apply, acks, observed, collided }
    }

    /// A batch of updates arrived from `peer`: note it, and hold it against the map. Whoever
    /// supplies a pre-insert hook runs it on `to_apply` next, then hands both `to_apply` and
    /// `collided` to [`integrate_updates`](Self::integrate_updates).
    pub fn receive_updates(&mut self, updates: Vec<(K, Entry<Timestamp, V>)>, peer: IpAddr, now: Instant) -> (screened: ScreenedUpdates<
        K,
        V,
    >)
        requires
            now.nanos + old(self).repair_interval.nanos <= u128::MAX,
        ensures
            updates@.len() == 0 ==> *final(self) == *old(self),
            updates@.len() > 0 ==> received(*old(self), *final(self), updates@.len(), peer, now),
            ordered_map::pairs(screened.to_apply@) == merge::adopted(
                old(self).store@,
                ordered_map::pairs(updates@),
            ),
            ordered_map::pairs(screened.acks@) == screening_acks(
                old(self).store@,
                ordered_map::pairs(updates@),
            ),
            screened.observed@ == stamps(ordered_map::pairs(updates@)),
            screened.collided == merge::collides_with_held(old(self).store@, ordered_map::pairs(updates@)),
    {
        if updates.len() > 0 {
            self.metrics.record_updates_received(updates.len());
            self.note_pending_repair(peer, now);
            self.note_bulk_update_received(peer, now);
        }
        self.screen_updates(updates)
    }

    /// Merge updates into the map, last write winning. The map may have changed since the updates
    /// were screened. A collision met now, or `collided` while screening, is reported unless one was
    /// before.
    pub fn integrate_updates(&mut self, to_apply: Vec<(K, Entry<Timestamp, V>)>, collided: bool) -> (integrated: IntegratedUpdates<
        K,
    >)
        ensures
            *final(self) == (Replica {
                store: final(self).store,
                collision_reporter: final(self).collision_reporter,
                changes_since_snapshot: old(self).changes_since_snapshot.wrapping_add(
                    to_apply@.len() as usize,
                ),
                ..*old(self)
            }),
            final(self).store@ == merge::merge_all(old(self).store@, ordered_map::pairs(to_apply@)),
            ordered_map::pairs(integrated.acks@) == merging_acks(
                old(self).store@,
                ordered_map::pairs(to_apply@),
            ),
            forall|i: int|
                0 <= i < to_apply@.len() && final(self).store@[(#[trigger] to_apply@[i]).0@].state is Tombstone
                    ==> exists|j: int|
                    0 <= j < integrated.acks@.len() && (#[trigger] integrated.acks@[j]).0@ == to_apply@[i].0@
                        && integrated.acks@[j].1 == final(self).store@[to_apply@[i].0@].stamp,
            final(self).collision_reporter.reported == (old(self).collision_reporter.reported
                || collided || merge::collides_in_merge(
                old(self).store@,
                ordered_map::pairs(to_apply@),
            )),
            integrated.report_collision == (!old(self).collision_reporter.reported && (collided
                || merge::collides_in_merge(old(self).store@, ordered_map::pairs(to_apply@)))),
    {
        let ghost all = ordered_map::pairs(to_apply@);
        let ghost m = self.store@;
        let node_id = self.node_id;
        self.record_changes(to_apply.len());
        let ghost mid = *self;
        let mut acks: Vec<(K, Timestamp)> = Vec::new();
        let mut report_collision: bool = false;
        if collided {
            report_collision = self.collision_reporter.report(node_id);
        }
        proof {
            assert(all.take(0) =~= Seq::empty());
            assert(ordered_map::pairs(acks@) =~= Seq::empty());
        }
        for update in it: to_apply
            invariant
                all == ordered_map::pairs(it.seq()),
                *self == (Replica {
                    store: self.store,
                    collision_reporter: self.collision_reporter,
                    ..mid
                }),
                self.store@ == merge::merge_all(m, all.take(it.index() as int)),
                ordered_map::pairs(acks@) == merging_acks(m, all.take(it.index() as int)),
                self.collision_reporter.reported == (mid.collision_reporter.reported
                    || collided || merge::collides_in_merge(m, all.take(it.index() as int))),
                report_collision == (!mid.collision_reporter.reported && (collided
                    || merge::collides_in_merge(m, all.take(it.index() as int)))),
        {
            let ghost i = it.index() as int;
            let ghost longer = all.take(i + 1);
            let ghost owed = acks@;
            let (key, remote) = update;
            let ghost (k, r) = (key@, remote@);
            let ghost so_far = self.store@;
            proof {
                assert(all[i] == (k, r));
                assert(longer.drop_last() =~= all.take(i));
                assert(longer.last() == (k, r));
            }
            let (merged, collides): (Entry<Timestamp, V>, bool) = match self.store.map().get(&key) {
                Some(local) => (local.merge(&remote), collision::is_node_id_collision(local, &remote)),
                None => (remote, false),
            };
            if collides {
                let first: bool = self.collision_reporter.report(node_id);
                report_collision = report_collision || first;
            }
            let deleted: bool = merged.is_tombstone();
            let stamp: Timestamp = merged.stamp;
            self.store.map_insert(key.duplicate(), merged);
            assert(self.store@ == merge::merge_all(m, longer));
            if deleted {
                acks.push((key, stamp));
                assert(ordered_map::pairs(acks@) =~= ordered_map::pairs(owed).push((k, stamp)));
            }
        }
        let integrated = IntegratedUpdates { acks, report_collision };
        proof {
            assert(all.take(all.len() as int) =~= all);
            let owed = merging_acks(m, all);
            let after = self.store@;
            let listed = integrated.acks@;
            assert(ordered_map::pairs(listed) == owed);
            assert(owed.len() == listed.len());
            assert forall|i: int|
                0 <= i < to_apply@.len() && after[(#[trigger] to_apply@[i]).0@].state is Tombstone implies exists|
                j: int,
            |
                0 <= j < listed.len() && (#[trigger] listed[j]).0@ == to_apply@[i].0@ && listed[j].1
                    == after[to_apply@[i].0@].stamp by {
                assert(all[i].0 == to_apply@[i].0@);
                merged_tombstones_are_acknowledged(m, all, i);
                let j = choose|j: int| 0 <= j < owed.len() && owed[j] == (all[i].0, after[all[i].0].stamp);
                assert(ordered_map::pairs(listed)[j] == (listed[j].0@, listed[j].1));
            }
        }
        integrated
    }

    /// Apply a batch of updates from `peer`: screen it, then merge in what can change the map.
    pub fn apply_dated_updates(&mut self, updates: Vec<(K, Entry<Timestamp, V>)>, peer: IpAddr, now: Instant) -> (applied: AppliedUpdates<
        K,
    >)
        requires
            now.nanos + old(self).repair_interval.nanos <= u128::MAX,
        ensures
            final(self).store@ == merge::merge_all(old(self).store@, ordered_map::pairs(updates@)),
            applies_updates(*old(self), *final(self), ordered_map::pairs(updates@), peer, now, applied),
    {
        let ghost all = ordered_map::pairs(updates@);
        let ghost m = self.store@;
        if updates.len() == 0 {
            proof {
                assert(all =~= Seq::empty());
                reveal(Seq::filter);
                assert(merge::adopted(m, all) =~= Seq::empty());
                assert(screening_acks(m, all) =~= Seq::empty());
            }
            let applied = AppliedUpdates {
                acks: Vec::new(),
                observed: Vec::new(),
                report_collision: false,
            };
            assert(ordered_map::pairs(applied.acks@) =~= Seq::empty());
            assert(applied.observed@ =~= stamps(all));
            return applied;
        }
        let mut screened = self.receive_updates(updates, peer, now);
        let ghost noted = *self;
        let to_apply = screened.to_apply;
        let ghost kept = ordered_map::pairs(to_apply@);
        assert(received(*old(self), noted, all.len(), peer, now));
        let mut integrated = self.integrate_updates(to_apply, screened.collided);
        let mut acks = screened.acks;
        let ghost early = acks@;
        acks.append(&mut integrated.acks);
        proof {
            merge::screening_loses_nothing(m, all);
            merge::screening_hides_no_collision(m, all);
            assert(ordered_map::pairs(acks@) =~= screening_acks(m, all) + merging_acks(m, kept));
        }
        AppliedUpdates { acks, observed: screened.observed, report_collision: integrated.report_collision }
    }
}

/// What applying a batch of updates does to a replica beside the map, and what it calls for.
pub open spec fn applies_updates<K: Key, V: Value>(
    before: Replica<K, V>,
    after: Replica<K, V>,
    updates: Seq<(K::V, Entry<Timestamp, V::V>)>,
    peer: IpAddr,
    now: Instant,
    applied: AppliedUpdates<K>,
) -> bool {
    let m = before.store@;
    let kept = merge::adopted(m, updates);
    &&& applied.observed@ == stamps(updates)
    &&& ordered_map::pairs(applied.acks@) == screening_acks(m, updates) + merging_acks(m, kept)
    &&& applied.report_collision == (!before.collision_reporter.reported && merge::any_collision(m, updates))
    &&& if updates.len() == 0 {
        after == before
    } else {
        exists|noted: Replica<K, V>|
            {
                &&& #[trigger] received(before, noted, updates.len(), peer, now)
                &&& after == (Replica {
                    store: after.store,
                    collision_reporter: after.collision_reporter,
                    changes_since_snapshot: before.changes_since_snapshot.wrapping_add(
                        kept.len() as usize,
                    ),
                    ..noted
                })
                &&& after.collision_reporter.reported == (before.collision_reporter.reported
                    || merge::any_collision(m, updates))
            }
    }
}

/// A collision is reported, and only once: the first batch that shows one is the one that reports
/// it, even where the colliding update cannot change the map, and no later batch reports again.
pub proof fn collisions_are_reported_once<K: Key, V: Value>(
    first: Replica<K, V>,
    second: Replica<K, V>,
    third: Replica<K, V>,
    updates: Seq<(K::V, Entry<Timestamp, V::V>)>,
    more: Seq<(K::V, Entry<Timestamp, V::V>)>,
    peer: IpAddr,
    now: Instant,
    later: Instant,
    applied: AppliedUpdates<K>,
    applied_later: AppliedUpdates<K>,
)
    requires
        applies_updates(first, second, updates, peer, now, applied),
        applies_updates(second, third, more, peer, later, applied_later),
    ensures
        merge::collides_with_held(first.store@, updates) && !first.collision_reporter.reported
            ==> applied.report_collision,
        applied.report_collision ==> !applied_later.report_collision,
        first.collision_reporter.reported ==> !applied.report_collision && !applied_later.report_collision,
{
}

// ---------------------------------------------------------------------------------------------
// A whole datagram
// ---------------------------------------------------------------------------------------------

/// What handling a datagram calls for.
pub struct Handled<K, V, R, G> {
    /// Whether the sender spoke of dated entries, and so qualifies for membership.
    pub spoke_dated: bool,
    /// The answer to its comparison items over dated entries.
    pub dated: ComparisonReply<K, Entry<Timestamp, V>, R, G>,
    /// What its updates call for.
    pub applied: AppliedUpdates<K>,
    /// The answer to its comparison items over undated states.
    pub valued: ComparisonReply<K, State<V>, R, G>,
}

/// What the acks and the updates of a datagram do to a replica: the acks are recorded against the
/// map as it stands, then the updates are merged in.
pub open spec fn handles_batch<K: Key, V: Value, R>(
    before: Replica<K, V>,
    acked: Replica<K, V>,
    after: Replica<K, V>,
    batch: DecodedDatagram<K, V, R>,
    peer: IpAddr,
    now: Instant,
    applied: AppliedUpdates<K>,
) -> bool {
    &&& acked == (Replica { tombstone_acks: acked.tombstone_acks, ..before })
    &&& acked.tombstone_acks@ == acknowledged(
        before.tombstone_acks@,
        before.store@,
        ordered_map::pairs(batch.tombstone_acks@),
        peer,
    )
    &&& after.store@ == merge::merge_all(before.store@, ordered_map::pairs(batch.dated_updates@))
    &&& applies_updates(
        acked,
        after,
        ordered_map::pairs(batch.dated_updates@),
        peer,
        now,
        applied,
    )
}

/// What handling the messages of a datagram does to a replica, and what it calls for: the dated
/// comparison is answered from the map before the updates, the undated one from the projection
/// after them.
pub open spec fn handles<K: Key, V: Value, R, G, FD, CD, FV, CV>(
    before: Replica<K, V>,
    after: Replica<K, V>,
    messages: Seq<ReplicaMessage<K, V, R>>,
    peer: IpAddr,
    now: Instant,
    compare_dated: FD,
    claim_dated: CD,
    compare_values: FV,
    claim_values: CV,
    handled: Handled<K, V, R, G>,
) -> bool where
    FD: FnOnce(&OrderedMap<K, Entry<Timestamp, V>>, Vec<R>) -> (Vec<R>, Vec<KeyRange<K>>),
    CD: FnOnce() -> Option<G>,
    FV: FnOnce(&OrderedMap<K, State<V>>, Vec<R>) -> (Vec<R>, Vec<KeyRange<K>>),
    CV: FnOnce() -> Option<G>,
 {
    exists|batch: DecodedDatagram<K, V, R>, acked: Replica<K, V>|
        {
            &&& sorts(messages, batch)
            &&& #[trigger] handles_batch(before, acked, after, batch, peer, now, handled.applied)
            &&& answers_dated(
                before.store,
                batch.dated_ranges,
                compare_dated,
                claim_dated,
                handled.dated,
            )
            &&& answers_values(
                after.store,
                batch.value_ranges,
                compare_values,
                claim_values,
                handled.valued,
            )
        }
}

impl<K: Key, V: Value> Replica<K, V> {
    /// Handle the messages of a datagram from `peer`: record its acks, answer its dated comparison
    /// from the map as it stands, apply its updates, then answer its undated comparison from the
    /// updated projection. `None` when the datagram could not be decoded.
    pub fn handle_messages<R, G, FD, CD, FV, CV>(
        &mut self,
        decoded: Option<Vec<ReplicaMessage<K, V, R>>>,
        peer: IpAddr,
        now: Instant,
        compare_dated: FD,
        claim_dated: CD,
        compare_values: FV,
        claim_values: CV,
    ) -> (handled: Option<Handled<K, V, R, G>>) where
        FD: FnOnce(&OrderedMap<K, Entry<Timestamp, V>>, Vec<R>) -> (Vec<R>, Vec<KeyRange<K>>),
        CD: FnOnce() -> Option<G>,
        FV: FnOnce(&OrderedMap<K, State<V>>, Vec<R>) -> (Vec<R>, Vec<KeyRange<K>>),
        CV: FnOnce() -> Option<G>,

        requires
            now.nanos + old(self).repair_interval.nanos <= u128::MAX,
            forall|map: &OrderedMap<K, Entry<Timestamp, V>>, ranges: Vec<R>|
                call_requires(compare_dated, (map, ranges)),
            forall|map: &OrderedMap<K, State<V>>, ranges: Vec<R>|
                call_requires(compare_values, (map, ranges)),
            call_requires(claim_dated, ()),
            call_requires(claim_values, ()),
        ensures
            handled is Some <==> decoded is Some,
            handled is None ==> {
                &&& *final(self) == (Replica { metrics: final(self).metrics, ..*old(self) })
                &&& final(self).metrics@ == old(self).metrics@.push(
                    observability::counted_by(metrics::DATAGRAMS_DROPPED_TOTAL, "reason", "malformed"),
                )
            },
            handled matches Some(h) ==> {
                &&& h.spoke_dated == speaks_dated(decoded->0@)
                &&& handles(
                    *old(self),
                    *final(self),
                    decoded->0@,
                    peer,
                    now,
                    compare_dated,
                    claim_dated,
                    compare_values,
                    claim_values,
                    h,
                )
            },
    {
        match self.decode_datagram(decoded) {
            None => None,
            Some(batch) => {
                let ghost whole = batch;
                let spoke_dated: bool = batch.spoke_dated();
                proof {
                    sorted_datagrams_keep_their_channel(decoded->0@, batch);
                }
                self.record_tombstone_acks(batch.tombstone_acks, peer);
                let ghost acked = *self;
                let dated = self.handle_dated_comparison(batch.dated_ranges, compare_dated, claim_dated);
                let applied = self.apply_dated_updates(batch.dated_updates, peer, now);
                let valued = self.handle_value_comparison(
                    batch.value_ranges,
                    compare_values,
                    claim_values,
                );
                let handled = Handled { spoke_dated, dated, applied, valued };
                assert(sorts(decoded->0@, whole));
                assert(answers_dated(
                            old(self).store,
                            whole.dated_ranges,
                            compare_dated,
                            claim_dated,
                            handled.dated,
                        ));
                assert(answers_values(
                            self.store,
                            whole.value_ranges,
                            compare_values,
                            claim_values,
                            handled.valued,
                        ));
                assert(handles_batch(*old(self), acked, *self, whole, peer, now, handled.applied));
                assert(handles(
                    *old(self),
                    *self,
                    decoded->0@,
                    peer,
                    now,
                    compare_dated,
                    claim_dated,
                    compare_values,
                    claim_values,
                    handled,
                ));
                Some(handled)
            },
        }
    }
}

// ---------------------------------------------------------------------------------------------
// What handling a datagram amounts to
// ---------------------------------------------------------------------------------------------

/// Every key named in a merged batch that holds a tombstone once the whole batch is merged is
/// acknowledged, with the stamp of the tombstone held: two deleted keys, two acks.
pub proof fn merged_tombstones_are_acknowledged<Q, X>(
    m: Map<Q, Entry<Timestamp, X>>,
    updates: Seq<(Q, Entry<Timestamp, X>)>,
    i: int,
)
    requires
        0 <= i < updates.len(),
        merge::merge_all(m, updates)[updates[i].0].state is Tombstone,
    ensures
        merging_acks(m, updates).contains((updates[i].0, merge::merge_all(m, updates)[updates[i].0].stamp)),
    decreases updates.len(),
{
    let rest = updates.drop_last();
    let last = updates.len() - 1;
    let key = updates[i].0;
    let won = merge::merge_all(m, updates)[key];
    if updates.last().0 == key {
        let acks = merging_acks(m, updates);
        assert(acks[acks.len() - 1] == (key, won.stamp));
    } else {
        assert(rest[i] == updates[i]);
        merged_tombstones_are_acknowledged(m, rest, i);
        let before = merging_acks(m, rest);
        let j = choose|j: int| 0 <= j < before.len() && before[j] == (key, won.stamp);
        assert(merging_acks(m, updates)[j] == (key, won.stamp));
    }
}

/// Every ack of a merge names an update of the batch and a tombstone that the map held or the batch
/// brought, and there are no more acks than updates.
pub proof fn merge_acks_are_due<Q, X>(
    m: Map<Q, Entry<Timestamp, X>>,
    updates: Seq<(Q, Entry<Timestamp, X>)>,
    i: int,
)
    requires
        0 <= i < merging_acks(m, updates).len(),
    ensures
        merging_acks(m, updates).len() <= updates.len(),
        exists|j: int| 0 <= j < updates.len() && (#[trigger] updates[j]).0 == merging_acks(m, updates)[i].0,
        ({
            let (key, stamp) = merging_acks(m, updates)[i];
            let mark = Entry { stamp, state: State::<X>::Tombstone };
            (m.contains_key(key) && m[key] == mark) || updates.contains((key, mark))
        }),
    decreases updates.len(),
{
    let rest = updates.drop_last();
    let last = updates.len() - 1;
    let before = merging_acks(m, rest);
    let (key, stamp) = merging_acks(m, updates)[i];
    let mark = Entry { stamp, state: State::<X>::Tombstone };
    lemma_merging_acks_len(m, updates);
    if i < before.len() {
        assert(before[i] == (key, stamp));
        merge_acks_are_due(m, rest, i);
        let j = choose|j: int| 0 <= j < rest.len() && (#[trigger] rest[j]).0 == key;
        assert(updates[j] == rest[j]);
        if rest.contains((key, mark)) {
            let j = choose|j: int| 0 <= j < rest.len() && rest[j] == (key, mark);
            assert(updates[j] == (key, mark));
        }
    } else {
        assert(updates[last].0 == key);
        merge::the_newest_write_wins(m, updates, key);
        assert(merge::merge_all(m, updates)[key] == mark);
    }
}

/// A merge gives no more acks than there are updates.
proof fn lemma_merging_acks_len<Q, X>(
    m: Map<Q, Entry<Timestamp, X>>,
    updates: Seq<(Q, Entry<Timestamp, X>)>,
)
    ensures
        merging_acks(m, updates).len() <= updates.len(),
    decreases updates.len(),
{
    if updates.len() > 0 {
        lemma_merging_acks_len(m, updates.drop_last());
    }
}

/// Screening acknowledges update by update: each one that is no news to a key that holds a tombstone
/// gives one ack, with the stamp of the tombstone held, in the order of the updates, and the others
/// give none.
pub proof fn each_update_behind_a_tombstone_is_acknowledged<Q, X>(
    m: Map<Q, Entry<Timestamp, X>>,
    updates: Seq<(Q, Entry<Timestamp, X>)>,
) -> (places: Seq<int>)
    ensures
        places.len() == screening_acks(m, updates).len(),
        forall|i: int|
            0 <= i < places.len() ==> 0 <= #[trigger] places[i] < updates.len() && screening_acks(m, updates)[i]
                == (updates[places[i]].0, m[updates[places[i]].0].stamp),
        forall|i: int, j: int| 0 <= i < j < places.len() ==> #[trigger] places[i] < #[trigger] places[j],
        forall|k: int|
            0 <= k < updates.len() ==> (places.contains(k) <==> m.contains_key((#[trigger] updates[k]).0)
                && !clock::newer(updates[k].1.stamp, m[updates[k].0].stamp) && m[updates[k].0].state is Tombstone),
{
    let owe = |u: (Q, Entry<Timestamp, X>)| !merge::adopts(m, u.0, u.1) && m[u.0].state is Tombstone;
    let places = ordered_map::filtering_picks_places(updates, owe);
    assert forall|k: int| 0 <= k < updates.len() implies (places.contains(k) <==> m.contains_key(
        (#[trigger] updates[k]).0,
    ) && !clock::newer(updates[k].1.stamp, m[updates[k].0].stamp) && m[updates[k].0].state is Tombstone) by {
        if places.contains(k) {
            let i = choose|i: int| 0 <= i < places.len() && places[i] == k;
            assert(owe(updates[places[i]]));
        }
        if m.contains_key(updates[k].0) && !clock::newer(updates[k].1.stamp, m[updates[k].0].stamp)
            && m[updates[k].0].state is Tombstone {
            assert(owe(updates[k]));
        }
    }
    places
}

/// Every key a batch names that holds a tombstone once the whole batch is merged is acknowledged to
/// the sender, with the stamp of the tombstone held, be it new or long there.
pub proof fn every_tombstone_left_is_acknowledged<K: Key, V: Value>(
    before: Replica<K, V>,
    after: Replica<K, V>,
    updates: Seq<(K::V, Entry<Timestamp, V::V>)>,
    peer: IpAddr,
    now: Instant,
    applied: AppliedUpdates<K>,
    i: int,
)
    requires
        after.store@ == merge::merge_all(before.store@, updates),
        applies_updates(before, after, updates, peer, now, applied),
        0 <= i < updates.len(),
        after.store@[updates[i].0].state is Tombstone,
    ensures
        exists|j: int|
            0 <= j < applied.acks@.len() && (#[trigger] applied.acks@[j]).0@ == updates[i].0
                && applied.acks@[j].1 == after.store@[updates[i].0].stamp,
{
    let m = before.store@;
    let kept = merge::adopted(m, updates);
    let key = updates[i].0;
    let won = after.store@[key];
    let early = screening_acks(m, updates);
    let late = merging_acks(m, kept);
    let all = ordered_map::pairs(applied.acks@);
    assert(all == early + late);
    assert(all.len() == applied.acks@.len());
    merge::screening_loses_nothing(m, updates);
    let places = merge::only_news_is_applied(m, updates);
    if exists|k: int| 0 <= k < kept.len() && (#[trigger] kept[k]).0 == key {
        let k = choose|k: int| 0 <= k < kept.len() && (#[trigger] kept[k]).0 == key;
        merged_tombstones_are_acknowledged(m, kept, k);
        let j = choose|j: int| 0 <= j < late.len() && late[j] == (key, won.stamp);
        assert(all[early.len() + j] == (key, won.stamp));
        assert(applied.acks@[early.len() + j].0@ == key);
    } else {
        merge::unnamed_keys_are_left_alone(m, kept, key);
        assert(!places.contains(i)) by {
            if places.contains(i) {
                let k = choose|k: int| 0 <= k < places.len() && places[k] == i;
                assert(kept[k].0 == key);
            }
        }
        assert(m.contains_key(key) && m[key] == won);
        let owed = each_update_behind_a_tombstone_is_acknowledged(m, updates);
        assert(owed.contains(i));
        let j = choose|j: int| 0 <= j < owed.len() && owed[j] == i;
        assert(early[j] == (key, won.stamp));
        assert(all[j] == (key, won.stamp));
        assert(applied.acks@[j].0@ == key);
    }
}

/// Every ack names an update of the batch, and a tombstone of that stamp that the map held or the
/// batch brought; no update is acknowledged twice.
pub proof fn acks_name_real_tombstones<K: Key, V: Value>(
    before: Replica<K, V>,
    after: Replica<K, V>,
    updates: Seq<(K::V, Entry<Timestamp, V::V>)>,
    peer: IpAddr,
    now: Instant,
    applied: AppliedUpdates<K>,
    j: int,
)
    requires
        applies_updates(before, after, updates, peer, now, applied),
        0 <= j < applied.acks@.len(),
    ensures
        applied.acks@.len() <= updates.len(),
        ({
            let (key, stamp) = (applied.acks@[j].0@, applied.acks@[j].1);
            let mark = Entry { stamp, state: State::<V::V>::Tombstone };
            &&& exists|i: int| 0 <= i < updates.len() && (#[trigger] updates[i]).0 == key
            &&& (before.store@.contains_key(key) && before.store@[key] == mark) || updates.contains((key, mark))
        }),
{
    let m = before.store@;
    let kept = merge::adopted(m, updates);
    let early = screening_acks(m, updates);
    let late = merging_acks(m, kept);
    let all = ordered_map::pairs(applied.acks@);
    assert(all == early + late);
    assert(all.len() == applied.acks@.len());
    let (key, stamp) = (applied.acks@[j].0@, applied.acks@[j].1);
    assert(all[j] == (key, stamp));
    let places = merge::only_news_is_applied(m, updates);
    let owed = each_update_behind_a_tombstone_is_acknowledged(m, updates);
    lemma_merging_acks_len(m, kept);
    lemma_disjoint_places(owed, places, updates.len() as int);
    if j < early.len() {
        assert(early[j] == (key, stamp));
        assert(owed.contains(owed[j]));
        assert(updates[owed[j]].0 == key);
        assert(m[key].stamp == stamp && m[key].state is Tombstone);
        assert(m[key] == (Entry { stamp, state: State::<V::V>::Tombstone }));
    } else {
        let i = j - early.len();
        assert(late[i] == (key, stamp));
        merge_acks_are_due(m, kept, i);
        let k = choose|k: int| 0 <= k < kept.len() && (#[trigger] kept[k]).0 == key;
        assert(updates[places[k]].0 == key);
        let mark = Entry { stamp, state: State::<V::V>::Tombstone };
        if kept.contains((key, mark)) {
            let k = choose|k: int| 0 <= k < kept.len() && kept[k] == (key, mark);
            assert(updates[places[k]] == (key, mark));
        }
    }
}

/// Two lists of places below `n` that share none are together no longer than `n`.
proof fn lemma_disjoint_places(a: Seq<int>, b: Seq<int>, n: int)
    requires
        forall|i: int| 0 <= i < a.len() ==> 0 <= #[trigger] a[i] < n,
        forall|i: int| 0 <= i < b.len() ==> 0 <= #[trigger] b[i] < n,
        forall|i: int, j: int| 0 <= i < j < a.len() ==> #[trigger] a[i] < #[trigger] a[j],
        forall|i: int, j: int| 0 <= i < j < b.len() ==> #[trigger] b[i] < #[trigger] b[j],
        forall|i: int, j: int|
            #![trigger a[i], b[j]]
            0 <= i < a.len() && 0 <= j < b.len() ==> a[i] != b[j],
        n >= 0,
    ensures
        a.len() + b.len() <= n,
    decreases n,
{
    if n == 0 {
        if a.len() > 0 {
            assert(0 <= a[0] < n);
        }
        if b.len() > 0 {
            assert(0 <= b[0] < n);
        }
    } else if a.len() > 0 && a[a.len() - 1] == n - 1 {
        lemma_disjoint_places(a.drop_last(), b, n - 1);
    } else if b.len() > 0 && b[b.len() - 1] == n - 1 {
        lemma_disjoint_places(a, b.drop_last(), n - 1);
    } else {
        lemma_disjoint_places(a, b, n - 1);
    }
}

/// After recording, the table holds for a held tombstone what `peer` said of it last, whatever it
/// held before; what others said stays, and so does every key that `peer` did not name or that holds
/// no tombstone.
pub proof fn the_last_ack_counts<Q, X>(
    table: Map<Q, Map<IpAddr, u64>>,
    held: Map<Q, Entry<Timestamp, X>>,
    acks: Seq<(Q, u64)>,
    peer: IpAddr,
    key: Q,
)
    ensures
        ({
            let after = acknowledged(table, held, acks, peer);
            &&& forall|i: int|
                0 <= i < acks.len() && (#[trigger] acks[i]).0 == key && held.contains_key(key)
                    && held[key].state is Tombstone && (forall|j: int|
                    i < j < acks.len() ==> (#[trigger] acks[j]).0 != key) ==> after.contains_key(key)
                    && after[key].contains_key(peer) && after[key][peer] == acks[i].1
            &&& (!held.contains_key(key) || !(held[key].state is Tombstone) || (forall|i: int|
                0 <= i < acks.len() ==> (#[trigger] acks[i]).0 != key)) ==> (after.contains_key(key)
                <==> table.contains_key(key)) && (table.contains_key(key) ==> after[key] == table[key])
            &&& forall|other: IpAddr|
                #![trigger after[key].contains_key(other)]
                #![trigger table[key].contains_key(other)]
                other != peer && after.contains_key(key) ==> (after[key].contains_key(other)
                    <==> table.contains_key(key) && table[key].contains_key(other)) && (
                after[key].contains_key(other) ==> after[key][other] == table[key][other])
            &&& table.contains_key(key) ==> after.contains_key(key)
        }),
    decreases acks.len(),
{
    if acks.len() > 0 {
        let rest = acks.drop_last();
        let last = acks.len() - 1;
        let so_far = acknowledged(table, held, rest, peer);
        let after = acknowledged(table, held, acks, peer);
        the_last_ack_counts(table, held, rest, peer, key);
        assert(acks[last] == acks.last());
        assert forall|i: int|
            0 <= i < acks.len() && (#[trigger] acks[i]).0 == key && held.contains_key(key)
                && held[key].state is Tombstone && (forall|j: int|
                i < j < acks.len() ==> (#[trigger] acks[j]).0 != key) implies after.contains_key(key)
            && after[key].contains_key(peer) && after[key][peer] == acks[i].1 by {
            if i < last {
                assert(acks[last].0 != key);
                assert(rest[i] == acks[i]);
                assert forall|j: int| i < j < rest.len() implies (#[trigger] rest[j]).0 != key by {
                    assert(rest[j] == acks[j]);
                }
            }
        }
        if forall|i: int| 0 <= i < acks.len() ==> (#[trigger] acks[i]).0 != key {
            assert forall|i: int| 0 <= i < rest.len() implies (#[trigger] rest[i]).0 != key by {
                assert(rest[i] == acks[i]);
            }
        }
    }
}

/// The local clock is told of every stamp in a batch, in order.
pub proof fn every_stamp_is_observed<Q, X>(updates: Seq<(Q, Entry<Timestamp, X>)>)
    ensures
        stamps(updates).len() == updates.len(),
        forall|i: int| 0 <= i < updates.len() ==> #[trigger] stamps(updates)[i] == updates[i].1.stamp,
{
}

/// Receiving a batch leaves the sender owed a comparison round, within one repair interval unless
/// one was owed already, and its transfer noted as of now; nobody else is concerned.
pub proof fn receiving_notes_the_sender<K: Key, V: Value>(
    before: Replica<K, V>,
    after: Replica<K, V>,
    n: nat,
    peer: IpAddr,
    now: Instant,
    other: IpAddr,
)
    requires
        received(before, after, n, peer, now),
        now.nanos + before.repair_interval.nanos <= u128::MAX,
    ensures
        after == (Replica {
            pending_repairs: after.pending_repairs,
            receiving_bulk_from: after.receiving_bulk_from,
            metrics: after.metrics,
            ..before
        }),
        after.receiving_bulk_from@.contains_key(peer) && after.receiving_bulk_from@[peer] == now,
        after.pending_repairs@.contains_key(peer),
        before.pending_repairs@.contains_key(peer) ==> after.pending_repairs@[peer]
            == before.pending_repairs@[peer],
        !before.pending_repairs@.contains_key(peer) ==> after.pending_repairs@[peer].deadline.nanos
            == now.nanos + before.repair_interval.nanos && after.pending_repairs@[peer].attempts == 0,
        other != peer ==> (after.pending_repairs@.contains_key(other) <==> before.pending_repairs@.contains_key(
            other,
        )) && (after.receiving_bulk_from@.contains_key(other) <==> before.receiving_bulk_from@.contains_key(
            other,
        )),
        other != peer && before.pending_repairs@.contains_key(other) ==> after.pending_repairs@[other]
            == before.pending_repairs@[other],
        other != peer && before.receiving_bulk_from@.contains_key(other) ==> after.receiving_bulk_from@[other]
            == before.receiving_bulk_from@[other],
        after.metrics@.len() == before.metrics@.len() + 1,
        after.metrics@.last().name == metrics::UPDATES_RECEIVED_TOTAL,
        n <= u64::MAX ==> after.metrics@.last().change is Increment && after.metrics@.last().change->Increment_0
            == n,
{
}

/// The places that parts of at most one item each come from.
proof fn lemma_gathered_places<M, A>(messages: Seq<M>, part: spec_fn(M) -> Seq<A>) -> (places: Seq<int>)
    requires
        forall|m: M| (#[trigger] part(m)).len() <= 1,
    ensures
        places.len() == gathered(messages, part).len(),
        forall|i: int|
            0 <= i < places.len() ==> 0 <= #[trigger] places[i] < messages.len() && part(messages[places[i]])
                == seq![gathered(messages, part)[i]],
        forall|i: int, j: int| 0 <= i < j < places.len() ==> #[trigger] places[i] < #[trigger] places[j],
        forall|k: int| 0 <= k < messages.len() && part(#[trigger] messages[k]).len() == 1 ==> places.contains(k),
    decreases messages.len(),
{
    if messages.len() == 0 {
        Seq::empty()
    } else {
        let rest = messages.drop_last();
        let last = messages.len() - 1;
        let before = lemma_gathered_places(rest, part);
        let item = part(messages.last());
        assert(messages[last] == messages.last());
        assert(item.len() <= 1);
        let places = if item.len() == 1 {
            before.push(last)
        } else {
            before
        };
        let all = gathered(messages, part);
        assert forall|i: int| 0 <= i < places.len() implies 0 <= #[trigger] places[i] < messages.len() && part(
            messages[places[i]],
        ) == seq![all[i]] by {
            if i < before.len() {
                assert(places[i] == before[i]);
                assert(rest[before[i]] == messages[before[i]]);
                assert(all[i] == gathered(rest, part)[i]);
            } else {
                assert(all[i] == item[0]);
                assert(item =~= seq![all[i]]);
            }
        }
        assert forall|i: int, j: int| 0 <= i < j < places.len() implies #[trigger] places[i] < #[trigger] places[j] by {
            assert(places[i] == before[i]);
            if j < before.len() {
                assert(places[j] == before[j]);
            }
        }
        assert forall|k: int| 0 <= k < messages.len() && part(#[trigger] messages[k]).len() == 1 implies places.contains(
            k,
        ) by {
            if k < last {
                assert(rest[k] == messages[k]);
                assert(before.contains(k));
                let i = choose|i: int| 0 <= i < before.len() && before[i] == k;
                assert(places[i] == k);
            } else {
                assert(places[before.len() as int] == k);
            }
        }
        places
    }
}

/// Sorting loses no message and moves none past another of its kind: the comparison items, the
/// updates, the acks and the undated comparison items of a batch are those of the datagram, in the
/// order in which they came, and a convergence ack is seen exactly where there is one.
pub proof fn sorting_keeps_messages_in_order<K, V, R>(
    messages: Seq<ReplicaMessage<K, V, R>>,
    batch: DecodedDatagram<K, V, R>,
) -> (places: (Seq<int>, Seq<int>, Seq<int>, Seq<int>))
    requires
        sorts(messages, batch),
    ensures
        places.0.len() == batch.dated_ranges@.len(),
        places.1.len() == batch.dated_updates@.len(),
        places.2.len() == batch.tombstone_acks@.len(),
        places.3.len() == batch.value_ranges@.len(),
        forall|i: int|
            0 <= i < places.0.len() ==> 0 <= #[trigger] places.0[i] < messages.len() && messages[places.0[i]]
                == ReplicaMessage::<K, V, R>::EntryFingerprint(batch.dated_ranges@[i]),
        forall|i: int|
            0 <= i < places.1.len() ==> 0 <= #[trigger] places.1[i] < messages.len() && messages[places.1[i]]
                == ReplicaMessage::<K, V, R>::EntryUpdate(batch.dated_updates@[i]),
        forall|i: int|
            0 <= i < places.2.len() ==> 0 <= #[trigger] places.2[i] < messages.len() && messages[places.2[i]]
                == ReplicaMessage::<K, V, R>::TombstoneAck(batch.tombstone_acks@[i]),
        forall|i: int|
            0 <= i < places.3.len() ==> 0 <= #[trigger] places.3[i] < messages.len() && messages[places.3[i]]
                == ReplicaMessage::<K, V, R>::StateFingerprint(batch.value_ranges@[i]),
        forall|i: int, j: int| 0 <= i < j < places.0.len() ==> #[trigger] places.0[i] < #[trigger] places.0[j],
        forall|i: int, j: int| 0 <= i < j < places.1.len() ==> #[trigger] places.1[i] < #[trigger] places.1[j],
        forall|i: int, j: int| 0 <= i < j < places.2.len() ==> #[trigger] places.2[i] < #[trigger] places.2[j],
        forall|i: int, j: int| 0 <= i < j < places.3.len() ==> #[trigger] places.3[i] < #[trigger] places.3[j],
        forall|k: int|
            0 <= k < messages.len() ==> match #[trigger] messages[k] {
                Message::EntryFingerprint(_) => places.0.contains(k),
                Message::EntryUpdate(_) => places.1.contains(k),
                Message::TombstoneAck(_) => places.2.contains(k),
                Message::StateFingerprint(_) => places.3.contains(k),
                Message::ConvergenceAck => batch.saw_convergence_ack,
                Message::StateUpdate(_) => true,
                Message::Reserved6(_) => true,
            },
        batch.saw_convergence_ack ==> exists|k: int|
            0 <= k < messages.len() && #[trigger] messages[k] is ConvergenceAck,
{
    let p1 = |m: ReplicaMessage<K, V, R>| dated_range(m);
    let p2 = |m: ReplicaMessage<K, V, R>| dated_update(m);
    let p3 = |m: ReplicaMessage<K, V, R>| tombstone_ack(m);
    let p4 = |m: ReplicaMessage<K, V, R>| value_range(m);
    let a = lemma_gathered_places(messages, p1);
    let b = lemma_gathered_places(messages, p2);
    let c = lemma_gathered_places(messages, p3);
    let d = lemma_gathered_places(messages, p4);
    assert forall|i: int| 0 <= i < a.len() implies 0 <= #[trigger] a[i] < messages.len() && messages[a[i]]
        == ReplicaMessage::<K, V, R>::EntryFingerprint(batch.dated_ranges@[i]) by {
        let m = messages[a[i]];
        assert(p1(m)[0] == batch.dated_ranges@[i]);
    }
    assert forall|i: int| 0 <= i < b.len() implies 0 <= #[trigger] b[i] < messages.len() && messages[b[i]]
        == ReplicaMessage::<K, V, R>::EntryUpdate(batch.dated_updates@[i]) by {
        let m = messages[b[i]];
        assert(p2(m)[0] == batch.dated_updates@[i]);
    }
    assert forall|i: int| 0 <= i < c.len() implies 0 <= #[trigger] c[i] < messages.len() && messages[c[i]]
        == ReplicaMessage::<K, V, R>::TombstoneAck(batch.tombstone_acks@[i]) by {
        let m = messages[c[i]];
        assert(p3(m)[0] == batch.tombstone_acks@[i]);
    }
    assert forall|i: int| 0 <= i < d.len() implies 0 <= #[trigger] d[i] < messages.len() && messages[d[i]]
        == ReplicaMessage::<K, V, R>::StateFingerprint(batch.value_ranges@[i]) by {
        let m = messages[d[i]];
        assert(p4(m)[0] == batch.value_ranges@[i]);
    }
    assert forall|k: int| 0 <= k < messages.len() implies match #[trigger] messages[k] {
        Message::EntryFingerprint(_) => a.contains(k),
        Message::EntryUpdate(_) => b.contains(k),
        Message::TombstoneAck(_) => c.contains(k),
        Message::StateFingerprint(_) => d.contains(k),
        Message::ConvergenceAck => batch.saw_convergence_ack,
        Message::StateUpdate(_) => true,
        Message::Reserved6(_) => true,
    } by {
        let m = messages[k];
        if m is EntryFingerprint {
            assert(p1(messages[k]).len() == 1);
        } else if m is EntryUpdate {
            assert(p2(messages[k]).len() == 1);
        } else if m is TombstoneAck {
            assert(p3(messages[k]).len() == 1);
        } else if m is StateFingerprint {
            assert(p4(messages[k]).len() == 1);
        }
    }
    (a, b, c, d)
}

/// A datagram speaks of dated entries as soon as one of its messages is a dated comparison item, a
/// dated entry, a tombstone ack or a convergence ack; undated and reserved messages alone never do.
pub proof fn dated_talk_is_recognised<K, E, S, R>(messages: Seq<Message<K, E, S, R>>, k: int)
    requires
        0 <= k < messages.len(),
    ensures
        match messages[k] {
            Message::EntryFingerprint(_) => speaks_dated(messages),
            Message::EntryUpdate(_) => speaks_dated(messages),
            Message::TombstoneAck(_) => speaks_dated(messages),
            Message::ConvergenceAck => speaks_dated(messages),
            _ => true,
        },
        (forall|i: int|
            0 <= i < messages.len() ==> (#[trigger] messages[i] is StateFingerprint || messages[i] is StateUpdate
                || messages[i] is Reserved6)) ==> !speaks_dated(messages),
{
    if messages[k] is EntryFingerprint || messages[k] is EntryUpdate || messages[k] is TombstoneAck
        || messages[k] is ConvergenceAck {
        assert(speaks_dated(messages));
    }
    if forall|i: int|
        0 <= i < messages.len() ==> (#[trigger] messages[i] is StateFingerprint || messages[i] is StateUpdate
            || messages[i] is Reserved6) {
        if speaks_dated(messages) {
            let i = choose|i: int|
                0 <= i < messages.len() && (#[trigger] messages[i] is EntryFingerprint || messages[i] is EntryUpdate
                    || messages[i] is TombstoneAck || messages[i] is ConvergenceAck);
            assert(messages[i] is StateFingerprint || messages[i] is StateUpdate || messages[i] is Reserved6);
        }
    }
}

/// Copying ranges out goes range by range: one range gives the entries in it, and one list of ranges
/// after another gives their entries one after another.
pub proof fn ranges_are_copied_in_turn<K: Key, X>(
    s: Seq<(K::V, X)>,
    first: Seq<KeyRange<K::V>>,
    second: Seq<KeyRange<K::V>>,
    range: KeyRange<K::V>,
)
    ensures
        in_ranges::<K, X>(s, Seq::empty()).len() == 0,
        in_ranges::<K, X>(s, seq![range]) == ordered_map::within::<K, X>(s, range),
        in_ranges::<K, X>(s, first + second) == in_ranges::<K, X>(s, first) + in_ranges::<K, X>(s, second),
    decreases second.len(),
{
    assert(seq![range].drop_last() =~= Seq::empty());
    assert(in_ranges::<K, X>(s, Seq::empty()) =~= Seq::empty());
    assert(in_ranges::<K, X>(s, seq![range]) =~= ordered_map::within::<K, X>(s, range));
    if second.len() == 0 {
        assert(first + second =~= first);
        assert(in_ranges::<K, X>(s, first) + in_ranges::<K, X>(s, second) =~= in_ranges::<K, X>(s, first));
    } else {
        ranges_are_copied_in_turn::<K, X>(s, first, second.drop_last(), range);
        assert((first + second).drop_last() =~= first + second.drop_last());
        assert(in_ranges::<K, X>(s, first + second) =~= in_ranges::<K, X>(s, first) + in_ranges::<K, X>(
            s,
            second,
        ));
    }
}

/// What is copied out of `s` are entries of `s` that lie in one of the ranges, and every such entry
/// is copied.
pub proof fn ranges_are_copied_whole<K: Key, X>(
    s: Seq<(K::V, X)>,
    ranges: Seq<KeyRange<K::V>>,
    entry: (K::V, X),
)
    ensures
        in_ranges::<K, X>(s, ranges).contains(entry) <==> s.contains(entry) && exists|r: int|
            0 <= r < ranges.len() && ordered_map::in_range::<K>(#[trigger] ranges[r], entry.0),
    decreases ranges.len(),
{
    let all = in_ranges::<K, X>(s, ranges);
    if ranges.len() > 0 {
        let rest = ranges.drop_last();
        let last = ranges.len() - 1;
        let early = in_ranges::<K, X>(s, rest);
        let late = ordered_map::within::<K, X>(s, ranges.last());
        assert(ranges[last] == ranges.last());
        ranges_are_copied_whole::<K, X>(s, rest, entry);
        let places = ordered_map::ranges_cut_out_their_entries::<K, X>(s, ranges.last());
        if all.contains(entry) {
            let i = choose|i: int| 0 <= i < all.len() && all[i] == entry;
            if i < early.len() {
                assert(early[i] == entry);
                let r = choose|r: int|
                    0 <= r < rest.len() && ordered_map::in_range::<K>(#[trigger] rest[r], entry.0);
                assert(ranges[r] == rest[r]);
            } else {
                assert(late[i - early.len()] == entry);
                assert(s[places[i - early.len()]] == entry);
            }
        }
        if s.contains(entry) && exists|r: int|
            0 <= r < ranges.len() && ordered_map::in_range::<K>(#[trigger] ranges[r], entry.0) {
            let r = choose|r: int|
                0 <= r < ranges.len() && ordered_map::in_range::<K>(#[trigger] ranges[r], entry.0);
            if r < last {
                assert(rest[r] == ranges[r]);
                assert(early.contains(entry));
                let i = choose|i: int| 0 <= i < early.len() && early[i] == entry;
                assert(all[i] == entry);
            } else {
                let k = choose|k: int| 0 <= k < s.len() && s[k] == entry;
                assert(places.contains(k));
                let i = choose|i: int| 0 <= i < places.len() && places[i] == k;
                assert(late[i] == entry);
                assert(all[early.len() + i] == entry);
            }
        }
    }
}

/// Where two replicas differ, every entry in the differing ranges is sent, and nothing else, as soon
/// as there is a slot; without one, the ranges are kept as they are. Where they do not differ,
/// nothing is done.
pub proof fn differences_are_sent_or_kept<K: Key, T: Duplicate, G>(
    s: Seq<(K::V, T::V)>,
    differences: Seq<KeyRange<K>>,
    slot: Option<G>,
    dump: Dump<K, T, G>,
    k: int,
    r: int,
)
    requires
        dumps(s, differences, slot, dump),
        0 <= k < s.len(),
        0 <= r < differences.len(),
        ordered_map::in_range::<K>(differences[r]@, s[k].0),
    ensures
        match slot {
            None => dump matches Dump::Stash(ranges) && ranges@ == differences,
            Some(guard) => dump matches Dump::Send(entries, held) && held == guard && (exists|i: int|
                0 <= i < entries@.len() && (#[trigger] entries@[i]).0@ == s[k].0 && entries@[i].1@ == s[k].1)
                && (forall|i: int|
                0 <= i < entries@.len() ==> s.contains(((#[trigger] entries@[i]).0@, entries@[i].1@))
                    && exists|q: int|
                    0 <= q < differences.len() && ordered_map::in_range::<K>(
                        (#[trigger] differences[q])@,
                        entries@[i].0@,
                    )),
        },
{
    let views = range_views::<K>(differences);
    let owed = in_ranges::<K, T::V>(s, views);
    assert(views[r] == differences[r]@);
    assert(s.contains(s[k]));
    ranges_are_copied_whole::<K, T::V>(s, views, s[k]);
    assert(owed.contains(s[k]));
    match dump {
        Dump::Send(entries, held) => {
            if slot is Some {
                let all = ordered_map::pairs(entries@);
                assert(all == owed);
                assert(all.len() == entries@.len());
                let i = choose|i: int| 0 <= i < owed.len() && owed[i] == s[k];
                assert(all[i] == (entries@[i].0@, entries@[i].1@));
                assert forall|i: int| 0 <= i < entries@.len() implies s.contains(
                    ((#[trigger] entries@[i]).0@, entries@[i].1@),
                ) && exists|q: int|
                    0 <= q < differences.len() && ordered_map::in_range::<K>(
                        (#[trigger] differences[q])@,
                        entries@[i].0@,
                    ) by {
                    let entry = (entries@[i].0@, entries@[i].1@);
                    assert(all[i] == entry);
                    assert(owed.contains(entry));
                    ranges_are_copied_whole::<K, T::V>(s, views, entry);
                    let q = choose|q: int|
                        0 <= q < views.len() && ordered_map::in_range::<K>(#[trigger] views[q], entry.0);
                    assert(views[q] == differences[q]@);
                }
            }
        },
        _ => {},
    }
}

/// Without a slot the differing ranges are kept, whatever lies in them; with one they never are; and
/// where nothing differs nothing is done.
pub proof fn ranges_wait_only_for_a_slot<K: Key, T: Duplicate, G>(
    s: Seq<(K::V, T::V)>,
    differences: Seq<KeyRange<K>>,
    slot: Option<G>,
    dump: Dump<K, T, G>,
)
    requires
        dumps(s, differences, slot, dump),
    ensures
        differences.len() == 0 ==> dump is Nothing,
        differences.len() > 0 && slot is None ==> dump is Stash && dump->Stash_0@ == differences,
        slot is Some ==> !(dump is Stash),
        dump is Send ==> differences.len() > 0 && slot is Some && dump->Send_0@.len() > 0 && dump->Send_1
            == slot->0,
{
    if dump is Send {
        let entries = dump->Send_0@;
        assert(ordered_map::pairs(entries).len() == entries.len());
    }
}

/// A dated comparison round is acknowledged exactly when the comparison was made and gave neither a
/// finer item nor a difference; whatever finer items it gave are passed on; and differences wait
/// exactly when a slot was asked for in vain. Without comparison items nothing is answered at all.
pub proof fn only_agreement_is_acknowledged<K: Key, V: Value, R, G, F, C>(
    store: Store<K, V>,
    in_comparison: Vec<R>,
    compare: F,
    claim: C,
    reply: ComparisonReply<K, Entry<Timestamp, V>, R, G>,
) -> (outcome: ((Vec<R>, Vec<KeyRange<K>>), Option<G>)) where
    F: FnOnce(&OrderedMap<K, Entry<Timestamp, V>>, Vec<R>) -> (Vec<R>, Vec<KeyRange<K>>),
    C: FnOnce() -> Option<G>,

    requires
        answers_dated(store, in_comparison, compare, claim, reply),
    ensures
        reply.ack ==> in_comparison@.len() > 0 && reply.refinements@.len() == 0 && reply.dump is Nothing,
        in_comparison@.len() == 0 ==> !reply.ack && reply.refinements@.len() == 0 && reply.dump is Nothing,
        in_comparison@.len() > 0 ==> {
            let (out, slot) = outcome;
            &&& call_ensures(compare, (&store.dated(), in_comparison), out)
            &&& reply.refinements == out.0
            &&& reply.ack <==> out.0@.len() == 0 && out.1@.len() == 0
            &&& out.1@.len() == 0 ==> reply.dump is Nothing
            &&& out.1@.len() > 0 ==> call_ensures(claim, (), slot) && (reply.dump is Stash <==> slot is None)
            &&& reply.dump is Stash ==> reply.dump->Stash_0@ == out.1@
            &&& dumps(store.sequence(), out.1@, slot, reply.dump)
        },
{
    if in_comparison@.len() > 0 {
        let (out, slot) = choose|out: (Vec<R>, Vec<KeyRange<K>>), slot: Option<G>|
            {
                &&& #[trigger] call_ensures(compare, (&store.dated(), in_comparison), out)
                &&& out.1@.len() > 0 ==> call_ensures(claim, (), slot)
                &&& reply.refinements == out.0
                &&& #[trigger] dumps(store.sequence(), out.1@, slot, reply.dump)
                &&& reply.ack == (out.0@.len() == 0 && out.1@.len() == 0)
            };
        ranges_wait_only_for_a_slot(store.sequence(), out.1@, slot, reply.dump);
        (out, slot)
    } else {
        ((reply.refinements, arbitrary()), None)
    }
}

/// An undated comparison round is never acknowledged; whatever finer items the comparison gave are
/// passed on; differences wait exactly when a slot was asked for in vain; and without comparison
/// items nothing is answered at all.
pub proof fn undated_rounds_are_never_acknowledged<K: Key, V: Value, R, G, F, C>(
    store: Store<K, V>,
    in_comparison: Vec<R>,
    compare: F,
    claim: C,
    reply: ComparisonReply<K, State<V>, R, G>,
) -> (outcome: ((Vec<R>, Vec<KeyRange<K>>), Option<G>)) where
    F: FnOnce(&OrderedMap<K, State<V>>, Vec<R>) -> (Vec<R>, Vec<KeyRange<K>>),
    C: FnOnce() -> Option<G>,

    requires
        answers_values(store, in_comparison, compare, claim, reply),
    ensures
        !reply.ack,
        in_comparison@.len() == 0 ==> reply.refinements@.len() == 0 && reply.dump is Nothing,
        in_comparison@.len() > 0 ==> {
            let (out, slot) = outcome;
            &&& call_ensures(compare, (&store.valued(), in_comparison), out)
            &&& reply.refinements == out.0
            &&& out.1@.len() == 0 ==> reply.dump is Nothing
            &&& out.1@.len() > 0 ==> call_ensures(claim, (), slot) && (reply.dump is Stash <==> slot is None)
            &&& reply.dump is Stash ==> reply.dump->Stash_0@ == out.1@
            &&& dumps(store::undated(store.sequence()), out.1@, slot, reply.dump)
        },
{
    if in_comparison@.len() > 0 {
        let (out, slot) = choose|out: (Vec<R>, Vec<KeyRange<K>>), slot: Option<G>|
            {
                &&& #[trigger] call_ensures(compare, (&store.valued(), in_comparison), out)
                &&& out.1@.len() > 0 ==> call_ensures(claim, (), slot)
                &&& reply.refinements == out.0
                &&& #[trigger] dumps(store::undated(store.sequence()), out.1@, slot, reply.dump)
            };
        ranges_wait_only_for_a_slot(store::undated(store.sequence()), out.1@, slot, reply.dump);
        (out, slot)
    } else {
        ((reply.refinements, arbitrary()), None)
    }
}

/// What applying a batch leaves beside the map: the sender is owed a comparison round and its
/// transfer is noted, the clock is told every stamp, exactly the updates that were news count as
/// changes, and a collision is reported once. An empty batch leaves everything as it was.
pub proof fn applying_is_noted_once<K: Key, V: Value>(
    before: Replica<K, V>,
    after: Replica<K, V>,
    updates: Seq<(K::V, Entry<Timestamp, V::V>)>,
    peer: IpAddr,
    now: Instant,
    applied: AppliedUpdates<K>,
)
    requires
        applies_updates(before, after, updates, peer, now, applied),
        now.nanos + before.repair_interval.nanos <= u128::MAX,
    ensures
        updates.len() == 0 ==> after == before && applied.acks@.len() == 0 && applied.observed@.len() == 0
            && !applied.report_collision,
        applied.observed@.len() == updates.len(),
        forall|i: int| 0 <= i < updates.len() ==> #[trigger] applied.observed@[i] == updates[i].1.stamp,
        applied.report_collision <==> !before.collision_reporter.reported && merge::any_collision(
            before.store@,
            updates,
        ),
        updates.len() > 0 ==> {
            &&& after.receiving_bulk_from@.contains_key(peer) && after.receiving_bulk_from@[peer] == now
            &&& after.pending_repairs@.contains_key(peer)
            &&& !before.pending_repairs@.contains_key(peer) ==> after.pending_repairs@[peer].deadline.nanos
                == now.nanos + before.repair_interval.nanos
            &&& before.changes_since_snapshot + merge::adopted(before.store@, updates).len() <= usize::MAX
                ==> after.changes_since_snapshot == before.changes_since_snapshot + merge::adopted(
                before.store@,
                updates,
            ).len()
            &&& after.metrics@.len() == before.metrics@.len() + 1
            &&& after == (Replica {
                store: after.store,
                collision_reporter: after.collision_reporter,
                changes_since_snapshot: after.changes_since_snapshot,
                pending_repairs: after.pending_repairs,
                receiving_bulk_from: after.receiving_bulk_from,
                metrics: after.metrics,
                ..before
            })
            &&& after.collision_reporter.reported <==> before.collision_reporter.reported || merge::any_collision(
                before.store@,
                updates,
            )
        },
{
    let kept = merge::adopted(before.store@, updates);
    let places = merge::only_news_is_applied(before.store@, updates);
    if updates.len() == 0 {
        if places.len() > 0 {
            assert(0 <= places[0] < updates.len());
        }
        let owed = each_update_behind_a_tombstone_is_acknowledged(before.store@, updates);
        if owed.len() > 0 {
            assert(0 <= owed[0] < updates.len());
        }
        lemma_merging_acks_len(before.store@, kept);
        let all = ordered_map::pairs(applied.acks@);
        assert(all == screening_acks(before.store@, updates) + merging_acks(before.store@, kept));
        assert(all.len() == applied.acks@.len());
        assert(!merge::collides_with_held(before.store@, updates));
    } else {
        let noted = choose|noted: Replica<K, V>|
            {
                &&& #[trigger] received(before, noted, updates.len(), peer, now)
                &&& after == (Replica {
                    store: after.store,
                    collision_reporter: after.collision_reporter,
                    changes_since_snapshot: before.changes_since_snapshot.wrapping_add(
                        kept.len() as usize,
                    ),
                    ..noted
                })
                &&& after.collision_reporter.reported == (before.collision_reporter.reported
                    || merge::any_collision(before.store@, updates))
            };
        receiving_notes_the_sender(before, noted, updates.len(), peer, now, peer);
    }
}

/// A datagram is handled in this order: its acks count against the map as it was before its updates,
/// the last one for a key deciding, and only where the key held a tombstone then; its dated
/// comparison is answered from that same map; its updates are merged in; and its undated comparison
/// is answered from the map after them.
pub proof fn datagrams_are_handled_in_order<K: Key, V: Value, R, G, FD, CD, FV, CV>(
    before: Replica<K, V>,
    after: Replica<K, V>,
    messages: Seq<ReplicaMessage<K, V, R>>,
    peer: IpAddr,
    now: Instant,
    compare_dated: FD,
    claim_dated: CD,
    compare_values: FV,
    claim_values: CV,
    handled: Handled<K, V, R, G>,
) -> (batch: DecodedDatagram<K, V, R>) where
    FD: FnOnce(&OrderedMap<K, Entry<Timestamp, V>>, Vec<R>) -> (Vec<R>, Vec<KeyRange<K>>),
    CD: FnOnce() -> Option<G>,
    FV: FnOnce(&OrderedMap<K, State<V>>, Vec<R>) -> (Vec<R>, Vec<KeyRange<K>>),
    CV: FnOnce() -> Option<G>,

    requires
        handles(
            before,
            after,
            messages,
            peer,
            now,
            compare_dated,
            claim_dated,
            compare_values,
            claim_values,
            handled,
        ),
    ensures
        sorts(messages, batch),
        after.store@ == merge::merge_all(before.store@, ordered_map::pairs(batch.dated_updates@)),
        after == (Replica {
            store: after.store,
            tombstone_acks: after.tombstone_acks,
            collision_reporter: after.collision_reporter,
            changes_since_snapshot: after.changes_since_snapshot,
            pending_repairs: after.pending_repairs,
            receiving_bulk_from: after.receiving_bulk_from,
            metrics: after.metrics,
            ..before
        }),
        forall|i: int|
            0 <= i < batch.tombstone_acks@.len() && before.store@.contains_key(
                (#[trigger] batch.tombstone_acks@[i]).0@,
            ) && before.store@[batch.tombstone_acks@[i].0@].state is Tombstone && (forall|j: int|
                i < j < batch.tombstone_acks@.len() ==> (#[trigger] batch.tombstone_acks@[j]).0@
                    != batch.tombstone_acks@[i].0@) ==> after.tombstone_acks@.contains_key(
                batch.tombstone_acks@[i].0@,
            ) && after.tombstone_acks@[batch.tombstone_acks@[i].0@].contains_key(peer)
                && after.tombstone_acks@[batch.tombstone_acks@[i].0@][peer] == batch.tombstone_acks@[i].1,
        forall|key: K::V|
            !(before.store@.contains_key(key) && before.store@[key].state is Tombstone) ==> (
            #[trigger] after.tombstone_acks@.contains_key(key) <==> before.tombstone_acks@.contains_key(key)),
        batch.dated_ranges@.len() > 0 ==> exists|out: (Vec<R>, Vec<KeyRange<K>>)| #[trigger]
            call_ensures(compare_dated, (&before.store.dated(), batch.dated_ranges), out)
                && handled.dated.refinements == out.0,
        batch.value_ranges@.len() > 0 ==> exists|out: (Vec<R>, Vec<KeyRange<K>>)| #[trigger]
            call_ensures(compare_values, (&after.store.valued(), batch.value_ranges), out)
                && handled.valued.refinements == out.0,
{
    let (batch, acked) = choose|batch: DecodedDatagram<K, V, R>, acked: Replica<K, V>|
        {
            &&& sorts(messages, batch)
            &&& #[trigger] handles_batch(before, acked, after, batch, peer, now, handled.applied)
            &&& answers_dated(
                before.store,
                batch.dated_ranges,
                compare_dated,
                claim_dated,
                handled.dated,
            )
            &&& answers_values(
                after.store,
                batch.value_ranges,
                compare_values,
                claim_values,
                handled.valued,
            )
        };
    let acks = ordered_map::pairs(batch.tombstone_acks@);
    let table = before.tombstone_acks@;
    let held = before.store@;
    assert(acks.len() == batch.tombstone_acks@.len());
    assert(after.tombstone_acks == acked.tombstone_acks);
    assert forall|i: int|
        0 <= i < batch.tombstone_acks@.len() && before.store@.contains_key(
            (#[trigger] batch.tombstone_acks@[i]).0@,
        ) && before.store@[batch.tombstone_acks@[i].0@].state is Tombstone && (forall|j: int|
            i < j < batch.tombstone_acks@.len() ==> (#[trigger] batch.tombstone_acks@[j]).0@
                != batch.tombstone_acks@[i].0@) implies after.tombstone_acks@.contains_key(
        batch.tombstone_acks@[i].0@,
    ) && after.tombstone_acks@[batch.tombstone_acks@[i].0@].contains_key(peer)
        && after.tombstone_acks@[batch.tombstone_acks@[i].0@][peer] == batch.tombstone_acks@[i].1 by {
        let key = batch.tombstone_acks@[i].0@;
        assert(acks[i] == (key, batch.tombstone_acks@[i].1));
        assert forall|j: int| i < j < acks.len() implies (#[trigger] acks[j]).0 != key by {
            assert(acks[j].0 == batch.tombstone_acks@[j].0@);
        }
        the_last_ack_counts(table, held, acks, peer, key);
    }
    assert forall|key: K::V|
        !(before.store@.contains_key(key) && before.store@[key].state is Tombstone) implies (
    #[trigger] after.tombstone_acks@.contains_key(key) <==> before.tombstone_acks@.contains_key(key)) by {
        the_last_ack_counts(table, held, acks, peer, key);
    }
    if batch.dated_ranges@.len() > 0 {
        let (out, slot) = only_agreement_is_acknowledged(
            before.store,
            batch.dated_ranges,
            compare_dated,
            claim_dated,
            handled.dated,
        );
        assert(call_ensures(compare_dated, (&before.store.dated(), batch.dated_ranges), out));
    }
    if batch.value_ranges@.len() > 0 {
        let (out, slot) = undated_rounds_are_never_acknowledged(
            after.store,
            batch.value_ranges,
            compare_values,
            claim_values,
            handled.valued,
        );
        assert(call_ensures(compare_values, (&after.store.valued(), batch.value_ranges), out));
    }
    batch
}

/// A list of ranges stands for the ranges in it, in order.
pub proof fn ranges_keep_their_places<K: Key>(ranges: Seq<KeyRange<K>>)
    ensures
        range_views::<K>(ranges).len() == ranges.len(),
        forall|i: int| 0 <= i < ranges.len() ==> #[trigger] range_views::<K>(ranges)[i] == ranges[i]@,
{
}

/// A merge acknowledges update by update: each one that leaves its key with a tombstone gives one
/// ack, with the stamp of that tombstone, in the order of the updates, and the others give none.
pub proof fn each_update_that_leaves_a_tombstone_is_acknowledged<Q, X>(
    m: Map<Q, Entry<Timestamp, X>>,
    updates: Seq<(Q, Entry<Timestamp, X>)>,
) -> (places: Seq<int>)
    ensures
        places.len() == merging_acks(m, updates).len(),
        forall|i: int|
            0 <= i < places.len() ==> 0 <= #[trigger] places[i] < updates.len() && merging_acks(m, updates)[i] == (
                updates[places[i]].0,
                merge::merge_all(m, updates.take(places[i] + 1))[updates[places[i]].0].stamp,
            ),
        forall|i: int, j: int| 0 <= i < j < places.len() ==> #[trigger] places[i] < #[trigger] places[j],
        forall|k: int|
            0 <= k < updates.len() ==> (places.contains(k) <==> merge::merge_all(
                m,
                updates.take(k + 1),
            )[(#[trigger] updates[k]).0].state is Tombstone),
    decreases updates.len(),
{
    if updates.len() == 0 {
        Seq::empty()
    } else {
        let rest = updates.drop_last();
        let last = updates.len() - 1;
        let before = each_update_that_leaves_a_tombstone_is_acknowledged(m, rest);
        let key = updates.last().0;
        let won = merge::merge_all(m, updates)[key];
        let acks = merging_acks(m, updates);
        assert(updates.take(last + 1) =~= updates);
        assert(updates[last] == updates.last());
        let places = if won.state is Tombstone {
            before.push(last)
        } else {
            before
        };
        assert forall|i: int| 0 <= i < places.len() implies 0 <= #[trigger] places[i] < updates.len() && acks[i] == (
            updates[places[i]].0,
            merge::merge_all(m, updates.take(places[i] + 1))[updates[places[i]].0].stamp,
        ) by {
            if i < before.len() {
                assert(places[i] == before[i]);
                assert(acks[i] == merging_acks(m, rest)[i]);
                assert(rest[before[i]] == updates[before[i]]);
                assert(rest.take(before[i] + 1) =~= updates.take(before[i] + 1));
            }
        }
        assert forall|i: int, j: int| 0 <= i < j < places.len() implies #[trigger] places[i] < #[trigger] places[j] by {
            assert(places[i] == before[i]);
            if j < before.len() {
                assert(places[j] == before[j]);
            }
        }
        assert forall|k: int| 0 <= k < updates.len() implies (places.contains(k) <==> merge::merge_all(
            m,
            updates.take(k + 1),
        )[(#[trigger] updates[k]).0].state is Tombstone) by {
            if k < last {
                assert(rest[k] == updates[k]);
                assert(rest.take(k + 1) =~= updates.take(k + 1));
                assert(before.contains(k) <==> merge::merge_all(m, rest.take(k + 1))[rest[k].0].state is Tombstone);
                if before.contains(k) {
                    let i = choose|i: int| 0 <= i < before.len() && before[i] == k;
                    assert(places[i] == k);
                }
                if places.contains(k) {
                    let i = choose|i: int| 0 <= i < places.len() && places[i] == k;
                    assert(before[i] == k);
                }
            } else {
                if won.state is Tombstone {
                    assert(places[before.len() as int] == k);
                }
                if places.contains(k) && !(won.state is Tombstone) {
                    let i = choose|i: int| 0 <= i < places.len() && places[i] == k;
                    assert(before[i] < rest.len());
                }
            }
        }
        places
    }
}

} // verus!
