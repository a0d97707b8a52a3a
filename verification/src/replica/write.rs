//! Local writes and their broadcast.

use vstd::prelude::*;

use crate::bounds::{Duplicate, Key, Value};
use crate::clock::Timestamp;
use crate::entry::Entry;
use crate::metrics;
use crate::net::IpAddr;
use crate::observability;
use crate::observability::MetricEvent;
use crate::ordered_map;
use crate::ordered_map::OrderedMap;
use crate::peers;
use crate::replica::repair;
use crate::replica::Replica;
use crate::time::Instant;

verus! {

/// The egress budget was exhausted when a broadcast slot was asked for.
#[derive(Clone, Copy, Debug, PartialEq, Eq, Structural)]
pub struct BroadcastBudgetExhausted;

/// What asking for a slot does: one more is in flight exactly when one was free.
pub open spec fn claims(before: Egress, after: Egress, granted: bool) -> bool {
    &&& granted <==> before.spec_in_flight() < before.spec_budget()
    &&& after.spec_budget() == before.spec_budget()
    &&& after.spec_in_flight() == before.spec_in_flight() + if granted {
        1int
    } else {
        0int
    }
}

/// What handing a slot back does: one fewer is in flight.
pub open spec fn releases(before: Egress, after: Egress) -> bool {
    &&& after.spec_budget() == before.spec_budget()
    &&& after.spec_in_flight() == if before.spec_in_flight() > 0 {
        before.spec_in_flight() - 1
    } else {
        0
    }
}

/// A slot that was claimed and handed back is free again, and nothing else has changed.
pub proof fn a_released_slot_is_free_again(before: Egress, claimed: Egress, released: Egress)
    requires
        claims(before, claimed, true),
        releases(claimed, released),
    ensures
        released.spec_in_flight() == before.spec_in_flight(),
        released.spec_budget() == before.spec_budget(),
        released.spec_in_flight() < released.spec_budget(),
{
}

/// One claimed broadcast slot. Whoever holds it hands it back to
/// [`Replica::release_broadcast_slot`] when the broadcast is over, however it ended.
#[derive(Debug)]
pub struct BroadcastCountGuard {
    claimed: (),
}

/// The bound on concurrent write broadcasts.
#[derive(Debug)]
pub struct Egress {
    in_flight: usize,
    budget: usize,
}

impl Egress {
    /// Never more in flight than the budget allows.
    #[verifier::type_invariant]
    closed spec fn within_budget(&self) -> bool {
        self.in_flight <= self.budget
    }

    /// Broadcasts in flight.
    pub closed spec fn spec_in_flight(&self) -> usize {
        self.in_flight
    }

    /// How many may be.
    pub closed spec fn spec_budget(&self) -> usize {
        self.budget
    }

    /// A budget with nothing in flight.
    pub fn new(budget: usize) -> (egress: Self)
        ensures
            egress.spec_in_flight() == 0,
            egress.spec_budget() == budget,
    {
        Egress { in_flight: 0, budget }
    }

    /// Broadcasts in flight: never more than the budget.
    pub fn in_flight(&self) -> (n: usize)
        ensures
            n == self.spec_in_flight(),
            n <= self.spec_budget(),
    {
        proof {
            use_type_invariant(self);
        }
        self.in_flight
    }

    /// How many broadcasts may be in flight.
    pub fn budget(&self) -> (n: usize)
        ensures
            n == self.spec_budget(),
    {
        self.budget
    }

    /// Claim a slot, unless all are taken.
    pub fn claim(&mut self) -> (guard: Option<BroadcastCountGuard>)
        ensures
            claims(*old(self), *final(self), guard is Some),
    {
        if self.in_flight < self.budget {
            self.in_flight = self.in_flight + 1;
            Some(BroadcastCountGuard { claimed: () })
        } else {
            None
        }
    }

    /// Hand a slot back.
    pub fn release(&mut self, guard: BroadcastCountGuard)
        ensures
            releases(*old(self), *final(self)),
    {
        proof {
            use_type_invariant(&*self);
        }
        if self.in_flight > 0 {
            self.in_flight = self.in_flight - 1;
        }
    }
}

/// A broadcast to carry out: send `updates` to each of `peers`, then hand both `peers` and `guard` to
/// [`Replica::conclude_broadcast`].
pub struct BroadcastPlan<K, V> {
    /// The writes to send.
    pub updates: Vec<(K, Entry<Timestamp, V>)>,
    /// Whom to send them to.
    pub peers: Vec<IpAddr>,
    /// The slot the broadcast holds.
    pub guard: BroadcastCountGuard,
}

/// What writing `value` locally is counted as.
pub open spec fn write_event<X>(value: Entry<Timestamp, X>) -> MetricEvent {
    if value.state is Tombstone {
        observability::counted(metrics::REMOVES_TOTAL, 1)
    } else {
        observability::counted(metrics::INSERTS_TOTAL, 1)
    }
}

/// What writing a batch locally is counted as.
pub open spec fn write_events<Q, X>(batch: Seq<(Q, Entry<Timestamp, X>)>) -> Seq<MetricEvent> {
    batch.map_values(|e: (Q, Entry<Timestamp, X>)| write_event(e.1))
}

/// A copy of a batch of writes.
pub fn duplicate_batch<K: Key, V: Value>(batch: &[(K, Entry<Timestamp, V>)]) -> (copy: Vec<
    (K, Entry<Timestamp, V>),
>)
    ensures
        ordered_map::pairs(copy@) == ordered_map::pairs(batch@),
{
    let mut copy: Vec<(K, Entry<Timestamp, V>)> = Vec::new();
    let mut i: usize = 0;
    while i < batch.len()
        invariant
            i <= batch@.len(),
            copy@.len() == i,
            forall|j: int|
                0 <= j < i ==> (#[trigger] copy@[j]).0@ == batch@[j].0@ && copy@[j].1@ == batch@[j].1@,
        decreases batch@.len() - i,
    {
        let entry = &batch[i];
        copy.push((entry.0.duplicate(), entry.1.duplicate()));
        i = i + 1;
    }
    assert(ordered_map::pairs(copy@) =~= ordered_map::pairs(batch@));
    copy
}

/// `steps` are the intermediate results of carrying a pre-insert hook over `batch`: the hook is
/// called once on each entry, in order, and shown `held` every time.
pub open spec fn is_hook_trace<K: Key, V: Value, A, H>(
    pre_insert: H,
    held: OrderedMap<K, Entry<Timestamp, V>>,
    batch: Seq<(K, Entry<Timestamp, V>)>,
    steps: Seq<A>,
) -> bool where H: Fn(A, &OrderedMap<K, Entry<Timestamp, V>>, &K, &Entry<Timestamp, V>) -> A {
    &&& steps.len() == batch.len() + 1
    &&& forall|i: int|
        0 <= i < batch.len() ==> call_ensures(
            pre_insert,
            (steps[i], &held, &(#[trigger] batch[i]).0, &batch[i].1),
            steps[i + 1],
        )
}

/// A pre-insert hook, carried over `batch` while the dated map is `held`, may turn `start` into
/// `end`.
pub open spec fn hooks<K: Key, V: Value, A, H>(
    pre_insert: H,
    held: OrderedMap<K, Entry<Timestamp, V>>,
    batch: Seq<(K, Entry<Timestamp, V>)>,
    start: A,
    end: A,
) -> bool where H: Fn(A, &OrderedMap<K, Entry<Timestamp, V>>, &K, &Entry<Timestamp, V>) -> A {
    exists|steps: Seq<A>| #[trigger]
        is_hook_trace(pre_insert, held, batch, steps) && steps[0] == start && steps.last() == end
}

/// Carry a pre-insert hook over a batch, first to last, from `start`. The hook is shown `held`, the
/// dated map as it stands before any of the batch is applied. It may write to the replica itself,
/// so whoever shares the replica runs it over a snapshot, while nobody holds the replica.
pub fn run_pre_insert<K: Key, V: Value, A, H>(
    pre_insert: &H,
    held: &OrderedMap<K, Entry<Timestamp, V>>,
    batch: &[(K, Entry<Timestamp, V>)],
    start: A,
) -> (end: A) where H: Fn(A, &OrderedMap<K, Entry<Timestamp, V>>, &K, &Entry<Timestamp, V>) -> A
    requires
        forall|so_far: A, key: &K, value: &Entry<Timestamp, V>|
            call_requires(*pre_insert, (so_far, held, key, value)),
    ensures
        hooks(*pre_insert, *held, batch@, start, end),
{
    let ghost mut steps: Seq<A> = seq![start];
    let mut so_far: A = start;
    let mut i: usize = 0;
    assert(batch@.take(0) =~= Seq::empty());
    while i < batch.len()
        invariant
            i <= batch@.len(),
            forall|so_far: A, key: &K, value: &Entry<Timestamp, V>|
                call_requires(*pre_insert, (so_far, held, key, value)),
            is_hook_trace(*pre_insert, *held, batch@.take(i as int), steps),
            steps[0] == start,
            steps.last() == so_far,
        decreases batch@.len() - i,
    {
        let entry = &batch[i];
        let ghost prefix = batch@.take(i as int);
        let ghost before = so_far;
        so_far = pre_insert(so_far, held, &entry.0, &entry.1);
        proof {
            let longer = batch@.take(i + 1);
            let grown = steps.push(so_far);
            assert(call_ensures(*pre_insert, (before, held, &batch@[i as int].0, &batch@[i as int].1), so_far));
            assert forall|j: int| 0 <= j < longer.len() implies call_ensures(
                *pre_insert,
                (grown[j], held, &(#[trigger] longer[j]).0, &longer[j].1),
                grown[j + 1],
            ) by {
                if j < i {
                    assert(longer[j] == prefix[j]);
                }
            }
            steps = grown;
        }
        i = i + 1;
    }
    assert(batch@.take(i as int) =~= batch@);
    so_far
}

impl<K: Key, V: Value> Replica<K, V> {
    /// Count `n` more changes toward the next snapshot.
    pub fn record_changes(&mut self, n: usize)
        ensures
            *final(self) == (Replica {
                changes_since_snapshot: old(self).changes_since_snapshot.wrapping_add(n),
                ..*old(self)
            }),
    {
        self.changes_since_snapshot = self.changes_since_snapshot.wrapping_add(n);
    }

    /// Changes counted since the last successful snapshot.
    pub fn change_count(&self) -> (n: usize)
        ensures
            n == self.changes_since_snapshot,
    {
        self.changes_since_snapshot
    }

    /// Start counting changes afresh.
    pub fn reset_change_count(&mut self)
        ensures
            *final(self) == (Replica { changes_since_snapshot: 0, ..*old(self) }),
    {
        self.changes_since_snapshot = 0;
    }

    /// The peers heard from recently enough to still be gossip targets; the others are dropped.
    pub fn get_peers(&mut self, now: Instant) -> (known: Vec<IpAddr>)
        ensures
            *final(self) == (Replica { peers: final(self).peers, ..*old(self) }),
            final(self).peers@ == peers::fresh(old(self).peers@, now),
            known@ == ordered_map::keys_of(final(self).peers.seen.sequence()),
            peers::addresses(known@) == final(self).peers@.dom(),
            known@.no_duplicates(),
    {
        self.peers.expire(now);
        self.peers.addresses()
    }

    /// Apply a local write.
    pub fn just_insert(&mut self, key: K, value: Entry<Timestamp, V>) -> (previous: Option<
        Entry<Timestamp, V>,
    >)
        ensures
            *final(self) == (Replica {
                store: final(self).store,
                metrics: final(self).metrics,
                changes_since_snapshot: old(self).changes_since_snapshot.wrapping_add(1),
                ..*old(self)
            }),
            final(self).store@ == old(self).store@.insert(key@, value@),
            final(self).metrics@ == old(self).metrics@.push(write_event(value@)),
            previous is Some <==> old(self).store@.contains_key(key@),
            previous matches Some(p) ==> p@ == old(self).store@[key@],
    {
        if value.is_tombstone() {
            self.metrics.record_remove();
        } else {
            self.metrics.record_insert();
        }
        self.record_changes(1);
        self.store.map_insert(key, value)
    }

    /// Apply a local write, once `pre_insert` was called on it. The hook is shown the dated map as it
    /// stands before the write.
    pub fn just_insert_hooked<A, H>(
        &mut self,
        key: K,
        value: Entry<Timestamp, V>,
        start: A,
        pre_insert: H,
    ) -> (outcome: (Option<Entry<Timestamp, V>>, A)) where
        H: FnOnce(A, &OrderedMap<K, Entry<Timestamp, V>>, &K, &Entry<Timestamp, V>) -> A,

        requires
            call_requires(pre_insert, (start, &old(self).store.dated(), &key, &value)),
        ensures
            call_ensures(pre_insert, (start, &old(self).store.dated(), &key, &value), outcome.1),
            applied(*old(self), *final(self), key@, value@),
            outcome.0 is Some <==> old(self).store@.contains_key(key@),
            outcome.0 matches Some(p) ==> p@ == old(self).store@[key@],
    {
        let end: A = pre_insert(start, self.store.map(), &key, &value);
        (self.just_insert(key, value), end)
    }

    /// Claim one of the broadcast slots, or `None` when the budget is exhausted.
    pub fn try_claim_broadcast_slot(&mut self) -> (guard: Option<BroadcastCountGuard>)
        ensures
            *final(self) == (Replica { egress: final(self).egress, ..*old(self) }),
            claims(old(self).egress, final(self).egress, guard is Some),
    {
        self.egress.claim()
    }

    /// Hand a broadcast slot back.
    pub fn release_broadcast_slot(&mut self, guard: BroadcastCountGuard)
        ensures
            *final(self) == (Replica { egress: final(self).egress, ..*old(self) }),
            releases(old(self).egress, final(self).egress),
    {
        self.egress.release(guard)
    }

    /// Write broadcasts in flight.
    pub fn broadcasts_in_flight(&self) -> (n: usize)
        ensures
            n == self.egress.spec_in_flight(),
            n <= self.egress.spec_budget(),
    {
        self.egress.in_flight()
    }

    /// How many write broadcasts may be in flight.
    pub fn max_concurrent_broadcasts(&self) -> (n: usize)
        ensures
            n == self.egress.spec_budget(),
    {
        self.egress.budget()
    }

    /// The broadcast of `updates` over a slot already claimed: to every known peer.
    pub fn spawn_broadcast(
        &mut self,
        updates: Vec<(K, Entry<Timestamp, V>)>,
        guard: BroadcastCountGuard,
        now: Instant,
    ) -> (plan: BroadcastPlan<K, V>)
        ensures
            *final(self) == (Replica { peers: final(self).peers, ..*old(self) }),
            final(self).peers@ == peers::fresh(old(self).peers@, now),
            plan.updates == updates,
            plan.guard == guard,
            peers::addresses(plan.peers@) == peers::fresh(old(self).peers@, now).dom(),
            plan.peers@.no_duplicates(),
    {
        let peers: Vec<IpAddr> = self.get_peers(now);
        BroadcastPlan { updates, peers, guard }
    }

    /// A broadcast to `peers` was sent, as far as sending succeeded: each of them is owed an answer
    /// from now on, and the slot is handed back.
    pub fn conclude_broadcast(&mut self, peers: &Vec<IpAddr>, guard: BroadcastCountGuard, now: Instant)
        requires
            now.nanos + old(self).repair_interval.nanos <= u128::MAX,
        ensures
            *final(self) == (Replica {
                pending_repairs: final(self).pending_repairs,
                egress: final(self).egress,
                ..*old(self)
            }),
            final(self).pending_repairs@ == repair::noted(
                old(self).pending_repairs@,
                peers::addresses(peers@),
                now,
                old(self).repair_interval,
            ),
            releases(old(self).egress, final(self).egress),
    {
        self.note_pending_repairs(peers, now);
        self.release_broadcast_slot(guard);
    }

    /// Broadcast a batch of writes to every known peer, unless the budget is exhausted: the writes
    /// themselves were applied already, so only their eager propagation is skipped then.
    pub fn broadcast(&mut self, updates: Vec<(K, Entry<Timestamp, V>)>, now: Instant) -> (plan: Option<
        BroadcastPlan<K, V>,
    >)
        ensures
            broadcast_outcome(*old(self), *final(self), ordered_map::pairs(updates@), now, plan),
    {
        match self.try_claim_broadcast_slot() {
            Some(guard) => Some(self.spawn_broadcast(updates, guard, now)),
            None => {
                self.metrics.record_broadcast_backpressure("eager");
                None
            },
        }
    }

    /// Broadcast a batch of writes, or queue it while the coalescing window is open.
    pub fn queue_broadcast(&mut self, updates: Vec<(K, Entry<Timestamp, V>)>, now: Instant) -> (plan: Option<
        BroadcastPlan<K, V>,
    >)
        ensures
            queue_outcome(*old(self), *final(self), ordered_map::pairs(updates@), now, plan),
    {
        if self.coalesce_window.is_zero() {
            self.broadcast(updates, now)
        } else {
            let ghost before = self.queued@;
            let mut batch: Vec<(K, Entry<Timestamp, V>)> = updates;
            self.queued.append(&mut batch);
            assert(ordered_map::pairs(self.queued@) =~= ordered_map::pairs(before)
                + ordered_map::pairs(updates@));
            None
        }
    }

    /// The coalescing window closed: broadcast what was queued, as one batch.
    pub fn flush_broadcasts(&mut self, now: Instant) -> (plan: Option<BroadcastPlan<K, V>>)
        ensures
            final(self).queued@.len() == 0,
            old(self).queued@.len() == 0 ==> plan is None && *final(self) == *old(self),
            old(self).queued@.len() > 0 ==> exists|mid: Replica<K, V>|
                {
                    &&& mid == (Replica { queued: mid.queued, ..*old(self) })
                    &&& #[trigger] broadcast_outcome(
                        mid,
                        *final(self),
                        ordered_map::pairs(old(self).queued@),
                        now,
                        plan,
                    )
                },
    {
        if self.queued.len() == 0 {
            return None;
        }
        let mut batch: Vec<(K, Entry<Timestamp, V>)> = Vec::new();
        std::mem::swap(&mut batch, &mut self.queued);
        self.broadcast(batch, now)
    }

    /// Apply a local write, and broadcast it.
    pub fn insert(&mut self, key: K, value: Entry<Timestamp, V>, now: Instant) -> (outcome: (
        Option<Entry<Timestamp, V>>,
        Option<BroadcastPlan<K, V>>,
    ))
        ensures
            exists|mid: Replica<K, V>|
                {
                    &&& #[trigger] applied(*old(self), mid, key@, value@)
                    &&& queue_outcome(mid, *final(self), seq![(key@, value@)], now, outcome.1)
                },
            outcome.0 is Some <==> old(self).store@.contains_key(key@),
            outcome.0 matches Some(p) ==> p@ == old(self).store@[key@],
    {
        let ghost k = key@;
        let ghost v = value@;
        let previous = self.just_insert(key.duplicate(), value.duplicate());
        assert(applied(*old(self), *self, k, v));
        let mut batch: Vec<(K, Entry<Timestamp, V>)> = Vec::new();
        batch.push((key, value));
        assert(ordered_map::pairs(batch@) =~= seq![(k, v)]);
        let plan = self.queue_broadcast(batch, now);
        (previous, plan)
    }

    /// Apply a local write and broadcast it, or do neither: the broadcast slot is claimed before
    /// the map is touched. Never coalesced.
    pub fn try_insert(&mut self, key: K, value: Entry<Timestamp, V>, now: Instant) -> (outcome: Result<
        (Option<Entry<Timestamp, V>>, BroadcastPlan<K, V>),
        BroadcastBudgetExhausted,
    >)
        ensures
            outcome is Ok <==> old(self).egress.spec_in_flight() < old(self).egress.spec_budget(),
            final(self).egress.spec_budget() == old(self).egress.spec_budget(),
            outcome matches Ok((previous, plan)) ==> {
                &&& *final(self) == (Replica {
                    store: final(self).store,
                    metrics: final(self).metrics,
                    peers: final(self).peers,
                    egress: final(self).egress,
                    changes_since_snapshot: old(self).changes_since_snapshot.wrapping_add(1),
                    ..*old(self)
                })
                &&& final(self).store@ == old(self).store@.insert(key@, value@)
                &&& final(self).metrics@ == old(self).metrics@.push(write_event(value@))
                &&& final(self).egress.spec_in_flight() == old(self).egress.spec_in_flight() + 1
                &&& final(self).peers@ == peers::fresh(old(self).peers@, now)
                &&& previous is Some <==> old(self).store@.contains_key(key@)
                &&& previous matches Some(p) ==> p@ == old(self).store@[key@]
                &&& ordered_map::pairs(plan.updates@) == seq![(key@, value@)]
                &&& peers::addresses(plan.peers@) == final(self).peers@.dom()
                &&& plan.peers@.no_duplicates()
            },
            outcome is Err ==> {
                &&& *final(self) == (Replica {
                    egress: final(self).egress,
                    metrics: final(self).metrics,
                    ..*old(self)
                })
                &&& final(self).egress.spec_in_flight() == old(self).egress.spec_in_flight()
                &&& final(self).metrics@ == old(self).metrics@.push(
                    observability::counted_by(metrics::BROADCAST_BACKPRESSURE_TOTAL, "path", "try"),
                )
            },
    {
        let ghost k = key@;
        let ghost v = value@;
        match self.try_claim_broadcast_slot() {
            Some(guard) => {
                let previous = self.just_insert(key.duplicate(), value.duplicate());
                let mut batch: Vec<(K, Entry<Timestamp, V>)> = Vec::new();
                batch.push((key, value));
                assert(ordered_map::pairs(batch@) =~= seq![(k, v)]);
                let plan = self.spawn_broadcast(batch, guard, now);
                Ok((previous, plan))
            },
            None => {
                self.metrics.record_broadcast_backpressure("try");
                Err(BroadcastBudgetExhausted)
            },
        }
    }

    /// Broadcast a write already applied, over a slot the caller already claimed.
    pub fn broadcast_update_with_claimed_slot(
        &mut self,
        key: K,
        value: Entry<Timestamp, V>,
        guard: BroadcastCountGuard,
        now: Instant,
    ) -> (plan: BroadcastPlan<K, V>)
        ensures
            *final(self) == (Replica { peers: final(self).peers, ..*old(self) }),
            final(self).peers@ == peers::fresh(old(self).peers@, now),
            ordered_map::pairs(plan.updates@) == seq![(key@, value@)],
            plan.guard == guard,
            peers::addresses(plan.peers@) == final(self).peers@.dom(),
            plan.peers@.no_duplicates(),
    {
        let ghost pair = seq![(key@, value@)];
        let mut batch: Vec<(K, Entry<Timestamp, V>)> = Vec::new();
        batch.push((key, value));
        assert(ordered_map::pairs(batch@) =~= pair);
        self.spawn_broadcast(batch, guard, now)
    }

    /// Broadcast a write already applied.
    pub fn broadcast_update(&mut self, key: K, value: Entry<Timestamp, V>, now: Instant) -> (plan: Option<
        BroadcastPlan<K, V>,
    >)
        ensures
            queue_outcome(*old(self), *final(self), seq![(key@, value@)], now, plan),
    {
        let ghost pair = seq![(key@, value@)];
        let mut batch: Vec<(K, Entry<Timestamp, V>)> = Vec::new();
        batch.push((key, value));
        assert(ordered_map::pairs(batch@) =~= pair);
        self.queue_broadcast(batch, now)
    }

    /// Apply a batch of local writes, in order.
    pub fn just_insert_bulk(&mut self, key_values: &[(K, Entry<Timestamp, V>)])
        ensures
            applied_bulk(*old(self), *final(self), ordered_map::pairs(key_values@)),
    {
        let ghost batch = ordered_map::pairs(key_values@);
        let ghost events = write_events(batch);
        let ghost m0 = self.store@;
        let n: usize = key_values.len();
        let mut i: usize = 0;
        assert(events.take(0) =~= Seq::empty());
        while i < n
            invariant
                n == key_values@.len(),
                i <= n,
                batch == ordered_map::pairs(key_values@),
                events == write_events(batch),
                *self == (Replica { metrics: self.metrics, ..*old(self) }),
                self.metrics@ == old(self).metrics@ + events.take(i as int),
            decreases n - i,
        {
            let value = &key_values[i].1;
            assert(batch[i as int].1 == value@);
            if value.is_tombstone() {
                self.metrics.record_remove();
            } else {
                self.metrics.record_insert();
            }
            assert(events.take(i + 1) =~= events.take(i as int).push(events[i as int]));
            assert(self.metrics@ =~= old(self).metrics@ + events.take(i + 1));
            i = i + 1;
        }
        assert(events.take(i as int) =~= events);
        self.record_changes(n);
        let ghost mid = *self;
        let mut j: usize = 0;
        assert(batch.take(0) =~= Seq::empty());
        while j < n
            invariant
                n == key_values@.len(),
                j <= n,
                batch == ordered_map::pairs(key_values@),
                *self == (Replica { store: self.store, ..mid }),
                self.store@ == ordered_map::written(m0, batch.take(j as int)),
            decreases n - j,
        {
            let entry = &key_values[j];
            self.store.map_insert(entry.0.duplicate(), entry.1.duplicate());
            proof {
                assert(batch.take(j + 1).drop_last() =~= batch.take(j as int));
                assert(batch.take(j + 1).last() == batch[j as int]);
            }
            j = j + 1;
        }
        assert(batch.take(j as int) =~= batch);
    }

    /// Apply a batch of local writes, in order, once `pre_insert` was carried over all of it. The
    /// hook is shown the dated map as it stands before any of the batch is in it.
    pub fn just_insert_bulk_hooked<A, H>(
        &mut self,
        key_values: &[(K, Entry<Timestamp, V>)],
        start: A,
        pre_insert: &H,
    ) -> (end: A) where H: Fn(A, &OrderedMap<K, Entry<Timestamp, V>>, &K, &Entry<Timestamp, V>) -> A
        requires
            forall|so_far: A, key: &K, value: &Entry<Timestamp, V>|
                call_requires(*pre_insert, (so_far, &old(self).store.dated(), key, value)),
        ensures
            hooks(*pre_insert, old(self).store.dated(), key_values@, start, end),
            applied_bulk(*old(self), *final(self), ordered_map::pairs(key_values@)),
    {
        let end: A = run_pre_insert(pre_insert, self.store.map(), key_values, start);
        self.just_insert_bulk(key_values);
        end
    }

    /// Apply a batch of local writes, and broadcast it.
    pub fn insert_bulk(&mut self, key_values: &[(K, Entry<Timestamp, V>)], now: Instant) -> (plan: Option<
        BroadcastPlan<K, V>,
    >)
        ensures
            exists|mid: Replica<K, V>|
                {
                    &&& #[trigger] applied_bulk(*old(self), mid, ordered_map::pairs(key_values@))
                    &&& queue_outcome(mid, *final(self), ordered_map::pairs(key_values@), now, plan)
                },
    {
        self.just_insert_bulk(key_values);
        assert(applied_bulk(*old(self), *self, ordered_map::pairs(key_values@)));
        let batch = duplicate_batch(key_values);
        self.queue_broadcast(batch, now)
    }
}

/// What applying one local write does to a replica.
pub open spec fn applied<K: Key, V: Value>(
    before: Replica<K, V>,
    after: Replica<K, V>,
    key: K::V,
    value: Entry<Timestamp, V::V>,
) -> bool {
    &&& after == (Replica {
        store: after.store,
        metrics: after.metrics,
        changes_since_snapshot: before.changes_since_snapshot.wrapping_add(1),
        ..before
    })
    &&& after.store@ == before.store@.insert(key, value)
    &&& after.metrics@ == before.metrics@.push(write_event(value))
}

/// What applying a batch of local writes does to a replica.
pub open spec fn applied_bulk<K: Key, V: Value>(
    before: Replica<K, V>,
    after: Replica<K, V>,
    batch: Seq<(K::V, Entry<Timestamp, V::V>)>,
) -> bool {
    &&& after == (Replica {
        store: after.store,
        metrics: after.metrics,
        changes_since_snapshot: before.changes_since_snapshot.wrapping_add(batch.len() as usize),
        ..before
    })
    &&& after.store@ == ordered_map::written(before.store@, batch)
    &&& after.metrics@ == before.metrics@ + write_events(batch)
}

/// Applying a batch does what applying its entries one after the other does, so a repeated key
/// keeps its last value; an empty batch changes nothing.
pub proof fn a_batch_is_one_write_after_the_other<K: Key, V: Value>(
    before: Replica<K, V>,
    between: Replica<K, V>,
    after: Replica<K, V>,
    batch: Seq<(K::V, Entry<Timestamp, V::V>)>,
    key: K::V,
    value: Entry<Timestamp, V::V>,
)
    requires
        applied_bulk(before, between, batch),
        applied(between, after, key, value),
        batch.len() < usize::MAX,
    ensures
        applied_bulk(before, after, batch.push((key, value))),
        batch.len() == 0 ==> between.store@ == before.store@ && between.metrics@ == before.metrics@
            && between.changes_since_snapshot == before.changes_since_snapshot,
{
    let longer = batch.push((key, value));
    assert(longer.drop_last() =~= batch);
    assert(write_events(longer) =~= write_events(batch).push(write_event(value)));
    assert(after.metrics@ =~= before.metrics@ + write_events(longer));
}

/// What offering `updates` for broadcast does to a replica, and what it plans.
pub open spec fn queue_outcome<K: Key, V: Value>(
    before: Replica<K, V>,
    after: Replica<K, V>,
    updates: Seq<(K::V, Entry<Timestamp, V::V>)>,
    now: Instant,
    plan: Option<BroadcastPlan<K, V>>,
) -> bool {
    if before.coalesce_window.nanos == 0 {
        broadcast_outcome(before, after, updates, now, plan)
    } else {
        &&& plan is None
        &&& after == (Replica { queued: after.queued, ..before })
        &&& ordered_map::pairs(after.queued@) == ordered_map::pairs(before.queued@) + updates
    }
}

/// What an attempt to broadcast `updates` does to a replica, and what it plans.
pub open spec fn broadcast_outcome<K: Key, V: Value>(
    before: Replica<K, V>,
    after: Replica<K, V>,
    updates: Seq<(K::V, Entry<Timestamp, V::V>)>,
    now: Instant,
    plan: Option<BroadcastPlan<K, V>>,
) -> bool {
    &&& plan is Some <==> before.egress.spec_in_flight() < before.egress.spec_budget()
    &&& after.egress.spec_budget() == before.egress.spec_budget()
    &&& match plan {
        Some(p) => {
            &&& after == (Replica { peers: after.peers, egress: after.egress, ..before })
            &&& after.egress.spec_in_flight() == before.egress.spec_in_flight() + 1
            &&& after.peers@ == peers::fresh(before.peers@, now)
            &&& ordered_map::pairs(p.updates@) == updates
            &&& peers::addresses(p.peers@) == after.peers@.dom()
            &&& p.peers@.no_duplicates()
        },
        None => {
            &&& after == (Replica { egress: after.egress, metrics: after.metrics, ..before })
            &&& after.egress.spec_in_flight() == before.egress.spec_in_flight()
            &&& after.metrics@ == before.metrics@.push(
                observability::counted_by(metrics::BROADCAST_BACKPRESSURE_TOTAL, "path", "eager"),
            )
        },
    }
}

/// Slots are handed out one at a time, and none beyond the budget: a claim is granted exactly while
/// fewer are in flight than the budget allows, and counts as one; a refused one changes nothing; and
/// handing a slot back frees exactly one.
pub proof fn slots_are_handed_out_up_to_the_budget(before: Egress, after: Egress, granted: bool, released: Egress)
    requires
        claims(before, after, granted),
        releases(after, released),
    ensures
        granted <==> before.spec_in_flight() < before.spec_budget(),
        granted ==> after.spec_in_flight() == before.spec_in_flight() + 1,
        !granted ==> after.spec_in_flight() == before.spec_in_flight(),
        after.spec_budget() == before.spec_budget(),
        released.spec_budget() == after.spec_budget(),
        after.spec_in_flight() > 0 ==> released.spec_in_flight() == after.spec_in_flight() - 1,
        after.spec_in_flight() == 0 ==> released.spec_in_flight() == 0,
{
}

/// A write of a live value counts as one insertion, a write of a tombstone as one removal, and a
/// batch counts write by write, in order.
pub proof fn writes_are_counted_by_kind<Q, X>(batch: Seq<(Q, Entry<Timestamp, X>)>, i: int)
    requires
        0 <= i < batch.len(),
    ensures
        write_events(batch).len() == batch.len(),
        write_events(batch)[i] == write_event(batch[i].1),
        write_event(batch[i].1).change == observability::Change::Increment(1),
        write_event(batch[i].1).label is None,
        batch[i].1.state is Present ==> write_event(batch[i].1).name == metrics::INSERTS_TOTAL,
        batch[i].1.state is Tombstone ==> write_event(batch[i].1).name == metrics::REMOVES_TOTAL,
{
}

/// After a local write, its key holds exactly what was written, every other key what it held, and
/// one more change is counted toward the next snapshot.
pub proof fn a_local_write_replaces_one_entry<K: Key, V: Value>(
    before: Replica<K, V>,
    after: Replica<K, V>,
    key: K::V,
    value: Entry<Timestamp, V::V>,
    other: K::V,
)
    requires
        applied(before, after, key, value),
    ensures
        after.store@.contains_key(key) && after.store@[key] == value,
        other != key ==> (after.store@.contains_key(other) <==> before.store@.contains_key(other)),
        other != key && before.store@.contains_key(other) ==> after.store@[other] == before.store@[other],
        before.changes_since_snapshot < usize::MAX ==> after.changes_since_snapshot
            == before.changes_since_snapshot + 1,
        after.metrics@ == before.metrics@.push(write_event(value)),
        after == (Replica {
            store: after.store,
            metrics: after.metrics,
            changes_since_snapshot: after.changes_since_snapshot,
            ..before
        }),
{
}

/// After a batch of local writes, a key holds the last value the batch gives it, and one that the
/// batch does not name what it held; every write of the batch counts as a change and as an event.
pub proof fn a_batch_replaces_what_it_names<K: Key, V: Value>(
    before: Replica<K, V>,
    after: Replica<K, V>,
    batch: Seq<(K::V, Entry<Timestamp, V::V>)>,
    key: K::V,
)
    requires
        applied_bulk(before, after, batch),
    ensures
        forall|i: int|
            0 <= i < batch.len() && (#[trigger] batch[i]).0 == key && (forall|j: int|
                i < j < batch.len() ==> (#[trigger] batch[j]).0 != key) ==> after.store@.contains_key(key)
                && after.store@[key] == batch[i].1,
        (forall|i: int| 0 <= i < batch.len() ==> (#[trigger] batch[i]).0 != key) ==> (after.store@.contains_key(key)
            <==> before.store@.contains_key(key)) && (before.store@.contains_key(key) ==> after.store@[key]
            == before.store@[key]),
        before.changes_since_snapshot + batch.len() <= usize::MAX ==> after.changes_since_snapshot
            == before.changes_since_snapshot + batch.len(),
        after.metrics@.len() == before.metrics@.len() + batch.len(),
        forall|i: int|
            0 <= i < batch.len() ==> after.metrics@[before.metrics@.len() as int + i] == write_event(
                (#[trigger] batch[i]).1,
            ),
        after == (Replica {
            store: after.store,
            metrics: after.metrics,
            changes_since_snapshot: after.changes_since_snapshot,
            ..before
        }),
{
    ordered_map::the_last_of_a_batch_stays(before.store@, batch, key);
    assert forall|i: int| 0 <= i < batch.len() implies after.metrics@[before.metrics@.len() as int + i]
        == write_event((#[trigger] batch[i]).1) by {
        assert(after.metrics@[before.metrics@.len() as int + i] == write_events(batch)[i]);
    }
}

/// A broadcast is planned exactly while a slot is free. It carries the updates as they are, goes to
/// every peer heard from less than sixty seconds ago and to nobody else, each once, and holds one
/// slot; without a slot nothing is planned, and the miss is counted.
pub proof fn broadcasts_reach_every_fresh_peer<K: Key, V: Value>(
    before: Replica<K, V>,
    after: Replica<K, V>,
    updates: Seq<(K::V, Entry<Timestamp, V::V>)>,
    now: Instant,
    plan: Option<BroadcastPlan<K, V>>,
    peer: IpAddr,
)
    requires
        broadcast_outcome(before, after, updates, now, plan),
    ensures
        plan is Some <==> before.egress.spec_in_flight() < before.egress.spec_budget(),
        plan matches Some(p) ==> {
            &&& ordered_map::pairs(p.updates@) == updates
            &&& p.peers@.contains(peer) <==> before.peers@.contains_key(peer) && now.nanos - before.peers@[peer].nanos
                < 60_000_000_000
            &&& forall|i: int, j: int|
                0 <= i < j < p.peers@.len() ==> #[trigger] p.peers@[i] != #[trigger] p.peers@[j]
            &&& after.egress.spec_in_flight() == before.egress.spec_in_flight() + 1
            &&& after.metrics == before.metrics
            &&& after.peers@.contains_key(peer) <==> p.peers@.contains(peer)
            &&& after.peers@.contains_key(peer) ==> after.peers@[peer] == before.peers@[peer]
        },
        plan is None ==> {
            &&& after.egress.spec_in_flight() == before.egress.spec_in_flight()
            &&& after.metrics@.len() == before.metrics@.len() + 1
            &&& after.metrics@.last().name == metrics::BROADCAST_BACKPRESSURE_TOTAL
            &&& after.metrics@.last().label == Some(("path", "eager"))
            &&& after.metrics@.last().change == observability::Change::Increment(1)
        },
        after == (Replica {
            peers: after.peers,
            egress: after.egress,
            metrics: after.metrics,
            ..before
        }),
        plan is None ==> after.peers == before.peers,
{
    peers::peers_count_for_a_minute(before.peers@, now, peer);
    match plan {
        Some(p) => {
            assert(peers::addresses(p.peers@).contains(peer) == p.peers@.contains(peer));
        },
        None => {},
    }
}

/// While writes are collected, two offers leave both in the queue, the earlier first, behind what
/// waited already, and nothing is sent; the broadcast of the queue carries all of it, in that order.
pub proof fn queued_writes_go_out_together<K: Key, V: Value>(
    first: Replica<K, V>,
    second: Replica<K, V>,
    third: Replica<K, V>,
    emptied: Replica<K, V>,
    last: Replica<K, V>,
    updates: Seq<(K::V, Entry<Timestamp, V::V>)>,
    more: Seq<(K::V, Entry<Timestamp, V::V>)>,
    now: Instant,
    later: Instant,
    at: Instant,
    plan: Option<BroadcastPlan<K, V>>,
    plan_later: Option<BroadcastPlan<K, V>>,
    flushed: Option<BroadcastPlan<K, V>>,
)
    requires
        first.coalesce_window.nanos > 0,
        queue_outcome(first, second, updates, now, plan),
        queue_outcome(second, third, more, later, plan_later),
        broadcast_outcome(emptied, last, ordered_map::pairs(third.queued@), at, flushed),
    ensures
        plan is None,
        plan_later is None,
        third == (Replica { queued: third.queued, ..first }),
        ordered_map::pairs(third.queued@) == ordered_map::pairs(first.queued@) + updates + more,
        flushed matches Some(p) ==> ordered_map::pairs(p.updates@) == ordered_map::pairs(first.queued@) + updates
            + more,
{
}

/// Without a coalescing window a write is never queued: it is broadcast at once or not at all.
pub proof fn nothing_waits_without_a_window<K: Key, V: Value>(
    before: Replica<K, V>,
    after: Replica<K, V>,
    updates: Seq<(K::V, Entry<Timestamp, V::V>)>,
    now: Instant,
    plan: Option<BroadcastPlan<K, V>>,
)
    requires
        before.coalesce_window.nanos == 0,
        queue_outcome(before, after, updates, now, plan),
    ensures
        after.queued == before.queued,
        plan is Some <==> before.egress.spec_in_flight() < before.egress.spec_budget(),
        plan matches Some(p) ==> ordered_map::pairs(p.updates@) == updates,
{
}

/// A hook over no entry changes nothing; over one more entry, it is called once more, on that entry,
/// with what the entries before it came to, and is shown the same map.
pub proof fn hooks_are_called_entry_by_entry<K: Key, V: Value, A, H>(
    pre_insert: H,
    held: OrderedMap<K, Entry<Timestamp, V>>,
    batch: Seq<(K, Entry<Timestamp, V>)>,
    entry: (K, Entry<Timestamp, V>),
    start: A,
    end: A,
) where H: Fn(A, &OrderedMap<K, Entry<Timestamp, V>>, &K, &Entry<Timestamp, V>) -> A
    ensures
        hooks(pre_insert, held, Seq::empty(), start, end) <==> start == end,
        hooks(pre_insert, held, batch.push(entry), start, end) <==> exists|mid: A| #[trigger]
            hooks(pre_insert, held, batch, start, mid) && call_ensures(
                pre_insert,
                (mid, &held, &entry.0, &entry.1),
                end,
            ),
{
    let none = Seq::<(K, Entry<Timestamp, V>)>::empty();
    if start == end {
        assert(is_hook_trace(pre_insert, held, none, seq![start]));
    }
    let longer = batch.push(entry);
    let n = batch.len() as int;
    if hooks(pre_insert, held, longer, start, end) {
        let steps = choose|steps: Seq<A>| #[trigger]
            is_hook_trace(pre_insert, held, longer, steps) && steps[0] == start && steps.last() == end;
        let early = steps.drop_last();
        assert forall|i: int| 0 <= i < batch.len() implies call_ensures(
            pre_insert,
            (early[i], &held, &(#[trigger] batch[i]).0, &batch[i].1),
            early[i + 1],
        ) by {
            assert(longer[i] == batch[i]);
        }
        assert(is_hook_trace(pre_insert, held, batch, early));
        assert(longer[n] == entry);
        assert(hooks(pre_insert, held, batch, start, steps[n]));
    }
    if exists|mid: A| #[trigger]
        hooks(pre_insert, held, batch, start, mid) && call_ensures(pre_insert, (mid, &held, &entry.0, &entry.1), end) {
        let mid = choose|mid: A| #[trigger]
            hooks(pre_insert, held, batch, start, mid) && call_ensures(
                pre_insert,
                (mid, &held, &entry.0, &entry.1),
                end,
            );
        let early = choose|steps: Seq<A>| #[trigger]
            is_hook_trace(pre_insert, held, batch, steps) && steps[0] == start && steps.last() == mid;
        let steps = early.push(end);
        assert forall|i: int| 0 <= i < longer.len() implies call_ensures(
            pre_insert,
            (steps[i], &held, &(#[trigger] longer[i]).0, &longer[i].1),
            steps[i + 1],
        ) by {
            if i < n {
                assert(longer[i] == batch[i]);
            }
        }
        assert(is_hook_trace(pre_insert, held, longer, steps));
    }
}

} // verus!
