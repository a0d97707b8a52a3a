//! Writes that report when they cannot be broadcast.

use vstd::prelude::*;
use vstd::string::StringExecFns;

use crate::bounds;
use crate::bounds::{Duplicate, Key, Value};
use crate::clock::Timestamp;
use crate::entry::{Entry, State};
use crate::live;
use crate::metrics;
use crate::observability;
use crate::ordered_map;
use crate::peers;
use crate::replica::write::{BroadcastCountGuard, BroadcastPlan};
use crate::replica::Replica;
use crate::replicated_map::value_size;
use crate::replicated_map::value_size::ValueTooLarge;
use crate::replicated_map::ReplicatedMap;
use crate::store;
use crate::text;
use crate::time::Instant;

verus! {

/// Why a checked write was rejected. Whatever the cause, nothing was applied and nothing is sent.
#[derive(Clone, Copy, Debug, PartialEq, Eq, Structural)]
#[non_exhaustive]
pub enum WriteRejected {
    /// The value's encoded size exceeds the configured ceiling.
    TooLarge(ValueTooLarge),
    /// The write-broadcast budget is exhausted.
    Backpressure(Backpressure),
}

/// What a rejected write was rejected for.
#[derive(Clone, Copy, Debug, PartialEq, Eq, Structural)]
pub enum RejectionCause {
    /// The value's encoded size exceeds the configured ceiling.
    ValueTooLarge(ValueTooLarge),
    /// The write-broadcast budget is exhausted.
    Backpressure(Backpressure),
}

impl RejectionCause {
    /// The message a user sees.
    pub fn to_string(&self) -> (text: String)
        ensures
            text@ == match self {
                RejectionCause::ValueTooLarge(error) => error.message(),
                RejectionCause::Backpressure(error) => error.message(),
            },
    {
        match self {
            RejectionCause::ValueTooLarge(error) => error.to_string(),
            RejectionCause::Backpressure(error) => error.to_string(),
        }
    }
}

impl WriteRejected {
    /// The message a user sees: that of the cause.
    pub fn to_string(&self) -> (text: String)
        ensures
            text@ == match self {
                WriteRejected::TooLarge(error) => error.message(),
                WriteRejected::Backpressure(error) => error.message(),
            },
    {
        match self {
            WriteRejected::TooLarge(error) => error.to_string(),
            WriteRejected::Backpressure(error) => error.to_string(),
        }
    }

    /// The cause.
    pub fn source(&self) -> (cause: Option<RejectionCause>)
        ensures
            cause == Some(
                match self {
                    WriteRejected::TooLarge(error) => RejectionCause::ValueTooLarge(*error),
                    WriteRejected::Backpressure(error) => RejectionCause::Backpressure(*error),
                },
            ),
    {
        match self {
            WriteRejected::TooLarge(error) => Some(RejectionCause::ValueTooLarge(*error)),
            WriteRejected::Backpressure(error) => Some(RejectionCause::Backpressure(*error)),
        }
    }
}

/// The write-broadcast budget was exhausted.
#[derive(Clone, Copy, Debug, PartialEq, Eq, Structural)]
pub struct Backpressure {
    /// Broadcasts in flight when the claim failed.
    pub in_flight: usize,
    /// How many may be.
    pub max_in_flight: usize,
}

impl Backpressure {
    /// The message a user sees.
    pub open spec fn message(self) -> Seq<char> {
        "write-broadcast egress budget exhausted: "@ + text::decimal(self.in_flight as nat) + "/"@
            + text::decimal(self.max_in_flight as nat) + " broadcasts in flight"@
    }

    /// The message a user sees.
    pub fn to_string(&self) -> (text: String)
        ensures
            text@ == self.message(),
    {
        let mut text: String = String::from_str("write-broadcast egress budget exhausted: ");
        text::append_decimal(&mut text, self.in_flight);
        text.append("/");
        text::append_decimal(&mut text, self.max_in_flight);
        text.append(" broadcasts in flight");
        text
    }
}

/// The value is larger than the replica accepts.
pub open spec fn is_too_large<K: Key, V: Value>(engine: Replica<K, V>, value: V::V) -> bool {
    engine.max_value_size matches Some(max) && bounds::capped(V::encoded_len(value)) > max
}

/// Every broadcast slot is taken.
pub open spec fn is_saturated<K: Key, V: Value>(engine: Replica<K, V>) -> bool {
    engine.egress.spec_in_flight() >= engine.egress.spec_budget()
}

/// A checked write is rejected exactly as it should be: a value that is too large before anything is
/// touched, and otherwise an exhausted budget, which is counted. Either way the map, and all else,
/// is as it was.
pub open spec fn rejects<K: Key, V: Value, T>(
    before: Replica<K, V>,
    after: Replica<K, V>,
    value: V::V,
    outcome: Result<T, WriteRejected>,
) -> bool {
    &&& is_too_large(before, value) ==> {
        &&& outcome matches Err(WriteRejected::TooLarge(error)) && error.encoded_size as nat
            == bounds::capped(V::encoded_len(value)) && Some(error.max_value_size)
            == before.max_value_size
        &&& after == before
    }
    &&& !is_too_large(before, value) && is_saturated(before) ==> {
        &&& outcome matches Err(rejection) && rejection == WriteRejected::Backpressure(
            Backpressure {
                in_flight: before.egress.spec_in_flight(),
                max_in_flight: before.egress.spec_budget(),
            },
        )
        &&& after == (Replica { egress: after.egress, metrics: after.metrics, ..before })
        &&& after.egress.spec_in_flight() == before.egress.spec_in_flight()
        &&& after.egress.spec_budget() == before.egress.spec_budget()
        &&& after.metrics@ == before.metrics@.push(
            observability::counted_by(metrics::BROADCAST_BACKPRESSURE_TOTAL, "path", "try"),
        )
    }
}

/// What committing a checked write does beside the slot it holds: the value is applied under
/// `stamp`, and is broadcast to every fresh peer.
pub open spec fn commits<K: Key, V: Value>(
    before: Replica<K, V>,
    after: Replica<K, V>,
    key: K::V,
    value: V::V,
    stamp: Timestamp,
    now: Instant,
    plan: BroadcastPlan<K, V>,
) -> bool {
    let entry = Entry { stamp, state: State::Present(value) };
    &&& after == (Replica {
        store: after.store,
        metrics: after.metrics,
        peers: after.peers,
        egress: after.egress,
        changes_since_snapshot: before.changes_since_snapshot.wrapping_add(1),
        ..before
    })
    &&& after.store@ == before.store@.insert(key, entry)
    &&& after.metrics@ == before.metrics@.push(observability::counted(metrics::INSERTS_TOTAL, 1))
    &&& after.peers@ == peers::fresh(before.peers@, now)
    &&& ordered_map::pairs(plan.updates@) == seq![(key, entry)]
    &&& peers::addresses(plan.peers@) == after.peers@.dom()
    &&& plan.peers@.no_duplicates()
}

impl<K: Key, V: Value> ReplicatedMap<K, V> {
    /// Write `value` under `stamp`, and broadcast it at once; or do neither. The size is checked
    /// before a broadcast slot is asked for, and the slot is claimed before the map is touched.
    pub fn try_insert(&mut self, key: K, value: V, stamp: Timestamp, now: Instant) -> (outcome: Result<
        (Option<V>, BroadcastPlan<K, V>),
        WriteRejected,
    >)
        ensures
            *final(self) == (ReplicatedMap { engine: final(self).engine, ..*old(self) }),
            rejects(old(self).engine, final(self).engine, value@, outcome),
            outcome is Ok <==> !is_too_large(old(self).engine, value@) && !is_saturated(
                old(self).engine,
            ),
            outcome matches Ok((previous, plan)) ==> {
                &&& ordered_map::optional(previous) == live::live_at(
                    store::projected(old(self).engine.store@),
                    key@,
                )
                &&& commits(
                    old(self).engine,
                    final(self).engine,
                    key@,
                    value@,
                    stamp,
                    now,
                    plan,
                )
                &&& crate::replica::write::claims(
                    old(self).engine.egress,
                    final(self).engine.egress,
                    true,
                )
            },
    {
        match self.claim_write(&value) {
            Ok(guard) => Ok(self.commit_write(key, value, stamp, guard, now)),
            Err(rejection) => Err(rejection),
        }
    }

    /// The first half of a checked write: check the size, then claim a broadcast slot. Whoever
    /// supplies a pre-insert hook runs it next, then calls [`commit_write`](Self::commit_write).
    pub fn claim_write(&mut self, value: &V) -> (outcome: Result<BroadcastCountGuard, WriteRejected>)
        ensures
            *final(self) == (ReplicatedMap { engine: final(self).engine, ..*old(self) }),
            rejects(old(self).engine, final(self).engine, value@, outcome),
            outcome is Ok <==> !is_too_large(old(self).engine, value@) && !is_saturated(
                old(self).engine,
            ),
            outcome is Ok ==> {
                &&& final(self).engine == (Replica {
                    egress: final(self).engine.egress,
                    ..old(self).engine
                })
                &&& crate::replica::write::claims(
                    old(self).engine.egress,
                    final(self).engine.egress,
                    true,
                )
            },
    {
        match value_size::check_value_size(value, self.engine.max_value_size) {
            Ok(()) => {},
            Err(error) => {
                return Err(WriteRejected::TooLarge(error));
            },
        }
        match self.engine.try_claim_broadcast_slot() {
            Some(guard) => Ok(guard),
            None => {
                self.engine.metrics.record_broadcast_backpressure("try");
                Err(
                    WriteRejected::Backpressure(
                        Backpressure {
                            in_flight: self.engine.broadcasts_in_flight(),
                            max_in_flight: self.engine.max_concurrent_broadcasts(),
                        },
                    ),
                )
            },
        }
    }

    /// The second half of a checked write: apply the value under `stamp`, and broadcast it over the
    /// slot that was claimed.
    pub fn commit_write(
        &mut self,
        key: K,
        value: V,
        stamp: Timestamp,
        guard: BroadcastCountGuard,
        now: Instant,
    ) -> (committed: (Option<V>, BroadcastPlan<K, V>))
        ensures
            *final(self) == (ReplicatedMap { engine: final(self).engine, ..*old(self) }),
            commits(old(self).engine, final(self).engine, key@, value@, stamp, now, committed.1),
            final(self).engine.egress == old(self).engine.egress,
            committed.1.guard == guard,
            ordered_map::optional(committed.0) == live::live_at(
                store::projected(old(self).engine.store@),
                key@,
            ),
    {
        let ghost (k, v) = (key@, value@);
        let entry: Entry<Timestamp, V> = Entry::present(stamp, value);
        let previous: Option<Entry<Timestamp, V>> = self.engine.just_insert(
            key.duplicate(),
            entry.duplicate(),
        );
        let plan: BroadcastPlan<K, V> = self.engine.broadcast_update_with_claimed_slot(
            key,
            entry,
            guard,
            now,
        );
        let value: Option<V> = match previous {
            Some(entry) => entry.state.into_value(),
            None => None,
        };
        (value, plan)
    }
}

/// A value is too large exactly when there is a ceiling and its encoding takes more bytes; one
/// exactly at the ceiling is not.
pub proof fn only_values_past_the_ceiling_are_too_large<K: Key, V: Value>(engine: Replica<K, V>, value: V::V)
    requires
        V::encoded_len(value) <= usize::MAX,
    ensures
        engine.max_value_size is None ==> !is_too_large(engine, value),
        engine.max_value_size matches Some(max) ==> (is_too_large(engine, value) <==> V::encoded_len(value) > max),
        is_saturated(engine) <==> !(engine.egress.spec_in_flight() < engine.egress.spec_budget()),
{
}

/// A rejected write leaves the map, the queue, the peers and the pending changes as they were. The
/// size comes first: a value that is too large is rejected for that, whatever the budget, and tells
/// its size and the ceiling; only then does an exhausted budget reject, and tells how many are in
/// flight and how many may be.
pub proof fn rejected_writes_change_nothing<K: Key, V: Value, T>(
    before: Replica<K, V>,
    after: Replica<K, V>,
    value: V::V,
    outcome: Result<T, WriteRejected>,
)
    requires
        rejects(before, after, value, outcome),
        V::encoded_len(value) <= usize::MAX,
        (before.max_value_size is Some && V::encoded_len(value) > before.max_value_size->0)
            || before.egress.spec_in_flight() >= before.egress.spec_budget(),
    ensures
        outcome is Err,
        after == (Replica { egress: after.egress, metrics: after.metrics, ..before }),
        after.egress.spec_budget() == before.egress.spec_budget(),
        after.egress.spec_in_flight() == before.egress.spec_in_flight(),
        before.max_value_size is Some && V::encoded_len(value) > before.max_value_size->0 ==> {
            &&& outcome->Err_0 is TooLarge
            &&& outcome->Err_0->TooLarge_0.encoded_size == V::encoded_len(value)
            &&& outcome->Err_0->TooLarge_0.max_value_size == before.max_value_size->0
            &&& after.metrics == before.metrics
        },
        before.max_value_size is None || V::encoded_len(value) <= before.max_value_size->0 ==> {
            &&& outcome->Err_0 is Backpressure
            &&& outcome->Err_0->Backpressure_0.in_flight == before.egress.spec_in_flight()
            &&& outcome->Err_0->Backpressure_0.max_in_flight == before.egress.spec_budget()
            &&& after.metrics@.len() == before.metrics@.len() + 1
            &&& after.metrics@.last().name == metrics::BROADCAST_BACKPRESSURE_TOTAL
            &&& after.metrics@.last().label == Some(("path", "try"))
        },
{
}

/// A committed write holds under its stamp from then on, touches no other key, counts as one
/// insertion and one change, and is sent, alone, to every peer heard from less than sixty seconds
/// ago and to nobody else.
pub proof fn committed_writes_hold_and_go_out<K: Key, V: Value>(
    before: Replica<K, V>,
    after: Replica<K, V>,
    key: K::V,
    value: V::V,
    stamp: Timestamp,
    now: Instant,
    plan: BroadcastPlan<K, V>,
    other: K::V,
    peer: crate::net::IpAddr,
)
    requires
        commits(before, after, key, value, stamp, now, plan),
    ensures
        after.store@.contains_key(key),
        after.store@[key].stamp == stamp,
        after.store@[key].state == State::Present(value),
        other != key ==> (after.store@.contains_key(other) <==> before.store@.contains_key(other)),
        other != key && before.store@.contains_key(other) ==> after.store@[other] == before.store@[other],
        before.changes_since_snapshot < usize::MAX ==> after.changes_since_snapshot
            == before.changes_since_snapshot + 1,
        after.metrics@.len() == before.metrics@.len() + 1,
        after.metrics@.last().name == metrics::INSERTS_TOTAL,
        plan.updates@.len() == 1,
        plan.updates@[0].0@ == key,
        plan.updates@[0].1.stamp == stamp,
        plan.updates@[0].1@.state == State::Present(value),
        plan.peers@.contains(peer) <==> before.peers@.contains_key(peer) && now.nanos - before.peers@[peer].nanos
            < 60_000_000_000,
        after.peers@.contains_key(peer) <==> plan.peers@.contains(peer),
        after.peers@.contains_key(peer) ==> after.peers@[peer] == before.peers@[peer],
        after == (Replica {
            store: after.store,
            metrics: after.metrics,
            peers: after.peers,
            egress: after.egress,
            changes_since_snapshot: after.changes_since_snapshot,
            ..before
        }),
{
    peers::peers_count_for_a_minute(before.peers@, now, peer);
    assert(peers::addresses(plan.peers@).contains(peer) == plan.peers@.contains(peer));
    let sent = ordered_map::pairs(plan.updates@);
    assert(sent.len() == plan.updates@.len());
    assert(sent[0] == (plan.updates@[0].0@, plan.updates@[0].1@));
}

/// What a user reads of an exhausted budget is how many broadcasts are in flight, of how many.
pub proof fn the_message_tells_both_numbers(error: Backpressure) -> (around: (Seq<char>, Seq<char>))
    ensures
        error.message() == around.0 + text::decimal(error.in_flight as nat) + "/"@ + text::decimal(
            error.max_in_flight as nat,
        ) + around.1,
{
    ("write-broadcast egress budget exhausted: "@, " broadcasts in flight"@)
}

} // verus!
