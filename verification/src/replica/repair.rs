//! Repair of a lost comparison round, ack or bulk-transfer datagram on the scale of a round trip.
//!
//! Per peer, this tracks a comparison round the replica is owed an answer to, and retries it on the
//! repair interval rather than on the much longer background cadence. Any reply from the peer
//! clears it; a bounded number of unanswered retries gives it up.

use vstd::prelude::*;

use crate::bounds::{Duplicate, Key, Value};
use crate::net::IpAddr;
use crate::ordered_map;
use crate::ordered_map::OrderedMap;
use crate::peers;
use crate::replica::reconciliation;
use crate::replica::Replica;
use crate::time::{Duration, Instant};

verus! {

/// How many times one outstanding comparison round is retried before the peer is left to the next
/// background round.
pub const MAX_REPAIR_ATTEMPTS: u32 = 4;

/// One peer that is owed a fresh comparison round.
#[derive(Clone, Copy, Debug, PartialEq, Eq, Structural)]
pub struct PendingRepair {
    /// When it is next due for a retry.
    pub deadline: Instant,
    /// How many retries were sent already.
    pub attempts: u32,
}

impl View for PendingRepair {
    type V = PendingRepair;

    open spec fn view(&self) -> PendingRepair {
        *self
    }
}

impl Duplicate for PendingRepair {
    fn duplicate(&self) -> (copy: Self) {
        *self
    }
}

/// A repair noted at `now`.
pub open spec fn fresh_repair(now: Instant, interval: Duration) -> PendingRepair {
    PendingRepair { deadline: Instant { nanos: (now.nanos + interval.nanos) as u128 }, attempts: 0 }
}

/// A table of repairs once each of `peers` was marked as owed a comparison round at `now`: a repair
/// already pending stays as it is.
pub open spec fn noted(
    table: Map<IpAddr, PendingRepair>,
    peers: Set<IpAddr>,
    now: Instant,
    interval: Duration,
) -> Map<IpAddr, PendingRepair> {
    Map::new(
        |peer: IpAddr| table.contains_key(peer) || peers.contains(peer),
        |peer: IpAddr| if table.contains_key(peer) {
            table[peer]
        } else {
            fresh_repair(now, interval)
        },
    )
}

/// The repair is due at `now`.
pub open spec fn is_due(repair: PendingRepair, now: Instant) -> bool {
    repair.deadline.nanos <= now.nanos
}

/// What a check at `now` leaves of a repair: untouched before its deadline, given up once its
/// retries are used up, else retried and due again one interval later.
pub open spec fn after_check(repair: PendingRepair, now: Instant, interval: Duration) -> Option<PendingRepair> {
    if !is_due(repair, now) {
        Some(repair)
    } else if repair.attempts >= MAX_REPAIR_ATTEMPTS {
        None
    } else {
        Some(
            PendingRepair {
                deadline: Instant { nanos: (now.nanos + interval.nanos) as u128 },
                attempts: (repair.attempts + 1) as u32,
            },
        )
    }
}

/// The repair is retried by a check at `now`.
pub open spec fn is_retried(repair: PendingRepair, now: Instant) -> bool {
    is_due(repair, now) && repair.attempts < MAX_REPAIR_ATTEMPTS
}

/// What a check at `now` leaves of a table of repairs.
pub open spec fn after_checks(
    table: Map<IpAddr, PendingRepair>,
    now: Instant,
    interval: Duration,
) -> Map<IpAddr, PendingRepair> {
    Map::new(
        |peer: IpAddr| table.contains_key(peer) && after_check(table[peer], now, interval) is Some,
        |peer: IpAddr| after_check(table[peer], now, interval)->0,
    )
}

/// The peers a check at `now` retries, in address order.
pub open spec fn retried(table: Seq<(IpAddr, PendingRepair)>, now: Instant) -> Seq<IpAddr> {
    ordered_map::keys_of(table.filter(|e: (IpAddr, PendingRepair)| is_retried(e.1, now)))
}

/// What is left of a repair after one check per instant in `checks`.
pub open spec fn after_all(repair: PendingRepair, checks: Seq<Instant>, interval: Duration) -> Option<
    PendingRepair,
>
    decreases checks.len(),
{
    if checks.len() == 0 {
        Some(repair)
    } else {
        match after_all(repair, checks.drop_last(), interval) {
            Some(left) => after_check(left, checks.last(), interval),
            None => None,
        }
    }
}

/// How many of those checks retried it.
pub open spec fn retries(repair: PendingRepair, checks: Seq<Instant>, interval: Duration) -> nat
    decreases checks.len(),
{
    if checks.len() == 0 {
        0
    } else {
        retries(repair, checks.drop_last(), interval) + match after_all(repair, checks.drop_last(), interval) {
            Some(left) => if is_retried(left, checks.last()) {
                1nat
            } else {
                0nat
            },
            None => 0nat,
        }
    }
}

/// However often it is checked, a freshly noted repair is retried at most
/// [`MAX_REPAIR_ATTEMPTS`] times, and what is left of it has counted every one of them.
pub proof fn retries_are_bounded(noted: Instant, checks: Seq<Instant>, interval: Duration)
    ensures
        retries(fresh_repair(noted, interval), checks, interval) <= MAX_REPAIR_ATTEMPTS,
        after_all(fresh_repair(noted, interval), checks, interval) matches Some(left)
            ==> left.attempts == retries(fresh_repair(noted, interval), checks, interval),
    decreases checks.len(),
{
    if checks.len() > 0 {
        retries_are_bounded(noted, checks.drop_last(), interval);
    }
}

/// Once all its retries are used up, the next check past the deadline gives the repair up; a retry
/// is never due again before a full interval has passed.
pub proof fn exhausted_repairs_are_given_up(repair: PendingRepair, now: Instant, interval: Duration)
    requires
        now.nanos + interval.nanos <= u128::MAX,
    ensures
        is_due(repair, now) && repair.attempts >= MAX_REPAIR_ATTEMPTS ==> after_check(
            repair,
            now,
            interval,
        ) is None,
        is_retried(repair, now) ==> after_check(repair, now, interval)->0.deadline.nanos == now.nanos
            + interval.nanos,
{
}

impl<K: Key, V: Value> Replica<K, V> {
    /// Mark `peer` as owed a fresh comparison round within the repair interval. A repair already
    /// pending keeps its deadline.
    pub fn note_pending_repair(&mut self, peer: IpAddr, now: Instant)
        requires
            now.nanos + old(self).repair_interval.nanos <= u128::MAX,
        ensures
            *final(self) == (Replica { pending_repairs: final(self).pending_repairs, ..*old(self) }),
            final(self).pending_repairs@ == if old(self).pending_repairs@.contains_key(peer) {
                old(self).pending_repairs@
            } else {
                old(self).pending_repairs@.insert(peer, fresh_repair(now, old(self).repair_interval))
            },
    {
        if !self.pending_repairs.contains_key(&peer) {
            let deadline: Instant = now.plus(self.repair_interval);
            self.pending_repairs.insert(peer, PendingRepair { deadline, attempts: 0 });
        }
    }

    /// Mark each of `peers` as owed a fresh comparison round within the repair interval.
    pub fn note_pending_repairs(&mut self, peers: &Vec<IpAddr>, now: Instant)
        requires
            now.nanos + old(self).repair_interval.nanos <= u128::MAX,
        ensures
            *final(self) == (Replica { pending_repairs: final(self).pending_repairs, ..*old(self) }),
            final(self).pending_repairs@ == noted(
                old(self).pending_repairs@,
                peers::addresses(peers@),
                now,
                old(self).repair_interval,
            ),
    {
        let ghost table = self.pending_repairs@;
        let ghost interval = self.repair_interval;
        let mut i: usize = 0;
        assert(table =~= noted(table, peers::addresses(peers@.take(0)), now, interval));
        while i < peers.len()
            invariant
                i <= peers@.len(),
                now.nanos + interval.nanos <= u128::MAX,
                interval == old(self).repair_interval,
                *self == (Replica { pending_repairs: self.pending_repairs, ..*old(self) }),
                self.pending_repairs@ == noted(
                    table,
                    peers::addresses(peers@.take(i as int)),
                    now,
                    interval,
                ),
            decreases peers@.len() - i,
        {
            self.note_pending_repair(peers[i], now);
            proof {
                reconciliation::lemma_take_contains(peers@, i as int);
                assert(self.pending_repairs@ =~= noted(
                    table,
                    peers::addresses(peers@.take(i + 1)),
                    now,
                    interval,
                ));
            }
            i = i + 1;
        }
        assert(peers@.take(i as int) =~= peers@);
    }

    /// A reply came back from `peer`: nothing is owed any more.
    pub fn clear_pending_repair(&mut self, peer: IpAddr)
        ensures
            *final(self) == (Replica { pending_repairs: final(self).pending_repairs, ..*old(self) }),
            final(self).pending_repairs@ == old(self).pending_repairs@.remove(peer),
    {
        self.pending_repairs.remove(&peer);
    }

    /// Check every pending repair against `now`, and hand back the peers to send a fresh comparison
    /// to.
    pub fn retry_due_repairs(&mut self, now: Instant) -> (due: Vec<IpAddr>)
        requires
            now.nanos + old(self).repair_interval.nanos <= u128::MAX,
        ensures
            *final(self) == (Replica { pending_repairs: final(self).pending_repairs, ..*old(self) }),
            final(self).pending_repairs@ == after_checks(
                old(self).pending_repairs@,
                now,
                old(self).repair_interval,
            ),
            due@ == retried(old(self).pending_repairs.sequence(), now),
    {
        proof {
            use_type_invariant(&self.pending_repairs);
        }
        let interval: Duration = self.repair_interval;
        let ghost s = self.pending_repairs.sequence();
        let ghost keep = |e: (IpAddr, PendingRepair)| is_retried(e.1, now);
        let mut left: OrderedMap<IpAddr, PendingRepair> = OrderedMap::new();
        let mut due: Vec<IpAddr> = Vec::new();
        let n: usize = self.pending_repairs.len();
        let mut i: usize = 0;
        proof {
            reveal(Seq::filter);
            ordered_map::lemma_entry_map_empty(s.take(0));
            assert(left@ =~= after_checks(ordered_map::entry_map(s.take(0)), now, interval));
            assert(due@ =~= ordered_map::keys_of(s.take(0).filter(keep)));
        }
        while i < n
            invariant
                s == self.pending_repairs.sequence(),
                n == s.len(),
                i <= n,
                ordered_map::increasing::<IpAddr, PendingRepair>(s),
                now.nanos + interval.nanos <= u128::MAX,
                keep == (|e: (IpAddr, PendingRepair)| is_retried(e.1, now)),
                left@ == after_checks(ordered_map::entry_map(s.take(i as int)), now, interval),
                due@ == ordered_map::keys_of(s.take(i as int).filter(keep)),
            decreases n - i,
        {
            let (peer, repair) = self.pending_repairs.at(i);
            let ghost (p, r) = (*peer, *repair);
            let ghost before = ordered_map::entry_map(s.take(i as int));
            proof {
                reveal(Seq::filter);
                ordered_map::lemma_entry_map_take::<IpAddr, PendingRepair>(s, i as int);
                assert(s.take(i + 1).drop_last() =~= s.take(i as int));
                assert(s.take(i + 1).last() == s[i as int]);
            }
            if repair.deadline.nanos > now.nanos {
                left.insert(*peer, *repair);
            } else if repair.attempts < MAX_REPAIR_ATTEMPTS {
                let deadline: Instant = now.plus(interval);
                left.insert(*peer, PendingRepair { deadline, attempts: repair.attempts + 1 });
                due.push(*peer);
            }
            proof {
                assert(left@ =~= after_checks(before.insert(p, r), now, interval));
                assert(due@ =~= ordered_map::keys_of(s.take(i + 1).filter(keep)));
            }
            i = i + 1;
        }
        assert(s.take(i as int) =~= s);
        self.pending_repairs = left;
        due
    }
}

/// A repair noted now falls due one interval from now, with no retry behind it; noting it again
/// changes nothing, and nobody else's repair changes.
pub proof fn repairs_are_noted_once(
    table: Map<IpAddr, PendingRepair>,
    peers: Set<IpAddr>,
    now: Instant,
    interval: Duration,
    peer: IpAddr,
)
    requires
        now.nanos + interval.nanos <= u128::MAX,
    ensures
        ({
            let after = noted(table, peers, now, interval);
            &&& after.contains_key(peer) <==> table.contains_key(peer) || peers.contains(peer)
            &&& table.contains_key(peer) ==> after[peer] == table[peer]
            &&& !table.contains_key(peer) && peers.contains(peer) ==> after[peer].deadline.nanos == now.nanos
                + interval.nanos && after[peer].attempts == 0
        }),
{
}

/// A check leaves a repair alone before its deadline. Past it, the repair is retried, with one more
/// attempt on record and due again one interval later, as long as fewer than four retries are
/// behind it; after the fourth it is dropped.
pub proof fn repairs_are_retried_four_times(
    table: Map<IpAddr, PendingRepair>,
    now: Instant,
    interval: Duration,
    peer: IpAddr,
)
    requires
        now.nanos + interval.nanos <= u128::MAX,
        table.contains_key(peer),
    ensures
        ({
            let repair = table[peer];
            let after = after_checks(table, now, interval);
            &&& now.nanos < repair.deadline.nanos ==> after.contains_key(peer) && after[peer] == repair
            &&& repair.deadline.nanos <= now.nanos && repair.attempts < 4 ==> after.contains_key(peer)
                && after[peer].deadline.nanos == now.nanos + interval.nanos && after[peer].attempts
                == repair.attempts + 1
            &&& repair.deadline.nanos <= now.nanos && repair.attempts >= 4 ==> !after.contains_key(peer)
        }),
        forall|other: IpAddr| #[trigger]
            after_checks(table, now, interval).contains_key(other) ==> table.contains_key(other),
{
}

/// The peers a check sends a fresh comparison to are those whose repair is due with fewer than four
/// retries behind it, each once, in address order.
pub proof fn due_peers_are_sent_a_comparison(table: Seq<(IpAddr, PendingRepair)>, now: Instant) -> (places: Seq<
    int,
>)
    ensures
        places.len() == retried(table, now).len(),
        forall|i: int|
            0 <= i < places.len() ==> 0 <= #[trigger] places[i] < table.len() && table[places[i]].0 == retried(
                table,
                now,
            )[i],
        forall|i: int, j: int| 0 <= i < j < places.len() ==> #[trigger] places[i] < #[trigger] places[j],
        forall|k: int|
            0 <= k < table.len() ==> (places.contains(k) <==> (#[trigger] table[k]).1.deadline.nanos <= now.nanos
                && table[k].1.attempts < 4),
{
    let keep = |e: (IpAddr, PendingRepair)| is_retried(e.1, now);
    let places = ordered_map::filtering_picks_places(table, keep);
    assert forall|k: int| 0 <= k < table.len() implies (places.contains(k) <==> (#[trigger] table[k]).1.deadline.nanos
        <= now.nanos && table[k].1.attempts < 4) by {
        assert(keep(table[k]) == is_retried(table[k].1, now));
        if places.contains(k) {
            let i = choose|i: int| 0 <= i < places.len() && places[i] == k;
            assert(keep(table[places[i]]));
        }
    }
    places
}

} // verus!
