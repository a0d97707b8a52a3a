//! Who is routed to, and whose acknowledgements tombstone collection waits for.

use vstd::prelude::*;

use crate::bounds::{Duplicate, Key, Value};
use crate::clock::Timestamp;
use crate::net::IpAddr;
use crate::ordered_map;
use crate::ordered_map::OrderedMap;
use crate::peers;
use crate::peers::AddrSet;
use crate::replica::reconciliation;
use crate::replica::Replica;
use crate::store;
use crate::time::Instant;

verus! {

/// The acknowledgement table without anything `peer` acknowledged. Keys stay, even with nobody left.
pub open spec fn without_acks_of<Q>(table: Map<Q, Map<IpAddr, u64>>, peer: IpAddr) -> Map<
    Q,
    Map<IpAddr, u64>,
> {
    table.map_values(|versions: Map<IpAddr, u64>| versions.remove(peer))
}

/// How many keys `peer` acknowledged a tombstone of.
pub open spec fn acks_of<Q>(table: Seq<(Q, Map<IpAddr, u64>)>, peer: IpAddr) -> nat {
    table.filter(|entry: (Q, Map<IpAddr, u64>)| entry.1.contains_key(peer)).len()
}

/// What decommissioning `peer` does to a replica: its membership and each of its acks count as one
/// change.
pub open spec fn decommissions<K: Key, V: Value>(
    before: Replica<K, V>,
    after: Replica<K, V>,
    peer: IpAddr,
) -> bool {
    &&& after == (Replica {
        members: after.members,
        tombstone_acks: after.tombstone_acks,
        changes_since_snapshot: after.changes_since_snapshot,
        ..before
    })
    &&& after.members@ == before.members@.remove(peer)
    &&& after.tombstone_acks@ == without_acks_of(before.tombstone_acks@, peer)
    &&& after.changes_since_snapshot == before.changes_since_snapshot.wrapping_add(
        if before.members@.contains_key(peer) {
            1
        } else {
            0
        },
    ).wrapping_add(acks_of(before.tombstone_acks.sequence(), peer) as usize)
}

/// `member` has not acknowledged the tombstone of `key` at the version `version` gives it.
pub open spec fn is_unacknowledged<K: Key, V: Value>(
    replica: Replica<K, V>,
    key: K::V,
    member: IpAddr,
    version: u64,
) -> bool {
    !(replica.tombstone_acks@.contains_key(key) && replica.tombstone_acks@[key].contains_key(member)
        && replica.tombstone_acks@[key][member] == version)
}

/// `hash` may give `version` for the tombstone that `stamp` dates.
pub open spec fn hashes_to<H>(hash: H, stamp: Timestamp, version: u64) -> bool where H: Fn(Timestamp) -> u64 {
    call_ensures(hash, (stamp,), version)
}

/// Some tombstone is held whose version `member` has not acknowledged.
pub open spec fn owes_ack<K: Key, V: Value, H>(replica: Replica<K, V>, hash: H, member: IpAddr) -> bool where
    H: Fn(Timestamp) -> u64,
 {
    exists|key: K::V, version: u64|
        replica.store@.contains_key(key) && replica.store@[key].state is Tombstone && #[trigger] hashes_to(
            hash,
            replica.store@[key].stamp,
            version,
        ) && is_unacknowledged(replica, key, member, version)
}

/// `member` acknowledged the version of every tombstone that is held.
pub open spec fn owes_no_ack<K: Key, V: Value, H>(replica: Replica<K, V>, hash: H, member: IpAddr) -> bool where
    H: Fn(Timestamp) -> u64,
 {
    forall|key: K::V|
        #![trigger replica.store@.contains_key(key)]
        replica.store@.contains_key(key) && replica.store@[key].state is Tombstone ==> exists|version: u64| #[trigger]
            hashes_to(hash, replica.store@[key].stamp, version) && !is_unacknowledged(
                replica,
                key,
                member,
                version,
            )
}

/// `pending` holds the members that owe an ack, and the other members owe none.
pub open spec fn are_pending<K: Key, V: Value, H>(
    replica: Replica<K, V>,
    hash: H,
    pending: Set<IpAddr>,
) -> bool where H: Fn(Timestamp) -> u64 {
    &&& forall|member: IpAddr| #[trigger]
        pending.contains(member) ==> replica.members@.dom().contains(member) && owes_ack(
            replica,
            hash,
            member,
        )
    &&& forall|member: IpAddr|
        #[trigger] replica.members@.dom().contains(member) && !pending.contains(member) ==> owes_no_ack(
            replica,
            hash,
            member,
        )
}

impl<K: Key, V: Value> Replica<K, V> {
    /// Register or refresh a gossip target. Never grants membership.
    pub fn seed_peer(&mut self, peer: IpAddr, now: Instant)
        ensures
            *final(self) == (Replica { peers: final(self).peers, ..*old(self) }),
            final(self).peers@ == old(self).peers@.insert(peer, now),
    {
        self.peers.seed(peer, now);
    }

    /// A datagram from `peer` was handled. A sender that spoke of dated entries is routed to, and
    /// becomes a member; one that did not is a read replica, whose acknowledgements tombstone
    /// collection must never wait for.
    pub fn note_sender(&mut self, peer: IpAddr, spoke_dated: bool, now: Instant)
        ensures
            *final(self) == (Replica {
                peers: final(self).peers,
                members: final(self).members,
                ..*old(self)
            }),
            final(self).peers@ == if spoke_dated {
                old(self).peers@.insert(peer, now)
            } else {
                old(self).peers@
            },
            final(self).members@ == if spoke_dated {
                old(self).members@.insert(peer, ())
            } else {
                old(self).members@
            },
    {
        if spoke_dated {
            self.peers.seed(peer, now);
            self.members.insert(peer, ());
        }
    }

    /// Drop `peer` from the membership, and forget what it acknowledged.
    pub fn decommission_peer(&mut self, peer: IpAddr)
        ensures
            decommissions(*old(self), *final(self), peer),
    {
        proof {
            use_type_invariant(&self.tombstone_acks);
        }
        let ghost s = self.tombstone_acks.sequence();
        let ghost names = |entry: (K::V, Map<IpAddr, u64>)| entry.1.contains_key(peer);
        let removed: usize = match self.members.remove(&peer) {
            Some(_) => 1,
            None => 0,
        };
        let mut kept: OrderedMap<K, OrderedMap<IpAddr, u64>> = OrderedMap::new();
        let mut dropped: usize = 0;
        let n: usize = self.tombstone_acks.len();
        let mut i: usize = 0;
        proof {
            reveal(Seq::filter);
            ordered_map::lemma_entry_map_empty(s.take(0));
            assert(kept@ =~= without_acks_of(ordered_map::entry_map(s.take(0)), peer));
        }
        while i < n
            invariant
                s == self.tombstone_acks.sequence(),
                n == s.len(),
                i <= n,
                ordered_map::increasing::<K, Map<IpAddr, u64>>(s),
                names == (|entry: (K::V, Map<IpAddr, u64>)| entry.1.contains_key(peer)),
                kept@ == without_acks_of(ordered_map::entry_map(s.take(i as int)), peer),
                dropped == s.take(i as int).filter(names).len(),
                dropped <= i,
            decreases n - i,
        {
            let (key, versions) = self.tombstone_acks.at(i);
            let ghost before = ordered_map::entry_map(s.take(i as int));
            let ghost (k, v) = (key@, versions@);
            proof {
                reveal(Seq::filter);
                ordered_map::lemma_entry_map_take::<K, Map<IpAddr, u64>>(s, i as int);
                assert(s.take(i + 1).drop_last() =~= s.take(i as int));
                assert(s.take(i + 1).last() == (k, v));
            }
            let mut left: OrderedMap<IpAddr, u64> = versions.duplicate();
            match left.remove(&peer) {
                Some(_) => {
                    dropped = dropped + 1;
                },
                None => {},
            }
            kept.insert(key.duplicate(), left);
            assert(kept@ =~= without_acks_of(before.insert(k, v), peer));
            i = i + 1;
        }
        proof {
            assert(s.take(i as int) =~= s);
        }
        self.tombstone_acks = kept;
        proof {
            assert(dropped as nat == acks_of(s, peer));
        }
        self.record_changes(removed);
        self.record_changes(dropped);
    }

    /// Forget who acknowledged the tombstone of `key`.
    pub fn forget_tombstone(&mut self, key: &K)
        ensures
            *final(self) == (Replica {
                tombstone_acks: final(self).tombstone_acks,
                changes_since_snapshot: if old(self).tombstone_acks@.contains_key(key@) {
                    old(self).changes_since_snapshot.wrapping_add(1)
                } else {
                    old(self).changes_since_snapshot
                },
                ..*old(self)
            }),
            final(self).tombstone_acks@ == old(self).tombstone_acks@.remove(key@),
    {
        match self.tombstone_acks.remove(key) {
            Some(_) => self.record_changes(1),
            None => {},
        }
    }

    /// Whether `member` has yet to acknowledge the version of some tombstone held here. `hash`
    /// gives the version of the tombstone that a stamp dates.
    pub fn has_pending_tombstone_acks<H>(&self, member: IpAddr, hash: &H) -> (pending: bool) where
        H: Fn(Timestamp) -> u64,

        requires
            forall|stamp: Timestamp| call_requires(*hash, (stamp,)),
        ensures
            pending ==> owes_ack(*self, *hash, member),
            !pending ==> owes_no_ack(*self, *hash, member),
    {
        let tombstones = self.store.live_tombstones();
        proof {
            use_type_invariant(tombstones);
        }
        let ghost s = tombstones.sequence();
        let n: usize = tombstones.len();
        let mut i: usize = 0;
        while i < n
            invariant
                s == tombstones.sequence(),
                n == s.len(),
                i <= n,
                tombstones@.dom() == store::marked(store::projected(self.store@)),
                forall|stamp: Timestamp| call_requires(*hash, (stamp,)),
                forall|j: int|
                    0 <= j < i ==> exists|version: u64| #[trigger]
                        hashes_to(*hash, self.store@[(#[trigger] s[j]).0].stamp, version)
                            && !is_unacknowledged(*self, s[j].0, member, version),
            decreases n - i,
        {
            let (key, _) = tombstones.at(i);
            assert(store::marked(store::projected(self.store@)).contains(key@));
            match self.store.map().get(key) {
                Some(entry) => {
                    let version: u64 = hash(entry.stamp);
                    assert(hashes_to(*hash, self.store@[key@].stamp, version));
                    let acked: bool = match self.tombstone_acks.get(key) {
                        Some(versions) => match versions.get(&member) {
                            Some(known) => *known == version,
                            None => false,
                        },
                        None => false,
                    };
                    if !acked {
                        return true;
                    }
                    assert(!is_unacknowledged(*self, s[i as int].0, member, version));
                },
                None => {
                    assert(false);
                },
            }
            i = i + 1;
        }
        proof {
            assert forall|key: K::V|
                #![trigger self.store@.contains_key(key)]
                self.store@.contains_key(key) && self.store@[key].state is Tombstone implies exists|version: u64| #[trigger]
                hashes_to(*hash, self.store@[key].stamp, version) && !is_unacknowledged(
                    *self,
                    key,
                    member,
                    version,
                ) by {
                assert(tombstones@.dom().contains(key));
                let j = choose|j: int| #[trigger] ordered_map::holds_at(s, key, j);
                assert(s[j].0 == key);
            }
        }
        false
    }

    /// The members that have yet to acknowledge the version of some tombstone held here.
    pub fn members_with_pending_acks<H>(&self, hash: &H) -> (pending: AddrSet) where
        H: Fn(Timestamp) -> u64,

        requires
            forall|stamp: Timestamp| call_requires(*hash, (stamp,)),
        ensures
            are_pending(*self, *hash, pending@.dom()),
    {
        proof {
            use_type_invariant(&self.members);
            peers::lemma_keys::<()>(self.members.sequence());
        }
        let members: Vec<IpAddr> = self.members.keys();
        assert(members@ =~= ordered_map::keys_of(self.members.sequence()));
        let mut pending: AddrSet = OrderedMap::new();
        let mut i: usize = 0;
        while i < members.len()
            invariant
                i <= members@.len(),
                forall|stamp: Timestamp| call_requires(*hash, (stamp,)),
                forall|member: IpAddr| #[trigger]
                    pending@.dom().contains(member) ==> members@.take(i as int).contains(member)
                        && owes_ack(*self, *hash, member),
                forall|member: IpAddr|
                    members@.take(i as int).contains(member) && !(#[trigger] pending@.dom().contains(
                        member,
                    )) ==> owes_no_ack(*self, *hash, member),
            decreases members@.len() - i,
        {
            proof {
                reconciliation::lemma_take_contains(members@, i as int);
            }
            if self.has_pending_tombstone_acks(members[i], hash) {
                pending.insert(members[i], ());
            }
            i = i + 1;
        }
        proof {
            assert(members@.take(i as int) =~= members@);
            assert forall|member: IpAddr| members@.contains(member) <==> #[trigger] self.members@.dom().contains(
                member,
            ) by {
                assert(peers::addresses(members@).contains(member) <==> members@.contains(member));
            }
        }
        pending
    }
}

/// Decommissioning forgets what the peer acknowledged of every key, and only that: every key stays,
/// and so does what anybody else acknowledged.
pub proof fn only_the_acks_of_the_peer_are_forgotten<Q>(
    table: Map<Q, Map<IpAddr, u64>>,
    peer: IpAddr,
    key: Q,
    other: IpAddr,
)
    ensures
        without_acks_of(table, peer).contains_key(key) <==> table.contains_key(key),
        table.contains_key(key) ==> !without_acks_of(table, peer)[key].contains_key(peer),
        table.contains_key(key) && other != peer ==> (without_acks_of(table, peer)[key].contains_key(other)
            <==> table[key].contains_key(other)),
        table.contains_key(key) && other != peer && table[key].contains_key(other) ==> without_acks_of(
            table,
            peer,
        )[key][other] == table[key][other],
{
}

/// The acks of a peer are counted key by key: `places` are the entries that name it.
pub proof fn acks_are_counted_by_key<Q>(table: Seq<(Q, Map<IpAddr, u64>)>, peer: IpAddr) -> (places: Seq<int>)
    ensures
        places.len() == acks_of(table, peer),
        forall|i: int|
            0 <= i < places.len() ==> 0 <= #[trigger] places[i] < table.len() && table[places[i]].1.contains_key(
                peer,
            ),
        forall|i: int, j: int| 0 <= i < j < places.len() ==> #[trigger] places[i] < #[trigger] places[j],
        forall|k: int|
            0 <= k < table.len() && (#[trigger] table[k]).1.contains_key(peer) ==> places.contains(k),
{
    let names = |entry: (Q, Map<IpAddr, u64>)| entry.1.contains_key(peer);
    let places = ordered_map::filtering_picks_places(table, names);
    assert forall|i: int| 0 <= i < places.len() implies 0 <= #[trigger] places[i] < table.len()
        && table[places[i]].1.contains_key(peer) by {
        assert(names(table[places[i]]));
    }
    assert forall|k: int| 0 <= k < table.len() && (#[trigger] table[k]).1.contains_key(peer) implies places.contains(
        k,
    ) by {
        assert(names(table[k]));
    }
    places
}

/// Decommissioning ends the membership of the peer and of nobody else, and forgets what the peer
/// acknowledged and nothing else; that and each forgotten ack count as one change.
pub proof fn decommissioning_ends_one_membership<K: Key, V: Value>(
    before: Replica<K, V>,
    after: Replica<K, V>,
    peer: IpAddr,
    other: IpAddr,
    key: K::V,
)
    requires
        decommissions(before, after, peer),
    ensures
        !after.members@.contains_key(peer),
        other != peer ==> (after.members@.contains_key(other) <==> before.members@.contains_key(other)),
        after == (Replica {
            members: after.members,
            tombstone_acks: after.tombstone_acks,
            changes_since_snapshot: after.changes_since_snapshot,
            ..before
        }),
        after.tombstone_acks@.contains_key(key) <==> before.tombstone_acks@.contains_key(key),
        before.tombstone_acks@.contains_key(key) ==> !after.tombstone_acks@[key].contains_key(peer),
        before.tombstone_acks@.contains_key(key) && other != peer ==> (after.tombstone_acks@[key].contains_key(
            other,
        ) <==> before.tombstone_acks@[key].contains_key(other)),
        before.changes_since_snapshot + 1 + acks_of(before.tombstone_acks.sequence(), peer) <= usize::MAX
            ==> after.changes_since_snapshot == before.changes_since_snapshot + (if before.members@.contains_key(
            peer,
        ) {
            1int
        } else {
            0int
        }) + acks_of(before.tombstone_acks.sequence(), peer),
{
}

/// A member has acknowledged a tombstone exactly when the table names it for the key, at that very
/// version: an ack of another version, older or newer, is none.
pub proof fn only_the_version_held_is_acknowledged<K: Key, V: Value>(
    replica: Replica<K, V>,
    key: K::V,
    member: IpAddr,
    version: u64,
)
    ensures
        !is_unacknowledged(replica, key, member, version) <==> replica.tombstone_acks@.contains_key(key)
            && replica.tombstone_acks@[key].contains_key(member) && replica.tombstone_acks@[key][member]
            == version,
{
}

/// With a version for every stamp, a member is pending exactly when some tombstone is held whose
/// version it has not acknowledged.
pub proof fn pending_members_lack_an_ack<K: Key, V: Value, H>(
    replica: Replica<K, V>,
    hash: H,
    pending: Set<IpAddr>,
    version: spec_fn(Timestamp) -> u64,
    member: IpAddr,
) where H: Fn(Timestamp) -> u64
    requires
        are_pending(replica, hash, pending),
        forall|stamp: Timestamp, v: u64| #[trigger] call_ensures(hash, (stamp,), v) ==> v == version(stamp),
        replica.members@.contains_key(member),
    ensures
        pending.contains(member) <==> exists|key: K::V|
            #![trigger replica.store@.contains_key(key)]
            replica.store@.contains_key(key) && replica.store@[key].state is Tombstone && !(
            replica.tombstone_acks@.contains_key(key) && replica.tombstone_acks@[key].contains_key(member)
                && replica.tombstone_acks@[key][member] == version(replica.store@[key].stamp)),
{
    assert(replica.members@.dom().contains(member));
    if pending.contains(member) {
        assert(owes_ack(replica, hash, member));
        let (key, v) = choose|key: K::V, v: u64|
            replica.store@.contains_key(key) && replica.store@[key].state is Tombstone && #[trigger] hashes_to(
                hash,
                replica.store@[key].stamp,
                v,
            ) && is_unacknowledged(replica, key, member, v);
        assert(replica.store@.contains_key(key));
        assert(call_ensures(hash, (replica.store@[key].stamp,), v));
    } else {
        assert(owes_no_ack(replica, hash, member));
        assert forall|key: K::V|
            #![trigger replica.store@.contains_key(key)]
            replica.store@.contains_key(key) && replica.store@[key].state is Tombstone implies (
        replica.tombstone_acks@.contains_key(key) && replica.tombstone_acks@[key].contains_key(member)
            && replica.tombstone_acks@[key][member] == version(replica.store@[key].stamp)) by {
            let v = choose|v: u64| #[trigger]
                hashes_to(hash, replica.store@[key].stamp, v) && !is_unacknowledged(replica, key, member, v);
            assert(call_ensures(hash, (replica.store@[key].stamp,), v));
        }
    }
}

} // verus!
