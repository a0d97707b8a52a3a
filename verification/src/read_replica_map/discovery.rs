//! Dynamic peer discovery of a read replica.
//!
//! A read replica has no membership that an absence could wrongly end, so it takes any source, and
//! only ever seeds what it finds.

use vstd::prelude::*;

use crate::bounds::{Key, Value};
use crate::net::IpAddr;
use crate::peers;
use crate::read_replica_map::ReadReplicaMap;
use crate::replica::reconciliation;
use crate::replicated_map::discovery;
use crate::replicated_map::discovery::{DiscoveryKind, DiscoverySource, DiscoveryTarget};
use crate::time::{Duration, Instant};

verus! {

/// The peers a round found: everything that was resolved but the node's own address, where that is
/// known.
pub open spec fn found(resolved: Seq<IpAddr>, own: Option<IpAddr>) -> Set<IpAddr> {
    Set::new(|addr: IpAddr| resolved.contains(addr) && Some(addr) != own)
}

impl<K: Key, V: Value> ReadReplicaMap<K, V> {
    /// Attach a discovery source, of either kind.
    #[must_use]
    pub fn with_discovery(self, discovery: DiscoverySource) -> (replica: Self)
        ensures
            replica == (ReadReplicaMap { discovery: Some(discovery), ..self }),
    {
        let mut replica: Self = self;
        replica.discovery = Some(discovery);
        replica
    }

    /// Discover peers by resolving a name with one address record per peer.
    #[must_use]
    pub fn with_dns_discovery(self, name: String, port: u16) -> (replica: Self)
        ensures
            replica == (ReadReplicaMap {
                discovery: Some(
                    DiscoverySource {
                        kind: DiscoveryKind::Authoritative,
                        target: DiscoveryTarget::Dns { name, port },
                    },
                ),
                ..self
            }),
    {
        self.with_discovery(
            DiscoverySource {
                kind: DiscoveryKind::Authoritative,
                target: DiscoveryTarget::Dns { name, port },
            },
        )
    }

    /// Set how often the discovery source is resolved (default 5 s).
    #[must_use]
    pub fn with_discovery_interval(self, interval: Duration) -> (replica: Self)
        ensures
            replica == (ReadReplicaMap { discovery_interval: interval, ..self }),
    {
        let mut replica: Self = self;
        replica.discovery_interval = interval;
        replica
    }

    /// Take in one discovery round: seed everything that was found. A failed round, `None`, changes
    /// nothing.
    pub fn discover_round(&mut self, resolved: Option<Vec<IpAddr>>, own: Option<IpAddr>, now: Instant)
        ensures
            *final(self) == (ReadReplicaMap { peers: final(self).peers, ..*old(self) }),
            resolved is None ==> *final(self) == *old(self),
            resolved matches Some(list) ==> final(self).peers@ == discovery::all_seeded(
                old(self).peers@,
                found(list@, own),
                now,
            ),
            forall|i: int|
                0 <= i < (resolved->0)@.len() && resolved is Some && Some(#[trigger] (resolved->0)@[i]) != own
                    ==> final(self).peers@.contains_key((resolved->0)@[i]) && final(self).peers@[(resolved->0)@[i]]
                    == now,
    {
        let list: Vec<IpAddr> = match resolved {
            Some(list) => list,
            None => {
                return;
            },
        };
        let ghost table = self.peers@;
        let mut i: usize = 0;
        proof {
            assert(list@.take(0) =~= Seq::empty());
            assert(found(list@.take(0), own) =~= Set::empty());
            assert(table =~= discovery::all_seeded(table, Set::empty(), now));
        }
        while i < list.len()
            invariant
                i <= list@.len(),
                *self == (ReadReplicaMap { peers: self.peers, ..*old(self) }),
                self.peers@ == discovery::all_seeded(table, found(list@.take(i as int), own), now),
            decreases list@.len() - i,
        {
            let addr: IpAddr = list[i];
            let ghost prefix = found(list@.take(i as int), own);
            proof {
                reconciliation::lemma_take_contains(list@, i as int);
            }
            let is_own: bool = match own {
                Some(mine) => mine == addr,
                None => false,
            };
            if is_own {
                assert(found(list@.take(i + 1), own) =~= prefix);
            } else {
                assert(found(list@.take(i + 1), own) =~= prefix.insert(addr));
                self.peers.seed(addr, now);
                assert(self.peers@ =~= discovery::all_seeded(table, prefix.insert(addr), now));
            }
            i = i + 1;
        }
        proof {
            assert(list@.take(i as int) =~= list@);
            assert forall|j: int| 0 <= j < list@.len() && Some(#[trigger] list@[j]) != own implies self.peers@.contains_key(
                list@[j],
            ) && self.peers@[list@[j]] == now by {
                assert(list@.contains(list@[j]));
                assert(found(list@, own).contains(list@[j]));
            }
        }
    }
}

/// After a successful round at `now`, every resolved address but the node's own is in the routing
/// table with `now` as the time it was last seen, whether or not it was there before, so it still
/// counts as a peer at any time less than sixty seconds later; every other entry stays as it was.
/// A node that does not know its own address leaves nothing out.
pub proof fn resolved_sources_count_for_a_minute(
    table: Map<IpAddr, Instant>,
    resolved: Seq<IpAddr>,
    own: Option<IpAddr>,
    now: Instant,
    addr: IpAddr,
    later: Instant,
)
    ensures
        ({
            let after = discovery::all_seeded(table, found(resolved, own), now);
            &&& resolved.contains(addr) && (own is None || own->0 != addr) ==> after.contains_key(addr)
                && after[addr] == now && (later.nanos - now.nanos < 60_000_000_000 ==> peers::fresh(
                after,
                later,
            ).contains_key(addr))
            &&& !resolved.contains(addr) || own == Some(addr) ==> (after.contains_key(addr) <==> table.contains_key(
                addr,
            )) && (table.contains_key(addr) ==> after[addr] == table[addr])
        }),
{
    peers::peers_count_for_a_minute(discovery::all_seeded(table, found(resolved, own), now), later, addr);
}

} // verus!
