//! The read replica: a value-only mirror of a cluster, without timestamps, membership or
//! persistence.
//!
//! It writes nothing of its own. Its dated peers are authoritative, so whatever state they send
//! replaces what it holds.

use std::sync::Arc;

use vstd::prelude::*;

use crate::bounds::{Key, Value};
use crate::clock::Timestamp;
use crate::entry::{Entry, State};
use crate::net::{IpAddr, IpNet};
use crate::ordered_map;
use crate::ordered_map::OrderedMap;
use crate::peers::PeerTable;
use crate::replicated_map::config::{Config, ConfigError};
use crate::replicated_map::construction_error::ConstructionError;
use crate::replicated_map::discovery::DiscoverySource;
use crate::store;
use crate::time::{Duration, Instant, NANOS_PER_SEC};

pub mod discovery;
pub mod membership;
pub mod read;

verus! {

/// Seconds between rounds of the discovery task, by default.
pub const DEFAULT_DISCOVERY_INTERVAL_SECS: u64 = 5;

/// A value-only mirror of a cluster.
pub struct ReadReplicaMap<K: Key, V: Value> {
    /// The undated states, tombstones included.
    pub tree: Arc<OrderedMap<K, State<V>>>,
    /// The gossip-routing table.
    pub peers: PeerTable,
    /// The network that is probed for peers.
    pub net: IpNet,
    /// How long to wait for activity before a round is initiated.
    pub reconcile_interval: Duration,
    /// How many rounds were initiated, wrapping.
    pub round: u64,
    /// When the last one was.
    pub last_round_at: Option<Instant>,
    /// Where peers are discovered, if anywhere.
    pub discovery: Option<DiscoverySource>,
    /// How often they are.
    pub discovery_interval: Duration,
}

impl<K: Key, V: Value> ReadReplicaMap<K, V> {
    /// Set up a read replica that probes `net`. A configuration that does not say how traffic is
    /// trusted is refused, as for a full replica.
    pub fn new(config: &Config, net: IpNet) -> (result: Result<Self, ConstructionError>)
        ensures
            result is Ok <==> config.has_security_mode(),
            result matches Ok(replica) ==> {
                &&& replica.tree@ == Map::<K::V, State<V::V>>::empty()
                &&& replica.tree.sequence() == Seq::<(K::V, State<V::V>)>::empty()
                &&& replica.peers@ == Map::<IpAddr, Instant>::empty()
                &&& replica.net == net
                &&& replica.reconcile_interval == config.reconcile_interval
                &&& replica.round == 0
                &&& replica.last_round_at is None
                &&& replica.discovery is None
                &&& replica.discovery_interval.nanos == DEFAULT_DISCOVERY_INTERVAL_SECS * NANOS_PER_SEC
                &&& replica.discovery_interval.nanos == 5_000_000_000
            },
            result matches Err(error) ==> error == ConstructionError::Config(
                ConfigError::MissingSecurityMode,
            ),
    {
        match config.check_key_or_insecure_opt_in() {
            Ok(()) => {},
            Err(error) => {
                return Err(ConstructionError::from(error));
            },
        }
        Ok(
            ReadReplicaMap {
                tree: Arc::new(OrderedMap::new()),
                peers: PeerTable::new(),
                net,
                reconcile_interval: config.reconcile_interval,
                round: 0,
                last_round_at: None,
                discovery: None,
                discovery_interval: Duration::from_secs(DEFAULT_DISCOVERY_INTERVAL_SECS),
            },
        )
    }
}

impl<K: Key, V: Value> ReadReplicaMap<K, V> {
    /// Take over states a dated peer sent, in order. The peer is authoritative: each replaces what
    /// is held, whatever that is.
    pub fn integrate(&mut self, updates: Vec<(K, State<V>)>)
        ensures
            *final(self) == (ReadReplicaMap { tree: final(self).tree, ..*old(self) }),
            final(self).tree@ == ordered_map::written(old(self).tree@, ordered_map::pairs(updates@)),
    {
        let ghost all = ordered_map::pairs(updates@);
        let ghost held = self.tree@;
        let mut shared: Arc<OrderedMap<K, State<V>>> = Arc::new(OrderedMap::new());
        std::mem::swap(&mut shared, &mut self.tree);
        let mut tree: OrderedMap<K, State<V>> = ordered_map::unshared(shared);
        assert(all.take(0) =~= Seq::empty());
        for update in it: updates
            invariant
                all == ordered_map::pairs(it.seq()),
                tree@ == ordered_map::written(held, all.take(it.index() as int)),
        {
            let ghost i = it.index() as int;
            let (key, state) = update;
            proof {
                assert(all[i] == (key@, state@));
                assert(all.take(i + 1).drop_last() =~= all.take(i));
                assert(all.take(i + 1).last() == all[i]);
            }
            tree.insert(key, state);
        }
        self.tree = Arc::new(tree);
        assert(all.take(all.len() as int) =~= all);
    }
}

/// A read replica that takes over everything in a full replica's projection, from nothing, holds
/// exactly that projection.
pub proof fn a_read_replica_mirrors_the_projection<K: Key, X>(s: Seq<(K::V, Entry<Timestamp, X>)>)
    requires
        ordered_map::increasing::<K, Entry<Timestamp, X>>(s),
    ensures
        ordered_map::written(Map::<K::V, State<X>>::empty(), store::undated(s)) == store::projected(
            ordered_map::entry_map(s),
        ),
{
    store::lemma_undated::<K, X>(s);
    ordered_map::lemma_written::<K, State<X>>(store::undated(s));
}

/// A read replica takes its peers at their word: after a batch, a key holds the last state the batch
/// gives it, and one that the batch does not name what it held.
pub proof fn the_last_state_sent_holds<Q, X>(held: Map<Q, State<X>>, updates: Seq<(Q, State<X>)>, key: Q, i: int)
    requires
        0 <= i < updates.len(),
        updates[i].0 == key,
        forall|j: int| i < j < updates.len() ==> (#[trigger] updates[j]).0 != key,
    ensures
        ordered_map::written(held, updates).contains_key(key),
        ordered_map::written(held, updates)[key] == updates[i].1,
{
    ordered_map::the_last_of_a_batch_stays(held, updates, key);
}

} // verus!
