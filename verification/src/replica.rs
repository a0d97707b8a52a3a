//! A full replica: the dated map, and everything the gossip protocol keeps beside it.
//!
//! A replica performs no I/O and reads no clock. Each method takes what the outside world supplied
//! (decoded messages, the current instant, timestamps of local writes) and hands back what the
//! outside world must do (messages to send, stamps to observe).

use vstd::prelude::*;

use crate::bounds::{Key, Value};
use crate::clock::{NodeId, Timestamp};
use crate::entry::Entry;
use crate::net::{IpAddr, IpNet};
use crate::observability::{MetricEvent, Metrics};
use crate::ordered_map::OrderedMap;
use crate::peers::{AddrSet, PeerTable};
use crate::replicated_map::config::{Config, ConfigError, MAX_NETS};
use crate::store::Store;
use crate::time::{Duration, Instant};

pub mod admission;
pub mod collision;
pub mod dispatch;
pub mod inbound;
pub mod membership;
pub mod pacing;
pub mod reconciliation;
pub mod repair;
pub mod write;

use collision::CollisionReporter;
use repair::PendingRepair;
use write::Egress;

verus! {

/// The networks a replica gossips across, and how eagerly.
pub struct Topology {
    /// Every declared network.
    pub nets: Vec<IpNet>,
    /// The network this replica itself sits in.
    pub local_net: IpNet,
    /// Remote networks are contacted once every so many rounds.
    pub remote_interval: u32,
    /// How many peers of each remote network are contacted then.
    pub remote_fanout: usize,
}

/// A full replica.
pub struct Replica<K: Key, V: Value> {
    /// The dated map and its indices.
    pub store: Store<K, V>,
    /// For each key, which peer acknowledged which version of its tombstone.
    pub tombstone_acks: OrderedMap<K, OrderedMap<IpAddr, u64>>,
    /// The peers whose acknowledgements tombstone collection waits for.
    pub members: AddrSet,
    /// The gossip-routing table.
    pub peers: PeerTable,
    /// The peers owed a fresh comparison round.
    pub pending_repairs: OrderedMap<IpAddr, PendingRepair>,
    /// When each peer last sent a batch of dated updates.
    pub receiving_bulk_from: OrderedMap<IpAddr, Instant>,
    /// Networks and cross-network cadence.
    pub topology: Topology,
    /// How many reconciliation rounds were initiated, wrapping.
    pub round: u32,
    /// When the last one was.
    pub last_round_at: Option<Instant>,
    /// The write-broadcast budget.
    pub egress: Egress,
    /// Writes waiting for the coalescing window to close, oldest first.
    pub queued: Vec<(K, Entry<Timestamp, V>)>,
    /// How long writes are collected before they are broadcast together; zero means not at all.
    pub coalesce_window: Duration,
    /// Changes since the last successful snapshot, wrapping.
    pub changes_since_snapshot: usize,
    /// The once-per-replica guard around the collision report.
    pub collision_reporter: CollisionReporter,
    /// The identity this replica stamps its writes with.
    pub node_id: NodeId,
    /// Whether that identity was drawn at random.
    pub node_id_is_random: bool,
    /// The address this replica listens on.
    pub listen_addr: IpAddr,
    /// How soon an unanswered comparison round is retried.
    pub repair_interval: Duration,
    /// The largest encoded value a checked write accepts.
    pub max_value_size: Option<usize>,
    /// Events to forward to a metrics backend.
    pub metrics: Metrics,
}

/// The networks declared in `slots`, in order.
pub open spec fn declared_nets(slots: Seq<Option<IpNet>>) -> Seq<IpNet>
    decreases slots.len(),
{
    if slots.len() == 0 {
        Seq::empty()
    } else {
        match slots.last() {
            Some(net) => declared_nets(slots.drop_last()).push(net),
            None => declared_nets(slots.drop_last()),
        }
    }
}

/// Collect the networks declared in `config`.
fn collect_nets(config: &Config) -> (nets: Vec<IpNet>)
    ensures
        nets@ == declared_nets(config.nets@),
{
    let ghost slots = config.nets@;
    let mut nets: Vec<IpNet> = Vec::new();
    let mut i: usize = 0;
    assert(slots.take(0) =~= Seq::empty());
    while i < MAX_NETS
        invariant
            slots == config.nets@,
            slots.len() == MAX_NETS,
            i <= MAX_NETS,
            nets@ == declared_nets(slots.take(i as int)),
        decreases MAX_NETS - i,
    {
        let slot: Option<IpNet> = config.nets[i];
        assert(slots.take(i + 1).drop_last() =~= slots.take(i as int));
        assert(slots.take(i + 1).last() == slot);
        match slot {
            Some(net) => nets.push(net),
            None => {},
        }
        i = i + 1;
    }
    assert(slots.take(i as int) =~= slots);
    nets
}

impl<K: Key, V: Value> Replica<K, V> {
    /// A replica set up by `config`, holding nothing and knowing nobody.
    pub open spec fn is_fresh(&self, config: &Config, random_id: NodeId, local_net: IpNet) -> bool {
        &&& self.store@ == Map::<K::V, Entry<Timestamp, V::V>>::empty()
        &&& self.store.sequence() == Seq::<(K::V, Entry<Timestamp, V::V>)>::empty()
        &&& self.tombstone_acks@ == Map::<K::V, Map<IpAddr, u64>>::empty()
        &&& self.members@ == Map::<IpAddr, ()>::empty()
        &&& self.peers@ == Map::<IpAddr, Instant>::empty()
        &&& self.pending_repairs@ == Map::<IpAddr, PendingRepair>::empty()
        &&& self.receiving_bulk_from@ == Map::<IpAddr, Instant>::empty()
        &&& self.topology.nets@ == declared_nets(config.nets@)
        &&& self.topology.local_net == local_net
        &&& self.topology.remote_interval == config.remote_interval
        &&& self.topology.remote_fanout == config.remote_fanout
        &&& self.round == 0
        &&& self.last_round_at is None
        &&& self.egress.spec_in_flight() == 0
        &&& self.egress.spec_budget() == config.max_concurrent_broadcasts
        &&& self.queued@.len() == 0
        &&& self.coalesce_window == config.coalesce_window
        &&& self.changes_since_snapshot == 0
        &&& !self.collision_reporter.reported
        &&& self.node_id == match config.node_id {
            Some(node_id) => node_id,
            None => random_id,
        }
        &&& self.node_id_is_random == (config.node_id is None)
        &&& self.listen_addr == config.listen_addr
        &&& self.repair_interval == config.repair_interval
        &&& self.max_value_size == config.max_value_size
        &&& self.metrics@ == Seq::<MetricEvent>::empty()
    }

    /// Set up a replica. `random_id` is its identity unless the configuration pins one, and
    /// `local_net` the network it sits in.
    pub fn new(config: &Config, random_id: NodeId, local_net: IpNet) -> (result: Result<Self, ConfigError>)
        ensures
            result is Ok <==> config.has_security_mode(),
            result matches Ok(replica) ==> replica.is_fresh(config, random_id, local_net),
            result matches Err(error) ==> error == ConfigError::MissingSecurityMode,
    {
        match config.check_key_or_insecure_opt_in() {
            Ok(()) => {},
            Err(error) => {
                return Err(error);
            },
        }
        let (node_id, node_id_is_random): (NodeId, bool) = match config.node_id {
            Some(node_id) => (node_id, false),
            None => (random_id, true),
        };
        Ok(
            Replica {
                store: Store::new(),
                tombstone_acks: OrderedMap::new(),
                members: OrderedMap::new(),
                peers: PeerTable::new(),
                pending_repairs: OrderedMap::new(),
                receiving_bulk_from: OrderedMap::new(),
                topology: Topology {
                    nets: collect_nets(config),
                    local_net,
                    remote_interval: config.remote_interval,
                    remote_fanout: config.remote_fanout,
                },
                round: 0,
                last_round_at: None,
                egress: Egress::new(config.max_concurrent_broadcasts),
                queued: Vec::new(),
                coalesce_window: config.coalesce_window,
                changes_since_snapshot: 0,
                collision_reporter: CollisionReporter::new(),
                node_id,
                node_id_is_random,
                listen_addr: config.listen_addr,
                repair_interval: config.repair_interval,
                max_value_size: config.max_value_size,
                metrics: Metrics::new(),
            },
        )
    }
}

/// A replica knows every network that was declared, as often as it was declared and in order of
/// declaration, and no other: `places` are the slots they were declared in.
pub proof fn every_declared_net_is_known(slots: Seq<Option<IpNet>>) -> (places: Seq<int>)
    ensures
        places.len() == declared_nets(slots).len(),
        forall|i: int|
            0 <= i < places.len() ==> 0 <= #[trigger] places[i] < slots.len() && slots[places[i]] == Some(
                declared_nets(slots)[i],
            ),
        forall|i: int, j: int| 0 <= i < j < places.len() ==> #[trigger] places[i] < #[trigger] places[j],
        forall|k: int| 0 <= k < slots.len() && #[trigger] slots[k] is Some ==> places.contains(k),
    decreases slots.len(),
{
    if slots.len() == 0 {
        Seq::empty()
    } else {
        let rest = slots.drop_last();
        let last = slots.len() - 1;
        let nets = declared_nets(slots);
        let before = every_declared_net_is_known(rest);
        assert(slots[last] == slots.last());
        let places = if slots.last() is Some {
            before.push(last)
        } else {
            before
        };
        assert forall|i: int| 0 <= i < places.len() implies 0 <= #[trigger] places[i] < slots.len() && slots[places[i]]
            == Some(nets[i]) by {
            if i < before.len() {
                assert(places[i] == before[i]);
                assert(rest[before[i]] == slots[before[i]]);
                assert(nets[i] == declared_nets(rest)[i]);
            }
        }
        assert forall|i: int, j: int| 0 <= i < j < places.len() implies #[trigger] places[i] < #[trigger] places[j] by {
            assert(places[i] == before[i]);
            if j < before.len() {
                assert(places[j] == before[j]);
            }
        }
        assert forall|k: int| 0 <= k < slots.len() && #[trigger] slots[k] is Some implies places.contains(k) by {
            if k < last {
                assert(rest[k] == slots[k]);
                assert(before.contains(k));
                let i = choose|i: int| 0 <= i < before.len() && before[i] == k;
                assert(places[i] == k);
            } else {
                assert(places[before.len() as int] == k);
            }
        }
        places
    }
}

/// A replica set up from a configuration holds nothing, knows nobody and has done nothing; it knows
/// a network exactly when some slot of the configuration holds it; its identity is the configured
/// one, and only where there is none the one drawn for it; everything else is as configured.
pub proof fn a_fresh_replica_is_as_configured<K: Key, V: Value>(
    replica: Replica<K, V>,
    config: &Config,
    random_id: NodeId,
    local_net: IpNet,
    net: IpNet,
    key: K::V,
    peer: IpAddr,
)
    requires
        replica.is_fresh(config, random_id, local_net),
    ensures
        replica.topology.nets@.contains(net) <==> exists|k: int|
            0 <= k < config.nets@.len() && #[trigger] config.nets@[k] == Some(net),
        replica.topology.local_net == local_net,
        replica.topology.remote_interval == config.remote_interval,
        replica.topology.remote_fanout == config.remote_fanout,
        !replica.store@.contains_key(key),
        !replica.tombstone_acks@.contains_key(key),
        !replica.members@.contains_key(peer),
        !replica.peers@.contains_key(peer),
        !replica.pending_repairs@.contains_key(peer),
        !replica.receiving_bulk_from@.contains_key(peer),
        replica.queued@.len() == 0,
        replica.metrics@.len() == 0,
        replica.round == 0,
        replica.last_round_at is None,
        replica.changes_since_snapshot == 0,
        !replica.collision_reporter.reported,
        replica.egress.spec_in_flight() == 0,
        replica.egress.spec_budget() == config.max_concurrent_broadcasts,
        config.node_id matches Some(id) ==> replica.node_id == id && !replica.node_id_is_random,
        config.node_id is None ==> replica.node_id == random_id && replica.node_id_is_random,
        replica.coalesce_window == config.coalesce_window,
        replica.listen_addr == config.listen_addr,
        replica.repair_interval == config.repair_interval,
        replica.max_value_size == config.max_value_size,
{
    let slots = config.nets@;
    let nets = declared_nets(slots);
    let places = every_declared_net_is_known(slots);
    if nets.contains(net) {
        let i = choose|i: int| 0 <= i < nets.len() && nets[i] == net;
        assert(slots[places[i]] == Some(net));
    }
    if exists|k: int| 0 <= k < slots.len() && #[trigger] slots[k] == Some(net) {
        let k = choose|k: int| 0 <= k < slots.len() && #[trigger] slots[k] == Some(net);
        assert(places.contains(k));
        let i = choose|i: int| 0 <= i < places.len() && places[i] == k;
        assert(nets[i] == net);
    }
}

} // verus!
