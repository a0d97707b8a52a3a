//! The replicated map: a full replica, its persistence and its discovery.
//!
//! Reads are local; writes are applied locally, then handed back as broadcasts to carry out. As in
//! [`crate::replica`], no method performs I/O or reads a clock.

use vstd::prelude::*;

use crate::bounds::{Key, Value};
use crate::clock::NodeId;
use crate::net::{IpAddr, IpNet};
use crate::replica::Replica;
use crate::time::{Duration, Instant, NANOS_PER_SEC};

pub mod backpressure;
pub mod config;
pub mod construction_error;
pub mod discovery;
pub mod persistence;
pub mod read;
pub mod value_size;

pub use backpressure::{Backpressure, WriteRejected};
pub use config::{Config, ConfigError, MAX_NETS};
pub use construction_error::ConstructionError;
pub use discovery::NotAuthoritative;
pub use persistence::PersistenceLoadError;
pub use value_size::ValueTooLarge;

use discovery::DiscoverySource;

verus! {

/// Seconds between rounds of the discovery task, by default.
pub const DEFAULT_DISCOVERY_INTERVAL_SECS: u64 = 5;

/// How many consecutive discovery rounds a member may be absent, by default.
pub const DEFAULT_DISCOVERY_MISS_THRESHOLD: u32 = 3;

/// Seconds a member with pending tombstone acks must be absent, by default. Far above any name
/// service hiccup, so it engages only against a resolver that stays wrong.
pub const DEFAULT_DISCOVERY_DECOMMISSION_FLOOR_SECS: u64 = 600;

/// A key-value map reconciled with its peers.
pub struct ReplicatedMap<K: Key, V: Value> {
    /// The replica underneath.
    pub engine: Replica<K, V>,
    /// Where peers are discovered, if anywhere.
    pub discovery: Option<DiscoverySource>,
    /// How often they are.
    pub discovery_interval: Duration,
    /// How many consecutive rounds a member may be absent before it is decommissioned.
    pub discovery_miss_threshold: u32,
    /// How long a member with pending tombstone acks must be absent besides.
    pub discovery_decommission_floor: Duration,
    /// How often a periodic snapshot is considered; `None` never.
    pub snapshot_interval: Option<Duration>,
    /// How many changes a periodic snapshot waits for.
    pub snapshot_change_threshold: usize,
    /// When the last snapshot was written.
    pub last_snapshot_at: Option<Instant>,
    /// Snapshot failures since the last success, wrapping.
    pub persistence_consecutive_failures: usize,
    /// When the discovery source last resolved.
    pub last_successful_discovery_at: Option<Instant>,
}

/// Every setting of the map around `engine` is at its default.
pub open spec fn is_wrapped<K: Key, V: Value>(
    map: ReplicatedMap<K, V>,
    engine: Replica<K, V>,
    snapshot_interval: Option<Duration>,
    snapshot_change_threshold: usize,
) -> bool {
    map == (ReplicatedMap {
        engine,
        discovery: None,
        discovery_interval: Duration {
            nanos: (DEFAULT_DISCOVERY_INTERVAL_SECS * NANOS_PER_SEC) as u128,
        },
        discovery_miss_threshold: DEFAULT_DISCOVERY_MISS_THRESHOLD,
        discovery_decommission_floor: Duration {
            nanos: (DEFAULT_DISCOVERY_DECOMMISSION_FLOOR_SECS * NANOS_PER_SEC) as u128,
        },
        snapshot_interval,
        snapshot_change_threshold,
        last_snapshot_at: None,
        persistence_consecutive_failures: 0,
        last_successful_discovery_at: None,
    })
}

impl<K: Key, V: Value> ReplicatedMap<K, V> {
    /// Set up a replicated map; a [`Replica`] and the defaults around it.
    pub fn new(config: &Config, random_id: NodeId, local_net: IpNet) -> (result: Result<
        Self,
        ConstructionError,
    >)
        ensures
            result is Ok <==> config.has_security_mode(),
            result matches Ok(map) ==> {
                &&& map.engine.is_fresh(config, random_id, local_net)
                &&& is_wrapped(
                    map,
                    map.engine,
                    config.snapshot_interval,
                    config.snapshot_change_threshold,
                )
            },
            result matches Err(error) ==> error == ConstructionError::Config(
                ConfigError::MissingSecurityMode,
            ),
    {
        match Replica::new(config, random_id, local_net) {
            Ok(engine) => Ok(
                Self::from_engine(engine, config.snapshot_interval, config.snapshot_change_threshold),
            ),
            Err(error) => Err(ConstructionError::from(error)),
        }
    }

    /// Wrap a replica in the map's own bookkeeping. The one place where its defaults are spelled
    /// out.
    pub fn from_engine(
        engine: Replica<K, V>,
        snapshot_interval: Option<Duration>,
        snapshot_change_threshold: usize,
    ) -> (map: Self)
        ensures
            is_wrapped(map, engine, snapshot_interval, snapshot_change_threshold),
    {
        ReplicatedMap {
            engine,
            discovery: None,
            discovery_interval: Duration::from_secs(DEFAULT_DISCOVERY_INTERVAL_SECS),
            discovery_miss_threshold: DEFAULT_DISCOVERY_MISS_THRESHOLD,
            discovery_decommission_floor: Duration::from_secs(
                DEFAULT_DISCOVERY_DECOMMISSION_FLOOR_SECS,
            ),
            snapshot_interval,
            snapshot_change_threshold,
            last_snapshot_at: None,
            persistence_consecutive_failures: 0,
            last_successful_discovery_at: None,
        }
    }

    /// The identity on every timestamp this node mints.
    pub fn node_id(&self) -> (node_id: NodeId)
        ensures
            node_id == self.engine.node_id,
    {
        self.engine.node_id
    }

    /// The same map, told of a peer.
    pub fn with_seed(self, peer: IpAddr, now: Instant) -> (map: Self)
        ensures
            map == (ReplicatedMap { engine: map.engine, ..self }),
            map.engine == (Replica { peers: map.engine.peers, ..self.engine }),
            map.engine.peers@ == self.engine.peers@.insert(peer, now),
    {
        let mut map: Self = self;
        map.engine.seed_peer(peer, now);
        map
    }

    /// Register or refresh a gossip target. Never grants membership.
    pub fn seed_peer(&mut self, peer: IpAddr, now: Instant)
        ensures
            *final(self) == (ReplicatedMap { engine: final(self).engine, ..*old(self) }),
            final(self).engine == (Replica { peers: final(self).engine.peers, ..old(self).engine }),
            final(self).engine.peers@ == old(self).engine.peers@.insert(peer, now),
    {
        self.engine.seed_peer(peer, now);
    }
}

/// A map starts out without a discovery source, would ask one every five seconds, waits for three
/// missed rounds and, where an ack is owed, ten minutes before it gives a member up, and has neither
/// saved nor discovered anything yet.
pub proof fn maps_start_out_patient<K: Key, V: Value>(
    map: ReplicatedMap<K, V>,
    engine: Replica<K, V>,
    snapshot_interval: Option<Duration>,
    snapshot_change_threshold: usize,
)
    requires
        is_wrapped(map, engine, snapshot_interval, snapshot_change_threshold),
    ensures
        map.engine == engine,
        map.discovery is None,
        map.discovery_interval.nanos == 5_000_000_000,
        map.discovery_miss_threshold == 3,
        map.discovery_decommission_floor.nanos == 600_000_000_000,
        map.snapshot_interval == snapshot_interval,
        map.snapshot_change_threshold == snapshot_change_threshold,
        map.last_snapshot_at is None,
        map.persistence_consecutive_failures == 0,
        map.last_successful_discovery_at is None,
{
}

} // verus!
