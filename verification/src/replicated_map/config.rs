//! How a replicated map or a read replica is set up.

use vstd::prelude::*;

use crate::clock::{ClockDrift, NodeId};
use crate::net::{IpAddr, IpNet};
use crate::time::{Duration, NANOS_PER_MILLI, NANOS_PER_SEC};

pub mod builders;
pub mod error;

pub use error::ConfigError;

verus! {

/// The most networks a configuration declares.
pub const MAX_NETS: usize = 16;

/// The port a configuration starts out with.
pub const DEFAULT_PORT: u16 = 8080;

/// The most write broadcasts in flight a configuration starts out with.
pub const DEFAULT_MAX_CONCURRENT_BROADCASTS: usize = 1024;

/// How far, in milliseconds, a configuration lets remote timestamps run ahead of local time.
pub const MAX_CLOCK_DRIFT_MILLIS: u64 = 60_000;

/// How old, in milliseconds, an authenticated datagram may be in a configuration's default.
pub const FRESHNESS_WINDOW_MILLIS: u64 = 60_000;

/// A shared cluster secret.
#[derive(Clone, Copy)]
pub struct ClusterKey {
    /// The secret.
    pub secret: [u8; 32],
}

/// The keys a replica authenticates with.
#[derive(Clone, Copy)]
pub struct Keys {
    /// Seals what is sent, and is accepted on what is received.
    pub primary: ClusterKey,
    /// Also accepted on what is received, while a rotation is under way.
    pub also_accept: Option<ClusterKey>,
}

/// The configuration of a replicated map or a read replica.
#[derive(Clone, Copy)]
pub struct Config {
    /// The gossip port, the same on every node of a cluster.
    pub port: u16,
    /// The address to listen on.
    pub listen_addr: IpAddr,
    /// The declared networks, this node's own among them.
    pub nets: [Option<IpNet>; MAX_NETS],
    /// Remote networks are contacted once every so many rounds.
    pub remote_interval: u32,
    /// How many peers of each remote network are contacted then.
    pub remote_fanout: usize,
    /// The shared secret, if traffic is authenticated.
    pub cluster_key: Option<ClusterKey>,
    /// A second secret accepted on receive, while a rotation is under way.
    pub rotation_key: Option<ClusterKey>,
    /// Whether running without a shared secret was asked for.
    pub insecure_no_key: bool,
    /// The node identity, unless drawn at random.
    pub node_id: Option<NodeId>,
    /// Whether payloads are encrypted.
    pub encrypt: bool,
    /// How long a replica waits for activity before it initiates a round.
    pub reconcile_interval: Duration,
    /// How soon an unanswered comparison round is retried.
    pub repair_interval: Duration,
    /// The pace of a bulk transfer in bytes per second; `None` sends unpaced.
    pub bulk_send_rate: Option<usize>,
    /// The receive buffer asked of the socket; `None` leaves it alone.
    pub recv_buffer_size: Option<usize>,
    /// The send buffer asked of the socket; `None` leaves it alone.
    pub send_buffer_size: Option<usize>,
    /// How old an authenticated datagram may be.
    pub freshness_window: Duration,
    /// The most peers kept track of.
    pub max_peers: usize,
    /// The most bulk transfers in flight.
    pub max_concurrent_bulk_dumps: usize,
    /// The most write broadcasts in flight.
    pub max_concurrent_broadcasts: usize,
    /// How often a periodic snapshot is considered; `None` never.
    pub snapshot_interval: Option<Duration>,
    /// How many changes a periodic snapshot waits for.
    pub snapshot_change_threshold: usize,
    /// How far remote timestamps may run ahead of local time.
    pub max_clock_drift: ClockDrift,
    /// How long writes are collected before they are broadcast together.
    pub coalesce_window: Duration,
    /// The largest encoded value a checked write accepts.
    pub max_value_size: Option<usize>,
}

impl Config {
    /// Every setting is at its default. No security mode is among the defaults: one must be chosen.
    pub open spec fn is_default(&self) -> bool {
        &&& self.port == DEFAULT_PORT
        &&& self.listen_addr == IpAddr::V4(0)
        &&& self.nets@ == Seq::new(MAX_NETS as nat, |i: int| None::<IpNet>)
        &&& self.remote_interval == 6
        &&& self.remote_fanout == 2
        &&& self.cluster_key is None
        &&& self.rotation_key is None
        &&& !self.insecure_no_key
        &&& self.node_id is None
        &&& !self.encrypt
        &&& self.reconcile_interval.nanos == NANOS_PER_SEC
        &&& self.repair_interval.nanos == 150 * NANOS_PER_MILLI
        &&& self.bulk_send_rate == Some(33_554_432usize)
        &&& self.recv_buffer_size == Some(8_388_608usize)
        &&& self.send_buffer_size == Some(8_388_608usize)
        &&& self.freshness_window.nanos == FRESHNESS_WINDOW_MILLIS * NANOS_PER_MILLI
        &&& self.max_peers == 1024
        &&& self.max_concurrent_bulk_dumps == 4
        &&& self.max_concurrent_broadcasts == DEFAULT_MAX_CONCURRENT_BROADCASTS
        &&& self.snapshot_interval == Some(Duration { nanos: 5_000_000_000 })
        &&& self.snapshot_change_threshold == 1
        &&& self.max_clock_drift.millis == MAX_CLOCK_DRIFT_MILLIS
        &&& self.coalesce_window.nanos == 0
        &&& self.max_value_size is None
    }
}

impl Default for Config {
    fn default() -> (config: Self)
        ensures
            config.is_default(),
    {
        let nets: [Option<IpNet>; MAX_NETS] = [None; MAX_NETS];
        assert(nets@ =~= Seq::new(MAX_NETS as nat, |i: int| None::<IpNet>));
        Config {
            port: DEFAULT_PORT,
            listen_addr: IpAddr::V4(0),
            nets,
            remote_interval: 6,
            remote_fanout: 2,
            cluster_key: None,
            rotation_key: None,
            insecure_no_key: false,
            node_id: None,
            encrypt: false,
            reconcile_interval: Duration::from_secs(1),
            repair_interval: Duration::from_millis(150),
            bulk_send_rate: Some(32 * 1024 * 1024),
            recv_buffer_size: Some(8 * 1024 * 1024),
            send_buffer_size: Some(8 * 1024 * 1024),
            freshness_window: Duration::from_millis(FRESHNESS_WINDOW_MILLIS),
            max_peers: 1024,
            max_concurrent_bulk_dumps: 4,
            max_concurrent_broadcasts: DEFAULT_MAX_CONCURRENT_BROADCASTS,
            snapshot_interval: Some(Duration::from_secs(5)),
            snapshot_change_threshold: 1,
            max_clock_drift: ClockDrift { millis: MAX_CLOCK_DRIFT_MILLIS },
            coalesce_window: Duration::zero(),
            max_value_size: None,
        }
    }
}

/// What a configuration starts out with: port 8080 on every address, no network, remote networks
/// every sixth round with two peers each, a round every second, a repair after 150 ms, transfers at
/// 32 MiB a second through buffers of 8 MiB, datagrams and clocks trusted for a minute, at most 1024
/// peers, four transfers and 1024 broadcasts, a snapshot every five seconds as soon as anything
/// changed, nothing collected, no ceiling on values, and no security mode.
pub proof fn defaults_are_as_documented(config: Config)
    requires
        config.is_default(),
    ensures
        config.port == 8080,
        config.listen_addr == IpAddr::V4(0),
        config.nets@.len() == 16,
        forall|i: int| 0 <= i < 16 ==> #[trigger] config.nets@[i] is None,
        config.remote_interval == 6,
        config.remote_fanout == 2,
        config.reconcile_interval.nanos == 1_000_000_000,
        config.repair_interval.nanos == 150_000_000,
        config.bulk_send_rate == Some(33_554_432usize),
        config.recv_buffer_size == Some(8_388_608usize),
        config.send_buffer_size == Some(8_388_608usize),
        config.freshness_window.nanos == 60_000_000_000,
        config.max_clock_drift.millis == 60_000,
        config.max_peers == 1024,
        config.max_concurrent_bulk_dumps == 4,
        config.max_concurrent_broadcasts == 1024,
        config.snapshot_interval == Some(Duration { nanos: 5_000_000_000 }),
        config.snapshot_change_threshold == 1,
        config.coalesce_window.nanos == 0,
        config.max_value_size is None,
        config.node_id is None,
        config.cluster_key is None,
        config.rotation_key is None,
        !config.encrypt,
        !config.has_security_mode(),
{
}

} // verus!
