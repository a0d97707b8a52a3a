//! Building and checking configurations.

use reconcile::clock::{ClockDrift, NodeId};
use reconcile::net::{IpAddr, IpNet};
use reconcile::replicated_map::config::ClusterKey;
use reconcile::replicated_map::construction_error::ConstructionCause;
use reconcile::replicated_map::{Config, ConfigError, ConstructionError, ReplicatedMap, MAX_NETS};
use reconcile::time::Duration;

fn net(a: u8, prefix_len: u8) -> IpNet {
    IpNet::new(IpAddr::v4(a, 0, 0, 0), prefix_len).unwrap()
}

#[test]
fn default_budget_is_1024() {
    assert_eq!(Config::default().max_concurrent_broadcasts, 1024);
}

#[test]
fn builder_sets_budget() {
    let cfg = Config::default().with_max_concurrent_broadcasts(1);
    assert_eq!(cfg.max_concurrent_broadcasts, 1);
}

#[test]
fn defaults_are_the_documented_ones() {
    let config = Config::new(8085);
    assert_eq!(config.port, 8085);
    assert_eq!(config.remote_interval, 6);
    assert_eq!(config.remote_fanout, 2);
    assert_eq!(config.reconcile_interval, Duration::from_secs(1));
    assert_eq!(config.repair_interval, Duration::from_millis(150));
    assert_eq!(config.bulk_send_rate, Some(32 * 1024 * 1024));
    assert_eq!(config.recv_buffer_size, Some(8 * 1024 * 1024));
    assert_eq!(config.send_buffer_size, Some(8 * 1024 * 1024));
    assert_eq!(config.max_peers, 1024);
    assert_eq!(config.max_concurrent_bulk_dumps, 4);
    assert_eq!(config.snapshot_interval, Some(Duration::from_secs(5)));
    assert_eq!(config.snapshot_change_threshold, 1);
    assert_eq!(config.coalesce_window, Duration::zero());
    assert_eq!(config.max_value_size, None);
    assert!(!config.insecure_no_key && !config.encrypt);
    assert!(config.nets.iter().all(|slot| slot.is_none()));
}

#[test]
fn every_builder_sets_its_field() {
    let config = Config::new(1)
        .with_listen_addr(IpAddr::v4(127, 0, 0, 1))
        .with_remote_interval(9)
        .with_remote_fanout(8)
        .with_reconcile_interval(Duration::from_secs(7))
        .with_repair_interval(Duration::from_millis(6))
        .with_bulk_send_rate(5)
        .with_recv_buffer_size(4)
        .with_send_buffer_size(3)
        .with_node_id(NodeId::new(2))
        .with_freshness_window(Duration::from_secs(11))
        .with_max_peers(12)
        .with_max_concurrent_bulk_dumps(13)
        .with_snapshot_interval(None)
        .with_snapshot_change_threshold(14)
        .with_max_clock_drift(ClockDrift { millis: 15 })
        .with_coalesce_window(Duration::from_millis(16))
        .with_max_value_size(17)
        .with_encryption();
    assert_eq!(config.listen_addr, IpAddr::v4(127, 0, 0, 1));
    assert_eq!(config.remote_interval, 9);
    assert_eq!(config.remote_fanout, 8);
    assert_eq!(config.reconcile_interval, Duration::from_secs(7));
    assert_eq!(config.repair_interval, Duration::from_millis(6));
    assert_eq!(config.bulk_send_rate, Some(5));
    assert_eq!(config.recv_buffer_size, Some(4));
    assert_eq!(config.send_buffer_size, Some(3));
    assert_eq!(config.node_id, Some(NodeId::new(2)));
    assert_eq!(config.freshness_window, Duration::from_secs(11));
    assert_eq!(config.max_peers, 12);
    assert_eq!(config.max_concurrent_bulk_dumps, 13);
    assert_eq!(config.snapshot_interval, None);
    assert_eq!(config.snapshot_change_threshold, 14);
    assert_eq!(config.max_clock_drift, ClockDrift { millis: 15 });
    assert_eq!(config.coalesce_window, Duration::from_millis(16));
    assert_eq!(config.max_value_size, Some(17));
    assert!(config.encrypt);
}

#[test]
fn networks_fill_the_first_free_slot_up_to_the_cap() {
    let nets: Vec<IpNet> = (0..MAX_NETS).map(|i| net(i as u8, 8)).collect();
    let full = Config::default().with_nets(&nets).ok().unwrap();
    assert_eq!(full.nets[0], Some(net(0, 8)));
    assert_eq!(full.nets[MAX_NETS - 1], Some(net((MAX_NETS - 1) as u8, 8)));
    assert_eq!(
        full.with_net(net(99, 8)).err(),
        Some(ConfigError::TooManyNets)
    );

    let over: Vec<IpNet> = (0..=MAX_NETS).map(|i| net(i as u8, 8)).collect();
    assert_eq!(
        Config::default().with_nets(&over).err(),
        Some(ConfigError::TooManyNets)
    );

    let mut holed = Config::default().with_nets(&nets).ok().unwrap();
    holed.nets[3] = None;
    let refilled = holed.with_net(net(77, 16)).ok().unwrap();
    assert_eq!(refilled.nets[3], Some(net(77, 16)));
}

#[test]
fn a_rotation_window_opens_and_closes() {
    let old = ClusterKey { secret: [1; 32] };
    let new = ClusterKey { secret: [2; 32] };
    assert!(Config::default().auth_keys().is_none());

    let open = Config::default().with_cluster_key_rotation(old, new);
    let keys = open.auth_keys().unwrap();
    assert_eq!(keys.primary.secret, [1; 32]);
    assert_eq!(keys.also_accept.unwrap().secret, [2; 32]);

    let closed = open.with_cluster_key(new);
    let keys = closed.auth_keys().unwrap();
    assert_eq!(keys.primary.secret, [2; 32]);
    assert!(keys.also_accept.is_none());
}

#[test]
fn construction_requires_a_security_mode() {
    let local = net(127, 8);
    let refused = ReplicatedMap::<u32, u32>::new(&Config::default(), NodeId::new(1), local);
    match refused.err() {
        Some(ConstructionError::Config(error)) => assert_eq!(error, ConfigError::MissingSecurityMode),
        _ => panic!("a configuration without a security mode must be refused"),
    }
    assert!(ReplicatedMap::<u32, u32>::new(
        &Config::default().with_insecure_no_key(),
        NodeId::new(1),
        local
    )
    .is_ok());
    assert!(ReplicatedMap::<u32, u32>::new(
        &Config::default().with_cluster_key(ClusterKey { secret: [0; 32] }),
        NodeId::new(1),
        local
    )
    .is_ok());
}

#[test]
fn a_pinned_node_id_wins_over_the_random_one() {
    let local = net(127, 8);
    let pinned = ReplicatedMap::<u32, u32>::new(
        &Config::default().with_insecure_no_key().with_node_id(NodeId::new(42)),
        NodeId::new(1),
        local,
    )
    .ok()
    .unwrap();
    assert_eq!(pinned.node_id(), NodeId::new(42));
    assert!(!pinned.engine.node_id_is_random);

    let random = ReplicatedMap::<u32, u32>::new(
        &Config::default().with_insecure_no_key(),
        NodeId::new(1),
        local,
    )
    .ok()
    .unwrap();
    assert_eq!(random.node_id(), NodeId::new(1));
    assert!(random.engine.node_id_is_random);
}

#[test]
fn error_messages_name_the_cause() {
    assert_eq!(
        ConfigError::TooManyNets.to_string(),
        format!("at most {} networks are supported", MAX_NETS)
    );
    assert!(ConfigError::MissingSecurityMode.to_string().contains("cluster key"));
    assert_eq!(
        ConstructionError::from(ConfigError::TooManyNets).to_string(),
        ConfigError::TooManyNets.to_string()
    );
    let io = ConstructionError::from(std::io::Error::other("in use"));
    assert_eq!(io.to_string(), "in use");
    assert!(matches!(io.source(), Some(ConstructionCause::Io(error)) if error.to_string() == "in use"));
    assert!(matches!(
        ConstructionError::from(ConfigError::TooManyNets).source(),
        Some(ConstructionCause::Config(&ConfigError::TooManyNets))
    ));
}
