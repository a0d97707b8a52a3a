//! Dynamic discovery, decommissioning, and read-replica discovery.

use reconcile::clock::{Hlc, LogicalCounter, NodeId, PhysicalTime, Timestamp};
use reconcile::entry::Entry;
use reconcile::net::{IpAddr, IpNet};
use reconcile::ordered_map::OrderedMap;
use reconcile::peers::AddrSet;
use reconcile::read_replica_map::ReadReplicaMap;
use reconcile::replicated_map::discovery::{
    DiscoveryKind, DiscoverySource, DiscoveryTarget, MemberPresence, NotAuthoritative,
};
use reconcile::replicated_map::{Config, ReplicatedMap};
use reconcile::time::{Duration, Instant};

fn at(millis: u64) -> Instant {
    Instant { nanos: 0 }.plus(Duration::from_millis(millis))
}

fn local_net() -> IpNet {
    IpNet::new(IpAddr::v4(127, 0, 0, 0), 8).unwrap()
}

fn own() -> IpAddr {
    IpAddr::v4(127, 0, 0, 1)
}

fn store() -> ReplicatedMap<i32, i32> {
    ReplicatedMap::new(
        &Config::default().with_listen_addr(own()).with_insecure_no_key(),
        NodeId::new(1),
        local_net(),
    )
    .ok()
    .unwrap()
}

fn speculative() -> DiscoverySource {
    DiscoverySource { kind: DiscoveryKind::Speculative, target: DiscoveryTarget::External(1) }
}

fn authoritative() -> DiscoverySource {
    DiscoverySource { kind: DiscoveryKind::Authoritative, target: DiscoveryTarget::External(2) }
}

fn nobody() -> AddrSet {
    OrderedMap::new()
}

#[test]
fn with_discovery_rejects_a_speculative_source() {
    assert_eq!(
        store().with_discovery(speculative()).err(),
        Some(NotAuthoritative { kind: DiscoveryKind::Speculative })
    );
    let mut shared = store();
    assert_eq!(
        shared.set_discovery(speculative()),
        Err(NotAuthoritative { kind: DiscoveryKind::Speculative })
    );
    assert!(shared.discovery.is_none());
    assert_eq!(shared.set_discovery(authoritative()), Ok(()));
    assert!(shared.discovery.is_some());
    let map = store().with_discovery(authoritative()).ok().unwrap();
    assert!(matches!(
        map.discovery,
        Some(DiscoverySource { kind: DiscoveryKind::Authoritative, target: DiscoveryTarget::External(2) })
    ));
}

#[test]
fn not_authoritative_display_names_the_actual_kind() {
    assert_eq!(
        NotAuthoritative {
            kind: DiscoveryKind::Speculative
        }
        .to_string(),
        "with_discovery expects an authoritative source, got Speculative: a speculative prober \
         would be seeded as permanent known peers and its absences would wrongly decommission \
         members"
    );
}

#[test]
fn discovery_settings_are_builders() {
    let map = store()
        .with_dns_discovery("peers.example".to_string(), 4242)
        .with_discovery_interval(Duration::from_millis(20))
        .with_discovery_miss_threshold(7)
        .with_discovery_decommission_floor(Duration::from_secs(9));
    match &map.discovery {
        Some(DiscoverySource { kind, target: DiscoveryTarget::Dns { name, port } }) => {
            assert_eq!(*kind, DiscoveryKind::Authoritative);
            assert_eq!(name, "peers.example");
            assert_eq!(*port, 4242);
        }
        _ => panic!("a name must be resolved"),
    }
    assert_eq!(map.discovery_interval, Duration::from_millis(20));
    assert_eq!(map.discovery_miss_threshold, 7);
    assert_eq!(map.discovery_decommission_floor, Duration::from_secs(9));

    let fresh = store();
    assert!(fresh.discovery.is_none());
    assert_eq!(fresh.discovery_interval, Duration::from_secs(5));
    assert_eq!(fresh.discovery_miss_threshold, 3);
    assert_eq!(fresh.discovery_decommission_floor, Duration::from_secs(600));
}

#[test]
fn member_presence_starts_present_and_requires_the_miss_threshold() {
    let mut state = MemberPresence::default();
    assert!(!state.eligible_for_decommission(1, Duration::zero(), false, at(0)));
    state.mark_missed(at(0));
    assert!(state.eligible_for_decommission(1, Duration::zero(), false, at(0)));
}

#[test]
fn member_presence_reappearance_resets_the_absence_clock_and_counter() {
    let mut state = MemberPresence::default();
    state.mark_missed(at(0));
    state.mark_missed(at(1));
    state.mark_seen();
    // A single miss after reappearing must not already clear a 2-miss threshold.
    state.mark_missed(at(2));
    assert!(!state.eligible_for_decommission(2, Duration::zero(), false, at(2)));
    assert_eq!(state, MemberPresence::Absent { since: at(2), misses: 1 });
}

#[test]
fn member_presence_pending_tombstone_acks_require_the_wall_time_floor() {
    let mut state = MemberPresence::default();
    state.mark_missed(at(0));
    state.mark_missed(at(1));
    // Below miss_threshold: never eligible, regardless of pending acks or floor.
    assert!(!state.eligible_for_decommission(3, Duration::zero(), true, at(1)));

    state.mark_missed(at(2));
    // At the threshold, pending acks, and a floor nowhere near elapsed: held back.
    assert!(!state.eligible_for_decommission(3, Duration::from_secs(3600), true, at(2)));
    // Same absence with no pending acks: the fast path is unaffected by the floor.
    assert!(state.eligible_for_decommission(3, Duration::from_secs(3600), false, at(2)));
    // A zero floor is cleared instantly even with pending acks.
    assert!(state.eligible_for_decommission(3, Duration::zero(), true, at(2)));
    // Exactly at the floor the absence is long enough.
    assert!(!state.eligible_for_decommission(3, Duration::from_millis(10), true, at(9)));
    assert!(state.eligible_for_decommission(3, Duration::from_millis(10), true, at(10)));
}

#[test]
fn discovery_decommissions_vanished_member_but_not_self() {
    let member = IpAddr::v4(127, 0, 0, 200);
    let mut store = store().with_discovery_miss_threshold(3);
    store.engine.members.insert(own(), ());
    store.engine.members.insert(member, ());
    let mut presence = OrderedMap::new();

    for round in 0..6 {
        let gone = store.discover_round(Some(vec![member, own()]), &mut presence, &nobody(), at(round));
        assert!(gone.is_empty(), "present member was wrongly decommissioned");
    }
    assert!(store.engine.peers.seen.contains_key(&member));
    assert!(!store.engine.peers.seen.contains_key(&own()), "a node does not seed itself");

    assert!(store.discover_round(Some(vec![]), &mut presence, &nobody(), at(10)).is_empty());
    assert!(store.discover_round(Some(vec![]), &mut presence, &nobody(), at(11)).is_empty());
    let gone = store.discover_round(Some(vec![]), &mut presence, &nobody(), at(12));
    assert_eq!(gone, vec![member]);
    assert!(!store.engine.members.contains_key(&member));
    assert!(store.engine.members.contains_key(&own()), "node decommissioned itself");
    assert!(!presence.contains_key(&member));
}

#[test]
fn discovery_blip_does_not_decommission() {
    let member = IpAddr::v4(127, 0, 0, 201);
    let mut store = store().with_discovery_miss_threshold(3);
    store.engine.members.insert(member, ());
    let mut presence = OrderedMap::new();
    store.discover_round(Some(vec![member]), &mut presence, &nobody(), at(0));
    for round in 1..20 {
        assert!(store.discover_round(None, &mut presence, &nobody(), at(round)).is_empty());
    }
    assert!(store.engine.members.contains_key(&member));
    for round in 20..23 {
        store.discover_round(Some(vec![]), &mut presence, &nobody(), at(round));
    }
    assert!(!store.engine.members.contains_key(&member));
}

#[test]
fn discovery_failure_increments_the_failure_counter() {
    let mut store = store();
    let mut presence = OrderedMap::new();
    store.discover_round(None, &mut presence, &nobody(), at(0));
    let events = store.engine.metrics.drain();
    assert_eq!(events.len(), 1);
    assert_eq!(events[0].name, "reconcile_discovery_failures_total");
}

#[test]
fn last_successful_discovery_at_advances_only_on_success() {
    let mut store = store();
    let mut presence = OrderedMap::new();
    store.discover_round(None, &mut presence, &nobody(), at(3));
    assert!(store.last_successful_discovery_at.is_none());
    store.discover_round(Some(vec![]), &mut presence, &nobody(), at(4));
    assert_eq!(store.last_successful_discovery_at, Some(at(4)));
}

/// The version of the tombstone that a stamp dates.
fn version(stamp: Timestamp) -> u64 {
    stamp.hlc.physical.millis * 100
}

#[test]
fn pending_tombstone_acks_hold_decommission_past_the_miss_threshold() {
    let member = IpAddr::v4(127, 0, 0, 210);
    let mut store = store()
        .with_discovery_miss_threshold(2)
        .with_discovery_decommission_floor(Duration::from_millis(300));
    store.engine.members.insert(member, ());
    // A local tombstone this member has never acknowledged.
    store.engine.just_insert(1, Entry::present(stamp(1), 11));
    store.engine.just_insert(1, Entry::tombstone(stamp(2)));

    let mut presence = OrderedMap::new();
    store.discover_round_with_acks(Some(vec![member]), &mut presence, &version, at(0));
    for round in 1..20 {
        let gone = store.discover_round_with_acks(Some(vec![]), &mut presence, &version, at(15 * round));
        assert!(gone.is_empty());
        assert!(store.engine.members.contains_key(&member));
    }
    let gone = store.discover_round_with_acks(Some(vec![]), &mut presence, &version, at(315));
    assert_eq!(gone, vec![member]);
    assert!(!store.engine.members.contains_key(&member));
}

#[test]
fn reappearance_resets_the_floor_for_a_member_with_pending_acks() {
    let member = IpAddr::v4(127, 0, 0, 211);
    let mut store = store()
        .with_discovery_miss_threshold(2)
        .with_discovery_decommission_floor(Duration::from_millis(300));
    store.engine.members.insert(member, ());
    store.engine.just_insert(1, Entry::present(stamp(1), 11));
    store.engine.just_insert(1, Entry::tombstone(stamp(2)));

    let mut presence = OrderedMap::new();
    store.discover_round_with_acks(Some(vec![member]), &mut presence, &version, at(0));
    store.discover_round_with_acks(Some(vec![]), &mut presence, &version, at(10));
    store.discover_round_with_acks(Some(vec![]), &mut presence, &version, at(200));
    store.discover_round_with_acks(Some(vec![member]), &mut presence, &version, at(210));
    store.discover_round_with_acks(Some(vec![]), &mut presence, &version, at(220));
    let gone = store.discover_round_with_acks(Some(vec![]), &mut presence, &version, at(420));
    assert!(gone.is_empty(), "reappearance did not reset the absence clock");
    assert!(store.engine.members.contains_key(&member));
}

#[test]
fn an_acknowledged_tombstone_holds_nobody_back() {
    let (acked, silent) = (IpAddr::v4(127, 0, 0, 212), IpAddr::v4(127, 0, 0, 213));
    let mut store = store()
        .with_discovery_miss_threshold(2)
        .with_discovery_decommission_floor(Duration::from_millis(300));
    store.engine.members.insert(acked, ());
    store.engine.members.insert(silent, ());
    assert_eq!(store.engine.members_with_pending_acks(&version).len(), 0);
    store.engine.just_insert(1, Entry::tombstone(stamp(2)));
    store.engine.record_tombstone_acks(vec![(1, version(stamp(2)))], acked);
    assert_eq!(store.engine.members_with_pending_acks(&version).keys(), vec![silent]);

    let mut presence = OrderedMap::new();
    store.discover_round_with_acks(Some(vec![acked, silent]), &mut presence, &version, at(0));
    store.discover_round_with_acks(None, &mut presence, &version, at(1));
    assert!(store.discover_round_with_acks(Some(vec![]), &mut presence, &version, at(2)).is_empty());
    let gone = store.discover_round_with_acks(Some(vec![]), &mut presence, &version, at(3));
    assert_eq!(gone, vec![acked], "two successful rounds in a row, and the failed one counts for nothing");
}

#[test]
fn a_continuously_present_member_is_never_decommissioned() {
    let peer = IpAddr::v4(127, 0, 0, 201);
    let mut store = store().with_discovery_miss_threshold(1);
    store.engine.members.insert(peer, ());
    let mut presence = OrderedMap::new();
    for round in 0..16 {
        store.discover_round(Some(vec![peer]), &mut presence, &nobody(), at(5 * round));
    }
    assert!(store.engine.members.contains_key(&peer));
}

#[test]
fn a_member_this_source_never_found_is_left_alone() {
    let peer = IpAddr::v4(127, 0, 0, 77);
    let mut store = store().with_discovery_miss_threshold(1);
    store.engine.members.insert(peer, ());
    let mut presence = OrderedMap::new();
    for round in 0..8 {
        assert!(store.discover_round(Some(vec![]), &mut presence, &nobody(), at(round)).is_empty());
    }
    assert!(store.engine.members.contains_key(&peer));
}

fn stamp(ms: u64) -> Timestamp {
    Timestamp::new(
        Hlc::new(PhysicalTime::from_millis(ms), LogicalCounter::new(0)),
        NodeId::new(1),
    )
}

#[test]
fn pending_acks_are_those_of_the_version_held() {
    let member = IpAddr::v4(127, 0, 0, 5);
    let mut store = store();
    let hash = |stamp: Timestamp| stamp.hlc.physical.millis * 100;
    assert!(!store.engine.has_pending_tombstone_acks(member, &hash));
    store.engine.just_insert(1, Entry::tombstone(stamp(3)));
    assert!(store.engine.has_pending_tombstone_acks(member, &hash));
    store.engine.record_tombstone_acks(vec![(1, 299)], member);
    assert!(store.engine.has_pending_tombstone_acks(member, &hash), "an ack of another version");
    store.engine.record_tombstone_acks(vec![(1, 300)], member);
    assert!(!store.engine.has_pending_tombstone_acks(member, &hash));
    assert!(store.engine.has_pending_tombstone_acks(own(), &hash));
}

#[test]
fn decommissioning_forgets_the_peer_everywhere_and_counts_each_change() {
    let peer = IpAddr::v4(127, 0, 0, 9);
    let other = IpAddr::v4(127, 0, 0, 8);
    let mut store = store();
    store.engine.just_insert(1, Entry::tombstone(stamp(1)));
    store.engine.just_insert(2, Entry::tombstone(stamp(1)));
    store.engine.members.insert(peer, ());
    store.engine.members.insert(other, ());
    store.engine.record_tombstone_acks(vec![(1, 7), (2, 8)], peer);
    store.engine.record_tombstone_acks(vec![(1, 7)], other);
    store.engine.reset_change_count();
    store.engine.decommission_peer(peer);
    assert_eq!(store.engine.change_count(), 3);
    assert!(!store.engine.members.contains_key(&peer));
    assert!(store.engine.tombstone_acks.get(&1).unwrap().contains_key(&other));
    assert_eq!(store.engine.tombstone_acks.get(&2).unwrap().len(), 0, "the key itself stays");
    store.engine.decommission_peer(peer);
    assert_eq!(store.engine.change_count(), 3, "gone already");
    store.engine.forget_tombstone(&1);
    store.engine.forget_tombstone(&1);
    assert_eq!(store.engine.change_count(), 4);
}

fn read_replica() -> ReadReplicaMap<i32, String> {
    ReadReplicaMap::new(&Config::default().with_insecure_no_key(), local_net()).ok().unwrap()
}

#[test]
fn with_discovery_and_interval_are_builders() {
    let replica = read_replica()
        .with_discovery(speculative())
        .with_discovery_interval(Duration::from_millis(7));
    assert!(matches!(
        replica.discovery,
        Some(DiscoverySource { kind: DiscoveryKind::Speculative, .. })
    ));
    assert_eq!(replica.discovery_interval, Duration::from_millis(7));
}

#[test]
fn with_dns_discovery_sets_a_discovery_source() {
    let replica =
        read_replica().with_dns_discovery("my-service.default.svc.cluster.local".to_string(), 8080);
    match replica.discovery {
        Some(DiscoverySource { target: DiscoveryTarget::Dns { name, port }, .. }) => {
            assert_eq!(name, "my-service.default.svc.cluster.local");
            assert_eq!(port, 8080);
        }
        _ => panic!("a name must be resolved"),
    }
}

#[test]
fn discover_periodically_seeds_resolved_addresses_as_peers() {
    let mut replica = read_replica();
    let peer = IpAddr::v4(127, 0, 0, 30);
    replica.discover_round(Some(vec![peer]), None, at(0));
    assert_eq!(replica.peers(at(1)), vec![peer]);
}

#[test]
fn discover_periodically_never_seeds_its_own_address() {
    let mut replica = read_replica();
    let peer = IpAddr::v4(127, 0, 0, 30);
    replica.discover_round(Some(vec![own(), peer]), Some(own()), at(0));
    assert_eq!(replica.peers(at(1)), vec![peer]);
}

#[test]
fn discover_periodically_survives_a_failed_round_and_recovers() {
    let mut replica = read_replica();
    let peer = IpAddr::v4(127, 0, 0, 30);
    replica.discover_round(None, Some(own()), at(0));
    assert!(replica.peers(at(1)).is_empty());
    replica.discover_round(Some(vec![peer]), Some(own()), at(2));
    assert_eq!(replica.peers(at(3)), vec![peer]);
}
