//! Reading replicated maps and read replicas.

use std::sync::Arc;

use reconcile::bounds::{Duplicate, Key, Placement};
use reconcile::clock::{Hlc, LogicalCounter, NodeId, PhysicalTime, Timestamp};
use reconcile::entry::{Entry, State};
use reconcile::net::{IpAddr, IpNet};
use reconcile::ordered_map::{KeyBound, KeyRange, OrderedMap};
use reconcile::read_replica_map::ReadReplicaMap;
use reconcile::replicated_map::{Config, ConstructionError, ReplicatedMap};
use reconcile::text::append_decimal;
use reconcile::time::{Duration, Instant};

fn at(millis: u64) -> Instant {
    Instant { nanos: 0 }.plus(Duration::from_secs(100)).plus(Duration::from_millis(millis))
}

fn stamp(ms: u64) -> Timestamp {
    Timestamp::new(
        Hlc::new(PhysicalTime::from_millis(ms), LogicalCounter::new(0)),
        NodeId::new(1),
    )
}

fn net() -> IpNet {
    IpNet::new(IpAddr::v4(127, 0, 0, 0), 8).unwrap()
}

fn store() -> ReplicatedMap<i32, String> {
    ReplicatedMap::new(&Config::default().with_insecure_no_key(), NodeId::new(1), net())
        .ok()
        .unwrap()
}

fn put(map: &mut ReplicatedMap<i32, String>, key: i32, ms: u64, value: &str) {
    map.engine.just_insert(key, Entry::present(stamp(ms), value.to_string()));
}

fn remove(map: &mut ReplicatedMap<i32, String>, key: i32, ms: u64) {
    map.engine.just_insert(key, Entry::tombstone(stamp(ms)));
}

fn filled() -> ReplicatedMap<i32, String> {
    let mut map = store();
    put(&mut map, 5, 1, "five");
    put(&mut map, -3, 2, "minus three");
    put(&mut map, 9, 3, "nine");
    put(&mut map, 1, 4, "one");
    remove(&mut map, -3, 5);
    remove(&mut map, 9, 6);
    remove(&mut map, 7, 7);
    map
}

#[test]
fn tombstones_read_as_absent() {
    let map = filled();
    assert_eq!(map.len(), 2);
    assert!(!map.is_empty());
    assert!(map.contains_key(&5));
    assert!(!map.contains_key(&9));
    assert!(!map.contains_key(&7));
    assert!(!map.contains_key(&100));
    assert_eq!(map.get_cloned(&1), Some("one".to_string()));
    assert_eq!(map.get_cloned(&-3), None);
    assert_eq!(map.first_key_value(), Some((1, "one".to_string())));
    assert_eq!(map.last_key_value(), Some((5, "five".to_string())));
    assert_eq!(map.to_vec(), vec![(1, "one".to_string()), (5, "five".to_string())]);
    assert_eq!(map.keys(), vec![1, 5]);
    assert_eq!(map.values(), vec!["one".to_string(), "five".to_string()]);
}

#[test]
fn an_empty_map_and_one_of_tombstones_are_both_empty() {
    let mut map = store();
    assert!(map.is_empty() && map.len() == 0);
    assert_eq!(map.first_key_value(), None);
    assert_eq!(map.last_key_value(), None);
    remove(&mut map, 1, 1);
    assert!(map.is_empty() && map.len() == 0);
    assert!(map.to_vec().is_empty() && map.keys().is_empty() && map.values().is_empty());
}

#[test]
fn ranges_are_read_in_key_order() {
    let map = filled();
    let range = |lower, upper| map.range_to_vec(&KeyRange { lower, upper }).len();
    assert_eq!(range(KeyBound::Included(1), KeyBound::Included(5)), 2);
    assert_eq!(range(KeyBound::Excluded(1), KeyBound::Included(5)), 1);
    assert_eq!(range(KeyBound::Included(1), KeyBound::Excluded(5)), 1);
    assert_eq!(range(KeyBound::Unbounded, KeyBound::Excluded(1)), 0);
    assert_eq!(range(KeyBound::Excluded(-3), KeyBound::Unbounded), 2);
    assert_eq!(range(KeyBound::Included(6), KeyBound::Included(2)), 0);
    let joined = map.for_each(String::new(), |so_far, key, value| format!("{so_far}{key}={value};"));
    assert_eq!(joined, "1=one;5=five;");
    let tail = map.for_each_in_range(&KeyRange::after(1), 0, |sum: usize, _, value| sum + value.len());
    assert_eq!(tail, 4);
}

#[test]
fn snapshot_reflects_live_state_tombstones_included_and_is_immutable_once_taken() {
    let mut map = store();
    put(&mut map, 1, 1, "a");
    put(&mut map, 2, 2, "b");
    remove(&mut map, 2, 3);
    let snapshot = map.snapshot();
    put(&mut map, 3, 4, "c");
    put(&mut map, 1, 5, "z");
    assert_eq!(snapshot.len(), 2);
    assert_eq!(snapshot.get(&1).unwrap().value().unwrap(), "a");
    assert!(snapshot.get(&2).unwrap().is_tombstone());
    assert!(snapshot.get(&3).is_none());
}

#[test]
fn value_snapshot_reflects_the_projection_not_the_dated_map() {
    let mut map = store();
    put(&mut map, 1, 1, "a");
    remove(&mut map, 2, 2);
    let projected = map.value_snapshot();
    assert_eq!(projected.get(&1).unwrap().as_value().unwrap(), "a");
    assert!(projected.get(&2).unwrap().is_tombstone());
}

#[test]
fn get_cloned_does_not_hold_the_lock_across_a_following_write() {
    let mut map = store();
    put(&mut map, 1, 1, "a");
    let value = map.get_cloned(&1).unwrap();
    put(&mut map, 1, 2, "b");
    assert_eq!(value, "a");
    assert_eq!(map.get_cloned(&1).unwrap(), "b");
}

#[test]
fn value_ref_pins_the_observed_value_across_later_writes() {
    let mut map = store();
    put(&mut map, 1, 1, "old");
    let old = map.get(&1).unwrap();
    put(&mut map, 1, 2, "new");
    assert_eq!(old.as_str(), "old");
    assert_eq!(map.get_cloned(&1), Some("new".to_string()));
    remove(&mut map, 1, 3);
    assert_eq!(old.as_str(), "old");
    assert!(map.get(&1).is_none());
}

fn read_replica() -> ReadReplicaMap<i32, String> {
    ReadReplicaMap::new(&Config::default().with_insecure_no_key(), net()).ok().unwrap()
}

#[test]
fn value_ref_pins_the_observed_value_across_later_integrations() {
    let mut replica = read_replica();
    replica.integrate(vec![(1, State::Present("old".to_string()))]);

    let old = replica.get(&1).expect("live value");
    replica.integrate(vec![(1, State::Present("new".to_string()))]);

    assert_eq!(old.as_str(), "old");
    assert_eq!(replica.get_cloned(&1), Some("new".to_string()));

    replica.integrate(vec![(1, State::Tombstone)]);
    assert_eq!(old.as_str(), "old");
    assert!(replica.get(&1).is_none());
}

#[test]
fn a_read_replica_mirrors_what_it_is_sent() {
    let map = filled();
    let mut replica = read_replica();
    assert!(replica.is_empty());
    let projected = map.value_snapshot();
    let mut updates = Vec::new();
    for i in (0..projected.len()).rev() {
        let (key, state) = projected.at(i);
        updates.push((*key, state.duplicate()));
    }
    replica.integrate(updates);
    assert_eq!(replica.to_vec(), map.to_vec());
    assert_eq!(replica.keys(), map.keys());
    assert_eq!(replica.values(), map.values());
    assert_eq!(replica.len(), 2);
    assert_eq!(replica.first_key_value(), map.first_key_value());
    assert_eq!(replica.last_key_value(), map.last_key_value());
    assert!(replica.contains_key(&5) && !replica.contains_key(&9));
    assert_eq!(replica.snapshot().len(), projected.len());
    assert_eq!(replica.range_to_vec(&KeyRange::after(1)).len(), 1);
    assert_eq!(replica.for_each(0, |n: i32, key, _| n + *key), 6);
    assert_eq!(replica.for_each_in_range(&KeyRange::all(), 0, |n: i32, _, _| n + 1), 2);
}

#[test]
fn set_net_retunes_what_net_reports() {
    let mut replica = read_replica();
    assert_eq!(replica.net(), net());
    let other = IpNet::new(IpAddr::v4(10, 0, 0, 0), 8).unwrap();
    replica.set_net(other);
    assert_eq!(replica.net(), other);
    replica.set_reconcile_interval(Duration::from_millis(3));
    assert_eq!(replica.reconcile_interval, Duration::from_millis(3));
}

#[test]
fn get_peers_drops_expired_entries_but_keeps_fresh_ones() {
    let mut replica = read_replica();
    let stale = IpAddr::v4(127, 0, 0, 201);
    let fresh = IpAddr::v4(127, 0, 0, 202);
    let now = at(0);
    replica.seed_peer(stale, now.checked_sub(Duration::from_secs(61)).unwrap());
    replica.seed_peer(fresh, now.checked_sub(Duration::from_secs(1)).unwrap());
    let remaining = replica.peers(now);
    assert!(
        !remaining.contains(&stale),
        "a peer silent past PEER_EXPIRATION must be dropped"
    );
    assert!(
        remaining.contains(&fresh),
        "a recently-heard-from peer must be kept"
    );
}

#[test]
fn seed_peer_registers_and_refreshes_a_peer() {
    let mut replica = read_replica();
    let peer = IpAddr::v4(127, 0, 0, 3);
    replica.seed_peer(peer, at(0));
    replica.seed_peer(peer, at(50_000));
    assert_eq!(replica.peers(at(100_000)), vec![peer]);
    assert!(replica.peers(at(110_000)).is_empty());

    let mut map = store().with_seed(peer, at(0));
    assert_eq!(map.engine.get_peers(at(1)), vec![peer]);
    map.seed_peer(IpAddr::v4(127, 0, 0, 4), at(1));
    assert_eq!(map.engine.get_peers(at(2)).len(), 2);
    assert_eq!(map.engine.members.len(), 0, "seeding never grants membership");
}

#[test]
fn sync_state_counts_rounds_and_fresh_peers() {
    let mut replica = read_replica();
    let before = replica.sync_state(at(0));
    assert_eq!((before.rounds, before.last_round_at, before.peers), (0, None, 0));
    replica.seed_peer(IpAddr::v4(127, 0, 0, 3), at(0));
    replica.note_round(at(5));
    let after = replica.sync_state(at(6));
    assert_eq!((after.rounds, after.last_round_at, after.peers), (1, Some(at(5)), 1));
    assert_eq!(replica.sync_state(at(60_000)).peers, 0);
}

#[test]
fn a_read_replica_requires_a_security_mode_too() {
    let refused = ReadReplicaMap::<i32, String>::new(&Config::default(), net());
    assert!(matches!(refused.err(), Some(ConstructionError::Config(_))));
}

#[test]
fn an_ordered_map_keeps_its_keys_in_order() {
    let mut map: OrderedMap<String, u64> = OrderedMap::new();
    for (word, n) in [("pear", 1), ("apple", 2), ("fig", 3), ("apples", 4), ("fig", 5)] {
        map.insert(word.to_string(), n);
    }
    assert_eq!(map.keys(), vec!["apple", "apples", "fig", "pear"]);
    assert_eq!(map.get(&"fig".to_string()), Some(&5));
    assert_eq!(map.remove(&"apple".to_string()), Some(2));
    assert_eq!(map.remove(&"apple".to_string()), None);
    assert_eq!(map.len(), 3);
    assert_eq!(map.at(0), (&"apples".to_string(), &4));
    let copy = map.duplicate();
    assert_eq!(copy.keys(), map.keys());
    assert_eq!(map.window(&KeyRange::after("b".to_string())), (1, 3));
    assert!(map.contains_key(&"pear".to_string()));
    assert_eq!("b".to_string().place(&"ab".to_string()), Placement::After);
    assert_eq!(IpAddr::V6(0).place(&IpAddr::v4(255, 0, 0, 0)), Placement::After);
    assert_eq!(IpAddr::v4(9, 0, 0, 0).place(&IpAddr::v4(10, 0, 0, 0)), Placement::Before);
}

#[test]
fn numbers_are_written_in_decimal() {
    for n in [0usize, 7, 10, 99, 100, 1234567890, usize::MAX] {
        let mut text = "n=".to_string();
        append_decimal(&mut text, n);
        assert_eq!(text, format!("n={n}"));
    }
}

#[test]
fn merging_keeps_the_newer_entry_and_the_held_one_on_a_tie() {
    let old = Entry::present(stamp(1), 1u32);
    let new = Entry::present(stamp(2), 2u32);
    let tie = Entry::present(stamp(1), 3u32);
    assert_eq!(old.merge(&new).value(), Some(&2));
    assert_eq!(new.merge(&old).value(), Some(&2));
    assert_eq!(old.merge(&tie).value(), Some(&1));
    assert_eq!(tie.merge(&old).value(), Some(&3));
    let gone: Entry<Timestamp, u32> = Entry::tombstone(stamp(9));
    assert!(gone.merge(&new).is_tombstone());
    assert_eq!(new.project().into_value(), Some(2));
}

#[test]
fn snapshots_are_shared_until_the_next_write() {
    let mut map = store();
    put(&mut map, 1, 1, "a");
    let first = map.snapshot();
    assert!(Arc::ptr_eq(&first, &map.snapshot()), "a snapshot copies nothing");
    assert!(Arc::ptr_eq(&map.value_snapshot(), &map.value_snapshot()));
    put(&mut map, 2, 2, "b");
    assert!(!Arc::ptr_eq(&first, &map.snapshot()));
    assert_eq!((first.len(), map.snapshot().len()), (1, 2));

    let mut replica = read_replica();
    replica.integrate(vec![(1, State::Present("a".to_string()))]);
    let held = replica.snapshot();
    assert!(Arc::ptr_eq(&held, &replica.snapshot()));
    replica.integrate(vec![(1, State::Tombstone)]);
    assert_eq!(held.get(&1).unwrap().as_value().unwrap(), "a");
    assert!(replica.snapshot().get(&1).unwrap().is_tombstone());
}
