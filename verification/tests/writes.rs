//! Local writes, broadcasts and the write-broadcast budget.

use reconcile::clock::{Hlc, LogicalCounter, NodeId, PhysicalTime, Timestamp};
use reconcile::entry::Entry;
use reconcile::net::{IpAddr, IpNet};
use reconcile::ordered_map::OrderedMap;
use reconcile::observability::{describe, timer, Change, Kind, Metrics, Unit};
use reconcile::replica::write::run_pre_insert;
use reconcile::replica::Replica;
use reconcile::replicated_map::Config;
use reconcile::time::{Duration, Instant};

const NOW: Instant = Instant { nanos: 5_000 };

fn stamp(ms: u64) -> Timestamp {
    Timestamp::new(
        Hlc::new(PhysicalTime::from_millis(ms), LogicalCounter::new(0)),
        NodeId::new(1),
    )
}

fn engine(config: Config) -> Replica<i32, i32> {
    Replica::new(
        &config.with_insecure_no_key(),
        NodeId::new(1),
        IpNet::new(IpAddr::v4(127, 0, 0, 0), 8).unwrap(),
    )
    .unwrap()
}

#[test]
fn budget_guard_limits_and_releases_slots() {
    let mut eng = engine(Config::default().with_max_concurrent_broadcasts(1));
    let slot_a = eng.try_claim_broadcast_slot();
    assert!(slot_a.is_some(), "first slot must be available");
    assert_eq!(eng.broadcasts_in_flight(), 1);

    let slot_b = eng.try_claim_broadcast_slot();
    assert!(slot_b.is_none(), "second slot must be rejected at budget 1");
    assert_eq!(eng.broadcasts_in_flight(), 1);

    eng.release_broadcast_slot(slot_a.unwrap());
    assert_eq!(eng.broadcasts_in_flight(), 0);
    assert!(
        eng.try_claim_broadcast_slot().is_some(),
        "slot must be available after release"
    );
}

#[test]
fn zero_budget_rejects_every_claim() {
    let mut eng = engine(Config::default().with_max_concurrent_broadcasts(0));
    assert!(eng.try_claim_broadcast_slot().is_none());
    assert_eq!(eng.broadcasts_in_flight(), 0);
}

#[test]
fn max_concurrent_broadcasts_reports_the_configured_non_zero_budget() {
    let eng = engine(Config::default().with_max_concurrent_broadcasts(7));
    assert_eq!(eng.max_concurrent_broadcasts(), 7);
}

#[test]
fn insert_still_applies_locally_at_a_zero_budget_but_never_broadcasts() {
    let mut eng = engine(Config::default().with_max_concurrent_broadcasts(0));
    eng.seed_peer(IpAddr::v4(127, 0, 0, 9), NOW);
    let (previous, plan) = eng.insert(1, Entry::present(stamp(1), 10), NOW);
    assert!(previous.is_none());
    assert!(plan.is_none());
    assert_eq!(eng.store.map().get(&1).unwrap().value(), Some(&10));
}

#[test]
fn broadcast_backpressure_increments_the_counter_at_a_zero_budget() {
    let mut eng = engine(Config::default().with_max_concurrent_broadcasts(0));
    eng.insert(1, Entry::present(stamp(1), 10), NOW);
    let events = eng.metrics.drain();
    let hits: Vec<_> = events
        .iter()
        .filter(|e| e.name == "reconcile_broadcast_backpressure_total")
        .collect();
    assert_eq!(hits.len(), 1, "expected one broadcast-backpressure skip to be counted");
    assert_eq!(hits[0].label, Some(("path", "eager")));
}

#[test]
fn local_mutations_increment_metric_counters() {
    let mut eng = engine(Config::default());
    eng.just_insert(1, Entry::present(stamp(1), 10));
    eng.just_insert(2, Entry::present(stamp(2), 20));
    eng.just_insert(1, Entry::tombstone(stamp(3)));
    let events = eng.metrics.drain();
    let names: Vec<_> = events.iter().map(|e| e.name).collect();
    assert_eq!(
        names,
        vec!["reconcile_inserts_total", "reconcile_inserts_total", "reconcile_removes_total"]
    );
    assert!(events.iter().all(|e| e.change == Change::Increment(1)));
    assert!(eng.metrics.drain().is_empty());
    assert_eq!(eng.change_count(), 3);
    eng.reset_change_count();
    assert_eq!(eng.change_count(), 0);
}

#[test]
fn a_broadcast_goes_to_every_fresh_peer_over_one_slot() {
    let mut eng = engine(Config::default());
    let fresh = IpAddr::v4(127, 0, 0, 2);
    let stale = IpAddr::v4(127, 0, 0, 3);
    let late = NOW.plus(Duration::from_secs(60));
    eng.seed_peer(stale, NOW);
    eng.seed_peer(fresh, late);
    let (_, plan) = eng.insert(1, Entry::present(stamp(1), 10), late);
    let plan = plan.unwrap();
    assert_eq!(plan.peers, vec![fresh]);
    assert_eq!(plan.updates.len(), 1);
    assert_eq!(plan.updates[0].0, 1);
    assert_eq!(plan.updates[0].1.value(), Some(&10));
    assert_eq!(eng.broadcasts_in_flight(), 1);
    eng.release_broadcast_slot(plan.guard);
    assert_eq!(eng.broadcasts_in_flight(), 0);
}

#[test]
fn writes_are_coalesced_while_the_window_is_open() {
    let mut eng = engine(Config::default().with_coalesce_window(Duration::from_millis(5)));
    assert!(eng.flush_broadcasts(NOW).is_none());
    assert!(eng.insert(1, Entry::present(stamp(1), 10), NOW).1.is_none());
    assert!(eng
        .insert_bulk(
            &vec![(2, Entry::present(stamp(2), 20)), (3, Entry::tombstone(stamp(3)))],
            NOW
        )
        .is_none());
    assert!(eng.broadcast_update(4, Entry::present(stamp(4), 40), NOW).is_none());
    assert_eq!(eng.broadcasts_in_flight(), 0);
    let plan = eng.flush_broadcasts(NOW).unwrap();
    let keys: Vec<i32> = plan.updates.iter().map(|(k, _)| *k).collect();
    assert_eq!(keys, vec![1, 2, 3, 4]);
    assert_eq!(eng.broadcasts_in_flight(), 1);
    assert!(eng.flush_broadcasts(NOW).is_none());
}

#[test]
fn bulk_writes_apply_in_order_and_keep_the_indices_in_step() {
    let mut eng = engine(Config::default());
    eng.just_insert_bulk(&vec![
        (1, Entry::present(stamp(1), 10)),
        (2, Entry::present(stamp(1), 20)),
        (1, Entry::tombstone(stamp(2))),
        (2, Entry::present(stamp(2), 21)),
        (3, Entry::tombstone(stamp(3))),
        (3, Entry::present(stamp(4), 30)),
    ]);
    assert_eq!(eng.change_count(), 6);
    assert_eq!(eng.store.map().len(), 3);
    assert!(eng.store.projection().get(&1).unwrap().is_tombstone());
    assert_eq!(eng.store.projection().get(&2).unwrap().as_value(), Some(&21));
    assert_eq!(eng.store.projection().get(&3).unwrap().as_value(), Some(&30));
    assert_eq!(eng.store.live_tombstones().keys(), vec![1]);
    let (previous, plan) = eng.try_insert(1, Entry::present(stamp(5), 11), NOW).ok().unwrap();
    assert!(previous.unwrap().is_tombstone());
    assert!(eng.store.live_tombstones().keys().is_empty());
    let again = eng.broadcast_update_with_claimed_slot(
        1,
        Entry::present(stamp(5), 11),
        plan.guard,
        NOW,
    );
    assert_eq!(again.updates.len(), 1);
    assert_eq!(eng.broadcasts_in_flight(), 1);
}

#[test]
fn every_helper_reports_under_its_own_name() {
    let mut log = Metrics::new();
    log.record_bytes_sent(10);
    log.record_bytes_received(20);
    log.record_send_failure();
    log.record_value_oversized();
    log.record_datagram_dropped("replay");
    log.record_tombstone_stamp_bounded("clamped");
    let start = timer(Instant { nanos: 100 });
    log.record_round_duration(start, Instant { nanos: 350 });
    log.record_handle_duration(None, Instant { nanos: 350 });
    log.record_handle_duration(start, Instant { nanos: 101 });
    log.record_persistence_failure(2);
    log.record_persistence_success();
    log.record_discovery_failure();
    let events: Vec<_> = log
        .drain()
        .iter()
        .map(|e| (e.name, e.label, e.change))
        .collect();
    assert_eq!(
        events,
        vec![
            ("reconcile_messages_sent_total", None, Change::Increment(1)),
            ("reconcile_bytes_sent_total", None, Change::Increment(10)),
            ("reconcile_messages_received_total", None, Change::Increment(1)),
            ("reconcile_bytes_received_total", None, Change::Increment(20)),
            ("reconcile_send_failures_total", None, Change::Increment(1)),
            ("reconcile_values_oversized_total", None, Change::Increment(1)),
            ("reconcile_datagrams_dropped_total", Some(("reason", "replay")), Change::Increment(1)),
            (
                "reconcile_tombstone_stamp_bounded_total",
                Some(("outcome", "clamped")),
                Change::Increment(1)
            ),
            ("reconcile_round_duration_seconds", None, Change::Record(Duration { nanos: 250 })),
            (
                "reconcile_handle_messages_duration_seconds",
                None,
                Change::Record(Duration { nanos: 1 })
            ),
            ("reconcile_persistence_failures_total", None, Change::Increment(1)),
            ("reconcile_persistence_failures_current", None, Change::Assign(2)),
            ("reconcile_persistence_failures_current", None, Change::Assign(0)),
            ("reconcile_discovery_failures_total", None, Change::Increment(1)),
        ]
    );
}

#[test]
fn every_metric_is_described_once() {
    let all = describe();
    assert_eq!(all.len(), 25);
    for (i, one) in all.iter().enumerate() {
        assert!(all[i + 1..].iter().all(|other| other.name != one.name));
        assert!(one.name.starts_with("reconcile_"));
    }
    let bytes: Vec<_> = all.iter().filter(|d| d.unit == Unit::Bytes).map(|d| d.name).collect();
    assert_eq!(bytes, vec!["reconcile_bytes_sent_total", "reconcile_bytes_received_total"]);
    let spans = all.iter().filter(|d| d.kind == Kind::Histogram).count();
    assert_eq!(spans, 2);
    let peers = all.iter().find(|d| d.name == "reconcile_peers_current").unwrap();
    assert_eq!(peers.kind, Kind::Gauge);
    assert_eq!(peers.help, "Current size of the gossip-routing peer set");
}

type Held = OrderedMap<i32, Entry<Timestamp, i32>>;

#[test]
fn a_write_is_hooked_once_before_the_map_changes() {
    let mut eng = engine(Config::default());
    eng.just_insert(1, Entry::present(stamp(1), 10));
    let (previous, seen) = eng.just_insert_hooked(
        1,
        Entry::present(stamp(2), 20),
        Vec::new(),
        |mut seen: Vec<(i32, Option<i32>)>, held: &Held, key: &i32, entry: &Entry<Timestamp, i32>| {
            assert_eq!(entry.value(), Some(&20));
            seen.push((*key, held.get(key).and_then(|e| e.value().copied())));
            seen
        },
    );
    assert_eq!(seen, vec![(1, Some(10))]);
    assert_eq!(previous.unwrap().value(), Some(&10));
    assert_eq!(eng.store.map().get(&1).unwrap().value(), Some(&20));

    let none: Vec<(i32, Entry<Timestamp, i32>)> = vec![];
    let calls = run_pre_insert(
        &|calls: u32, _: &Held, _: &i32, _: &Entry<Timestamp, i32>| calls + 1,
        eng.store.map(),
        &none,
        0,
    );
    assert_eq!(calls, 0);
}

#[test]
fn every_broadcast_peer_is_owed_an_answer_and_the_slot_is_free_again() {
    let mut eng = engine(Config::default().with_max_concurrent_broadcasts(1));
    let (a, b) = (IpAddr::v4(127, 0, 0, 2), IpAddr::v4(127, 0, 0, 3));
    eng.seed_peer(a, NOW);
    eng.seed_peer(b, NOW);
    let (_, plan) = eng.insert(1, Entry::present(stamp(1), 10), NOW);
    let plan = plan.unwrap();
    assert_eq!(eng.broadcasts_in_flight(), 1);
    assert_eq!(eng.pending_repairs.len(), 0);
    eng.conclude_broadcast(&plan.peers, plan.guard, NOW);
    assert_eq!(eng.broadcasts_in_flight(), 0);
    assert_eq!(eng.pending_repairs.keys(), vec![a, b]);
    assert_eq!(eng.pending_repairs.get(&a).unwrap().attempts, 0);
}

#[test]
fn a_batch_is_hooked_in_order_and_written_one_after_the_other() {
    let batch = vec![
        (1, Entry::present(stamp(1), 10)),
        (2, Entry::tombstone(stamp(2))),
        (1, Entry::present(stamp(3), 30)),
    ];
    let mut bulk = engine(Config::default());
    let seen = bulk.just_insert_bulk_hooked(
        &batch,
        Vec::new(),
        &|mut seen: Vec<(usize, i32, Timestamp)>, held: &Held, key: &i32, entry: &Entry<Timestamp, i32>| {
            seen.push((held.len(), *key, entry.stamp));
            seen
        },
    );
    assert_eq!(
        seen,
        vec![(0, 1, stamp(1)), (0, 2, stamp(2)), (0, 1, stamp(3))],
        "once each, in order, while none of the batch is in the map"
    );
    let mut single = engine(Config::default());
    for (key, entry) in batch {
        single.just_insert(key, entry);
    }
    assert_eq!(bulk.change_count(), 3);
    assert_eq!(bulk.change_count(), single.change_count());
    assert_eq!(bulk.store.map().get(&1).unwrap().value(), Some(&30));
    assert_eq!(single.store.map().get(&1).unwrap().value(), Some(&30));
    assert_eq!(bulk.store.live_tombstones().keys(), vec![2]);
    assert_eq!(single.store.live_tombstones().keys(), vec![2]);
    assert_eq!(bulk.metrics.drain().len(), single.metrics.drain().len());
}
