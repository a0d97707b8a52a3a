//! Saving, restoring, and the cadence of snapshots.

use std::cell::{Cell, RefCell};

use reconcile::clock::{Hlc, LogicalCounter, NodeId, PhysicalTime, Timestamp};
use reconcile::entry::Entry;
use reconcile::net::{IpAddr, IpNet};
use reconcile::observability::Change;
use reconcile::ordered_map::OrderedMap;
use reconcile::replicated_map::persistence::{
    after_attempt, backoff_delay, load_with_retries, LoadFailure, LoadStep, PersistedState, PersistenceLoadError,
    LOAD_RETRY_ATTEMPTS, SNAPSHOT_CHUNK_SIZE,
};
use reconcile::replicated_map::{Config, ReplicatedMap};
use reconcile::time::{Duration, Instant};

const NOW: Instant = Instant { nanos: 77 };

fn stamp(ms: u64) -> Timestamp {
    Timestamp::new(
        Hlc::new(PhysicalTime::from_millis(ms), LogicalCounter::new(0)),
        NodeId::new(1),
    )
}

fn store_with(config: Config) -> ReplicatedMap<u32, u32> {
    ReplicatedMap::new(
        &config.with_insecure_no_key(),
        NodeId::new(1),
        IpNet::new(IpAddr::v4(127, 0, 0, 0), 8).unwrap(),
    )
    .ok()
    .unwrap()
}

fn store() -> ReplicatedMap<u32, u32> {
    store_with(Config::default())
}

fn other(text: &str) -> std::io::Error {
    std::io::Error::other(text.to_string())
}

#[test]
fn persistence_load_error_display_messages() {
    let err = std::io::Error::other("boom");
    assert_eq!(
        PersistenceLoadError::Corrupt(err).to_string(),
        "persisted state is corrupt or from an incompatible format, refusing to silently start fresh: boom"
    );
    let err = std::io::Error::other("boom");
    assert_eq!(
        PersistenceLoadError::RetriesExhausted(err).to_string(),
        format!(
            "failed to load persisted state after {} attempts: boom",
            LOAD_RETRY_ATTEMPTS
        )
    );
}

#[test]
fn delays_double_and_stay_under_two_seconds() {
    let delays: Vec<Duration> = (1..LOAD_RETRY_ATTEMPTS).map(backoff_delay).collect();
    assert_eq!(
        delays,
        vec![
            Duration::from_millis(100),
            Duration::from_millis(200),
            Duration::from_millis(400),
            Duration::from_millis(800),
        ]
    );
    let total: u128 = delays.iter().map(|d| d.nanos).sum();
    assert!(total < Duration::from_secs(2).nanos);
    assert_eq!(backoff_delay(32).nanos, 100_000_000u128 << 31);
}

/// What loading did, call by call.
#[derive(Debug, PartialEq)]
enum Call {
    Load(u32),
    Pause(Duration),
}

fn noted(mut calls: Vec<Call>, call: Call) -> Vec<Call> {
    calls.push(call);
    calls
}

#[test]
fn a_transient_failure_is_retried_until_it_clears() {
    let (loaded, calls): (Result<u8, PersistenceLoadError>, _) = load_with_retries(
        Vec::new(),
        |calls, attempt| {
            let outcome = if attempt < 3 {
                Err(LoadFailure::Transient(other("not mounted")))
            } else {
                Ok(9)
            };
            (noted(calls, Call::Load(attempt)), outcome)
        },
        |calls, delay| noted(calls, Call::Pause(delay)),
    );
    assert_eq!(loaded.unwrap(), 9);
    assert_eq!(
        calls,
        vec![
            Call::Load(1),
            Call::Pause(Duration::from_millis(100)),
            Call::Load(2),
            Call::Pause(Duration::from_millis(200)),
            Call::Load(3),
        ]
    );
}

#[test]
fn a_transient_failure_that_persists_exhausts_the_retries() {
    let (loaded, calls): (Result<u8, PersistenceLoadError>, _) = load_with_retries(
        Vec::new(),
        |calls, attempt| {
            (noted(calls, Call::Load(attempt)), Err(LoadFailure::Transient(other("io"))))
        },
        |calls, delay| noted(calls, Call::Pause(delay)),
    );
    assert!(matches!(loaded, Err(PersistenceLoadError::RetriesExhausted(_))));
    assert_eq!(
        calls,
        vec![
            Call::Load(1),
            Call::Pause(Duration::from_millis(100)),
            Call::Load(2),
            Call::Pause(Duration::from_millis(200)),
            Call::Load(3),
            Call::Pause(Duration::from_millis(400)),
            Call::Load(4),
            Call::Pause(Duration::from_millis(800)),
            Call::Load(LOAD_RETRY_ATTEMPTS),
        ]
    );
}

#[test]
fn damaged_state_is_never_retried() {
    let (loaded, calls): (Result<u8, PersistenceLoadError>, _) = load_with_retries(
        Vec::new(),
        |calls, attempt| {
            (noted(calls, Call::Load(attempt)), Err(LoadFailure::InvalidData(other("garbled"))))
        },
        |_, _| panic!("no pause before giving up"),
    );
    assert_eq!(calls, vec![Call::Load(1)]);
    assert!(matches!(loaded, Err(PersistenceLoadError::Corrupt(_))));
}

#[test]
fn each_outcome_of_an_attempt_is_acted_on() {
    assert!(matches!(after_attempt(1, Ok(7)), LoadStep::Loaded(7)));
    assert!(matches!(after_attempt(LOAD_RETRY_ATTEMPTS, Ok(7)), LoadStep::Loaded(7)));
    let transient = || Err::<u8, LoadFailure>(LoadFailure::Transient(other("io")));
    for attempt in 1..LOAD_RETRY_ATTEMPTS {
        match after_attempt(attempt, transient()) {
            LoadStep::Again(delay) => assert_eq!(delay, backoff_delay(attempt)),
            step => panic!("a transient failure is retried: {step:?}"),
        }
    }
    assert!(matches!(
        after_attempt(LOAD_RETRY_ATTEMPTS, transient()),
        LoadStep::Refused(PersistenceLoadError::RetriesExhausted(_))
    ));
    let damaged = Err::<u8, LoadFailure>(LoadFailure::InvalidData(other("garbled")));
    assert!(matches!(
        after_attempt(1, damaged),
        LoadStep::Refused(PersistenceLoadError::Corrupt(_))
    ));
}

type Held = OrderedMap<u32, Entry<Timestamp, u32>>;

/// A pre-insert hook that notes nothing.
fn no_hook(_: (), _: &Held, _: &u32, _: &Entry<Timestamp, u32>) {}

#[test]
fn loaded_entries_replay_through_the_hook_before_any_is_restored() {
    let mut map = store();
    map.engine.just_insert(7, Entry::present(stamp(1), 70));
    let state = PersistedState::from_entries(vec![
        (2u32, Entry::present(stamp(5), 20u32)),
        (1, Entry::tombstone(stamp(6))),
    ]);
    let saved = RefCell::new(Some(state));
    let (result, seen) = map.with_persistence(
        Vec::new(),
        |seen, _| (seen, Ok(saved.borrow_mut().take())),
        |seen, _| seen,
        &|mut seen: Vec<(usize, u32)>, held: &Held, key: &u32, _: &Entry<Timestamp, u32>| {
            seen.push((held.len(), *key));
            seen
        },
    );
    let (restored, observed) = result.unwrap();
    assert_eq!(seen, vec![(1, 2), (1, 1)], "once each, in order, before any was restored");
    assert_eq!(observed, vec![stamp(5), stamp(6)]);
    assert_eq!(restored.engine.store.map().len(), 3);
}

#[test]
fn a_failed_save_is_told_to_the_hook_once_and_a_success_never() {
    let mut map = store();
    let (result, told) = map.snapshot_now(
        |_| Err(other("disk full")),
        Vec::new(),
        |mut told: Vec<String>, error| {
            told.push(error.to_string());
            told
        },
        NOW,
    );
    assert_eq!(result.unwrap_err().to_string(), "disk full");
    assert_eq!(told, vec!["disk full"]);
    let (result, ()) = map.snapshot_now(|_| Ok(()), (), |(), _| panic!("nothing failed"), NOW);
    assert!(result.is_ok());
}

#[test]
fn a_restart_recovers_entries_tombstones_members_and_acks() {
    let peer = IpAddr::v4(127, 0, 0, 9);
    let mut first = store();
    first.engine.just_insert(1, Entry::present(stamp(3), 10));
    first.engine.just_insert(2, Entry::tombstone(stamp(4)));
    first.engine.members.insert(peer, ());
    first.engine.record_tombstone_acks(vec![(2, 5)], peer);
    let saved: RefCell<Option<PersistedState<u32, u32>>> = RefCell::new(None);
    first
        .snapshot_now(
            |state| {
                *saved.borrow_mut() = Some(PersistedState::new(
                    state.entries.iter().map(|(k, e)| (*k, entry_copy(e))).collect(),
                    members_copy(state),
                    acks_copy(state),
                ));
                Ok(())
            },
            (),
            |(), _| {},
            NOW,
        )
        .0
        .unwrap();

    let (restarted, observed) = store()
        .with_persistence((), |(), _| ((), Ok(saved.borrow_mut().take())), |(), _| {}, &no_hook)
        .0
        .unwrap();
    assert_eq!(observed, vec![stamp(3), stamp(4)]);
    assert_eq!(restarted.get_cloned(&1), Some(10));
    assert!(restarted.engine.store.map().get(&2).unwrap().is_tombstone());
    assert_eq!(restarted.engine.store.map().get(&1).unwrap().stamp, stamp(3));
    assert!(restarted.engine.members.contains_key(&peer));
    assert_eq!(restarted.engine.tombstone_acks.get(&2).unwrap().get(&peer), Some(&5));

    let (fresh, observed) =
        store().with_persistence((), |(), _| ((), Ok(None)), |(), _| {}, &no_hook).0.unwrap();
    assert!(fresh.is_empty() && observed.is_empty());
    assert!(store()
        .with_persistence(
            (),
            |(), _| ((), Err(LoadFailure::InvalidData(other("x")))),
            |(), _| {},
            &no_hook,
        )
        .0
        .is_err());
}

fn entry_copy(entry: &Entry<Timestamp, u32>) -> Entry<Timestamp, u32> {
    match entry.value() {
        Some(value) => Entry::present(entry.stamp, *value),
        None => Entry::tombstone(entry.stamp),
    }
}

fn members_copy(state: &PersistedState<u32, u32>) -> reconcile::peers::AddrSet {
    let mut copy = reconcile::ordered_map::OrderedMap::new();
    for addr in state.members.keys() {
        copy.insert(addr, ());
    }
    copy
}

fn acks_copy(
    state: &PersistedState<u32, u32>,
) -> reconcile::ordered_map::OrderedMap<u32, reconcile::ordered_map::OrderedMap<IpAddr, u64>> {
    let mut copy = reconcile::ordered_map::OrderedMap::new();
    for key in state.tombstone_acks.keys() {
        let mut versions = reconcile::ordered_map::OrderedMap::new();
        let held = state.tombstone_acks.get(&key).unwrap();
        for addr in held.keys() {
            versions.insert(addr, *held.get(&addr).unwrap());
        }
        copy.insert(key, versions);
    }
    copy
}

#[test]
fn a_capture_spans_several_chunks_in_key_order() {
    let mut map = store();
    let n = (SNAPSHOT_CHUNK_SIZE * 2 + 5) as u32;
    let batch: Vec<(u32, Entry<Timestamp, u32>)> =
        (0..n).map(|k| (k, Entry::present(stamp(1), k))).collect();
    map.engine.just_insert_bulk(&batch);
    assert_eq!(map.engine.capture_chunk(&None).len(), SNAPSHOT_CHUNK_SIZE);
    let second = map.engine.capture_chunk(&Some(SNAPSHOT_CHUNK_SIZE as u32 - 1));
    assert_eq!(second[0].0, SNAPSHOT_CHUNK_SIZE as u32);
    assert!(map.engine.capture_chunk(&Some(n)).is_empty());
    let state = map.engine.capture();
    assert_eq!(state.entries.len(), n as usize);
    assert!(state.entries.iter().enumerate().all(|(i, (k, _))| i as u32 == *k));
}

#[test]
fn write_during_save_stays_pending_and_is_recovered_by_next_snapshot() {
    let mut store = store_with(Config::default().with_snapshot_interval(None));
    store.engine.just_insert(1, Entry::present(stamp(1), 10));
    let (state, captured) = store.begin_snapshot();
    store.engine.just_insert(2, Entry::present(stamp(2), 20)); // commits before save returns
    store.finish_snapshot(captured, true, NOW);
    assert_eq!(store.engine.change_count(), 1, "post-capture write lost");
    assert_eq!(state.entries.len(), 1);

    let saved = Cell::new(0);
    store
        .snapshot_now(
            |state| {
                saved.set(state.entries.len());
                Ok(())
            },
            (),
            |(), _| {},
            NOW,
        )
        .0
        .unwrap();
    assert_eq!(store.engine.change_count(), 0);
    assert_eq!(saved.get(), 2);
}

#[test]
fn metadata_only_decommission_and_ack_forget_remain_snapshot_pending() {
    let mut store = store_with(Config::default().with_snapshot_interval(None));
    let peer = IpAddr::v4(127, 0, 0, 9);
    store.engine.just_insert(1, Entry::present(stamp(1), 10));
    store.engine.just_insert(1, Entry::tombstone(stamp(2)));
    store.engine.just_insert(2, Entry::present(stamp(3), 20));
    store.engine.members.insert(peer, ());
    store.engine.record_tombstone_acks(vec![(1, 7)], peer);
    store.snapshot_now(|_| Ok(()), (), |(), _| {}, NOW).0.unwrap();
    assert_eq!(store.engine.change_count(), 0);

    store.engine.decommission_peer(peer);
    assert_eq!(
        store.engine.change_count(),
        2,
        "membership and ack removals were not tracked"
    );
    let (state, _) = store.begin_snapshot();
    assert!(!state.members.contains_key(&peer));
    assert!(!state.tombstone_acks.get(&1).unwrap().contains_key(&peer));
    assert!(state.entries[0].1.is_tombstone());

    store.engine.record_tombstone_acks(vec![(1, 7)], peer);
    store.snapshot_now(|_| Ok(()), (), |(), _| {}, NOW).0.unwrap();
    store.engine.forget_tombstone(&1);
    assert_eq!(store.engine.change_count(), 1);
    let (state, _) = store.begin_snapshot();
    assert!(!state.tombstone_acks.contains_key(&1));
}

#[test]
fn snapshot_periodically_skips_below_change_threshold() {
    let mut store = store_with(Config::default().with_snapshot_change_threshold(3));
    store.engine.just_insert(1, Entry::present(stamp(1), 10));
    store.engine.just_insert(2, Entry::present(stamp(2), 20));
    assert!(
        !store.snapshot_due(),
        "fewer changes than snapshot_change_threshold must never trigger a write"
    );
}

#[test]
fn snapshot_periodically_writes_once_threshold_reached() {
    let mut store = store_with(Config::default().with_snapshot_change_threshold(3));
    store.engine.just_insert(1, Entry::present(stamp(1), 10));
    store.engine.just_insert(2, Entry::present(stamp(2), 20));
    store.engine.just_insert(3, Entry::present(stamp(3), 30));
    assert!(
        store.snapshot_due(),
        "reaching snapshot_change_threshold must trigger a write on a later wakeup"
    );
}

#[test]
fn snapshot_periodically_does_not_rewrite_when_idle_after_a_snapshot() {
    let mut store = store();
    assert!(!store.snapshot_due());
    store.engine.just_insert(1, Entry::present(stamp(1), 10));
    assert!(store.snapshot_due());
    store.snapshot_now(|_| Ok(()), (), |(), _| {}, NOW).0.unwrap();
    assert!(
        !store.snapshot_due(),
        "an idle node after its first snapshot must not be snapshotted again"
    );
    assert_eq!(store.last_snapshot_at, Some(NOW));
}

#[test]
fn snapshot_interval_none_disables_periodic_task() {
    let mut store = store_with(Config::default().with_snapshot_interval(None));
    store.engine.just_insert(1, Entry::present(stamp(1), 10));
    assert!(!store.snapshot_due());
}

#[test]
fn persistence_failures_recorded_as_counter_and_gauge_resets_on_success() {
    let mut store = store();
    store.engine.just_insert(1, Entry::present(stamp(1), 10));
    store.engine.metrics.drain();
    for _ in 0..2 {
        let err = store
            .snapshot_now(|_| Err(other("disk full")), (), |(), _| {}, NOW)
            .0
            .unwrap_err();
        assert_eq!(err.to_string(), "disk full");
    }
    assert_eq!(store.persistence_consecutive_failures, 2);
    assert_eq!(store.engine.change_count(), 1, "a failed save retires nothing");
    assert_eq!(store.last_snapshot_at, None);
    store.snapshot_now(|_| Ok(()), (), |(), _| {}, NOW).0.unwrap();
    assert_eq!(store.persistence_consecutive_failures, 0);
    let names: Vec<_> = store.engine.metrics.drain().iter().map(|e| (e.name, e.change)).collect();
    assert_eq!(
        names,
        vec![
            ("reconcile_persistence_failures_total", Change::Increment(1)),
            ("reconcile_persistence_failures_current", Change::Assign(1)),
            ("reconcile_persistence_failures_total", Change::Increment(1)),
            ("reconcile_persistence_failures_current", Change::Assign(2)),
            ("reconcile_persistence_failures_current", Change::Assign(0)),
        ]
    );
}

#[test]
fn entries_alone_restore_without_members() {
    let state = PersistedState::from_entries(vec![(1u32, Entry::present(stamp(0), 1u32))]);
    assert_eq!(state.members.len(), 0);
    let cell = RefCell::new(Some(state));
    let (map, _) = store()
        .with_persistence((), |(), _| ((), Ok(cell.borrow_mut().take())), |(), _| {}, &no_hook)
        .0
        .unwrap();
    assert_eq!(map.get_cloned(&1), Some(1));
}
