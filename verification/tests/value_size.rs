//! Checked writes: the size ceiling and the broadcast budget.

use reconcile::bounds::Value;
use reconcile::clock::{Hlc, LogicalCounter, NodeId, PhysicalTime, Timestamp};
use reconcile::net::{IpAddr, IpNet};
use reconcile::replicated_map::value_size::check_value_size;
use reconcile::replicated_map::{Backpressure, Config, ReplicatedMap, ValueTooLarge, WriteRejected};
use reconcile::time::Instant;

const NOW: Instant = Instant { nanos: 1_000 };

fn stamp(ms: u64) -> Timestamp {
    Timestamp::new(
        Hlc::new(PhysicalTime::from_millis(ms), LogicalCounter::new(0)),
        NodeId::new(1),
    )
}

fn store(config: Config) -> ReplicatedMap<String, Vec<u8>> {
    ReplicatedMap::new(
        &config.with_insecure_no_key(),
        NodeId::new(1),
        IpNet::new(IpAddr::v4(127, 0, 0, 0), 8).unwrap(),
    )
    .ok()
    .unwrap()
}

fn expect_too_large(err: WriteRejected) -> ValueTooLarge {
    match err {
        WriteRejected::TooLarge(err) => err,
        other => panic!("expected WriteRejected::TooLarge, got {other:?}"),
    }
}

fn store_with_ceiling(max_value_size: usize) -> ReplicatedMap<String, Vec<u8>> {
    store(Config::default().with_max_value_size(max_value_size))
}

#[test]
fn try_insert_without_max_value_size_never_rejects() {
    let mut store = store(Config::default());
    assert!(store
        .try_insert("a".to_string(), vec![0; 10_000], stamp(1), NOW)
        .is_ok());
}

#[test]
fn try_insert_rejects_only_past_the_configured_ceiling() {
    let mut store = store_with_ceiling(8);
    let accepted = store.try_insert("a".to_string(), vec![0; 3], stamp(1), NOW);
    assert!(matches!(accepted, Ok((None, _))));

    let err = expect_too_large(
        store
            .try_insert("b".to_string(), vec![0; 100], stamp(2), NOW)
            .err()
            .expect("100 raw bytes cannot fit an 8-byte ceiling"),
    );
    assert_eq!(err.max_value_size, 8);
    assert_eq!(err.encoded_size, 101); // 1-byte length prefix + 100 bytes
}

#[test]
fn try_insert_rejection_needs_no_tokio_runtime_and_touches_no_local_state() {
    let mut store = store_with_ceiling(4);
    let err = expect_too_large(
        store
            .try_insert("a".to_string(), vec![0; 100], stamp(1), NOW)
            .err()
            .expect("100 raw bytes cannot fit a 4-byte ceiling"),
    );
    assert_eq!(err.max_value_size, 4);
    assert_eq!(store.get_cloned(&"a".to_string()), None);
    assert_eq!(store.engine.change_count(), 0);
    assert_eq!(store.engine.broadcasts_in_flight(), 0);
}

#[test]
fn value_too_large_display_reports_the_actual_numbers() {
    let too_large = ValueTooLarge {
        encoded_size: 100,
        max_value_size: 8,
    };
    assert_eq!(
        too_large.to_string(),
        "value encodes to 100 bytes, exceeding Config::max_value_size (8 bytes)"
    );
}

#[test]
fn write_rejected_display_delegates_to_the_wrapped_cause() {
    let too_large = ValueTooLarge {
        encoded_size: 100,
        max_value_size: 8,
    };
    assert_eq!(
        WriteRejected::TooLarge(too_large).to_string(),
        "value encodes to 100 bytes, exceeding Config::max_value_size (8 bytes)"
    );

    let backpressure = Backpressure {
        in_flight: 4,
        max_in_flight: 4,
    };
    assert_eq!(
        WriteRejected::Backpressure(backpressure).to_string(),
        "write-broadcast egress budget exhausted: 4/4 broadcasts in flight"
    );
}

#[test]
fn write_rejected_source_exposes_the_wrapped_cause() {
    let too_large = ValueTooLarge {
        encoded_size: 100,
        max_value_size: 8,
    };
    let err = WriteRejected::TooLarge(too_large);
    assert_eq!(
        err.source().unwrap().to_string(),
        "value encodes to 100 bytes, exceeding Config::max_value_size (8 bytes)"
    );

    let backpressure = Backpressure {
        in_flight: 4,
        max_in_flight: 4,
    };
    let err = WriteRejected::Backpressure(backpressure);
    assert_eq!(
        err.source().unwrap().to_string(),
        "write-broadcast egress budget exhausted: 4/4 broadcasts in flight"
    );
}

#[test]
fn try_insert_accepts_a_value_whose_encoded_size_exactly_equals_the_ceiling() {
    let mut store = store_with_ceiling(8);
    let accepted = store.try_insert("a".to_string(), vec![0; 7], stamp(1), NOW);
    assert!(matches!(accepted, Ok((None, _))));

    let err = expect_too_large(
        store
            .try_insert("b".to_string(), vec![0; 8], stamp(2), NOW)
            .err()
            .expect("9 encoded bytes exceeds an 8-byte ceiling"),
    );
    assert_eq!(err.encoded_size, 9);
    assert_eq!(err.max_value_size, 8);
}

#[test]
fn try_insert_checks_size_before_claiming_a_broadcast_slot() {
    let mut store = store(
        Config::default()
            .with_max_value_size(4)
            .with_max_concurrent_broadcasts(0),
    );
    let err = store
        .try_insert("a".to_string(), vec![0; 100], stamp(1), NOW)
        .err()
        .expect("both checks would reject this, but size must win");
    assert!(
        matches!(err, WriteRejected::TooLarge(_)),
        "expected WriteRejected::TooLarge (checked first), got {err:?}"
    );
}

#[test]
fn try_insert_reports_backpressure_when_size_is_fine_but_the_budget_is_not() {
    let mut store = store(
        Config::default()
            .with_max_value_size(4096)
            .with_max_concurrent_broadcasts(0),
    );
    let err = store
        .try_insert("a".to_string(), vec![0; 3], stamp(1), NOW)
        .err()
        .expect("a zero broadcast budget must still reject the call");
    assert!(
        matches!(err, WriteRejected::Backpressure(_)),
        "expected WriteRejected::Backpressure, got {err:?}"
    );
    let events = store.engine.metrics.drain();
    assert_eq!(events.len(), 1);
    assert_eq!(events[0].name, "reconcile_broadcast_backpressure_total");
    assert_eq!(events[0].label, Some(("path", "try")));
}

#[test]
fn try_insert_rejects_and_leaves_the_map_untouched_at_a_zero_budget() {
    let mut store = store(Config::default().with_max_concurrent_broadcasts(0));
    let err = store.try_insert("a".to_string(), vec![1], stamp(1), NOW).err();
    assert_eq!(
        err,
        Some(WriteRejected::Backpressure(Backpressure { in_flight: 0, max_in_flight: 0 }))
    );
    assert!(store.get(&"a".to_string()).is_none());
    assert!(store.is_empty());
}

#[test]
fn try_insert_succeeds_under_the_default_budget() {
    let mut store = store(Config::default());
    let (previous, plan) = store
        .try_insert("a".to_string(), vec![1], stamp(1), NOW)
        .ok()
        .unwrap();
    assert_eq!(previous, None);
    assert_eq!(plan.updates.len(), 1);
    assert_eq!(store.engine.broadcasts_in_flight(), 1);
    let (previous, again) = store
        .try_insert("a".to_string(), vec![2], stamp(2), NOW)
        .ok()
        .unwrap();
    assert_eq!(previous, Some(vec![1]));
    assert_eq!(store.get_cloned(&"a".to_string()), Some(vec![2]));
    store.engine.release_broadcast_slot(plan.guard);
    store.engine.release_broadcast_slot(again.guard);
    assert_eq!(store.engine.broadcasts_in_flight(), 0);
}

#[test]
fn encoded_sizes_follow_the_wire_format() {
    assert_eq!(().encoded_size(), 0);
    assert_eq!(200u8.encoded_size(), 1);
    assert_eq!(250u32.encoded_size(), 1);
    assert_eq!(251u32.encoded_size(), 3);
    assert_eq!(65_535u64.encoded_size(), 3);
    assert_eq!(65_536u64.encoded_size(), 5);
    assert_eq!(0x1_0000_0000u64.encoded_size(), 9);
    assert_eq!(125i32.encoded_size(), 1);
    assert_eq!((-125i32).encoded_size(), 1);
    assert_eq!((-126i32).encoded_size(), 3);
    assert_eq!(126i32.encoded_size(), 3);
    assert_eq!(i32::MIN.encoded_size(), 5);
    assert_eq!(vec![0u8; 251].encoded_size(), 254);
    assert_eq!("h\u{e9}".to_string().encoded_size(), 4);
    assert_eq!(
        check_value_size(&251u32, Some(2)),
        Err(ValueTooLarge { encoded_size: 3, max_value_size: 2 })
    );
    assert_eq!(check_value_size(&251u32, None), Ok(()));
}

#[test]
fn a_claimed_write_is_applied_only_once_it_is_committed() {
    let mut store = store(Config::default().with_max_concurrent_broadcasts(1));
    let guard = store.claim_write(&vec![1]).ok().unwrap();
    assert!(store.get(&"a".to_string()).is_none());
    assert!(store.claim_write(&vec![1]).is_err(), "the only slot is held");
    let (previous, plan) = store.commit_write("a".to_string(), vec![1], stamp(1), guard, NOW);
    assert_eq!(previous, None);
    assert_eq!(store.get_cloned(&"a".to_string()), Some(vec![1]));
    store.engine.release_broadcast_slot(plan.guard);
    assert!(store.claim_write(&vec![1]).is_ok());
}
