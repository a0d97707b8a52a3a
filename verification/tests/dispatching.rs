//! Handling the messages of a datagram.

use reconcile::clock::{Hlc, LogicalCounter, NodeId, PhysicalTime, Timestamp};
use reconcile::entry::{Entry, State};
use reconcile::net::{IpAddr, IpNet};
use reconcile::ordered_map::{KeyBound, KeyRange, OrderedMap};
use reconcile::replica::dispatch::{plan_dump, sort_messages, Dump, Message, ReplicaMessage};
use reconcile::replica::write::run_pre_insert;
use reconcile::replica::Replica;
use reconcile::replicated_map::Config;
use reconcile::time::Instant;

const NOW: Instant = Instant { nanos: 9_000 };

type Msg = ReplicaMessage<u32, u32, &'static str>;

fn stamp_by(ms: u64, node: u64) -> Timestamp {
    Timestamp::new(
        Hlc::new(PhysicalTime::from_millis(ms), LogicalCounter::new(0)),
        NodeId::new(node),
    )
}

fn stamp(ms: u64) -> Timestamp {
    stamp_by(ms, 1)
}

fn peer() -> IpAddr {
    IpAddr::v4(127, 0, 0, 2)
}

fn replica() -> Replica<u32, u32> {
    Replica::new(
        &Config::default().with_insecure_no_key(),
        NodeId::new(1),
        IpNet::new(IpAddr::v4(127, 0, 0, 0), 8).unwrap(),
    )
    .unwrap()
}

fn span(lo: u32, hi: u32) -> KeyRange<u32> {
    KeyRange { lower: KeyBound::Included(lo), upper: KeyBound::Excluded(hi) }
}

#[test]
fn messages_are_sorted_by_channel() {
    let batch = sort_messages::<u32, u32, &'static str>(vec![
        Message::EntryFingerprint("a"),
        Message::StateUpdate((1, State::Present(1))),
        Message::TombstoneAck((4, 44)),
        Message::StateFingerprint("v"),
        Message::EntryUpdate((2, Entry::present(stamp(1), 2))),
        Message::EntryFingerprint("b"),
        Message::Reserved6(vec![1, 2, 3]),
    ]);
    assert_eq!(batch.dated_ranges, vec!["a", "b"]);
    assert_eq!(batch.value_ranges, vec!["v"]);
    assert_eq!(batch.tombstone_acks, vec![(4, 44)]);
    assert_eq!(batch.dated_updates.len(), 1);
    assert!(!batch.saw_convergence_ack);
    assert!(batch.spoke_dated());
}

#[test]
fn a_convergence_ack_reports_spoke_dated() {
    let acked: Vec<Msg> = vec![Message::ConvergenceAck];
    assert!(sort_messages(acked).spoke_dated());
    let valued: Vec<Msg> = vec![
        Message::StateFingerprint("v"),
        Message::StateUpdate((1, State::Tombstone)),
        Message::Reserved6(vec![]),
    ];
    assert!(!sort_messages(valued).spoke_dated());
    let nothing: Vec<Msg> = vec![];
    assert!(!sort_messages(nothing).spoke_dated());
}

#[test]
fn a_reserved_message_does_not_block_the_rest_of_the_datagram() {
    let mut a = replica();
    let messages: Vec<Msg> = vec![
        Message::Reserved6(vec![9; 8]),
        Message::EntryUpdate((1, Entry::present(stamp(5), 50))),
    ];
    let handled = a
        .handle_messages(
            Some(messages),
            peer(),
            NOW,
            |_, _| (vec![], vec![]),
            || None::<()>,
            |_, _| (vec![], vec![]),
            || None::<()>,
        )
        .unwrap();
    assert!(handled.spoke_dated);
    assert_eq!(a.store.map().get(&1).unwrap().value(), Some(&50));
}

#[test]
fn an_undecodable_datagram_is_dropped_and_counted() {
    let mut a = replica();
    let handled = a.handle_messages(
        None::<Vec<Msg>>,
        peer(),
        NOW,
        |_, _| (vec![], vec![]),
        || None::<()>,
        |_, _| (vec![], vec![]),
        || None::<()>,
    );
    assert!(handled.is_none());
    let events = a.metrics.drain();
    assert_eq!(events.len(), 1);
    assert_eq!(events[0].name, "reconcile_datagrams_dropped_total");
    assert_eq!(events[0].label, Some(("reason", "malformed")));
}

#[test]
fn a_converged_comparison_round_is_acked() {
    let a = replica();
    let reply = a.handle_dated_comparison(vec!["r"], |_, _| (vec![], vec![]), || None::<()>);
    assert!(reply.ack);
    assert!(reply.refinements.is_empty());
    assert!(matches!(reply.dump, Dump::Nothing));

    let valued = a.handle_value_comparison(vec!["r"], |_, _| (vec![], vec![]), || None::<()>);
    assert!(!valued.ack, "an undated round is never acknowledged");
}

#[test]
fn a_round_that_finds_a_real_difference_is_not_also_acked() {
    let mut a = replica();
    for key in 1..=4 {
        a.just_insert(key, Entry::present(stamp(1), key * 10));
    }
    let refined = a.handle_dated_comparison(vec!["r"], |_, _| (vec!["finer"], vec![]), || None::<()>);
    assert!(!refined.ack);
    assert_eq!(refined.refinements, vec!["finer"]);

    let sent = a.handle_dated_comparison(
        vec!["r"],
        |map, ranges| {
            assert_eq!(map.len(), 4);
            assert_eq!(ranges, vec!["r"]);
            (vec![], vec![span(2, 4), span(4, 9), span(7, 8)])
        },
        || Some("slot"),
    );
    assert!(!sent.ack);
    match sent.dump {
        Dump::Send(entries, slot) => {
            let keys: Vec<u32> = entries.iter().map(|(k, _)| *k).collect();
            assert_eq!(keys, vec![2, 3, 4]);
            assert_eq!(entries[0].1.value(), Some(&20));
            assert_eq!(slot, "slot");
        }
        _ => panic!("differing entries must be sent"),
    }
}

#[test]
fn without_a_slot_the_differing_ranges_are_stashed() {
    let mut a = replica();
    a.just_insert(3, Entry::present(stamp(1), 30));
    let reply = a.handle_dated_comparison(vec!["r"], |_, _| (vec![], vec![span(2, 4)]), || None::<()>);
    match reply.dump {
        Dump::Stash(ranges) => assert_eq!(ranges.len(), 1),
        _ => panic!("the ranges must be kept for later"),
    }
    let empty = a.handle_dated_comparison(vec!["r"], |_, _| (vec![], vec![span(5, 9)]), || Some(1));
    assert!(matches!(empty.dump, Dump::Nothing), "nothing to send gives the slot up");
    assert!(!empty.ack);
}

#[test]
fn no_comparison_items_ask_for_nothing() {
    let a = replica();
    let none: Vec<&'static str> = vec![];
    let reply = a.handle_dated_comparison(
        none,
        |_, _| panic!("nothing to compare"),
        || -> Option<()> { panic!("nothing to claim") },
    );
    assert!(!reply.ack && reply.refinements.is_empty());
    assert!(matches!(reply.dump, Dump::Nothing));
}

#[test]
fn value_comparisons_answer_from_the_projection() {
    let mut a = replica();
    a.just_insert(1, Entry::present(stamp(1), 10));
    a.just_insert(2, Entry::tombstone(stamp(2)));
    let reply = a.handle_value_comparison(vec!["r"], |_, _| (vec![], vec![span(0, 9)]), || Some(()));
    match reply.dump {
        Dump::Send(entries, _) => {
            assert_eq!(entries.len(), 2);
            assert_eq!(entries[0].1.as_value(), Some(&10));
            assert!(entries[1].1.is_tombstone());
        }
        _ => panic!("differing states must be sent"),
    }
    let map: OrderedMap<u32, u64> = OrderedMap::new();
    assert!(matches!(plan_dump(&map, vec![], Some(())), Dump::Nothing));
}

/// A replica of the kind the redelivery tests write to.
fn small_replica() -> Replica<i32, u8> {
    Replica::new(
        &Config::default().with_insecure_no_key(),
        NodeId::new(1),
        IpNet::new(IpAddr::v4(127, 0, 0, 0), 8).unwrap(),
    )
    .unwrap()
}

#[test]
fn equal_stamp_update_is_not_reapplied() {
    let mut engine = small_replica();
    let stamp = stamp_by(1_000, 0);
    let key = 7;
    engine.just_insert(key, Entry::present(stamp, 1));
    let changes = engine.change_count();

    // Same key, same stamp, a different value: the hook has nothing to run on.
    let screened = engine.screen_updates(vec![(key, Entry::present(stamp, 2))]);
    let calls = run_pre_insert(
        &|calls: u32, _: &OrderedMap<i32, Entry<Timestamp, u8>>, _: &i32, _: &Entry<Timestamp, u8>| calls + 1,
        engine.store.map(),
        &screened.to_apply,
        0,
    );
    assert_eq!(calls, 0, "an equal-stamp update must not be re-applied");

    let messages: Vec<ReplicaMessage<i32, u8, &'static str>> =
        vec![Message::EntryUpdate((key, Entry::present(stamp, 2)))];
    let handled = engine
        .handle_messages(
            Some(messages),
            IpAddr::v4(127, 0, 0, 151),
            NOW,
            |_, _| (vec![], vec![]),
            || None::<()>,
            |_, _| (vec![], vec![]),
            || None::<()>,
        )
        .unwrap();
    assert_eq!(engine.store.map().get(&key).and_then(|v| v.value().copied()), Some(1));
    assert_eq!(engine.change_count(), changes);
    assert!(handled.applied.acks.is_empty());
    assert_eq!(handled.applied.observed, vec![stamp]);
    assert!(handled.applied.report_collision, "one stamp with two contents is a collision");
}

#[test]
fn newer_remote_tombstone_is_acked() {
    let mut engine = small_replica();
    let old_stamp = stamp_by(1_000, 0);
    let new_stamp = stamp_by(2_000, 1);
    let key = 9;
    engine.just_insert(key, Entry::present(old_stamp, 1));
    let messages: Vec<ReplicaMessage<i32, u8, &'static str>> =
        vec![Message::EntryUpdate((key, Entry::tombstone(new_stamp)))];
    let handled = engine
        .handle_messages(
            Some(messages),
            IpAddr::v4(127, 0, 0, 153),
            NOW,
            |_, _| (vec![], vec![]),
            || None::<()>,
            |_, _| (vec![], vec![]),
            || None::<()>,
        )
        .unwrap();
    assert_eq!(handled.applied.acks, vec![(key, new_stamp)]);
    assert!(engine.store.map().get(&key).unwrap().is_tombstone());
}

#[test]
fn a_stale_update_for_a_held_tombstone_is_answered_with_it() {
    let mut a = replica();
    a.just_insert(1, Entry::tombstone(stamp(6)));
    let stale = a.apply_dated_updates(vec![(1, Entry::present(stamp(4), 40))], peer(), NOW);
    assert_eq!(stale.acks, vec![(1, stamp(6))]);
    assert!(a.store.map().get(&1).unwrap().is_tombstone());
}

#[test]
fn a_screened_out_collision_is_reported_once() {
    let mut a = replica();
    a.just_insert(1, Entry::present(stamp(5), 50));
    a.just_insert(2, Entry::tombstone(stamp(6)));

    let echo = a.apply_dated_updates(
        vec![(1, Entry::present(stamp(5), 50)), (2, Entry::tombstone(stamp(6)))],
        peer(),
        NOW,
    );
    assert!(!echo.report_collision, "an echo of the same write is silent");
    assert!(!a.collision_reporter.reported);
    let older = a.apply_dated_updates(vec![(1, Entry::present(stamp(4), 9))], peer(), NOW);
    assert!(!older.report_collision, "an older stamp is ordinary");

    let first = a.apply_dated_updates(vec![(2, Entry::present(stamp(6), 7))], peer(), NOW);
    assert!(first.report_collision);
    assert!(a.collision_reporter.reported);
    assert_eq!(first.acks, vec![(2, stamp(6))]);
    let again = a.apply_dated_updates(vec![(1, Entry::present(stamp(5), 51))], peer(), NOW);
    assert!(!again.report_collision);
    assert_eq!(a.store.map().get(&1).unwrap().value(), Some(&50), "the one held is kept");
}

#[test]
fn screening_tells_of_a_collision_before_the_hook_runs() {
    let mut a = replica();
    a.just_insert(1, Entry::present(stamp(5), 50));
    let updates = || {
        vec![(2, Entry::present(stamp(1), 10)), (1, Entry::present(stamp(5), 51))]
    };
    let screened = a.receive_updates(updates(), peer(), NOW);
    assert!(screened.collided);
    assert_eq!(screened.to_apply.len(), 1);
    assert!(a.integrate_updates(screened.to_apply, screened.collided).report_collision);
    let again = a.receive_updates(updates(), peer(), NOW);
    assert!(again.collided && again.to_apply.is_empty());
    assert!(!a.integrate_updates(again.to_apply, again.collided).report_collision);
}

#[test]
fn an_update_superseded_in_its_own_batch_still_shows_its_collision() {
    let mut a = replica();
    a.just_insert(1, Entry::present(stamp(5), 50));
    let applied = a.apply_dated_updates(
        vec![(1, Entry::present(stamp(8), 80)), (1, Entry::present(stamp(5), 51))],
        peer(),
        NOW,
    );
    assert!(applied.report_collision);
    assert_eq!(a.store.map().get(&1).unwrap().value(), Some(&80));
}

#[test]
fn a_batch_is_noted_counted_and_merged() {
    let mut a = replica();
    a.just_insert(2, Entry::present(stamp(9), 90));
    a.metrics.drain();
    let before = a.change_count();
    let applied = a.apply_dated_updates(
        vec![
            (1, Entry::present(stamp(3), 30)),
            (2, Entry::present(stamp(8), 80)),
            (3, Entry::tombstone(stamp(1))),
        ],
        peer(),
        NOW,
    );
    assert_eq!(a.change_count(), before + 2);
    assert_eq!(applied.observed, vec![stamp(3), stamp(8), stamp(1)]);
    assert_eq!(applied.acks, vec![(3, stamp(1))]);
    assert_eq!(a.store.map().get(&2).unwrap().value(), Some(&90));
    assert!(a.pending_repairs.get(&peer()).is_some());
    assert_eq!(a.receiving_bulk_from.get(&peer()), Some(&NOW));
    let events = a.metrics.drain();
    assert_eq!(events.len(), 1);
    assert_eq!(events[0].name, "reconcile_updates_received_total");

    let nothing = a.apply_dated_updates(vec![], IpAddr::v4(127, 0, 0, 3), NOW);
    assert!(nothing.observed.is_empty());
    assert!(a.pending_repairs.get(&IpAddr::v4(127, 0, 0, 3)).is_none());
}

#[test]
fn a_collision_is_reported_once() {
    let mut a = replica();
    let first = a.integrate_updates(
        vec![(1, Entry::present(stamp(5), 1)), (1, Entry::present(stamp(5), 2))],
        false,
    );
    assert!(first.report_collision);
    assert_eq!(a.store.map().get(&1).unwrap().value(), Some(&1), "the one held is kept");
    let second = a.integrate_updates(vec![(1, Entry::present(stamp(5), 3))], false);
    assert!(!second.report_collision);
}

#[test]
fn screening_then_merging_survives_a_write_in_between() {
    let mut a = replica();
    a.just_insert(1, Entry::present(stamp(1), 10));
    let screened = a.receive_updates(vec![(1, Entry::present(stamp(5), 50))], peer(), NOW);
    assert_eq!(screened.to_apply.len(), 1);
    a.just_insert(1, Entry::present(stamp(7), 70));
    a.integrate_updates(screened.to_apply, screened.collided);
    assert_eq!(a.store.map().get(&1).unwrap().value(), Some(&70));
}

#[test]
fn only_acks_for_held_tombstones_are_kept() {
    let mut a = replica();
    a.just_insert(1, Entry::tombstone(stamp(1)));
    a.just_insert(2, Entry::present(stamp(1), 2));
    a.record_tombstone_acks(vec![(1, 11), (2, 22), (3, 33), (1, 12)], peer());
    assert_eq!(a.tombstone_acks.keys(), vec![1]);
    assert_eq!(a.tombstone_acks.get(&1).unwrap().get(&peer()), Some(&12));
    a.record_tombstone_acks(vec![(1, 7)], IpAddr::v4(127, 0, 0, 3));
    assert_eq!(a.tombstone_acks.get(&1).unwrap().len(), 2);
}

#[test]
fn replicas_converge_whatever_the_order_of_delivery() {
    let writes = || {
        vec![
            (1, Entry::present(stamp_by(5, 1), 50)),
            (2, Entry::present(stamp_by(5, 2), 51)),
            (1, Entry::tombstone(stamp_by(6, 2))),
            (2, Entry::present(stamp_by(5, 3), 52)),
            (3, Entry::present(stamp_by(1, 1), 10)),
        ]
    };
    let mut a = replica();
    a.apply_dated_updates(writes(), peer(), NOW);
    let mut b = replica();
    let mut backwards = writes();
    backwards.reverse();
    backwards.extend(writes());
    b.apply_dated_updates(backwards, peer(), NOW);
    for key in 1..=3u32 {
        let x = a.store.map().get(&key).unwrap();
        let y = b.store.map().get(&key).unwrap();
        assert_eq!(x.stamp, y.stamp);
        assert_eq!(x.value(), y.value());
    }
    assert!(a.store.map().get(&1).unwrap().is_tombstone());
    assert_eq!(a.store.map().get(&2).unwrap().value(), Some(&52));
}

#[test]
fn a_whole_datagram_is_handled_in_order() {
    let mut a = replica();
    a.just_insert(1, Entry::tombstone(stamp(1)));
    let messages: Vec<Msg> = vec![
        Message::StateFingerprint("values"),
        Message::EntryUpdate((2, Entry::present(stamp(4), 40))),
        Message::EntryFingerprint("dated"),
        Message::TombstoneAck((1, 77)),
    ];
    let handled = a
        .handle_messages(
            Some(messages),
            peer(),
            NOW,
            |map, _| (vec![if map.len() == 1 { "before" } else { "after" }], vec![]),
            || None::<()>,
            |map, _| (vec![if map.len() == 1 { "before" } else { "after" }], vec![]),
            || None::<()>,
        )
        .unwrap();
    assert_eq!(handled.dated.refinements, vec!["before"]);
    assert_eq!(handled.valued.refinements, vec!["after"]);
    assert_eq!(handled.applied.observed, vec![stamp(4)]);
    assert_eq!(a.tombstone_acks.get(&1).unwrap().get(&peer()), Some(&77));
}

#[test]
fn a_redelivered_batch_is_screened_out() {
    let batch = || {
        vec![
            (1, Entry::present(stamp(5), 50)),
            (2, Entry::tombstone(stamp(6))),
            (1, Entry::present(stamp(4), 40)),
        ]
    };
    let mut a = replica();
    a.apply_dated_updates(batch(), peer(), NOW);
    let changes = a.change_count();
    let screened = a.screen_updates(batch());
    assert!(screened.to_apply.is_empty());
    let again = a.apply_dated_updates(batch(), peer(), NOW);
    assert_eq!(a.change_count(), changes);
    assert_eq!(again.acks, vec![(2, stamp(6))]);
    assert_eq!(a.store.map().get(&1).unwrap().value(), Some(&50));
}
