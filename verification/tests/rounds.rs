//! Reconciliation rounds: targets, gauges, resent acks, repairs.

use rand::rngs::StdRng;
use rand::SeedableRng;
use reconcile::clock::{Hlc, LogicalCounter, NodeId, PhysicalTime, Timestamp};
use reconcile::entry::Entry;
use reconcile::net::{IpAddr, IpNet};
use reconcile::observability::Change;
use reconcile::replica::pacing::{DumpChannel, Transfers};
use reconcile::replica::reconciliation::{
    live_entry_count, pick_remote, select_targets, still_receiving_bulk,
    TOMBSTONE_ACK_RESEND_BYTE_BUDGET,
};
use reconcile::replica::repair::MAX_REPAIR_ATTEMPTS;
use reconcile::replica::{Replica, Topology};
use reconcile::replicated_map::Config;
use reconcile::ordered_map::{KeyRange, OrderedMap};
use reconcile::time::{Duration, Instant};

fn at(millis: u64) -> Instant {
    Instant { nanos: 0 }.plus(Duration::from_secs(1_000)).plus(Duration::from_millis(millis))
}

fn stamp(ms: u64) -> Timestamp {
    Timestamp::new(
        Hlc::new(PhysicalTime::from_millis(ms), LogicalCounter::new(0)),
        NodeId::new(1),
    )
}

fn net(a: u8, b: u8, prefix_len: u8) -> IpNet {
    IpNet::new(IpAddr::v4(a, b, 0, 0), prefix_len).unwrap()
}

fn replica() -> Replica<u32, u32> {
    Replica::new(&Config::default().with_insecure_no_key(), NodeId::new(1), net(10, 0, 8)).unwrap()
}

#[test]
fn live_entry_count_subtracts_tombstones_from_the_total() {
    assert_eq!(live_entry_count(10, 3), 7);
}

#[test]
fn live_entry_count_saturates_instead_of_underflowing() {
    assert_eq!(
        live_entry_count(3, 10),
        0,
        "tombstones observed as exceeding the total (a transient race between the two \
         unsynchronized reads) must saturate to 0, never underflow"
    );
}

#[test]
fn no_bulk_update_ever_received_is_never_still_receiving() {
    assert!(!still_receiving_bulk(
        None,
        at(0),
        Duration::from_millis(150)
    ));
}

#[test]
fn a_bulk_update_received_well_within_repair_interval_is_still_receiving() {
    let now = at(0);
    let last = now.checked_sub(Duration::from_millis(10)).unwrap();
    assert!(still_receiving_bulk(
        Some(last),
        now,
        Duration::from_millis(150)
    ));
}

#[test]
fn a_bulk_update_received_at_exactly_repair_interval_ago_is_no_longer_still_receiving() {
    let now = at(0);
    let last = now.checked_sub(Duration::from_millis(150)).unwrap();
    assert!(
        !still_receiving_bulk(Some(last), now, Duration::from_millis(150)),
        "the boundary itself must count as expired -- a strict `<`, not `<=`, so a grace \
         window can never be extended by re-arriving exactly on its own deadline"
    );
}

#[test]
fn a_bulk_update_received_past_repair_interval_ago_is_no_longer_still_receiving() {
    let now = at(0);
    let last = now.checked_sub(Duration::from_millis(200)).unwrap();
    assert!(!still_receiving_bulk(
        Some(last),
        now,
        Duration::from_millis(150)
    ));
}

#[test]
fn a_fresh_pending_repair_is_not_yet_due() {
    let mut a = replica();
    let peer = IpAddr::v4(127, 0, 0, 11);
    a.repair_interval = Duration::from_secs(3600);
    a.note_pending_repair(peer, at(0));
    assert_eq!(
        a.pending_repairs.len(),
        1,
        "note_pending_repair must record the peer"
    );
    assert!(a.retry_due_repairs(at(1)).is_empty());
    let entry = a.pending_repairs.get(&peer);
    assert!(
        entry.is_some(),
        "a repair scheduled 3600s out must still be pending immediately afterward, not \
         retried early"
    );
    assert_eq!(
        entry.unwrap().attempts,
        0,
        "a repair not yet due must not count as an attempt -- distinguishes \"not due yet\" \
         from \"due, and this was its first retry\""
    );
}

#[test]
fn a_retried_repair_is_not_immediately_due_again() {
    let mut a = replica();
    let peer = IpAddr::v4(127, 0, 0, 17);
    a.repair_interval = Duration::from_millis(20);
    a.note_pending_repair(peer, at(0));
    assert_eq!(a.retry_due_repairs(at(25)), vec![peer]);
    assert_eq!(
        a.pending_repairs.get(&peer).unwrap().attempts,
        1,
        "the first retry, once due, must actually fire"
    );
    assert!(a.retry_due_repairs(at(25)).is_empty());
    assert_eq!(
        a.pending_repairs.get(&peer).unwrap().attempts,
        1,
        "a repair just retried must not be immediately due again -- its deadline should \
         have moved a full repair_interval into the future, not into the past"
    );
    assert_eq!(a.pending_repairs.get(&peer).unwrap().deadline, at(45));
}

#[test]
fn a_second_note_does_not_reset_an_already_pending_deadline() {
    let mut a = replica();
    let peer = IpAddr::v4(127, 0, 0, 13);
    a.repair_interval = Duration::from_millis(20);
    a.note_pending_repair(peer, at(0));
    let first_deadline = a.pending_repairs.get(&peer).unwrap().deadline;
    a.note_pending_repair(peer, at(5));
    let second_deadline = a.pending_repairs.get(&peer).unwrap().deadline;
    assert_eq!(
        first_deadline, second_deadline,
        "an already-pending repair's deadline must not move when noted again"
    );
    a.clear_pending_repair(peer);
    assert!(a.pending_repairs.get(&peer).is_none());
}

#[test]
fn a_repair_is_dropped_after_the_attempt_bound() {
    let mut a = replica();
    let peer = IpAddr::v4(127, 0, 0, 15);
    a.repair_interval = Duration::from_millis(1);
    a.note_pending_repair(peer, at(0));
    let mut now = 0;
    for _ in 0..MAX_REPAIR_ATTEMPTS {
        now += 2;
        assert_eq!(a.retry_due_repairs(at(now)), vec![peer]);
    }
    {
        let entry = a.pending_repairs.get(&peer);
        assert!(
            entry.is_some(),
            "a repair must still be pending right at {} attempts, not given up on early",
            MAX_REPAIR_ATTEMPTS
        );
        assert_eq!(
            entry.unwrap().attempts,
            MAX_REPAIR_ATTEMPTS,
            "exactly {} attempts must have been recorded by this point",
            MAX_REPAIR_ATTEMPTS
        );
    }
    now += 2;
    assert!(a.retry_due_repairs(at(now)).is_empty());
    assert!(
        a.pending_repairs.get(&peer).is_none(),
        "a repair must be given up on after {} unanswered attempts, not retried forever",
        MAX_REPAIR_ATTEMPTS
    );
}

#[test]
fn networks_cover_the_addresses_that_share_their_prefix() {
    let eight = net(10, 0, 8);
    assert!(eight.contains(&IpAddr::v4(10, 255, 3, 4)));
    assert!(!eight.contains(&IpAddr::v4(11, 0, 0, 0)));
    let odd = IpNet::new(IpAddr::v4(10, 1, 2, 3), 25).unwrap();
    assert!(odd.contains(&IpAddr::v4(10, 1, 2, 127)));
    assert!(!odd.contains(&IpAddr::v4(10, 1, 2, 128)));
    let host = IpNet::new(IpAddr::v4(10, 1, 2, 3), 32).unwrap();
    assert!(host.contains(&IpAddr::v4(10, 1, 2, 3)));
    assert!(!host.contains(&IpAddr::v4(10, 1, 2, 2)));
    let any = IpNet::new(IpAddr::v4(9, 9, 9, 9), 0).unwrap();
    assert!(any.contains(&IpAddr::v4(200, 1, 1, 1)));
    let six = IpNet::new(IpAddr::V6(0xfd00 << 112), 8).unwrap();
    assert!(six.contains(&IpAddr::V6((0xfd00 << 112) + 5)));
    assert!(!six.contains(&IpAddr::V6((0xfe00 << 112) + 5)));
    assert!(!six.contains(&IpAddr::v4(10, 0, 0, 1)));
    assert!(IpNet::new(IpAddr::v4(10, 0, 0, 0), 33).is_none());
    assert!(IpNet::new(IpAddr::V6(0), 129).is_none());
}

fn topology(fanout: usize) -> Topology {
    Topology {
        nets: vec![net(10, 0, 8), net(20, 0, 8), net(20, 5, 16), net(30, 0, 8)],
        local_net: net(10, 0, 8),
        remote_interval: 3,
        remote_fanout: fanout,
    }
}

#[test]
fn remote_peers_are_sampled_per_network_and_none_is_left_out() {
    let mut rng = StdRng::seed_from_u64(7);
    let known: Vec<IpAddr> = vec![
        IpAddr::v4(10, 0, 0, 1),
        IpAddr::v4(20, 0, 0, 1),
        IpAddr::v4(20, 0, 0, 2),
        IpAddr::v4(20, 5, 0, 3),
        IpAddr::v4(30, 0, 0, 1),
        IpAddr::v4(99, 0, 0, 1),
    ];
    let picks = pick_remote(&topology(2), &known, 3, &mut rng);
    // One sample per remote network, in order of declaration, then the unclassified peers.
    assert_eq!(picks.len(), 4);
    assert_eq!(picks[0].len(), 2);
    assert!(picks[0].iter().all(|a| known[1..4].contains(a)));
    assert!(picks[1].is_empty(), "the first covering network takes the peer");
    assert_eq!(picks[2], vec![known[4]]);
    assert_eq!(picks[3], vec![known[5]]);

    let off = pick_remote(&topology(2), &known, 4, &mut rng);
    assert!(off.is_empty());
    let mut every_round = topology(1);
    every_round.remote_interval = 0;
    assert_eq!(pick_remote(&every_round, &known, 5, &mut rng).len(), 4);
}

#[test]
fn sampling_reaches_every_peer_sooner_or_later() {
    let mut rng = StdRng::seed_from_u64(1);
    let known: Vec<IpAddr> = (1..=4).map(|i| IpAddr::v4(20, 0, 0, i)).collect();
    let mut seen: Vec<IpAddr> = Vec::new();
    for _ in 0..64 {
        for addr in &pick_remote(&topology(1), &known, 0, &mut rng)[0] {
            if !seen.contains(addr) {
                seen.push(*addr);
            }
        }
    }
    assert_eq!(seen.len(), 4, "a shuffle that kept the order would pick one peer forever");
}

#[test]
fn a_round_contacts_probes_local_peers_and_samples_once_each() {
    let probe = IpAddr::v4(10, 9, 9, 9);
    let local_a = IpAddr::v4(10, 0, 0, 1);
    let local_b = IpAddr::v4(10, 0, 0, 2);
    let remote = IpAddr::v4(20, 0, 0, 1);
    let other = IpAddr::v4(20, 0, 0, 2);
    let known = vec![local_a, local_b, remote, other];
    let mut bulk: OrderedMap<IpAddr, Instant> = OrderedMap::new();
    bulk.insert(local_b, at(0));
    let targets = select_targets(
        &vec![probe, local_a],
        &known,
        &net(10, 0, 8),
        &vec![vec![remote]],
        &bulk,
        at(100),
        Duration::from_millis(150),
    );
    assert_eq!(targets, vec![local_a, probe, remote]);
}

#[test]
fn a_peer_with_a_recent_bulk_update_is_excluded_from_the_round() {
    let mut a = replica();
    let mut rng = StdRng::seed_from_u64(3);
    let peer = IpAddr::v4(10, 0, 0, 2);
    a.seed_peer(peer, at(0));
    a.note_bulk_update_received(peer, at(0));
    let mut buf = Vec::new();
    let targets = a.start_reconciliation(
        &mut buf, |_| vec![], &vec![], 0, at(10), &mut rng, |_, _| vec![0],
    );
    assert!(targets.is_empty());
}

#[test]
fn a_peer_with_no_recent_bulk_update_is_still_included_in_the_round() {
    let mut a = replica();
    let mut rng = StdRng::seed_from_u64(3);
    let peer = IpAddr::v4(10, 0, 0, 2);
    a.seed_peer(peer, at(0));
    let mut buf = vec![9, 9];
    let targets = a.start_reconciliation(
        &mut buf, |map| vec![map.len() as u8, 7], &vec![], 0, at(10), &mut rng, |_, _| vec![0],
    );
    assert_eq!(targets, vec![peer]);
    assert_eq!(buf, vec![0, 7], "the buffer is refilled from scratch");
    assert_eq!(a.round, 1);
    assert_eq!(a.last_round_at, Some(at(10)));
}

#[test]
fn the_exclusion_lapses_once_repair_interval_elapses_with_no_further_update() {
    let mut a = replica();
    let mut rng = StdRng::seed_from_u64(3);
    let peer = IpAddr::v4(10, 0, 0, 2);
    a.seed_peer(peer, at(0));
    a.note_bulk_update_received(peer, at(0));
    let mut buf = Vec::new();
    let targets = a.start_reconciliation(
        &mut buf, |_| vec![], &vec![], 0, at(150), &mut rng, |_, _| vec![0],
    );
    assert_eq!(targets, vec![peer]);
}

#[test]
fn a_silent_peer_expires_after_a_minute() {
    let mut a = replica();
    let stale = IpAddr::v4(10, 0, 0, 1);
    let edge = IpAddr::v4(10, 0, 0, 2);
    let fresh = IpAddr::v4(10, 0, 0, 3);
    a.seed_peer(stale, at(0));
    a.seed_peer(edge, at(1));
    a.seed_peer(fresh, at(2));
    assert_eq!(a.get_peers(at(60_001)), vec![fresh]);
    a.seed_peer(stale, at(60_001));
    assert_eq!(a.get_peers(at(60_002)), vec![stale]);
}

#[test]
fn reconciliation_round_refreshes_the_state_gauges() {
    let mut a = replica();
    let mut rng = StdRng::seed_from_u64(3);
    a.just_insert(1, Entry::present(stamp(1), 10));
    a.just_insert(2, Entry::present(stamp(2), 20));
    a.just_insert(2, Entry::tombstone(stamp(3)));
    a.metrics.drain();
    let mut buf = Vec::new();
    a.start_reconciliation(&mut buf, |_| vec![], &vec![], 5, at(0), &mut rng, |_, _| vec![1]);
    let events = a.metrics.drain();
    let gauge = |name: &str| {
        events.iter().find(|e| e.name == name).map(|e| e.change)
    };
    assert_eq!(gauge("reconcile_rounds_total"), Some(Change::Increment(1)));
    assert_eq!(gauge("reconcile_entries_current"), Some(Change::Assign(1)));
    assert_eq!(gauge("reconcile_tombstones_current"), Some(Change::Assign(1)));
    assert_eq!(gauge("reconcile_bulk_dumps_in_flight"), Some(Change::Assign(5)));
    assert_eq!(gauge("reconcile_broadcasts_in_flight"), Some(Change::Assign(0)));
    assert_eq!(gauge("reconcile_tombstone_acks_resent_total"), Some(Change::Increment(1)));
}

#[test]
fn returned_count_matches_acks_actually_appended() {
    let mut a = replica();
    for key in 0..5u32 {
        a.just_insert(key, Entry::tombstone(stamp(key as u64 + 1)));
    }
    a.just_insert(9, Entry::present(stamp(9), 1));
    let mut buf = vec![255];
    let count = a.resend_held_tombstone_acks(&mut buf, 0, |key, stamp| {
        vec![*key as u8, stamp.hlc.physical.millis as u8]
    });
    assert_eq!(count, 5);
    assert_eq!(buf, vec![255, 0, 1, 1, 2, 2, 3, 3, 4, 4, 5]);

    let mut none = replica();
    none.just_insert(1, Entry::present(stamp(1), 1));
    let mut untouched = vec![1, 2];
    assert_eq!(none.resend_held_tombstone_acks(&mut untouched, 0, |_, _| vec![0]), 0);
    assert_eq!(untouched, vec![1, 2]);
}

#[test]
fn resend_window_starts_at_round_modulo_tombstone_count() {
    let mut a = replica();
    for key in 0..3u32 {
        a.just_insert(key, Entry::tombstone(stamp(1)));
    }
    let order = |a: &mut Replica<u32, u32>, round: u32| {
        let mut buf = Vec::new();
        a.resend_held_tombstone_acks(&mut buf, round, |key, _| vec![*key as u8]);
        buf
    };
    assert_eq!(order(&mut a, 0), vec![0, 1, 2]);
    assert_eq!(order(&mut a, 1), vec![1, 2, 0]);
    assert_eq!(order(&mut a, 5), vec![2, 0, 1]);
}

#[test]
fn the_byte_budget_stops_a_resend_and_every_tombstone_gets_its_turn() {
    let mut a = replica();
    let n = 3u32;
    for key in 0..n {
        a.just_insert(key, Entry::tombstone(stamp(1)));
    }
    let mut first_in_turn = Vec::new();
    for round in 40..40 + n {
        let mut buf = Vec::new();
        let count = a.resend_held_tombstone_acks(&mut buf, round, |key, _| {
            vec![*key as u8; TOMBSTONE_ACK_RESEND_BYTE_BUDGET]
        });
        assert_eq!(count, 1, "one ack already fills the budget");
        first_in_turn.push(buf[0]);
    }
    first_in_turn.sort();
    assert_eq!(first_in_turn, vec![0, 1, 2]);

    let mut buf = Vec::new();
    let count = a.resend_held_tombstone_acks(&mut buf, 0, |_, _| {
        vec![0; TOMBSTONE_ACK_RESEND_BYTE_BUDGET - 1]
    });
    assert_eq!(count, 2, "one byte short of the budget still admits another");
}

#[test]
fn every_target_is_owed_an_answer() {
    let mut a = replica();
    let mut rng = StdRng::seed_from_u64(3);
    let known = IpAddr::v4(10, 0, 0, 2);
    let pending = IpAddr::v4(10, 0, 0, 3);
    let probe = IpAddr::v4(10, 9, 9, 9);
    let elsewhere = IpAddr::v4(10, 0, 0, 7);
    a.seed_peer(known, at(0));
    a.seed_peer(pending, at(0));
    a.note_pending_repair(pending, at(1));
    a.note_pending_repair(elsewhere, at(2));
    let interval = a.repair_interval;
    let mut buf = Vec::new();
    let targets = a.start_reconciliation(
        &mut buf, |_| vec![], &vec![probe], 0, at(10), &mut rng, |_, _| vec![0],
    );
    assert_eq!(targets, vec![known, pending, probe]);
    let deadline = |a: &Replica<u32, u32>, peer: IpAddr| a.pending_repairs.get(&peer).unwrap().deadline;
    assert_eq!(deadline(&a, known).nanos, at(10).nanos + interval.nanos);
    assert_eq!(deadline(&a, probe).nanos, at(10).nanos + interval.nanos);
    assert_eq!(deadline(&a, pending).nanos, at(1).nanos + interval.nanos, "kept as it was");
    assert_eq!(deadline(&a, elsewhere).nanos, at(2).nanos + interval.nanos);
    assert_eq!(a.pending_repairs.len(), 4);
}

#[test]
fn only_a_sender_of_dated_entries_becomes_a_member() {
    let mut a = replica();
    let full = IpAddr::v4(10, 0, 0, 2);
    let reader = IpAddr::v4(10, 0, 0, 3);
    a.note_sender(full, true, at(1));
    a.note_sender(reader, false, at(1));
    assert_eq!(a.members.keys(), vec![full]);
    assert_eq!(a.get_peers(at(2)), vec![full]);
}

fn range(key: u32) -> KeyRange<u32> {
    KeyRange::after(key)
}

#[test]
fn transfers_are_one_for_each_peer_and_bounded_in_all() {
    let mut transfers: Transfers<u32> = Transfers::new(2);
    let (a, b, c) = (IpAddr::v4(10, 0, 0, 1), IpAddr::v4(10, 0, 0, 2), IpAddr::v4(10, 0, 0, 3));
    let first = transfers.try_claim_dump_slot(a).unwrap();
    assert_eq!(first.peer(), a);
    assert!(transfers.try_claim_dump_slot(a).is_none(), "one at a time for each peer");
    assert_eq!(transfers.in_flight(), 1);
    let second = transfers.try_claim_dump_slot(b).unwrap();
    assert!(transfers.try_claim_dump_slot(c).is_none(), "the budget is exhausted");
    transfers.release(first);
    assert_eq!(transfers.in_flight(), 1);
    assert!(transfers.try_claim_dump_slot(c).is_some());
    transfers.release(second);
    assert!(Transfers::<u32>::new(0).try_claim_dump_slot(a).is_none());
}

#[test]
fn stashed_ranges_are_resumed_when_a_slot_is_free() {
    let mut transfers: Transfers<u32> = Transfers::new(1);
    let (a, b) = (IpAddr::v4(10, 0, 0, 1), IpAddr::v4(10, 0, 0, 2));
    let busy = transfers.try_claim_dump_slot(a).unwrap();
    transfers.stash_pending_dump(DumpChannel::ValueOnly, a, vec![range(9)]);
    transfers.stash_pending_dump(DumpChannel::Dated, b, vec![range(1)]);
    transfers.stash_pending_dump(DumpChannel::Dated, b, vec![range(2), range(3)]);
    assert!(transfers.resume().is_none(), "no slot is free");
    transfers.release(busy);

    let dated = transfers.resume().unwrap();
    assert_eq!(dated.channel, DumpChannel::Dated);
    assert_eq!(dated.guard.peer(), b);
    assert_eq!(dated.ranges.len(), 3, "every range that was stashed is kept");
    assert!(transfers.resume().is_none());
    transfers.release(dated.guard);

    let valued = transfers.resume().unwrap();
    assert_eq!(valued.channel, DumpChannel::ValueOnly);
    assert_eq!(valued.guard.peer(), a);
    transfers.release(valued.guard);
    assert!(transfers.resume().is_none(), "nothing waits any more");
}
