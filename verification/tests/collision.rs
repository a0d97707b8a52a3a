//! Node-id collisions: what is one, and how often it is reported.

use reconcile::clock::{Hlc, LogicalCounter, NodeId, PhysicalTime, Timestamp};
use reconcile::entry::Entry;
use reconcile::replica::collision::{is_node_id_collision, CollisionReporter};

fn stamp(ms: u64, node: u64) -> Timestamp {
    Timestamp::new(
        Hlc::new(PhysicalTime::from_millis(ms), LogicalCounter::new(0)),
        NodeId::new(node),
    )
}

#[test]
fn equal_stamps_with_different_values_are_a_collision() {
    let s = stamp(100, 7);
    assert!(is_node_id_collision(
        &Entry::present(s, "ours".to_string()),
        &Entry::present(s, "theirs".to_string())
    ));
}

#[test]
fn equal_stamps_with_a_tombstone_on_one_side_are_a_collision() {
    let s = stamp(100, 7);
    assert!(is_node_id_collision(
        &Entry::present(s, "ours".to_string()),
        &Entry::<Timestamp, String>::tombstone(s)
    ));
}

#[test]
fn an_echo_of_our_own_write_is_not_a_collision() {
    let s = stamp(100, 7);
    assert!(!is_node_id_collision(
        &Entry::present(s, "same".to_string()),
        &Entry::present(s, "same".to_string())
    ));
}

#[test]
fn the_first_report_is_the_only_one() {
    let mut reporter = CollisionReporter::new();
    assert!(
        reporter.report(NodeId::new(7)),
        "the first call must report"
    );
    assert!(
        !reporter.report(NodeId::new(7)),
        "the second call must stay quiet"
    );
    assert!(
        !reporter.report(NodeId::new(7)),
        "and so must every later one"
    );
}

#[test]
fn different_stamps_are_never_a_collision() {
    assert!(!is_node_id_collision(
        &Entry::present(stamp(100, 7), "ours".to_string()),
        &Entry::present(stamp(200, 7), "theirs".to_string())
    ));
    assert!(!is_node_id_collision(
        &Entry::present(stamp(100, 7), "ours".to_string()),
        &Entry::present(stamp(100, 8), "theirs".to_string())
    ));
}

#[test]
fn a_collision_is_seen_from_both_sides() {
    let s = stamp(1, 1);
    let a = Entry::present(s, 1u32);
    let b = Entry::present(s, 2u32);
    assert!(is_node_id_collision(&a, &b));
    assert!(is_node_id_collision(&b, &a));
    let gone: Entry<Timestamp, u32> = Entry::tombstone(s);
    assert!(!is_node_id_collision(&gone, &Entry::tombstone(s)));
}

#[test]
fn timestamps_order_by_wall_clock_then_counter_then_node() {
    let at = |ms: u64, count: u32, node: u64| {
        Timestamp::new(
            Hlc::new(PhysicalTime::from_millis(ms), LogicalCounter::new(count)),
            NodeId::new(node),
        )
    };
    assert!(at(2, 0, 0).is_newer_than(&at(1, 9, 9)));
    assert!(at(1, 2, 0).is_newer_than(&at(1, 1, 9)));
    assert!(at(1, 1, 2).is_newer_than(&at(1, 1, 1)));
    assert!(!at(1, 1, 1).is_newer_than(&at(1, 1, 1)));
    assert_eq!(at(1, 1, 5).node.get(), 5);
}
