//! The checks every inbound datagram passes.

use std::cell::Cell;

use reconcile::replica::admission::{admit_datagram, DatagramRejection};
use reconcile::replica::inbound::{admit_inbound, InboundRejection, PeerCap, Versioned};

const WIRE_VERSION: u8 = 3;

/// A datagram as a keyed sender seals it: the key, the version, then the payload.
fn open(key: Option<u8>, datagram: &[u8]) -> Option<Vec<u8>> {
    match key {
        Some(key) => {
            if datagram.first() == Some(&key) {
                Some(datagram[1..].to_vec())
            } else {
                None
            }
        }
        None => Some(datagram.to_vec()),
    }
}

fn check_version(payload: Vec<u8>) -> Result<Versioned<Vec<u8>>, u8> {
    if payload[0] == WIRE_VERSION {
        Ok(Versioned { payload: payload[1..].to_vec(), seq: 11, stamp: 22 })
    } else {
        Err(payload[0])
    }
}

#[test]
fn authentication_and_version_fail_before_peer_state_is_read() {
    let auth_rejection: Result<Vec<u8>, InboundRejection> = admit_inbound(
        PeerCap::new(1),
        || open(Some(7), b"not authenticated"),
        check_version,
        || panic!("peer state must not be read before authentication"),
        |payload: Vec<u8>| Some(payload),
    );
    assert!(matches!(
        auth_rejection,
        Err(InboundRejection::Authentication)
    ));

    let wrong_version = [WIRE_VERSION.wrapping_add(1)];
    let version_rejection: Result<Vec<u8>, InboundRejection> = admit_inbound(
        PeerCap::new(1),
        || open(None, &wrong_version),
        check_version,
        || panic!("peer state must not be read before version validation"),
        |payload: Vec<u8>| Some(payload),
    );
    assert_eq!(
        version_rejection,
        Err(InboundRejection::Version(WIRE_VERSION.wrapping_add(1)))
    );
}

#[test]
fn peer_cap_precedes_replay_state_allocation() {
    let datagram = [7u8, WIRE_VERSION, b'p'];
    let windows = Cell::new(0usize);

    let rejected = admit_inbound(
        PeerCap::new(1),
        || open(Some(7), &datagram),
        check_version,
        || (false, 1),
        |payload: Vec<u8>| {
            windows.set(windows.get() + 1);
            Some(payload)
        },
    );
    assert!(matches!(
        rejected,
        Err(InboundRejection::PeerCap {
            current_len: 1,
            max: 1
        })
    ));
    assert_eq!(windows.get(), 0);

    let accepted = admit_inbound(
        PeerCap::new(1),
        || open(Some(7), &datagram),
        check_version,
        || (true, 1),
        |payload: Vec<u8>| {
            windows.set(windows.get() + 1);
            Some(payload)
        },
    );
    assert_eq!(accepted, Ok(vec![b'p']));
    assert_eq!(windows.get(), 1);
}

#[test]
fn replay_is_the_last_common_gate() {
    let datagram = [9u8, WIRE_VERSION, b'p'];
    let highest = Cell::new(0u64);
    let fresh = |payload: Vec<u8>| {
        if highest.get() < 11 {
            highest.set(11);
            Some(payload)
        } else {
            None
        }
    };

    assert!(admit_inbound(
        PeerCap::new(1),
        || open(Some(9), &datagram),
        check_version,
        || (false, 0),
        fresh,
    )
    .is_ok());

    let replayed = admit_inbound(
        PeerCap::new(1),
        || open(Some(9), &datagram),
        check_version,
        || (true, 1),
        fresh,
    );
    assert_eq!(replayed, Err(InboundRejection::Replay { seq: 11, stamp: 22 }));
}

#[test]
fn the_shared_checks_report_the_same_rejections() {
    let datagram = [7u8, WIRE_VERSION, b'p'];
    let offer = |key: u8, version_ok: bool, known: bool, fresh: bool| {
        admit_datagram(
            PeerCap::new(1),
            || (known, 1),
            || open(Some(key), &datagram),
            |payload: Vec<u8>| {
                if version_ok {
                    check_version(payload)
                } else {
                    Err(99)
                }
            },
            |payload: Vec<u8>| if fresh { Some(payload) } else { None },
        )
    };
    assert_eq!(offer(1, true, true, true), Err(DatagramRejection::Authentication));
    assert_eq!(offer(7, false, true, true), Err(DatagramRejection::Version(99)));
    assert_eq!(
        offer(7, true, false, true),
        Err(DatagramRejection::PeerCap { current_len: 1, max: 1 })
    );
    assert_eq!(
        offer(7, true, true, false),
        Err(DatagramRejection::Replay { seq: 11, stamp: 22 })
    );
    assert_eq!(offer(7, true, true, true), Ok(vec![b'p']));
}

#[test]
fn a_known_sender_is_admitted_past_the_cap() {
    let cap = PeerCap::new(2);
    assert_eq!(cap.max(), 2);
    assert!(cap.admits(false, 1));
    assert!(!cap.admits(false, 2));
    assert!(cap.admits(true, 5));
    assert!(!PeerCap::new(0).admits(false, 0));
}
