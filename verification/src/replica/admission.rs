//! The admission checks as read replicas and full replicas share them.

use vstd::prelude::*;

use crate::replica::inbound;
use crate::replica::inbound::{InboundRejection, PeerCap, Versioned};

verus! {

/// Why an inbound datagram did not pass the shared admission checks.
#[derive(Clone, Copy, Debug, PartialEq, Eq, Structural)]
pub enum DatagramRejection {
    /// It was not sealed with a cluster key.
    Authentication,
    /// It speaks another wire version.
    Version(u8),
    /// Its sender is unknown, and no more peers are tracked.
    PeerCap {
        /// How many peers are tracked.
        current_len: usize,
        /// How many may be.
        max: usize,
    },
    /// It is a replay, or too old.
    Replay {
        /// Its sequence number.
        seq: u64,
        /// Its stamp.
        stamp: u64,
    },
}

/// The same rejection, as the common checks name it.
pub open spec fn as_inbound(rejection: DatagramRejection) -> InboundRejection {
    match rejection {
        DatagramRejection::Authentication => InboundRejection::Authentication,
        DatagramRejection::Version(version) => InboundRejection::Version(version),
        DatagramRejection::PeerCap { current_len, max } => InboundRejection::PeerCap { current_len, max },
        DatagramRejection::Replay { seq, stamp } => InboundRejection::Replay { seq, stamp },
    }
}

/// The same outcome, as the common checks name it.
pub open spec fn as_inbound_result<W>(result: Result<W, DatagramRejection>) -> Result<W, InboundRejection> {
    match result {
        Ok(verified) => Ok(verified),
        Err(rejection) => Err(as_inbound(rejection)),
    }
}

/// Authenticate, check the version, bound peer state, then verify replay metadata. Callers decide
/// what a known peer is, and keep their own logging and bookkeeping.
pub fn admit_datagram<A, B, W, O, C, P, R>(
    max_peers: PeerCap,
    peer_state: P,
    open: O,
    check_version: C,
    verify_replay: R,
) -> (result: Result<W, DatagramRejection>) where
    O: FnOnce() -> Option<A>,
    C: FnOnce(A) -> Result<Versioned<B>, u8>,
    P: FnOnce() -> (bool, usize),
    R: FnOnce(B) -> Option<W>,

    requires
        call_requires(open, ()),
        forall|authentic: A| #[trigger]
            call_ensures(open, (), Some(authentic)) ==> call_requires(check_version, (authentic,)),
        forall|authentic: A, versioned: Versioned<B>| #[trigger]
            inbound::reads(open, check_version, authentic, versioned) ==> call_requires(peer_state, ()),
        forall|authentic: A, versioned: Versioned<B>, state: (bool, usize)| #[trigger]
            inbound::clears_cap(
                max_peers,
                open,
                check_version,
                peer_state,
                authentic,
                versioned,
                state,
            ) ==> call_requires(verify_replay, (versioned.payload,)),
    ensures
        inbound::is_verdict(
            max_peers,
            open,
            check_version,
            peer_state,
            verify_replay,
            as_inbound_result(result),
        ),
{
    match inbound::admit_inbound(max_peers, open, check_version, peer_state, verify_replay) {
        Ok(verified) => Ok(verified),
        Err(InboundRejection::Authentication) => Err(DatagramRejection::Authentication),
        Err(InboundRejection::Version(version)) => Err(DatagramRejection::Version(version)),
        Err(InboundRejection::PeerCap { current_len, max }) => Err(
            DatagramRejection::PeerCap { current_len, max },
        ),
        Err(InboundRejection::Replay { seq, stamp }) => Err(
            DatagramRejection::Replay { seq, stamp },
        ),
    }
}

/// Both ways in agree: over checks that come to the same outcome whenever they are made on the same
/// argument, they let the same payload through, or turn the datagram down for the same reason.
pub proof fn both_ways_in_agree<A, B, W, O, C, P, R>(
    max_peers: PeerCap,
    open: O,
    check_version: C,
    peer_state: P,
    verify_replay: R,
    inbound: Result<W, InboundRejection>,
    datagram: Result<W, DatagramRejection>,
) where
    O: FnOnce() -> Option<A>,
    C: FnOnce(A) -> Result<Versioned<B>, u8>,
    P: FnOnce() -> (bool, usize),
    R: FnOnce(B) -> Option<W>,

    requires
        forall|a: Option<A>, b: Option<A>| #[trigger]
            call_ensures(open, (), a) && #[trigger] call_ensures(open, (), b) ==> a == b,
        forall|x: A, a: Result<Versioned<B>, u8>, b: Result<Versioned<B>, u8>| #[trigger]
            call_ensures(check_version, (x,), a) && #[trigger] call_ensures(check_version, (x,), b) ==> a == b,
        forall|a: (bool, usize), b: (bool, usize)| #[trigger]
            call_ensures(peer_state, (), a) && #[trigger] call_ensures(peer_state, (), b) ==> a == b,
        forall|x: B, a: Option<W>, b: Option<W>| #[trigger]
            call_ensures(verify_replay, (x,), a) && #[trigger] call_ensures(verify_replay, (x,), b) ==> a == b,
        inbound::is_verdict(max_peers, open, check_version, peer_state, verify_replay, inbound),
        inbound::is_verdict(
            max_peers,
            open,
            check_version,
            peer_state,
            verify_replay,
            as_inbound_result(datagram),
        ),
    ensures
        as_inbound_result(datagram) == inbound,
{
}

/// A rejection keeps its kind and everything it tells, and two that differ stay different.
pub proof fn rejections_keep_what_they_tell(a: DatagramRejection, b: DatagramRejection)
    ensures
        as_inbound(a) == as_inbound(b) <==> a == b,
        a is Authentication <==> as_inbound(a) is Authentication,
        a matches DatagramRejection::Version(version) ==> as_inbound(a) == InboundRejection::Version(version),
        a matches DatagramRejection::PeerCap { current_len, max } ==> as_inbound(a)
            == (InboundRejection::PeerCap { current_len, max }),
        a matches DatagramRejection::Replay { seq, stamp } ==> as_inbound(a) == (InboundRejection::Replay {
            seq,
            stamp,
        }),
{
}

} // verus!
