//! The checks every inbound datagram passes before its messages are looked at.
//!
//! The order is what matters: authenticate, check the wire version, bound the number of tracked
//! peers, and only then touch replay state. Cryptography and replay windows belong to the caller,
//! who passes each check as a function.

use vstd::prelude::*;

verus! {

/// The most peers a replica keeps state for.
#[derive(Clone, Copy, Debug, PartialEq, Eq, Structural)]
pub struct PeerCap {
    /// The cap.
    pub max_peers: usize,
}

impl PeerCap {
    /// A cap of `max_peers`.
    pub fn new(max_peers: usize) -> (cap: Self)
        ensures
            cap.max_peers == max_peers,
    {
        PeerCap { max_peers }
    }

    /// A sender may be tracked: it already is, or there is room.
    pub open spec fn has_room(self, known: bool, current_len: usize) -> bool {
        known || current_len < self.max_peers
    }

    /// Whether a sender may be tracked: it already is, or there is room.
    pub fn admits(self, known: bool, current_len: usize) -> (admitted: bool)
        ensures
            admitted == self.has_room(known, current_len),
    {
        known || current_len < self.max_peers
    }

    /// The cap as a number.
    pub fn max(self) -> (max: usize)
        ensures
            max == self.max_peers,
    {
        self.max_peers
    }
}

/// Why an inbound datagram did not pass the checks.
#[derive(Clone, Copy, Debug, PartialEq, Eq, Structural)]
pub enum InboundRejection {
    /// It was not sealed with a cluster key.
    Authentication,
    /// It speaks another wire version.
    Version(u8),
    /// Its sender is unknown, and no more peers are tracked.
    PeerCap {
        /// How many peers are tracked.
        current_len: usize,
        /// How many may be.
        max: usize,
    },
    /// It is a replay, or too old.
    Replay {
        /// Its sequence number.
        seq: u64,
        /// Its stamp.
        stamp: u64,
    },
}

/// An authenticated payload of the right version, not checked for replay yet.
pub struct Versioned<B> {
    /// The payload.
    pub payload: B,
    /// Its sequence number.
    pub seq: u64,
    /// Its stamp.
    pub stamp: u64,
}

/// The datagram opens, and its payload is of the right version.
pub open spec fn reads<A, B, O, C>(open: O, check_version: C, authentic: A, versioned: Versioned<B>) -> bool where
    O: FnOnce() -> Option<A>,
    C: FnOnce(A) -> Result<Versioned<B>, u8>,
 {
    call_ensures(open, (), Some(authentic)) && call_ensures(check_version, (authentic,), Ok(versioned))
}

/// The payload reads, and the cap has room for its sender.
pub open spec fn clears_cap<A, B, O, C, P>(
    max_peers: PeerCap,
    open: O,
    check_version: C,
    peer_state: P,
    authentic: A,
    versioned: Versioned<B>,
    state: (bool, usize),
) -> bool where
    O: FnOnce() -> Option<A>,
    C: FnOnce(A) -> Result<Versioned<B>, u8>,
    P: FnOnce() -> (bool, usize),
 {
    &&& reads(open, check_version, authentic, versioned)
    &&& call_ensures(peer_state, (), state)
    &&& max_peers.has_room(state.0, state.1)
}

/// The payload reads, but the cap has no room for its sender.
pub open spec fn exceeds_cap<A, B, O, C, P>(
    max_peers: PeerCap,
    open: O,
    check_version: C,
    peer_state: P,
    authentic: A,
    versioned: Versioned<B>,
    state: (bool, usize),
) -> bool where
    O: FnOnce() -> Option<A>,
    C: FnOnce(A) -> Result<Versioned<B>, u8>,
    P: FnOnce() -> (bool, usize),
 {
    &&& reads(open, check_version, authentic, versioned)
    &&& call_ensures(peer_state, (), state)
    &&& !max_peers.has_room(state.0, state.1)
}

/// `result` is what the four checks, made in order, come to: the first to fail decides.
pub open spec fn is_verdict<A, B, W, O, C, P, R>(
    max_peers: PeerCap,
    open: O,
    check_version: C,
    peer_state: P,
    verify_replay: R,
    result: Result<W, InboundRejection>,
) -> bool where
    O: FnOnce() -> Option<A>,
    C: FnOnce(A) -> Result<Versioned<B>, u8>,
    P: FnOnce() -> (bool, usize),
    R: FnOnce(B) -> Option<W>,
 {
    match result {
        Err(InboundRejection::Authentication) => call_ensures(open, (), None),
        Err(InboundRejection::Version(version)) => exists|authentic: A| #[trigger]
            call_ensures(open, (), Some(authentic)) && call_ensures(
                check_version,
                (authentic,),
                Err(version),
            ),
        Err(InboundRejection::PeerCap { current_len, max }) => exists|
            authentic: A,
            versioned: Versioned<B>,
            state: (bool, usize),
        |
            #[trigger] exceeds_cap(
                max_peers,
                open,
                check_version,
                peer_state,
                authentic,
                versioned,
                state,
            ) && current_len == state.1 && max == max_peers.max_peers,
        Err(InboundRejection::Replay { seq, stamp }) => exists|
            authentic: A,
            versioned: Versioned<B>,
            state: (bool, usize),
        |
            {
                &&& #[trigger] clears_cap(
                    max_peers,
                    open,
                    check_version,
                    peer_state,
                    authentic,
                    versioned,
                    state,
                )
                &&& call_ensures(verify_replay, (versioned.payload,), None)
                &&& versioned.seq == seq
                &&& versioned.stamp == stamp
            },
        Ok(verified) => exists|authentic: A, versioned: Versioned<B>, state: (bool, usize)|
            {
                &&& #[trigger] clears_cap(
                    max_peers,
                    open,
                    check_version,
                    peer_state,
                    authentic,
                    versioned,
                    state,
                )
                &&& call_ensures(verify_replay, (versioned.payload,), Some(verified))
            },
    }
}

/// Authenticate, check the version, apply the peer cap, then check for replay.
///
/// Each check need only be callable once the ones before it passed: peer state is not read before
/// the datagram is authenticated and of the right version, and replay state is not touched for a
/// sender the cap leaves out.
pub fn admit_inbound<A, B, W, O, C, P, R>(
    max_peers: PeerCap,
    open: O,
    check_version: C,
    peer_state: P,
    verify_replay: R,
) -> (result: Result<W, InboundRejection>) where
    O: FnOnce() -> Option<A>,
    C: FnOnce(A) -> Result<Versioned<B>, u8>,
    P: FnOnce() -> (bool, usize),
    R: FnOnce(B) -> Option<W>,

    requires
        call_requires(open, ()),
        forall|authentic: A| #[trigger]
            call_ensures(open, (), Some(authentic)) ==> call_requires(check_version, (authentic,)),
        forall|authentic: A, versioned: Versioned<B>| #[trigger]
            reads(open, check_version, authentic, versioned) ==> call_requires(peer_state, ()),
        forall|authentic: A, versioned: Versioned<B>, state: (bool, usize)| #[trigger]
            clears_cap(max_peers, open, check_version, peer_state, authentic, versioned, state)
                ==> call_requires(verify_replay, (versioned.payload,)),
    ensures
        is_verdict(max_peers, open, check_version, peer_state, verify_replay, result),
{
    let authentic: A = match open() {
        Some(authentic) => authentic,
        None => {
            return Err(InboundRejection::Authentication);
        },
    };
    assert(call_ensures(open, (), Some(authentic)));
    let versioned: Versioned<B> = match check_version(authentic) {
        Ok(versioned) => versioned,
        Err(version) => {
            return Err(InboundRejection::Version(version));
        },
    };
    assert(reads(open, check_version, authentic, versioned));
    let (known, current_len): (bool, usize) = peer_state();
    if !max_peers.admits(known, current_len) {
        assert(exceeds_cap(
            max_peers,
            open,
            check_version,
            peer_state,
            authentic,
            versioned,
            (known, current_len),
        ));
        return Err(InboundRejection::PeerCap { current_len, max: max_peers.max() });
    }
    assert(clears_cap(
        max_peers,
        open,
        check_version,
        peer_state,
        authentic,
        versioned,
        (known, current_len),
    ));
    let seq: u64 = versioned.seq;
    let stamp: u64 = versioned.stamp;
    match verify_replay(versioned.payload) {
        Some(verified) => Ok(verified),
        None => Err(InboundRejection::Replay { seq, stamp }),
    }
}

/// The first check to fail decides, in this order: authentication, the wire version, the cap, then
/// replay; a datagram that passes all four is let through. Where a check's outcome is settled, so is
/// what the datagram is turned down for. A sender that is tracked already is never turned down for
/// the cap, and an unknown one exactly when as many are tracked as may be.
pub proof fn the_first_failed_check_decides<A, B, W, O, C, P, R>(
    max_peers: PeerCap,
    open: O,
    check_version: C,
    peer_state: P,
    verify_replay: R,
    result: Result<W, InboundRejection>,
    opened: Option<A>,
    checked: Result<Versioned<B>, u8>,
    known: bool,
    current_len: usize,
    verified: Option<W>,
) where
    O: FnOnce() -> Option<A>,
    C: FnOnce(A) -> Result<Versioned<B>, u8>,
    P: FnOnce() -> (bool, usize),
    R: FnOnce(B) -> Option<W>,

    requires
        is_verdict(max_peers, open, check_version, peer_state, verify_replay, result),
        forall|a: Option<A>| #[trigger] call_ensures(open, (), a) ==> a == opened,
        forall|a: A, c: Result<Versioned<B>, u8>| #[trigger]
            call_ensures(check_version, (a,), c) ==> c == checked,
        forall|s: (bool, usize)| #[trigger] call_ensures(peer_state, (), s) ==> s == (known, current_len),
        forall|b: B, v: Option<W>| #[trigger] call_ensures(verify_replay, (b,), v) ==> v == verified,
    ensures
        opened is None ==> result == Err::<W, InboundRejection>(InboundRejection::Authentication),
        opened is Some ==> match checked {
            Err(version) => result == Err::<W, InboundRejection>(InboundRejection::Version(version)),
            Ok(versioned) => if !known && current_len >= max_peers.max_peers {
                result == Err::<W, InboundRejection>(
                    InboundRejection::PeerCap { current_len, max: max_peers.max_peers },
                )
            } else {
                match verified {
                    None => result == Err::<W, InboundRejection>(
                        InboundRejection::Replay { seq: versioned.seq, stamp: versioned.stamp },
                    ),
                    Some(w) => result == Ok::<W, InboundRejection>(w),
                }
            },
        },
{
}

/// A tracked sender always has room; an unknown one as long as fewer are tracked than may be.
pub proof fn tracked_senders_always_have_room(cap: PeerCap, known: bool, current_len: usize)
    ensures
        cap.has_room(true, current_len),
        cap.has_room(false, current_len) <==> current_len < cap.max_peers,
        cap.has_room(known, current_len) ==> known || current_len < cap.max_peers,
{
}

} // verus!
