//! Timestamps: a hybrid logical clock reading, with the writing node's identity to break ties.

use vstd::prelude::*;

verus! {

/// Milliseconds on the wall clock.
#[derive(Clone, Copy, Debug, PartialEq, Eq, Structural)]
pub struct PhysicalTime {
    /// The reading.
    pub millis: u64,
}

impl PhysicalTime {
    /// A wall-clock reading.
    pub fn from_millis(millis: u64) -> (time: Self)
        ensures
            time.millis == millis,
    {
        PhysicalTime { millis }
    }
}

/// Orders events within one wall-clock reading.
#[derive(Clone, Copy, Debug, PartialEq, Eq, Structural)]
pub struct LogicalCounter {
    /// The count.
    pub count: u32,
}

impl LogicalCounter {
    /// A counter value.
    pub fn new(count: u32) -> (counter: Self)
        ensures
            counter.count == count,
    {
        LogicalCounter { count }
    }
}

/// A hybrid logical clock reading.
#[derive(Clone, Copy, Debug, PartialEq, Eq, Structural)]
pub struct Hlc {
    /// The wall-clock part.
    pub physical: PhysicalTime,
    /// The logical part.
    pub logical: LogicalCounter,
}

impl Hlc {
    /// A reading from its two parts.
    pub fn new(physical: PhysicalTime, logical: LogicalCounter) -> (hlc: Self)
        ensures
            hlc == (Hlc { physical, logical }),
    {
        Hlc { physical, logical }
    }
}

/// The identity a node stamps its writes with.
#[derive(Clone, Copy, Debug, PartialEq, Eq, Structural)]
pub struct NodeId {
    /// The identity.
    pub id: u64,
}

impl NodeId {
    /// A node identity.
    pub fn new(id: u64) -> (node: Self)
        ensures
            node.id == id,
    {
        NodeId { id }
    }

    /// The identity as a number.
    pub fn get(&self) -> (id: u64)
        ensures
            id == self.id,
    {
        self.id
    }
}

/// How far ahead of local time a remote timestamp may run.
#[derive(Clone, Copy, Debug, PartialEq, Eq, Structural)]
pub struct ClockDrift {
    /// The bound, in milliseconds.
    pub millis: u64,
}

/// The time of a write, and who wrote it.
#[derive(Clone, Copy, Debug, PartialEq, Eq, Structural)]
pub struct Timestamp {
    /// When.
    pub hlc: Hlc,
    /// By whom.
    pub node: NodeId,
}

impl View for Timestamp {
    type V = Timestamp;

    open spec fn view(&self) -> Timestamp {
        *self
    }
}

/// `a` is strictly newer than `b`: the wall clock decides, then the logical counter, then the node.
pub open spec fn newer(a: Timestamp, b: Timestamp) -> bool {
    let (ap, bp) = (a.hlc.physical.millis, b.hlc.physical.millis);
    let (al, bl) = (a.hlc.logical.count, b.hlc.logical.count);
    ap > bp || (ap == bp && (al > bl || (al == bl && a.node.id > b.node.id)))
}

impl Timestamp {
    /// A timestamp from its parts.
    pub fn new(hlc: Hlc, node: NodeId) -> (stamp: Self)
        ensures
            stamp == (Timestamp { hlc, node }),
    {
        Timestamp { hlc, node }
    }

    /// Whether this timestamp is strictly newer than `other`.
    pub fn is_newer_than(&self, other: &Timestamp) -> (is_newer: bool)
        ensures
            is_newer == newer(*self, *other),
            self.hlc.physical.millis != other.hlc.physical.millis ==> is_newer == (
            self.hlc.physical.millis > other.hlc.physical.millis),
    {
        let ap: u64 = self.hlc.physical.millis;
        let bp: u64 = other.hlc.physical.millis;
        let al: u32 = self.hlc.logical.count;
        let bl: u32 = other.hlc.logical.count;
        ap > bp || (ap == bp && (al > bl || (al == bl && self.node.id > other.node.id)))
    }
}

/// Timestamps are totally ordered: any two that differ are ordered one way, and never both ways.
pub proof fn newer_is_a_total_order(a: Timestamp, b: Timestamp, c: Timestamp)
    ensures
        !newer(a, a),
        newer(a, b) ==> !newer(b, a),
        a == b || newer(a, b) || newer(b, a),
        newer(a, b) && newer(b, c) ==> newer(a, c),
{
}

/// The wall clock decides first: of two writes, the one with the greater reading is newer, whoever
/// wrote it. Only within one reading does the logical counter decide, and only within one count the
/// node id.
pub proof fn later_writes_are_newer(a: Timestamp, b: Timestamp)
    ensures
        a.hlc.physical.millis > b.hlc.physical.millis ==> newer(a, b) && !newer(b, a),
        a.hlc.physical.millis == b.hlc.physical.millis && a.hlc.logical.count > b.hlc.logical.count
            ==> newer(a, b) && !newer(b, a),
        a.hlc == b.hlc && a.node.id > b.node.id ==> newer(a, b) && !newer(b, a),
        a.hlc == b.hlc && a.node.id == b.node.id ==> !newer(a, b) && !newer(b, a),
{
}

} // verus!
