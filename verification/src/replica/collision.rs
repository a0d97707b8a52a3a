//! Node-id collision detection.
//!
//! A random node id is unique only probabilistically. If two nodes share one and write the same key
//! at the same instant, both writes carry the identical timestamp while holding different content.
//! Last-write-wins cannot order them, so each side would keep its own value.
//!
//! The observable signature is equal stamps with unequal content. Redelivery of the same write has
//! equal stamp and equal content, and does not trip the detector.

use vstd::prelude::*;

use crate::bounds::Value;
use crate::clock::{NodeId, Timestamp};
use crate::entry::Entry;

verus! {

/// Two entries claim the same timestamp while holding different content.
pub open spec fn collides<X>(local: Entry<Timestamp, X>, remote: Entry<Timestamp, X>) -> bool {
    local.stamp == remote.stamp && local.state != remote.state
}

/// Whether `local` and `remote` claim the same timestamp while holding different content.
pub fn is_node_id_collision<V: Value>(
    local: &Entry<Timestamp, V>,
    remote: &Entry<Timestamp, V>,
) -> (collision: bool)
    ensures
        collision == collides(local@, remote@),
{
    local.stamp == remote.stamp && !local.state.same_content(&remote.state)
}

/// A collision looks the same from both sides, and an echo of a write is never one.
pub proof fn collisions_are_symmetric<X>(a: Entry<Timestamp, X>, b: Entry<Timestamp, X>)
    ensures
        collides(a, b) == collides(b, a),
        !collides(a, a),
{
}

/// The once-per-replica guard around the collision report.
///
/// While a collision lasts, every key of every round trips the detector, so the first call reports
/// and every later one is silent.
#[derive(Debug)]
pub struct CollisionReporter {
    /// Whether a collision was reported already.
    pub reported: bool,
}

impl CollisionReporter {
    /// Nothing reported yet.
    pub fn new() -> (reporter: Self)
        ensures
            !reporter.reported,
    {
        CollisionReporter { reported: false }
    }

    /// Report a detected collision, returning whether this call is the one that reports: `node_id`
    /// is then worth an error in the log, once.
    pub fn report(&mut self, node_id: NodeId) -> (first: bool)
        ensures
            first == !old(self).reported,
            final(self).reported,
    {
        let first: bool = !self.reported;
        self.reported = true;
        first
    }
}

/// What a collision is: one reading of the clock, one logical count and one node id on two entries
/// whose contents differ. Nothing else is one.
pub proof fn a_collision_is_one_stamp_on_two_contents<X>(a: Entry<Timestamp, X>, b: Entry<Timestamp, X>)
    ensures
        collides(a, b) <==> a.stamp.hlc.physical.millis == b.stamp.hlc.physical.millis
            && a.stamp.hlc.logical.count == b.stamp.hlc.logical.count && a.stamp.node.id
            == b.stamp.node.id && a.state != b.state,
{
}

} // verus!
