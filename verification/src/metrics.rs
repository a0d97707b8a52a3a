//! Stable names for every metric the library emits.
//!
//! A dashboard or an alert rule may depend on these.

use vstd::prelude::*;

verus! {

/// Local key insertions.
pub const INSERTS_TOTAL: &'static str = "reconcile_inserts_total";

/// Local removals (tombstones created).
pub const REMOVES_TOTAL: &'static str = "reconcile_removes_total";

/// Updates merged from peers.
pub const UPDATES_RECEIVED_TOTAL: &'static str = "reconcile_updates_received_total";

/// Datagrams sent.
pub const MESSAGES_SENT_TOTAL: &'static str = "reconcile_messages_sent_total";

/// Wire bytes sent.
pub const BYTES_SENT_TOTAL: &'static str = "reconcile_bytes_sent_total";

/// Datagrams accepted.
pub const MESSAGES_RECEIVED_TOTAL: &'static str = "reconcile_messages_received_total";

/// Wire bytes received.
pub const BYTES_RECEIVED_TOTAL: &'static str = "reconcile_bytes_received_total";

/// Sends that exhausted all retries.
pub const SEND_FAILURES_TOTAL: &'static str = "reconcile_send_failures_total";

/// Single encoded messages exceeding the datagram budget, dropped on the send path: the key never
/// converges.
pub const VALUES_OVERSIZED_TOTAL: &'static str = "reconcile_values_oversized_total";

/// Dropped datagrams, labeled `reason`.
pub const DATAGRAMS_DROPPED_TOTAL: &'static str = "reconcile_datagrams_dropped_total";

/// Writes that hit the write-broadcast egress budget, labeled `path`.
pub const BROADCAST_BACKPRESSURE_TOTAL: &'static str = "reconcile_broadcast_backpressure_total";

/// Reconciliation rounds initiated.
pub const ROUNDS_TOTAL: &'static str = "reconcile_rounds_total";

/// Tombstone acks resent on reconciliation rounds.
pub const TOMBSTONE_ACKS_RESENT_TOTAL: &'static str = "reconcile_tombstone_acks_resent_total";

/// Tombstones whose expiry instant had to be bounded, labeled `outcome`.
pub const TOMBSTONE_STAMP_BOUNDED_TOTAL: &'static str = "reconcile_tombstone_stamp_bounded_total";

/// Snapshot writes to the persistence backend that failed, periodic or asked for.
pub const PERSISTENCE_FAILURES_TOTAL: &'static str = "reconcile_persistence_failures_total";

/// Discovery-source resolutions that failed; the round is skipped, membership untouched.
pub const DISCOVERY_FAILURES_TOTAL: &'static str = "reconcile_discovery_failures_total";

/// Duration of `start_reconciliation`.
pub const ROUND_DURATION_SECONDS: &'static str = "reconcile_round_duration_seconds";

/// Duration of `handle_messages`.
pub const HANDLE_DURATION_SECONDS: &'static str = "reconcile_handle_messages_duration_seconds";

/// Current size of the gossip-routing peer set.
pub const PEERS_CURRENT: &'static str = "reconcile_peers_current";

/// Current size of the causal-stability membership set.
pub const MEMBERS_CURRENT: &'static str = "reconcile_members_current";

/// Current count of live (non-tombstone) entries.
pub const ENTRIES_CURRENT: &'static str = "reconcile_entries_current";

/// Current count of outstanding tombstones (deleted keys not yet garbage-collected).
pub const TOMBSTONES_CURRENT: &'static str = "reconcile_tombstones_current";

/// Current count of bulk anti-entropy dumps in flight, across all peers.
pub const BULK_DUMPS_IN_FLIGHT: &'static str = "reconcile_bulk_dumps_in_flight";

/// Current count of write-broadcast tasks in flight.
pub const BROADCASTS_IN_FLIGHT: &'static str = "reconcile_broadcasts_in_flight";

/// Consecutive persistence-backend snapshot failures since the last success; `0` while healthy.
/// A sustained non-zero value means durability has been broken since it last rose from zero.
pub const PERSISTENCE_FAILURES_CURRENT: &'static str = "reconcile_persistence_failures_current";

} // verus!
