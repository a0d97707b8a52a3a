//! What the library reports about itself, as events against the names in [`crate::metrics`].
//!
//! Nothing here talks to a metrics backend: each helper appends to a [`Metrics`] log, and whoever
//! drives the library forwards the events.

use vstd::prelude::*;

use crate::metrics;
use crate::time;
use crate::time::{Duration, Instant};

verus! {

/// What an event does to its metric.
#[derive(Clone, Copy, Debug, PartialEq, Eq, Structural)]
pub enum Change {
    /// Add to a counter.
    Increment(u64),
    /// Set a gauge.
    Assign(usize),
    /// Record a span in a histogram.
    Record(Duration),
}

/// One event.
#[derive(Clone, Copy, Debug)]
pub struct MetricEvent {
    /// The metric it is about.
    pub name: &'static str,
    /// A label and its value, where the metric has one.
    pub label: Option<(&'static str, &'static str)>,
    /// What happens to the metric.
    pub change: Change,
}

/// A counter going up by `by`.
pub open spec fn counted(name: &'static str, by: u64) -> MetricEvent {
    MetricEvent { name, label: None, change: Change::Increment(by) }
}

/// A labeled counter going up by one.
pub open spec fn counted_by(name: &'static str, label: &'static str, value: &'static str) -> MetricEvent {
    MetricEvent { name, label: Some((label, value)), change: Change::Increment(1) }
}

/// A gauge being set.
pub open spec fn gauged(name: &'static str, to: usize) -> MetricEvent {
    MetricEvent { name, label: None, change: Change::Assign(to) }
}

/// A span being recorded.
pub open spec fn timed(name: &'static str, span: nat) -> MetricEvent {
    MetricEvent { name, label: None, change: Change::Record(Duration { nanos: span as u128 }) }
}

/// The events not forwarded yet, oldest first.
pub struct Metrics {
    /// The events.
    pub events: Vec<MetricEvent>,
}

impl View for Metrics {
    type V = Seq<MetricEvent>;

    open spec fn view(&self) -> Seq<MetricEvent> {
        self.events@
    }
}

/// Start a latency timer.
pub fn timer(now: Instant) -> (start: Option<Instant>)
    ensures
        start == Some(now),
{
    Some(now)
}

/// What timing a span that began at `start` adds to the log; nothing when no timer was started.
pub open spec fn span_events(name: &'static str, start: Option<Instant>, now: Instant) -> Seq<MetricEvent> {
    match start {
        Some(at) => seq![timed(name, time::since(at, now))],
        None => Seq::empty(),
    }
}

/// The gauges that say what the state is now.
pub open spec fn state_gauges(
    peers: usize,
    members: usize,
    entries: usize,
    tombstones: usize,
    bulk_dumps_in_flight: usize,
    broadcasts_in_flight: usize,
) -> Seq<MetricEvent> {
    seq![
        gauged(metrics::PEERS_CURRENT, peers),
        gauged(metrics::MEMBERS_CURRENT, members),
        gauged(metrics::ENTRIES_CURRENT, entries),
        gauged(metrics::TOMBSTONES_CURRENT, tombstones),
        gauged(metrics::BULK_DUMPS_IN_FLIGHT, bulk_dumps_in_flight),
        gauged(metrics::BROADCASTS_IN_FLIGHT, broadcasts_in_flight),
    ]
}

impl Metrics {
    /// The empty log.
    pub fn new() -> (log: Self)
        ensures
            log@ == Seq::<MetricEvent>::empty(),
    {
        Metrics { events: Vec::new() }
    }

    /// Take every event out of the log.
    pub fn drain(&mut self) -> (events: Vec<MetricEvent>)
        ensures
            events@ == old(self)@,
            final(self)@ == Seq::<MetricEvent>::empty(),
    {
        let mut events: Vec<MetricEvent> = Vec::new();
        std::mem::swap(&mut events, &mut self.events);
        events
    }

    fn count(&mut self, name: &'static str, by: u64)
        ensures
            final(self)@ == old(self)@.push(counted(name, by)),
    {
        self.events.push(MetricEvent { name, label: None, change: Change::Increment(by) });
    }

    fn count_by(&mut self, name: &'static str, label: &'static str, value: &'static str)
        ensures
            final(self)@ == old(self)@.push(counted_by(name, label, value)),
    {
        self.events.push(
            MetricEvent { name, label: Some((label, value)), change: Change::Increment(1) },
        );
    }

    fn gauge(&mut self, name: &'static str, to: usize)
        ensures
            final(self)@ == old(self)@.push(gauged(name, to)),
    {
        self.events.push(MetricEvent { name, label: None, change: Change::Assign(to) });
    }

    fn span(&mut self, name: &'static str, start: Option<Instant>, now: Instant)
        ensures
            final(self)@ == old(self)@ + span_events(name, start, now),
    {
        match start {
            Some(at) => {
                let span: Duration = now.saturating_duration_since(at);
                self.events.push(MetricEvent { name, label: None, change: Change::Record(span) });
                assert(self@ =~= old(self)@ + span_events(name, start, now));
            },
            None => {
                assert(self@ =~= old(self)@ + span_events(name, start, now));
            },
        }
    }

    /// A live value was written locally.
    pub fn record_insert(&mut self)
        ensures
            final(self)@ == old(self)@.push(counted(metrics::INSERTS_TOTAL, 1)),
    {
        self.count(metrics::INSERTS_TOTAL, 1)
    }

    /// A tombstone was written locally.
    pub fn record_remove(&mut self)
        ensures
            final(self)@ == old(self)@.push(counted(metrics::REMOVES_TOTAL, 1)),
    {
        self.count(metrics::REMOVES_TOTAL, 1)
    }

    /// A batch of `n` updates arrived from a peer.
    pub fn record_updates_received(&mut self, n: usize)
        ensures
            final(self)@ == old(self)@.push(counted(metrics::UPDATES_RECEIVED_TOTAL, n as u64)),
    {
        self.count(metrics::UPDATES_RECEIVED_TOTAL, n as u64)
    }

    /// A datagram of `bytes` bytes was sent.
    pub fn record_bytes_sent(&mut self, bytes: usize)
        ensures
            final(self)@ == old(self)@.push(counted(metrics::MESSAGES_SENT_TOTAL, 1)).push(
                counted(metrics::BYTES_SENT_TOTAL, bytes as u64),
            ),
    {
        self.count(metrics::MESSAGES_SENT_TOTAL, 1);
        self.count(metrics::BYTES_SENT_TOTAL, bytes as u64)
    }

    /// A datagram of `bytes` bytes was accepted.
    pub fn record_bytes_received(&mut self, bytes: usize)
        ensures
            final(self)@ == old(self)@.push(counted(metrics::MESSAGES_RECEIVED_TOTAL, 1)).push(
                counted(metrics::BYTES_RECEIVED_TOTAL, bytes as u64),
            ),
    {
        self.count(metrics::MESSAGES_RECEIVED_TOTAL, 1);
        self.count(metrics::BYTES_RECEIVED_TOTAL, bytes as u64)
    }

    /// A send exhausted all its retries.
    pub fn record_send_failure(&mut self)
        ensures
            final(self)@ == old(self)@.push(counted(metrics::SEND_FAILURES_TOTAL, 1)),
    {
        self.count(metrics::SEND_FAILURES_TOTAL, 1)
    }

    /// A single message exceeds the datagram budget on its own: dropped, never sent.
    pub fn record_value_oversized(&mut self)
        ensures
            final(self)@ == old(self)@.push(counted(metrics::VALUES_OVERSIZED_TOTAL, 1)),
    {
        self.count(metrics::VALUES_OVERSIZED_TOTAL, 1)
    }

    /// An inbound datagram was dropped.
    pub fn record_datagram_dropped(&mut self, reason: &'static str)
        ensures
            final(self)@ == old(self)@.push(counted_by(metrics::DATAGRAMS_DROPPED_TOTAL, "reason", reason)),
    {
        self.count_by(metrics::DATAGRAMS_DROPPED_TOTAL, "reason", reason)
    }

    /// A write hit the egress budget. `path` is `"eager"` when the write applied and only its broadcast
    /// was skipped, and `"try"` when the whole call was rejected.
    pub fn record_broadcast_backpressure(&mut self, path: &'static str)
        ensures
            final(self)@ == old(self)@.push(counted_by(metrics::BROADCAST_BACKPRESSURE_TOTAL, "path", path)),
    {
        self.count_by(metrics::BROADCAST_BACKPRESSURE_TOTAL, "path", path)
    }

    /// A reconciliation round was initiated.
    pub fn record_reconcile_round(&mut self)
        ensures
            final(self)@ == old(self)@.push(counted(metrics::ROUNDS_TOTAL, 1)),
    {
        self.count(metrics::ROUNDS_TOTAL, 1)
    }

    /// `n` tombstone acks were resent.
    pub fn record_tombstone_acks_resent(&mut self, n: usize)
        ensures
            final(self)@ == old(self)@.push(counted(metrics::TOMBSTONE_ACKS_RESENT_TOTAL, n as u64)),
    {
        self.count(metrics::TOMBSTONE_ACKS_RESENT_TOTAL, n as u64)
    }

    /// A tombstone's expiry instant had to be bounded.
    pub fn record_tombstone_stamp_bounded(&mut self, outcome: &'static str)
        ensures
            final(self)@ == old(self)@.push(counted_by(metrics::TOMBSTONE_STAMP_BOUNDED_TOTAL, "outcome", outcome)),
    {
        self.count_by(metrics::TOMBSTONE_STAMP_BOUNDED_TOTAL, "outcome", outcome)
    }

    /// A reconciliation round ended.
    pub fn record_round_duration(&mut self, start: Option<Instant>, now: Instant)
        ensures
            final(self)@ == old(self)@ + span_events(metrics::ROUND_DURATION_SECONDS, start, now),
    {
        self.span(metrics::ROUND_DURATION_SECONDS, start, now)
    }

    /// A datagram's messages were handled.
    pub fn record_handle_duration(&mut self, start: Option<Instant>, now: Instant)
        ensures
            final(self)@ == old(self)@ + span_events(metrics::HANDLE_DURATION_SECONDS, start, now),
    {
        self.span(metrics::HANDLE_DURATION_SECONDS, start, now)
    }

    /// A snapshot write failed, `consecutive` times in a row by now.
    pub fn record_persistence_failure(&mut self, consecutive: usize)
        ensures
            final(self)@ == old(self)@.push(counted(metrics::PERSISTENCE_FAILURES_TOTAL, 1)).push(
                gauged(metrics::PERSISTENCE_FAILURES_CURRENT, consecutive),
            ),
    {
        self.count(metrics::PERSISTENCE_FAILURES_TOTAL, 1);
        self.gauge(metrics::PERSISTENCE_FAILURES_CURRENT, consecutive)
    }

    /// A snapshot write succeeded.
    pub fn record_persistence_success(&mut self)
        ensures
            final(self)@ == old(self)@.push(gauged(metrics::PERSISTENCE_FAILURES_CURRENT, 0)),
    {
        self.gauge(metrics::PERSISTENCE_FAILURES_CURRENT, 0)
    }

    /// A discovery source failed to resolve; the round is skipped.
    pub fn record_discovery_failure(&mut self)
        ensures
            final(self)@ == old(self)@.push(counted(metrics::DISCOVERY_FAILURES_TOTAL, 1)),
    {
        self.count(metrics::DISCOVERY_FAILURES_TOTAL, 1)
    }

    /// Refresh the gauges that say what the state is now, once per reconciliation round.
    pub fn record_state_gauges(
        &mut self,
        peers: usize,
        members: usize,
        entries: usize,
        tombstones: usize,
        bulk_dumps_in_flight: usize,
        broadcasts_in_flight: usize,
    )
        ensures
            final(self)@ == old(self)@ + state_gauges(
                peers,
                members,
                entries,
                tombstones,
                bulk_dumps_in_flight,
                broadcasts_in_flight,
            ),
    {
        self.gauge(metrics::PEERS_CURRENT, peers);
        self.gauge(metrics::MEMBERS_CURRENT, members);
        self.gauge(metrics::ENTRIES_CURRENT, entries);
        self.gauge(metrics::TOMBSTONES_CURRENT, tombstones);
        self.gauge(metrics::BULK_DUMPS_IN_FLIGHT, bulk_dumps_in_flight);
        self.gauge(metrics::BROADCASTS_IN_FLIGHT, broadcasts_in_flight);
        assert(self@ =~= old(self)@ + state_gauges(
            peers,
            members,
            entries,
            tombstones,
            bulk_dumps_in_flight,
            broadcasts_in_flight,
        ));
    }
}

/// How a metric accumulates.
#[derive(Clone, Copy, Debug, PartialEq, Eq, Structural)]
pub enum Kind {
    /// Only ever goes up.
    Counter,
    /// Holds the last value set.
    Gauge,
    /// Collects a distribution.
    Histogram,
}

/// What a metric counts.
#[derive(Clone, Copy, Debug, PartialEq, Eq, Structural)]
pub enum Unit {
    /// Occurrences.
    Count,
    /// Bytes.
    Bytes,
    /// Seconds.
    Seconds,
}

/// What a metrics backend is told about a metric.
#[derive(Clone, Copy, Debug)]
pub struct Description {
    /// The metric's name.
    pub name: &'static str,
    /// How it accumulates.
    pub kind: Kind,
    /// What it counts.
    pub unit: Unit,
    /// What it means.
    pub help: &'static str,
}

/// Every metric, with its description.
pub open spec fn catalogue() -> Seq<Description> {
    seq![
        Description {
            name: metrics::INSERTS_TOTAL,
            kind: Kind::Counter,
            unit: Unit::Count,
            help: "Local key insertions",
        },
        Description {
            name: metrics::REMOVES_TOTAL,
            kind: Kind::Counter,
            unit: Unit::Count,
            help: "Local removals (tombstones created)",
        },
        Description {
            name: metrics::UPDATES_RECEIVED_TOTAL,
            kind: Kind::Counter,
            unit: Unit::Count,
            help: "Updates merged from peers",
        },
        Description {
            name: metrics::MESSAGES_SENT_TOTAL,
            kind: Kind::Counter,
            unit: Unit::Count,
            help: "Datagrams sent",
        },
        Description {
            name: metrics::BYTES_SENT_TOTAL,
            kind: Kind::Counter,
            unit: Unit::Bytes,
            help: "Wire bytes sent",
        },
        Description {
            name: metrics::MESSAGES_RECEIVED_TOTAL,
            kind: Kind::Counter,
            unit: Unit::Count,
            help: "Datagrams accepted",
        },
        Description {
            name: metrics::BYTES_RECEIVED_TOTAL,
            kind: Kind::Counter,
            unit: Unit::Bytes,
            help: "Wire bytes received",
        },
        Description {
            name: metrics::SEND_FAILURES_TOTAL,
            kind: Kind::Counter,
            unit: Unit::Count,
            help: "Sends that exhausted all retries",
        },
        Description {
            name: metrics::VALUES_OVERSIZED_TOTAL,
            kind: Kind::Counter,
            unit: Unit::Count,
            help: "Single encoded messages exceeding the datagram budget, dropped on the send path",
        },
        Description {
            name: metrics::DATAGRAMS_DROPPED_TOTAL,
            kind: Kind::Counter,
            unit: Unit::Count,
            help: "Datagrams dropped, by reason",
        },
        Description {
            name: metrics::BROADCAST_BACKPRESSURE_TOTAL,
            kind: Kind::Counter,
            unit: Unit::Count,
            help: "Writes that hit the write-broadcast egress budget, by path",
        },
        Description {
            name: metrics::ROUNDS_TOTAL,
            kind: Kind::Counter,
            unit: Unit::Count,
            help: "Reconciliation rounds initiated",
        },
        Description {
            name: metrics::TOMBSTONE_ACKS_RESENT_TOTAL,
            kind: Kind::Counter,
            unit: Unit::Count,
            help: "Tombstone acks resent on reconciliation rounds",
        },
        Description {
            name: metrics::TOMBSTONE_STAMP_BOUNDED_TOTAL,
            kind: Kind::Counter,
            unit: Unit::Count,
            help: "Tombstones whose expiry instant had to be bounded, by outcome",
        },
        Description {
            name: metrics::ROUND_DURATION_SECONDS,
            kind: Kind::Histogram,
            unit: Unit::Seconds,
            help: "Duration of start_reconciliation",
        },
        Description {
            name: metrics::HANDLE_DURATION_SECONDS,
            kind: Kind::Histogram,
            unit: Unit::Seconds,
            help: "Duration of handle_messages",
        },
        Description {
            name: metrics::PERSISTENCE_FAILURES_TOTAL,
            kind: Kind::Counter,
            unit: Unit::Count,
            help: "Snapshot writes to the persistence backend that failed",
        },
        Description {
            name: metrics::DISCOVERY_FAILURES_TOTAL,
            kind: Kind::Counter,
            unit: Unit::Count,
            help: "Discovery-source resolutions that failed",
        },
        Description {
            name: metrics::PEERS_CURRENT,
            kind: Kind::Gauge,
            unit: Unit::Count,
            help: "Current size of the gossip-routing peer set",
        },
        Description {
            name: metrics::MEMBERS_CURRENT,
            kind: Kind::Gauge,
            unit: Unit::Count,
            help: "Current size of the causal-stability membership set",
        },
        Description {
            name: metrics::ENTRIES_CURRENT,
            kind: Kind::Gauge,
            unit: Unit::Count,
            help: "Current count of live (non-tombstone) entries",
        },
        Description {
            name: metrics::TOMBSTONES_CURRENT,
            kind: Kind::Gauge,
            unit: Unit::Count,
            help: "Current count of outstanding tombstones",
        },
        Description {
            name: metrics::BULK_DUMPS_IN_FLIGHT,
            kind: Kind::Gauge,
            unit: Unit::Count,
            help: "Current count of bulk anti-entropy dumps in flight",
        },
        Description {
            name: metrics::BROADCASTS_IN_FLIGHT,
            kind: Kind::Gauge,
            unit: Unit::Count,
            help: "Current count of write-broadcast tasks in flight",
        },
        Description {
            name: metrics::PERSISTENCE_FAILURES_CURRENT,
            kind: Kind::Gauge,
            unit: Unit::Count,
            help: "Consecutive persistence-backend snapshot failures since the last success",
        },
    ]
}

/// Descriptions and units of all metrics, to register with a recorder once it is installed.
pub fn describe() -> (descriptions: Vec<Description>)
    ensures
        descriptions@ == catalogue(),
{
    let descriptions: Vec<Description> = vec![
        Description {
            name: metrics::INSERTS_TOTAL,
            kind: Kind::Counter,
            unit: Unit::Count,
            help: "Local key insertions",
        },
        Description {
            name: metrics::REMOVES_TOTAL,
            kind: Kind::Counter,
            unit: Unit::Count,
            help: "Local removals (tombstones created)",
        },
        Description {
            name: metrics::UPDATES_RECEIVED_TOTAL,
            kind: Kind::Counter,
            unit: Unit::Count,
            help: "Updates merged from peers",
        },
        Description {
            name: metrics::MESSAGES_SENT_TOTAL,
            kind: Kind::Counter,
            unit: Unit::Count,
            help: "Datagrams sent",
        },
        Description {
            name: metrics::BYTES_SENT_TOTAL,
            kind: Kind::Counter,
            unit: Unit::Bytes,
            help: "Wire bytes sent",
        },
        Description {
            name: metrics::MESSAGES_RECEIVED_TOTAL,
            kind: Kind::Counter,
            unit: Unit::Count,
            help: "Datagrams accepted",
        },
        Description {
            name: metrics::BYTES_RECEIVED_TOTAL,
            kind: Kind::Counter,
            unit: Unit::Bytes,
            help: "Wire bytes received",
        },
        Description {
            name: metrics::SEND_FAILURES_TOTAL,
            kind: Kind::Counter,
            unit: Unit::Count,
            help: "Sends that exhausted all retries",
        },
        Description {
            name: metrics::VALUES_OVERSIZED_TOTAL,
            kind: Kind::Counter,
            unit: Unit::Count,
            help: "Single encoded messages exceeding the datagram budget, dropped on the send path",
        },
        Description {
            name: metrics::DATAGRAMS_DROPPED_TOTAL,
            kind: Kind::Counter,
            unit: Unit::Count,
            help: "Datagrams dropped, by reason",
        },
        Description {
            name: metrics::BROADCAST_BACKPRESSURE_TOTAL,
            kind: Kind::Counter,
            unit: Unit::Count,
            help: "Writes that hit the write-broadcast egress budget, by path",
        },
        Description {
            name: metrics::ROUNDS_TOTAL,
            kind: Kind::Counter,
            unit: Unit::Count,
            help: "Reconciliation rounds initiated",
        },
        Description {
            name: metrics::TOMBSTONE_ACKS_RESENT_TOTAL,
            kind: Kind::Counter,
            unit: Unit::Count,
            help: "Tombstone acks resent on reconciliation rounds",
        },
        Description {
            name: metrics::TOMBSTONE_STAMP_BOUNDED_TOTAL,
            kind: Kind::Counter,
            unit: Unit::Count,
            help: "Tombstones whose expiry instant had to be bounded, by outcome",
        },
        Description {
            name: metrics::ROUND_DURATION_SECONDS,
            kind: Kind::Histogram,
            unit: Unit::Seconds,
            help: "Duration of start_reconciliation",
        },
        Description {
            name: metrics::HANDLE_DURATION_SECONDS,
            kind: Kind::Histogram,
            unit: Unit::Seconds,
            help: "Duration of handle_messages",
        },
        Description {
            name: metrics::PERSISTENCE_FAILURES_TOTAL,
            kind: Kind::Counter,
            unit: Unit::Count,
            help: "Snapshot writes to the persistence backend that failed",
        },
        Description {
            name: metrics::DISCOVERY_FAILURES_TOTAL,
            kind: Kind::Counter,
            unit: Unit::Count,
            help: "Discovery-source resolutions that failed",
        },
        Description {
            name: metrics::PEERS_CURRENT,
            kind: Kind::Gauge,
            unit: Unit::Count,
            help: "Current size of the gossip-routing peer set",
        },
        Description {
            name: metrics::MEMBERS_CURRENT,
            kind: Kind::Gauge,
            unit: Unit::Count,
            help: "Current size of the causal-stability membership set",
        },
        Description {
            name: metrics::ENTRIES_CURRENT,
            kind: Kind::Gauge,
            unit: Unit::Count,
            help: "Current count of live (non-tombstone) entries",
        },
        Description {
            name: metrics::TOMBSTONES_CURRENT,
            kind: Kind::Gauge,
            unit: Unit::Count,
            help: "Current count of outstanding tombstones",
        },
        Description {
            name: metrics::BULK_DUMPS_IN_FLIGHT,
            kind: Kind::Gauge,
            unit: Unit::Count,
            help: "Current count of bulk anti-entropy dumps in flight",
        },
        Description {
            name: metrics::BROADCASTS_IN_FLIGHT,
            kind: Kind::Gauge,
            unit: Unit::Count,
            help: "Current count of write-broadcast tasks in flight",
        },
        Description {
            name: metrics::PERSISTENCE_FAILURES_CURRENT,
            kind: Kind::Gauge,
            unit: Unit::Count,
            help: "Consecutive persistence-backend snapshot failures since the last success",
        },
    ];
    assert(descriptions@ =~= catalogue());
    descriptions
}

/// A counter goes up by what was counted, a labeled one by one under its label, and a gauge takes
/// the value it is set to; none of them touches another metric.
pub proof fn events_change_their_own_metric(
    name: &'static str,
    by: u64,
    label: &'static str,
    value: &'static str,
    to: usize,
)
    ensures
        counted(name, by).name == name,
        counted(name, by).label is None,
        counted(name, by).change == Change::Increment(by),
        counted_by(name, label, value).name == name,
        counted_by(name, label, value).label == Some((label, value)),
        counted_by(name, label, value).change == Change::Increment(1),
        gauged(name, to).name == name,
        gauged(name, to).label is None,
        gauged(name, to).change == Change::Assign(to),
{
}

/// A span is recorded from the start of its timer to now, and only where a timer was started; one
/// that started in the future is recorded as no time at all.
pub proof fn spans_last_from_start_to_now(name: &'static str, start: Option<Instant>, now: Instant)
    ensures
        start is None ==> span_events(name, start, now).len() == 0,
        start matches Some(at) ==> {
            let events = span_events(name, start, now);
            &&& events.len() == 1
            &&& events[0].name == name
            &&& events[0].label is None
            &&& events[0].change is Record
            &&& at.nanos <= now.nanos ==> at.nanos + events[0].change->Record_0.nanos == now.nanos
            &&& at.nanos > now.nanos ==> events[0].change->Record_0.nanos == 0
        },
{
}

/// Every gauge tells its own number.
pub proof fn gauges_tell_their_own_numbers(
    peers: usize,
    members: usize,
    entries: usize,
    tombstones: usize,
    bulk_dumps_in_flight: usize,
    broadcasts_in_flight: usize,
)
    ensures
        ({
            let told = state_gauges(
                peers,
                members,
                entries,
                tombstones,
                bulk_dumps_in_flight,
                broadcasts_in_flight,
            );
            &&& told.len() == 6
            &&& forall|i: int| 0 <= i < 6 ==> (#[trigger] told[i]).label is None
            &&& told.contains(gauged(metrics::PEERS_CURRENT, peers))
            &&& told.contains(gauged(metrics::MEMBERS_CURRENT, members))
            &&& told.contains(gauged(metrics::ENTRIES_CURRENT, entries))
            &&& told.contains(gauged(metrics::TOMBSTONES_CURRENT, tombstones))
            &&& told.contains(gauged(metrics::BULK_DUMPS_IN_FLIGHT, bulk_dumps_in_flight))
            &&& told.contains(gauged(metrics::BROADCASTS_IN_FLIGHT, broadcasts_in_flight))
        }),
{
    let told = state_gauges(peers, members, entries, tombstones, bulk_dumps_in_flight, broadcasts_in_flight);
    assert(told[0] == gauged(metrics::PEERS_CURRENT, peers));
    assert(told[1] == gauged(metrics::MEMBERS_CURRENT, members));
    assert(told[2] == gauged(metrics::ENTRIES_CURRENT, entries));
    assert(told[3] == gauged(metrics::TOMBSTONES_CURRENT, tombstones));
    assert(told[4] == gauged(metrics::BULK_DUMPS_IN_FLIGHT, bulk_dumps_in_flight));
    assert(told[5] == gauged(metrics::BROADCASTS_IN_FLIGHT, broadcasts_in_flight));
}

/// Whatever is timed is described as a distribution of seconds, whatever tells the current state as
/// a gauge, and whatever is counted as a counter, of bytes where bytes are counted.
pub proof fn descriptions_fit_their_metrics(i: int)
    requires
        0 <= i < catalogue().len(),
    ensures
        catalogue().len() == 25,
        ({
            let d = catalogue()[i];
            &&& d.kind == Kind::Histogram <==> d.name == metrics::ROUND_DURATION_SECONDS || d.name
                == metrics::HANDLE_DURATION_SECONDS
            &&& d.unit == Unit::Seconds <==> d.kind == Kind::Histogram
            &&& d.unit == Unit::Bytes ==> d.name == metrics::BYTES_SENT_TOTAL || d.name
                == metrics::BYTES_RECEIVED_TOTAL
            &&& d.name == metrics::BYTES_SENT_TOTAL || d.name == metrics::BYTES_RECEIVED_TOTAL ==> d.unit
                == Unit::Bytes && d.kind == Kind::Counter
            &&& d.kind == Kind::Gauge ==> d.name == metrics::PEERS_CURRENT || d.name == metrics::MEMBERS_CURRENT
                || d.name == metrics::ENTRIES_CURRENT || d.name == metrics::TOMBSTONES_CURRENT || d.name
                == metrics::BULK_DUMPS_IN_FLIGHT || d.name == metrics::BROADCASTS_IN_FLIGHT || d.name
                == metrics::PERSISTENCE_FAILURES_CURRENT
        }),
{
}

} // verus!
