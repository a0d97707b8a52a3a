# reconcile

Embedded, fully replicated, eventually consistent key-value storage, with its rules proved in
[Verus](https://github.com/verus-lang/verus).

Every node holds the whole map and serves local reads. Writes carry a hybrid-logical-clock timestamp
and spread by gossip; conflicts on one key are settled by last write wins, so replicas that have seen
the same writes hold the same map, whatever the order in which the writes arrived.

## Layout

- `src/` is the library. It performs no I/O and reads no clock: each function takes what the outside
  world supplied and hands back what the outside world must do.
  - `bounds`, `clock`, `entry`, `net`, `time`, `text`: plain values.
  - `ordered_map`, `store`, `live`, `merge`, `peers`: the data, its indices, and why replicas converge.
  - `replica`: a full replica. Writes and broadcasts, inbound messages, reconciliation rounds, repair,
    membership, pacing of bulk transfers.
  - `replicated_map`: configuration, checked writes, discovery, persistence, reads.
  - `read_replica_map`: a value-only mirror.
  - `metrics`, `observability`: what is reported.
- `app/` is the runtime around it: sockets, tasks, locks, logging, metrics.
- `tests/` exercise the compiled library.

Three outside calls are trusted rather than proved: network membership (`ipnet`, for each of the two
address families), the shuffle that samples remote peers (`rand`), and taking back a shared map that
nobody else holds (`std::sync::Arc::try_unwrap`). Their contracts stand beside the calls.
