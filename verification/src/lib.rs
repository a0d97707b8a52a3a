//! Embedded, in-memory, eventually consistent replication.

pub mod bounds;
pub mod clock;
pub mod entry;
pub mod live;
pub mod merge;
pub mod metrics;
pub mod net;
pub mod observability;
pub mod ordered_map;
pub mod peers;
pub mod read_replica_map;
pub mod replica;
pub mod replicated_map;
pub mod store;
pub mod text;
pub mod time;
pub mod value_ref;
