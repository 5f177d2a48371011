//! Contracts of the cluster backbone: four orthogonal coordination primitives and
//! the coordinator that bundles them.
//!
//! A fleet of gateways shares state, coordinates and elects leaders through these
//! surfaces without knowing which backing store is in play. Each backend
//! implements the subset that it can honour.
//!
//! - [`KeyValueStore`]: durable key/value, with the single-winner claim
//!   `put_if_absent` and the atomic counter `incr`. [`kv_model`] says what a store
//!   does, [`kv_laws`] what follows from it.
//! - [`PubSub`]: messaging by topic, at most once, no replay.
//! - [`Lease`]: distributed locks with fence tokens that only grow.
//! - [`Watch`]: the changes under a key prefix, in order.
//! - [`ClusterBackend`]: the coordinator, with peers, leadership, locks and
//!   notifications.
//! - [`ClusterError`]: how any of them fails.
//! - [`test_suite`]: a battery that any [`KeyValueStore`] has to pass.
//!
//! The contracts of the traits speak of ghost methods, such as
//! [`KeyValueStore::handle`]. A backend defines them, so that its methods keep their
//! contracts. The defaults only let a type compile that nobody verifies: a constant
//! cannot record two different calls, so no type that keeps a default keeps the
//! contracts, and nothing that is proved here holds of it.
//!
//! No backend lives here, and nothing here opens a connection.

pub mod backend;
pub mod error;
pub mod key_value;
pub mod kv_laws;
pub mod kv_model;
pub mod lease;
pub mod log;
pub mod payload;
pub mod pub_sub;
pub mod rfc3339;
pub mod roles;
pub mod test_suite;
pub mod time;
pub mod watch;

pub use backend::{
    ActiveLease, ClusterBackend, ClusterNodeInfo, ClusterPeer, PeerEvent, PeerHealth,
    PluginManifest, PublishedMessage,
};
pub use error::ClusterError;
pub use key_value::{
    counter_overflow, parse_counter, Entry, KeyValueStore, KvEntryWire, KvExpireArgs, KvIncrArgs,
    KvKeyArgs, KvListEntryWire, KvListPrefixArgs, KvPutArgs,
};
pub use lease::{FenceToken, Lease, LeaseHandle};
pub use pub_sub::{Message, PubSub};
pub use time::{Duration, Timestamp};
pub use watch::{Watch, WatchEvent, WatchEventKind};
