//! The root coordinator of a sharded, replicated storage cluster: it owns the cluster
//! map (databases, collections, shards, groups, replicas and nodes), serves it only
//! while the local root replica leads, places new shards round robin on the groups the
//! allocator offers, and tells watchers of every change, a snapshot first.

pub mod diagnosis;
pub mod error;
pub mod placement;
pub mod root;
pub mod schema;
pub mod types;
pub mod watch;
