use vstd::prelude::*;

verus! {

/// Failures reported by the root coordinator.
#[derive(Debug, PartialEq, Eq)]
pub enum Error {
    /// The operation needs an installed coordinator core and none is installed.
    NotRootLeader,
    /// The underlying consensus replica is not the leader.
    NotLeader,
    /// No database of the given name exists.
    DatabaseNotFound(String),
    /// No group of the given id exists.
    GroupNotFound(u64),
    /// The allocator offered no group that could host a new shard.
    NoAvailableGroup,
    /// A database of the given name already exists.
    DatabaseExists(String),
    /// A collection of the given name already exists in its database.
    CollectionExists(String),
    /// The database still owns collections.
    DatabaseNotEmpty(String),
    /// Every id has been issued.
    IdExhausted,
}

} // verus!
