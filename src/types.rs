use vstd::prelude::*;

verus! {

/// A namespace for collections.
#[derive(Debug)]
pub struct DatabaseDesc {
    pub id: u64,
    pub name: String,
}

pub struct DatabaseView {
    pub id: u64,
    pub name: Seq<char>,
}

impl View for DatabaseDesc {
    type V = DatabaseView;

    open spec fn view(&self) -> DatabaseView {
        DatabaseView { id: self.id, name: self.name@ }
    }
}

impl Clone for DatabaseDesc {
    fn clone(&self) -> (r: Self)
        ensures
            r@ == self@,
    {
        DatabaseDesc { id: self.id, name: self.name.clone() }
    }
}

/// How a collection's key space is divided into shards.
#[derive(Clone, Copy, Debug, PartialEq, Eq, Structural)]
pub enum CollectionPartition {
    /// The key space is hashed into the given number of slots.
    Hash { slots: u32 },
    /// The key space is one ordered range.
    Range,
}

#[derive(Debug)]
pub struct CollectionDesc {
    pub id: u64,
    pub name: String,
    pub db: u64,
    pub partition: Option<CollectionPartition>,
}

pub struct CollectionView {
    pub id: u64,
    pub name: Seq<char>,
    pub db: u64,
    pub partition: Option<CollectionPartition>,
}

impl View for CollectionDesc {
    type V = CollectionView;

    open spec fn view(&self) -> CollectionView {
        CollectionView { id: self.id, name: self.name@, db: self.db, partition: self.partition }
    }
}

impl Clone for CollectionDesc {
    fn clone(&self) -> (r: Self)
        ensures
            r@ == self@,
    {
        CollectionDesc {
            id: self.id,
            name: self.name.clone(),
            db: self.db,
            partition: self.partition,
        }
    }
}

#[derive(Clone, Copy, Debug, PartialEq, Eq, Structural)]
pub struct NodeCapacity {
    pub replica_count: u64,
    pub leader_count: u64,
}

/// One storage-node process.
#[derive(Debug)]
pub struct NodeDesc {
    pub id: u64,
    pub addr: String,
    pub capacity: Option<NodeCapacity>,
}

pub struct NodeView {
    pub id: u64,
    pub addr: Seq<char>,
    pub capacity: Option<NodeCapacity>,
}

impl View for NodeDesc {
    type V = NodeView;

    open spec fn view(&self) -> NodeView {
        NodeView { id: self.id, addr: self.addr@, capacity: self.capacity }
    }
}

impl Clone for NodeDesc {
    fn clone(&self) -> (r: Self)
        ensures
            r@ == self@,
    {
        NodeDesc { id: self.id, addr: self.addr.clone(), capacity: self.capacity }
    }
}

/// The part of a collection's key space that one shard holds.
#[derive(Debug)]
pub enum ShardPartition {
    /// Hash slot `slot_id` out of `slots`.
    Hash { slot_id: u32, slots: u32 },
    /// The keys from `start` to `end`; an empty bound is unbounded.
    Range { start: Vec<u8>, end: Vec<u8> },
}

pub enum ShardPartitionView {
    Hash { slot_id: u32, slots: u32 },
    Range { start: Seq<u8>, end: Seq<u8> },
}

impl View for ShardPartition {
    type V = ShardPartitionView;

    open spec fn view(&self) -> ShardPartitionView {
        match self {
            ShardPartition::Hash { slot_id, slots } => ShardPartitionView::Hash {
                slot_id: *slot_id,
                slots: *slots,
            },
            ShardPartition::Range { start, end } => ShardPartitionView::Range {
                start: start@,
                end: end@,
            },
        }
    }
}

impl Clone for ShardPartition {
    fn clone(&self) -> (r: Self)
        ensures
            r@ == self@,
    {
        match self {
            ShardPartition::Hash { slot_id, slots } => ShardPartition::Hash {
                slot_id: *slot_id,
                slots: *slots,
            },
            ShardPartition::Range { start, end } => ShardPartition::Range {
                start: copy_bytes(start),
                end: copy_bytes(end),
            },
        }
    }
}

pub fn copy_bytes(b: &Vec<u8>) -> (r: Vec<u8>)
    ensures
        r@ == b@,
{
    let mut r: Vec<u8> = Vec::new();
    let mut i: usize = 0;
    while i < b.len()
        invariant
            i <= b.len(),
            r@ == b@.subrange(0, i as int),
        decreases b.len() - i,
    {
        r.push(b[i]);
        i = i + 1;
        assert(r@ =~= b@.subrange(0, i as int));
    }
    assert(r@ =~= b@);
    r
}

/// One shard of a collection.
#[derive(Debug)]
pub struct ShardDesc {
    pub id: u64,
    pub collection_id: u64,
    pub partition: ShardPartition,
}

pub struct ShardView {
    pub id: u64,
    pub collection_id: u64,
    pub partition: ShardPartitionView,
}

impl View for ShardDesc {
    type V = ShardView;

    open spec fn view(&self) -> ShardView {
        ShardView { id: self.id, collection_id: self.collection_id, partition: self.partition@ }
    }
}

impl Clone for ShardDesc {
    fn clone(&self) -> (r: Self)
        ensures
            r@ == self@,
    {
        ShardDesc {
            id: self.id,
            collection_id: self.collection_id,
            partition: self.partition.clone(),
        }
    }
}

/// The role of a voting replica.
pub const REPLICA_ROLE_VOTER: i32 = 1;

/// One physical replica of a group on one node.
#[derive(Clone, Copy, Debug, PartialEq, Eq, Structural)]
pub struct ReplicaDesc {
    pub id: u64,
    pub node_id: u64,
    pub role: i32,
}

/// A consensus-replicated unit that hosts shards on a fixed replica set.
#[derive(Debug)]
pub struct GroupDesc {
    pub id: u64,
    pub epoch: u64,
    pub shards: Vec<ShardDesc>,
    pub replicas: Vec<ReplicaDesc>,
}

pub struct GroupView {
    pub id: u64,
    pub epoch: u64,
    pub shards: Seq<ShardView>,
    pub replicas: Seq<ReplicaDesc>,
}

pub open spec fn shard_views(s: Seq<ShardDesc>) -> Seq<ShardView> {
    s.map_values(|d: ShardDesc| d@)
}

impl View for GroupDesc {
    type V = GroupView;

    open spec fn view(&self) -> GroupView {
        GroupView {
            id: self.id,
            epoch: self.epoch,
            shards: shard_views(self.shards@),
            replicas: self.replicas@,
        }
    }
}

pub fn copy_shards(s: &Vec<ShardDesc>) -> (r: Vec<ShardDesc>)
    ensures
        shard_views(r@) == shard_views(s@),
{
    let mut r: Vec<ShardDesc> = Vec::new();
    let mut i: usize = 0;
    while i < s.len()
        invariant
            i <= s.len(),
            r@.len() == i,
            forall|j: int| 0 <= j < i ==> (#[trigger] r@[j])@ == s@[j]@,
        decreases s.len() - i,
    {
        let c = s[i].clone();
        r.push(c);
        i = i + 1;
    }
    assert(shard_views(r@) =~= shard_views(s@));
    r
}

pub fn copy_replicas(s: &Vec<ReplicaDesc>) -> (r: Vec<ReplicaDesc>)
    ensures
        r@ == s@,
{
    let mut r: Vec<ReplicaDesc> = Vec::new();
    let mut i: usize = 0;
    while i < s.len()
        invariant
            i <= s.len(),
            r@ == s@.subrange(0, i as int),
        decreases s.len() - i,
    {
        r.push(s[i]);
        i = i + 1;
        assert(r@ =~= s@.subrange(0, i as int));
    }
    assert(r@ =~= s@);
    r
}

impl Clone for GroupDesc {
    fn clone(&self) -> (r: Self)
        ensures
            r@ == self@,
    {
        GroupDesc {
            id: self.id,
            epoch: self.epoch,
            shards: copy_shards(&self.shards),
            replicas: copy_replicas(&self.replicas),
        }
    }
}

/// Runtime facts that a node reports about one of its replicas.
#[derive(Clone, Copy, Debug, PartialEq, Eq, Structural)]
pub struct ReplicaState {
    pub replica_id: u64,
    pub group_id: u64,
    pub term: u64,
    pub role: i32,
}

/// The reported states of a group's replicas.
#[derive(Debug)]
pub struct GroupState {
    pub group_id: u64,
    pub replicas: Vec<ReplicaState>,
}

pub struct GroupStateView {
    pub group_id: u64,
    pub replicas: Seq<ReplicaState>,
}

impl View for GroupState {
    type V = GroupStateView;

    open spec fn view(&self) -> GroupStateView {
        GroupStateView { group_id: self.group_id, replicas: self.replicas@ }
    }
}

/// The cluster's identity and its root-capable nodes, the preferred one first.
#[derive(Debug)]
pub struct RootDesc {
    pub root_nodes: Vec<NodeDesc>,
}

pub open spec fn node_views(s: Seq<NodeDesc>) -> Seq<NodeView> {
    s.map_values(|d: NodeDesc| d@)
}

} // verus!
