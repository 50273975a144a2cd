use vstd::prelude::*;

use crate::placement::effective_partition;
use crate::schema::has_state;
use crate::types::{
    CollectionDesc, CollectionPartition, CollectionView, DatabaseDesc, GroupDesc, GroupView,
    NodeDesc, ReplicaDesc, ReplicaState, ShardPartition, ShardView,
};

verus! {

/// A snapshot of the cluster map for inspection.
#[derive(Debug)]
pub struct Metadata {
    pub databases: Vec<Database>,
    pub nodes: Vec<Node>,
    pub groups: Vec<Group>,
    pub balanced: bool,
}

#[derive(Debug)]
pub struct Database {
    pub id: u64,
    pub name: String,
    pub collections: Vec<Collection>,
}

#[derive(Debug)]
pub struct Collection {
    pub id: u64,
    pub mode: CollectionPartition,
    pub name: String,
}

#[derive(Debug)]
pub struct Node {
    pub addr: String,
    pub id: u64,
    pub replicas: Vec<NodeReplica>,
}

#[derive(Clone, Copy, Debug, PartialEq, Eq, Structural)]
pub struct NodeReplica {
    pub group: u64,
    pub id: u64,
    pub raft_role: i32,
    pub replica_role: i32,
}

#[derive(Debug)]
pub struct Group {
    pub epoch: u64,
    pub id: u64,
    pub replicas: Vec<GroupReplica>,
    pub shards: Vec<GroupShard>,
}

#[derive(Clone, Copy, Debug, PartialEq, Eq, Structural)]
pub struct GroupReplica {
    pub id: u64,
    pub node: u64,
    pub raft_role: i32,
    pub replica_role: i32,
    pub term: u64,
}

#[derive(Debug)]
pub struct GroupShard {
    pub collection: u64,
    pub id: u64,
    pub partition: ShardPartition,
}

/// The collections of database `db`, in order.
pub open spec fn collections_in(cols: Seq<CollectionView>, db: u64) -> Seq<CollectionView> {
    cols.filter(|c: CollectionView| c.db == db)
}

/// A collection's row: its id, its name, and its scheme (one hash slot when it names none).
pub open spec fn collection_row(row: Collection, c: CollectionView) -> bool {
    &&& row.id == c.id
    &&& row.name@ == c.name
    &&& row.mode == effective_partition(c.partition)
}

/// A shard's row: its id, its collection and its partition.
pub open spec fn shard_row(row: GroupShard, s: ShardView) -> bool {
    &&& row.id == s.id
    &&& row.collection == s.collection_id
    &&& row.partition@ == s.partition
}

/// The reported state of replica `id`.
pub open spec fn state_of(states: Seq<ReplicaState>, id: u64) -> ReplicaState {
    states[choose|i: int| 0 <= i < states.len() && states[i].replica_id == id]
}

/// The raft role reported for replica `id`, or -1 when none was reported.
pub open spec fn raft_role_of(states: Seq<ReplicaState>, id: u64) -> i32 {
    if has_state(states, id) {
        state_of(states, id).role
    } else {
        -1i32
    }
}

/// The term reported for replica `id`, or 0 when none was reported.
pub open spec fn term_of(states: Seq<ReplicaState>, id: u64) -> u64 {
    if has_state(states, id) {
        state_of(states, id).term
    } else {
        0
    }
}

pub open spec fn group_replica_of(states: Seq<ReplicaState>, r: ReplicaDesc) -> GroupReplica {
    GroupReplica {
        id: r.id,
        node: r.node_id,
        raft_role: raft_role_of(states, r.id),
        replica_role: r.role,
        term: term_of(states, r.id),
    }
}

/// The replicas among `rs`, of group `group`, that live on node `node`.
pub open spec fn replicas_on(
    rs: Seq<ReplicaDesc>,
    group: u64,
    states: Seq<ReplicaState>,
    node: u64,
) -> Seq<NodeReplica>
    decreases rs.len(),
{
    if rs.len() == 0 {
        Seq::empty()
    } else {
        let prev = replicas_on(rs.drop_last(), group, states, node);
        let r = rs.last();
        if r.node_id == node {
            prev.push(
                NodeReplica {
                    group,
                    id: r.id,
                    raft_role: raft_role_of(states, r.id),
                    replica_role: r.role,
                },
            )
        } else {
            prev
        }
    }
}

/// The replicas of all `groups` that live on node `node`, group by group.
pub open spec fn node_replicas(groups: Seq<GroupView>, states: Seq<ReplicaState>, node: u64) -> Seq<
    NodeReplica,
>
    decreases groups.len(),
{
    if groups.len() == 0 {
        Seq::empty()
    } else {
        node_replicas(groups.drop_last(), states, node) + replicas_on(
            groups.last().replicas,
            groups.last().id,
            states,
            node,
        )
    }
}

fn find_state(states: &Vec<ReplicaState>, id: u64) -> (r: Option<ReplicaState>)
    requires
        forall|i: int, j: int|
            0 <= i < j < states@.len() ==> states@[i].replica_id != states@[j].replica_id,
    ensures
        r.is_none() <==> !has_state(states@, id),
        r.is_some() ==> r.unwrap() == state_of(states@, id),
{
    let mut i: usize = 0;
    while i < states.len()
        invariant
            i <= states.len(),
            forall|a: int, b: int|
                0 <= a < b < states@.len() ==> states@[a].replica_id != states@[b].replica_id,
            forall|j: int| 0 <= j < i ==> states@[j].replica_id != id,
        decreases states.len() - i,
    {
        if states[i].replica_id == id {
            proof {
                let k = choose|k: int| 0 <= k < states@.len() && states@[k].replica_id == id;
                if k > i {
                    assert(states@[i as int].replica_id != states@[k].replica_id);
                }
                assert(k == i);
            }
            return Some(states[i]);
        }
        i = i + 1;
    }
    None
}

fn raft_role(states: &Vec<ReplicaState>, id: u64) -> (r: (i32, u64))
    requires
        forall|i: int, j: int|
            0 <= i < j < states@.len() ==> states@[i].replica_id != states@[j].replica_id,
    ensures
        r == (raft_role_of(states@, id), term_of(states@, id)),
{
    match find_state(states, id) {
        Some(s) => (s.role, s.term),
        None => (-1, 0),
    }
}

fn group_of(g: &GroupDesc, states: &Vec<ReplicaState>) -> (r: Group)
    requires
        forall|i: int, j: int|
            0 <= i < j < states@.len() ==> states@[i].replica_id != states@[j].replica_id,
    ensures
        r.id == g.id,
        r.epoch == g.epoch,
        r.replicas@ == g.replicas@.map_values(|x: ReplicaDesc| group_replica_of(states@, x)),
        r.shards@.len() == g.shards@.len(),
        forall|k: int| 0 <= k < g.shards@.len() ==> shard_row(#[trigger] r.shards@[k], g@.shards[k]),
{
    let mut replicas: Vec<GroupReplica> = Vec::new();
    let mut k: usize = 0;
    while k < g.replicas.len()
        invariant
            k <= g.replicas.len(),
            forall|i: int, j: int|
                0 <= i < j < states@.len() ==> states@[i].replica_id != states@[j].replica_id,
            replicas@ == g.replicas@.take(k as int).map_values(
                |x: ReplicaDesc| group_replica_of(states@, x),
            ),
        decreases g.replicas.len() - k,
    {
        let r = g.replicas[k];
        let (role, term) = raft_role(states, r.id);
        replicas.push(
            GroupReplica { id: r.id, node: r.node_id, raft_role: role, replica_role: r.role, term },
        );
        assert(g.replicas@.take(k + 1) =~= g.replicas@.take(k as int).push(r));
        assert(replicas@ =~= g.replicas@.take(k + 1).map_values(
            |x: ReplicaDesc| group_replica_of(states@, x),
        ));
        k = k + 1;
    }
    assert(g.replicas@.take(g.replicas.len() as int) =~= g.replicas@);
    let mut shards: Vec<GroupShard> = Vec::new();
    let mut k: usize = 0;
    while k < g.shards.len()
        invariant
            k <= g.shards.len(),
            shards@.len() == k,
            forall|m: int| 0 <= m < k ==> shard_row(#[trigger] shards@[m], g@.shards[m]),
        decreases g.shards.len() - k,
    {
        let s = &g.shards[k];
        shards.push(GroupShard { collection: s.collection_id, id: s.id, partition: s.partition.clone() });
        k = k + 1;
    }
    Group { epoch: g.epoch, id: g.id, replicas, shards }
}

fn replicas_of_node(groups: &Vec<GroupDesc>, states: &Vec<ReplicaState>, node: u64) -> (r: Vec<NodeReplica>)
    requires
        forall|i: int, j: int|
            0 <= i < j < states@.len() ==> states@[i].replica_id != states@[j].replica_id,
    ensures
        r@ == node_replicas(groups@.map_values(|g: GroupDesc| g@), states@, node),
{
    let ghost gv = groups@.map_values(|g: GroupDesc| g@);
    let mut r: Vec<NodeReplica> = Vec::new();
    let mut i: usize = 0;
    while i < groups.len()
        invariant
            i <= groups.len(),
            gv == groups@.map_values(|g: GroupDesc| g@),
            forall|a: int, b: int|
                0 <= a < b < states@.len() ==> states@[a].replica_id != states@[b].replica_id,
            r@ == node_replicas(gv.take(i as int), states@, node),
        decreases groups.len() - i,
    {
        let g = &groups[i];
        let ghost base = r@;
        let mut k: usize = 0;
        while k < g.replicas.len()
            invariant
                k <= g.replicas.len(),
                forall|a: int, b: int|
                    0 <= a < b < states@.len() ==> states@[a].replica_id != states@[b].replica_id,
                r@ == base + replicas_on(g.replicas@.take(k as int), g.id, states@, node),
            decreases g.replicas.len() - k,
        {
            let rep = g.replicas[k];
            assert(g.replicas@.take(k + 1).drop_last() =~= g.replicas@.take(k as int));
            if rep.node_id == node {
                let (role, _term) = raft_role(states, rep.id);
                let ghost prev = r@;
                r.push(NodeReplica { group: g.id, id: rep.id, raft_role: role, replica_role: rep.role });
                assert(r@ =~= prev.push(NodeReplica { group: g.id, id: rep.id, raft_role: role, replica_role: rep.role }));
            }
            k = k + 1;
        }
        assert(g.replicas@.take(g.replicas.len() as int) =~= g.replicas@);
        assert(gv.take(i + 1).drop_last() =~= gv.take(i as int));
        assert(gv.take(i + 1).last() == g@);
        i = i + 1;
    }
    assert(gv.take(groups.len() as int) =~= gv);
    r
}

fn collections_of(cols: &Vec<CollectionDesc>, db: u64) -> (r: Vec<Collection>)
    ensures
        r@.len() == collections_in(cols@.map_values(|c: CollectionDesc| c@), db).len(),
        forall|k: int|
            0 <= k < r@.len() ==> collection_row(
                #[trigger] r@[k],
                collections_in(cols@.map_values(|c: CollectionDesc| c@), db)[k],
            ),
{
    let ghost cv = cols@.map_values(|c: CollectionDesc| c@);
    let mut r: Vec<Collection> = Vec::new();
    let mut i: usize = 0;
    while i < cols.len()
        invariant
            i <= cols.len(),
            cv == cols@.map_values(|c: CollectionDesc| c@),
            r@.len() == collections_in(cv.take(i as int), db).len(),
            forall|k: int| 0 <= k < r@.len() ==> collection_row(#[trigger] r@[k], collections_in(cv.take(i as int), db)[k]),
        decreases cols.len() - i,
    {
        proof {
            reveal(Seq::filter);
            assert(cv.take(i + 1).drop_last() =~= cv.take(i as int));
            assert(cv.take(i + 1).last() == cols@[i as int]@);
        }
        let c = &cols[i];
        if c.db == db {
            let mode = match c.partition {
                Some(p) => p,
                None => CollectionPartition::Hash { slots: 1 },
            };
            r.push(Collection { id: c.id, mode, name: c.name.clone() });
        }
        i = i + 1;
    }
    assert(cv.take(cols.len() as int) =~= cv);
    r
}

/// Builds the snapshot of the cluster map: every node with the replicas it hosts, every
/// database with its collections, every group with its replicas and shards, and whether
/// the cluster is balanced. Replicas carry the raft role and term last reported for
/// them, -1 and 0 when none was.
pub fn metadata_of(
    nodes: &Vec<NodeDesc>,
    dbs: &Vec<DatabaseDesc>,
    cols: &Vec<CollectionDesc>,
    groups: &Vec<GroupDesc>,
    states: &Vec<ReplicaState>,
    balanced: bool,
) -> (r: Metadata)
    requires
        forall|i: int, j: int|
            0 <= i < j < states@.len() ==> states@[i].replica_id != states@[j].replica_id,
    ensures
        r.balanced == balanced,
        r.nodes@.len() == nodes@.len(),
        forall|i: int|
            0 <= i < nodes@.len() ==> (#[trigger] r.nodes@[i]).id == nodes@[i].id && r.nodes@[i].addr@
                == nodes@[i].addr@ && r.nodes@[i].replicas@ == node_replicas(
                groups@.map_values(|g: GroupDesc| g@),
                states@,
                nodes@[i].id,
            ),
        r.databases@.len() == dbs@.len(),
        forall|i: int|
            0 <= i < dbs@.len() ==> (#[trigger] r.databases@[i]).id == dbs@[i].id
                && r.databases@[i].name@ == dbs@[i].name@ && r.databases@[i].collections@.len()
                == collections_in(cols@.map_values(|c: CollectionDesc| c@), dbs@[i].id).len() && (forall|k: int|
                0 <= k < r.databases@[i].collections@.len() ==> collection_row(
                    #[trigger] r.databases@[i].collections@[k],
                    collections_in(cols@.map_values(|c: CollectionDesc| c@), dbs@[i].id)[k],
                )),
        r.groups@.len() == groups@.len(),
        forall|i: int|
            0 <= i < groups@.len() ==> (#[trigger] r.groups@[i]).id == groups@[i].id && r.groups@[i].epoch
                == groups@[i].epoch && r.groups@[i].replicas@ == groups@[i].replicas@.map_values(
                |x: ReplicaDesc| group_replica_of(states@, x),
            ) && r.groups@[i].shards@.len() == groups@[i].shards@.len() && (forall|k: int|
                0 <= k < groups@[i].shards@.len() ==> shard_row(
                    #[trigger] r.groups@[i].shards@[k],
                    groups@[i]@.shards[k],
                )),
{
    let mut ns: Vec<Node> = Vec::new();
    let mut i: usize = 0;
    while i < nodes.len()
        invariant
            i <= nodes.len(),
            forall|a: int, b: int|
                0 <= a < b < states@.len() ==> states@[a].replica_id != states@[b].replica_id,
            ns@.len() == i,
            forall|k: int|
                0 <= k < i ==> (#[trigger] ns@[k]).id == nodes@[k].id && ns@[k].addr@ == nodes@[k].addr@
                    && ns@[k].replicas@ == node_replicas(groups@.map_values(|g: GroupDesc| g@), states@, nodes@[k].id),
        decreases nodes.len() - i,
    {
        let replicas = replicas_of_node(groups, states, nodes[i].id);
        ns.push(Node { addr: nodes[i].addr.clone(), id: nodes[i].id, replicas });
        i = i + 1;
    }
    let mut ds: Vec<Database> = Vec::new();
    let mut i: usize = 0;
    while i < dbs.len()
        invariant
            i <= dbs.len(),
            ds@.len() == i,
            forall|k: int|
                0 <= k < i ==> (#[trigger] ds@[k]).id == dbs@[k].id && ds@[k].name@ == dbs@[k].name@
                    && ds@[k].collections@.len() == collections_in(cols@.map_values(|c: CollectionDesc| c@), dbs@[k].id).len()
                    && (forall|m: int|
                    0 <= m < ds@[k].collections@.len() ==> collection_row(
                        #[trigger] ds@[k].collections@[m],
                        collections_in(cols@.map_values(|c: CollectionDesc| c@), dbs@[k].id)[m],
                    )),
        decreases dbs.len() - i,
    {
        let collections = collections_of(cols, dbs[i].id);
        ds.push(Database { id: dbs[i].id, name: dbs[i].name.clone(), collections });
        i = i + 1;
    }
    let mut gs: Vec<Group> = Vec::new();
    let mut i: usize = 0;
    while i < groups.len()
        invariant
            i <= groups.len(),
            forall|a: int, b: int|
                0 <= a < b < states@.len() ==> states@[a].replica_id != states@[b].replica_id,
            gs@.len() == i,
            forall|k: int|
                0 <= k < i ==> (#[trigger] gs@[k]).id == groups@[k].id && gs@[k].epoch == groups@[k].epoch
                    && gs@[k].replicas@ == groups@[k].replicas@.map_values(
                    |x: ReplicaDesc| group_replica_of(states@, x),
                ) && gs@[k].shards@.len() == groups@[k].shards@.len() && (forall|m: int|
                    0 <= m < groups@[k].shards@.len() ==> shard_row(
                        #[trigger] gs@[k].shards@[m],
                        groups@[k]@.shards[m],
                    )),
        decreases groups.len() - i,
    {
        gs.push(group_of(&groups[i], states));
        i = i + 1;
    }
    Metadata { databases: ds, nodes: ns, groups: gs, balanced }
}

} // verus!
