use vstd::prelude::*;

use crate::error::Error;
use crate::watch::{update_views, DeleteEvent, UpdateEvent, UpdateView};
use crate::types::{
    copy_shards, shard_views, CollectionDesc, CollectionPartition, CollectionView, DatabaseDesc,
    DatabaseView, GroupDesc, GroupState, GroupStateView, GroupView, NodeCapacity, NodeDesc,
    NodeView, ReplicaDesc, ReplicaState, ShardDesc, REPLICA_ROLE_VOTER,
};

verus! {

/// The epoch of a group that was just created.
pub const INITIAL_EPOCH: u64 = 1;

/// The durable cluster map as a value.
pub struct SchemaView {
    pub databases: Seq<DatabaseView>,
    pub collections: Seq<CollectionView>,
    pub nodes: Seq<NodeView>,
    pub groups: Seq<GroupView>,
    pub states: Seq<ReplicaState>,
    pub root_nodes: Seq<NodeView>,
    pub cluster_id: Seq<u8>,
    pub next_id: u64,
    pub bootstrapped: bool,
}

pub open spec fn has_database(s: SchemaView, name: Seq<char>) -> bool {
    exists|i: int| 0 <= i < s.databases.len() && s.databases[i].name == name
}

/// The index of the database with this name.
pub open spec fn database_index(s: SchemaView, name: Seq<char>) -> int {
    choose|i: int| 0 <= i < s.databases.len() && s.databases[i].name == name
}

pub open spec fn has_collection(s: SchemaView, db: u64, name: Seq<char>) -> bool {
    exists|i: int|
        0 <= i < s.collections.len() && s.collections[i].db == db && s.collections[i].name == name
}

pub open spec fn owns_collections(s: SchemaView, db: u64) -> bool {
    exists|i: int| 0 <= i < s.collections.len() && s.collections[i].db == db
}

pub open spec fn has_group(s: SchemaView, id: u64) -> bool {
    exists|i: int| 0 <= i < s.groups.len() && s.groups[i].id == id
}

/// The index of the group with this id.
pub open spec fn group_index(s: SchemaView, id: u64) -> int {
    choose|i: int| 0 <= i < s.groups.len() && s.groups[i].id == id
}

/// The reported states of group `g`'s replicas, in the order they were first reported.
pub open spec fn states_of(states: Seq<ReplicaState>, g: u64) -> Seq<ReplicaState> {
    states.filter(|st: ReplicaState| st.group_id == g)
}

/// Database names are unique, group ids are unique, and every id issued so far is below
/// the next one.
pub open spec fn schema_wf(s: SchemaView) -> bool {
    &&& forall|i: int, j: int|
        0 <= i < j < s.databases.len() ==> s.databases[i].name != s.databases[j].name
    &&& forall|i: int, j: int|
        0 <= i < j < s.groups.len() ==> s.groups[i].id != s.groups[j].id
    &&& forall|i: int| 0 <= i < s.databases.len() ==> s.databases[i].id < s.next_id
    &&& forall|i: int| 0 <= i < s.collections.len() ==> s.collections[i].id < s.next_id
    &&& forall|i: int| 0 <= i < s.nodes.len() ==> s.nodes[i].id < s.next_id
    &&& forall|i: int| 0 <= i < s.root_nodes.len() ==> s.root_nodes[i].id < s.next_id
    &&& forall|i: int, j: int|
        0 <= i < j < s.collections.len() ==> !(s.collections[i].db == s.collections[j].db
            && s.collections[i].name == s.collections[j].name)
    &&& forall|i: int, j: int|
        0 <= i < j < s.states.len() ==> s.states[i].replica_id != s.states[j].replica_id
}

/// The groups after `g` was written: it replaces the group with its id, or is added.
pub open spec fn put_group(s: SchemaView, g: GroupView) -> Seq<GroupView> {
    if has_group(s, g.id) {
        s.groups.update(group_index(s, g.id), g)
    } else {
        s.groups.push(g)
    }
}

pub open spec fn has_state(s: Seq<ReplicaState>, replica_id: u64) -> bool {
    exists|i: int| 0 <= i < s.len() && s[i].replica_id == replica_id
}

/// The replica states after `st` was written: it replaces the state of its replica, or
/// is added.
pub open spec fn put_state(s: Seq<ReplicaState>, st: ReplicaState) -> Seq<ReplicaState> {
    if has_state(s, st.replica_id) {
        s.update(choose|i: int| 0 <= i < s.len() && s[i].replica_id == st.replica_id, st)
    } else {
        s.push(st)
    }
}

/// The index of the collection `name` of database `db`.
pub open spec fn collection_index(s: SchemaView, db: u64, name: Seq<char>) -> int {
    choose|i: int|
        0 <= i < s.collections.len() && s.collections[i].db == db && s.collections[i].name == name
}

/// Update events for the groups that a client knowing `cur` is not current on, in order.
pub open spec fn stale_groups(groups: Seq<GroupView>, cur: Seq<(u64, u64)>) -> Seq<UpdateView>
    decreases groups.len(),
{
    if groups.len() == 0 {
        Seq::empty()
    } else {
        let prev = stale_groups(groups.drop_last(), cur);
        if is_current(cur, groups.last()) {
            prev
        } else {
            prev.push(UpdateView::Group(groups.last()))
        }
    }
}

/// Delete events for the groups among `cur` that no longer exist, in order.
pub open spec fn removed_groups(s: SchemaView, cur: Seq<(u64, u64)>) -> Seq<DeleteEvent>
    decreases cur.len(),
{
    if cur.len() == 0 {
        Seq::empty()
    } else {
        let prev = removed_groups(s, cur.drop_last());
        if has_group(s, cur.last().0) {
            prev
        } else {
            prev.push(DeleteEvent::Group(cur.last().0))
        }
    }
}

/// The snapshot's updates for a client that knows the groups `cur`.
pub open spec fn all_updates(s: SchemaView, cur: Seq<(u64, u64)>) -> Seq<UpdateView> {
    s.nodes.map_values(|n: NodeView| UpdateView::Node(n)) + s.databases.map_values(
        |d: DatabaseView| UpdateView::Database(d),
    ) + s.collections.map_values(|c: CollectionView| UpdateView::Collection(c)) + stale_groups(
        s.groups,
        cur,
    )
}

/// A watch snapshot holds the current state of every node, database and collection, so
/// the effect of any earlier change to them is in it.
pub proof fn lemma_snapshot_holds_state(s: SchemaView, cur: Seq<(u64, u64)>)
    ensures
        forall|i: int|
            0 <= i < s.nodes.len() ==> all_updates(s, cur).contains(UpdateView::Node(#[trigger] s.nodes[i])),
        forall|i: int|
            0 <= i < s.databases.len() ==> all_updates(s, cur).contains(
                UpdateView::Database(#[trigger] s.databases[i]),
            ),
        forall|i: int|
            0 <= i < s.collections.len() ==> all_updates(s, cur).contains(
                UpdateView::Collection(#[trigger] s.collections[i]),
            ),
{
    let a = s.nodes.map_values(|n: NodeView| UpdateView::Node(n));
    let b = s.databases.map_values(|d: DatabaseView| UpdateView::Database(d));
    let c = s.collections.map_values(|c: CollectionView| UpdateView::Collection(c));
    let u = all_updates(s, cur);
    assert forall|i: int| 0 <= i < s.nodes.len() implies u.contains(UpdateView::Node(#[trigger] s.nodes[i])) by {
        assert(u[i] == a[i]);
    }
    assert forall|i: int| 0 <= i < s.databases.len() implies u.contains(
        UpdateView::Database(#[trigger] s.databases[i]),
    ) by {
        assert(u[a.len() + i] == b[i]);
    }
    assert forall|i: int| 0 <= i < s.collections.len() implies u.contains(
        UpdateView::Collection(#[trigger] s.collections[i]),
    ) by {
        assert(u[a.len() + b.len() + i] == c[i]);
    }
}

/// The snapshot's deletes for a client that knows the groups `cur`.
pub open spec fn all_deletes(s: SchemaView, cur: Seq<(u64, u64)>) -> Seq<DeleteEvent> {
    removed_groups(s, cur)
}

/// Whether a client that knows group `g.id` at epoch `g.epoch` is up to date on it.
pub open spec fn is_current(cur: Seq<(u64, u64)>, g: GroupView) -> bool {
    exists|i: int| 0 <= i < cur.len() && cur[i] == (g.id, g.epoch)
}

/// The store after its one-time bootstrap by the node at `addr` of cluster `cid`: the
/// node, the root group with one voting replica on it, and the node as the only
/// root-capable one.
pub open spec fn bootstrapped_store(s: SchemaView, addr: Seq<char>, cid: Seq<u8>) -> SchemaView {
    let n = s.next_id;
    let node = NodeView { id: n, addr, capacity: None };
    let group = GroupView {
        id: (n + 1) as u64,
        epoch: INITIAL_EPOCH,
        shards: Seq::empty(),
        replicas: seq![ReplicaDesc { id: (n + 2) as u64, node_id: n, role: REPLICA_ROLE_VOTER }],
    };
    SchemaView {
        nodes: s.nodes.push(node),
        groups: put_group(s, group),
        root_nodes: seq![node],
        cluster_id: cid,
        next_id: (n + 3) as u64,
        bootstrapped: true,
        ..s
    }
}

/// The metadata store: databases, collections, nodes, groups and replica states, and the
/// allocator of ids.
pub struct Schema {
    databases: Vec<DatabaseDesc>,
    collections: Vec<CollectionDesc>,
    nodes: Vec<NodeDesc>,
    groups: Vec<GroupDesc>,
    states: Vec<ReplicaState>,
    root_nodes: Vec<NodeDesc>,
    cluster_id: Vec<u8>,
    next_id: u64,
    bootstrapped: bool,
}

impl View for Schema {
    type V = SchemaView;

    closed spec fn view(&self) -> SchemaView {
        SchemaView {
            databases: self.databases@.map_values(|d: DatabaseDesc| d@),
            collections: self.collections@.map_values(|c: CollectionDesc| c@),
            nodes: self.nodes@.map_values(|n: NodeDesc| n@),
            groups: self.groups@.map_values(|g: GroupDesc| g@),
            states: self.states@,
            root_nodes: self.root_nodes@.map_values(|n: NodeDesc| n@),
            cluster_id: self.cluster_id@,
            next_id: self.next_id,
            bootstrapped: self.bootstrapped,
        }
    }
}

impl Schema {
    /// An empty store that was never bootstrapped; ids start at 1.
    pub fn new() -> (r: Schema)
        ensures
            r@.databases.len() == 0,
            r@.collections.len() == 0,
            r@.nodes.len() == 0,
            r@.groups.len() == 0,
            r@.states.len() == 0,
            r@.root_nodes.len() == 0,
            r@.cluster_id.len() == 0,
            r@.next_id == 1,
            !r@.bootstrapped,
            schema_wf(r@),
    {
        Schema {
            databases: Vec::new(),
            collections: Vec::new(),
            nodes: Vec::new(),
            groups: Vec::new(),
            states: Vec::new(),
            root_nodes: Vec::new(),
            cluster_id: Vec::new(),
            next_id: 1,
            bootstrapped: false,
        }
    }

    /// Whether the one-time bootstrap was done.
    pub fn is_bootstrapped(&self) -> (r: bool)
        ensures
            r == self@.bootstrapped,
    {
        self.bootstrapped
    }

    /// How many ids are left to issue.
    pub fn ids_left(&self) -> (r: u64)
        ensures
            r == u64::MAX - self@.next_id,
    {
        u64::MAX - self.next_id
    }

    /// Issues a fresh id, larger than every id issued before.
    pub fn next_id(&mut self) -> (r: Result<u64, Error>)
        requires
            schema_wf(old(self)@),
        ensures
            schema_wf(final(self)@),
            old(self)@.next_id == u64::MAX ==> r == Err::<u64, Error>(Error::IdExhausted)
                && final(self)@ == old(self)@,
            old(self)@.next_id < u64::MAX ==> r == Ok::<u64, Error>(old(self)@.next_id)
                && final(self)@ == (SchemaView { next_id: (old(self)@.next_id + 1) as u64, ..old(self)@ }),
    {
        if self.next_id == u64::MAX {
            return Err(Error::IdExhausted);
        }
        let id = self.next_id;
        self.next_id = self.next_id + 1;
        Ok(id)
    }

    /// Issues `count` consecutive fresh ids and returns the first.
    pub fn reserve_ids(&mut self, count: u64) -> (r: Result<u64, Error>)
        requires
            schema_wf(old(self)@),
        ensures
            schema_wf(final(self)@),
            count > u64::MAX - old(self)@.next_id ==> r == Err::<u64, Error>(Error::IdExhausted)
                && final(self)@ == old(self)@,
            count <= u64::MAX - old(self)@.next_id ==> r == Ok::<u64, Error>(old(self)@.next_id)
                && final(self)@ == (SchemaView {
                next_id: (old(self)@.next_id + count) as u64,
                ..old(self)@
            }),
    {
        if count > u64::MAX - self.next_id {
            return Err(Error::IdExhausted);
        }
        let first = self.next_id;
        self.next_id = self.next_id + count;
        Ok(first)
    }

    fn find_database(&self, name: &String) -> (r: Option<usize>)
        requires
            schema_wf(self@),
        ensures
            r.is_none() <==> !has_database(self@, name@),
            r.is_some() ==> r.unwrap() < self@.databases.len() && r.unwrap() == database_index(
                self@,
                name@,
            ) && self@.databases[r.unwrap() as int].name == name@,
    {
        let mut i: usize = 0;
        while i < self.databases.len()
            invariant
                i <= self.databases.len(),
                schema_wf(self@),
                forall|j: int| 0 <= j < i ==> self@.databases[j].name != name@,
            decreases self.databases.len() - i,
        {
            if self.databases[i].name == *name {
                assert(self@.databases[i as int].name == name@);
                let ghost k = database_index(self@, name@);
                assert(k == i as int) by {
                    if k > i as int {
                        assert(self@.databases[i as int].name != self@.databases[k].name);
                    }
                }
                return Some(i);
            }
            i = i + 1;
        }
        None
    }

    /// The database of the given name.
    pub fn get_database(&self, name: &String) -> (r: Option<DatabaseDesc>)
        requires
            schema_wf(self@),
        ensures
            r.is_none() <==> !has_database(self@, name@),
            r.is_some() ==> r.unwrap()@ == self@.databases[database_index(self@, name@)],
    {
        match self.find_database(name) {
            Some(i) => Some(self.databases[i].clone()),
            None => None,
        }
    }

    /// All databases, in the order they were created.
    pub fn list_database(&self) -> (r: Vec<DatabaseDesc>)
        ensures
            r@.map_values(|d: DatabaseDesc| d@) == self@.databases,
    {
        let mut r: Vec<DatabaseDesc> = Vec::new();
        let mut i: usize = 0;
        while i < self.databases.len()
            invariant
                i <= self.databases.len(),
                r@.len() == i,
                forall|j: int| 0 <= j < i ==> (#[trigger] r@[j])@ == self@.databases[j],
            decreases self.databases.len() - i,
        {
            r.push(self.databases[i].clone());
            i = i + 1;
        }
        assert(r@.map_values(|d: DatabaseDesc| d@) =~= self@.databases);
        r
    }

    /// Records a new database under a fresh id; a name can be used once.
    pub fn create_database(&mut self, name: String) -> (r: Result<DatabaseDesc, Error>)
        requires
            schema_wf(old(self)@),
        ensures
            schema_wf(final(self)@),
            has_database(old(self)@, name@) ==> (r matches Err(Error::DatabaseExists(n)) && n@
                == name@) && final(self)@ == old(self)@,
            !has_database(old(self)@, name@) && old(self)@.next_id == u64::MAX ==> r == Err::<
                DatabaseDesc,
                Error,
            >(Error::IdExhausted) && final(self)@ == old(self)@,
            !has_database(old(self)@, name@) && old(self)@.next_id < u64::MAX ==> r.is_ok()
                && r.unwrap()@ == (DatabaseView { id: old(self)@.next_id, name: name@ })
                && final(self)@ == (SchemaView {
                databases: old(self)@.databases.push(r.unwrap()@),
                next_id: (old(self)@.next_id + 1) as u64,
                ..old(self)@
            }),
    {
        if self.find_database(&name).is_some() {
            return Err(Error::DatabaseExists(name));
        }
        let id = match self.next_id() {
            Ok(id) => id,
            Err(e) => return Err(e),
        };
        let desc = DatabaseDesc { id, name };
        self.databases.push(desc.clone());
        assert(self@.databases =~= old(self)@.databases.push(desc@));
        Ok(desc)
    }

    /// Removes the database of the given name and returns its id. A database that still
    /// owns collections is kept: deleting it does not cascade.
    pub fn delete_database(&mut self, name: &String) -> (r: Result<u64, Error>)
        requires
            schema_wf(old(self)@),
        ensures
            schema_wf(final(self)@),
            !has_database(old(self)@, name@) ==> (r matches Err(Error::DatabaseNotFound(n)) && n@
                == name@) && final(self)@ == old(self)@,
            has_database(old(self)@, name@) ==> {
                let i = database_index(old(self)@, name@);
                &&& owns_collections(old(self)@, old(self)@.databases[i].id) ==> (r matches Err(
                    Error::DatabaseNotEmpty(n),
                ) && n@ == name@) && final(self)@ == old(self)@
                &&& !owns_collections(old(self)@, old(self)@.databases[i].id) ==> r == Ok::<
                    u64,
                    Error,
                >(old(self)@.databases[i].id) && final(self)@ == (SchemaView {
                    databases: old(self)@.databases.remove(i),
                    ..old(self)@
                })
            },
    {
        let i = match self.find_database(name) {
            Some(i) => i,
            None => return Err(Error::DatabaseNotFound(name.clone())),
        };
        let id = self.databases[i].id;
        let mut j: usize = 0;
        while j < self.collections.len()
            invariant
                j <= self.collections.len(),
                self@ == old(self)@,
                schema_wf(old(self)@),
                i < self@.databases.len(),
                self@.databases[i as int].name == name@,
                id == self@.databases[i as int].id,
                i as int == database_index(old(self)@, name@),
                forall|k: int| 0 <= k < j ==> self@.collections[k].db != id,
            decreases self.collections.len() - j,
        {
            if self.collections[j].db == id {
                assert(self@.collections[j as int].db == id);
                return Err(Error::DatabaseNotEmpty(name.clone()));
            }
            j = j + 1;
        }
        self.databases.remove(i);
        assert(self@.databases =~= old(self)@.databases.remove(i as int));
        assert forall|a: int, b: int|
            0 <= a < b < self@.databases.len() implies self@.databases[a].name
            != self@.databases[b].name by {
            let a2 = if a < i { a } else { a + 1 };
            let b2 = if b < i { b } else { b + 1 };
            assert(old(self)@.databases[a2].name != old(self)@.databases[b2].name);
        }
        Ok(id)
    }

    fn find_collection(&self, db: u64, name: &String) -> (r: Option<usize>)
        requires
            schema_wf(self@),
        ensures
            r.is_none() <==> !has_collection(self@, db, name@),
            r.is_some() ==> r.unwrap() == collection_index(self@, db, name@)
                && r.unwrap() < self@.collections.len(),
    {
        let mut i: usize = 0;
        while i < self.collections.len()
            invariant
                i <= self.collections.len(),
                schema_wf(self@),
                forall|j: int|
                    0 <= j < i ==> !(self@.collections[j].db == db && self@.collections[j].name
                        == name@),
            decreases self.collections.len() - i,
        {
            if self.collections[i].db == db && self.collections[i].name == *name {
                assert(self@.collections[i as int].name == name@);
                let ghost k = collection_index(self@, db, name@);
                assert(k == i as int) by {
                    if k < i as int {
                    } else if k > i as int {
                        assert(!(self@.collections[i as int].db == self@.collections[k].db
                            && self@.collections[i as int].name == self@.collections[k].name));
                    }
                }
                return Some(i);
            }
            i = i + 1;
        }
        None
    }

    /// The collection `name` of database `db`.
    pub fn get_collection(&self, db: u64, name: &String) -> (r: Option<CollectionDesc>)
        requires
            schema_wf(self@),
        ensures
            r.is_none() <==> !has_collection(self@, db, name@),
            r.is_some() ==> r.unwrap()@ == self@.collections[collection_index(self@, db, name@)],
    {
        match self.find_collection(db, name) {
            Some(i) => Some(self.collections[i].clone()),
            None => None,
        }
    }

    /// The collections of database `db`, in the order they were created.
    pub fn list_collection(&self, db: u64) -> (r: Vec<CollectionDesc>)
        ensures
            r@.map_values(|c: CollectionDesc| c@) == self@.collections.filter(
                |c: CollectionView| c.db == db,
            ),
    {
        let mut r: Vec<CollectionDesc> = Vec::new();
        let mut i: usize = 0;
        while i < self.collections.len()
            invariant
                i <= self.collections.len(),
                r@.map_values(|c: CollectionDesc| c@) == self@.collections.subrange(
                    0,
                    i as int,
                ).filter(|c: CollectionView| c.db == db),
            decreases self.collections.len() - i,
        {
            let ghost prev = r@;
            proof {
                reveal(Seq::filter);
                assert(self@.collections.subrange(0, i + 1).drop_last() =~= self@.collections.subrange(
                    0,
                    i as int,
                ));
            }
            if self.collections[i].db == db {
                r.push(self.collections[i].clone());
                assert(r@.map_values(|c: CollectionDesc| c@) =~= prev.map_values(
                    |c: CollectionDesc| c@,
                ).push(self@.collections[i as int]));
            }
            i = i + 1;
        }
        assert(self@.collections.subrange(0, self.collections.len() as int) =~= self@.collections);
        r
    }

    /// Records a new collection of database `db` under a fresh id; a name can be used
    /// once in a database.
    pub fn create_collection(
        &mut self,
        name: String,
        db: u64,
        partition: Option<CollectionPartition>,
    ) -> (r: Result<CollectionDesc, Error>)
        requires
            schema_wf(old(self)@),
        ensures
            schema_wf(final(self)@),
            has_collection(old(self)@, db, name@) ==> (r matches Err(Error::CollectionExists(n))
                && n@ == name@) && final(self)@ == old(self)@,
            !has_collection(old(self)@, db, name@) && old(self)@.next_id == u64::MAX ==> r
                == Err::<CollectionDesc, Error>(Error::IdExhausted) && final(self)@ == old(self)@,
            !has_collection(old(self)@, db, name@) && old(self)@.next_id < u64::MAX ==> r.is_ok()
                && r.unwrap()@ == (CollectionView {
                id: old(self)@.next_id,
                name: name@,
                db,
                partition,
            }) && final(self)@ == (SchemaView {
                collections: old(self)@.collections.push(r.unwrap()@),
                next_id: (old(self)@.next_id + 1) as u64,
                ..old(self)@
            }),
    {
        if self.find_collection(db, &name).is_some() {
            return Err(Error::CollectionExists(name));
        }
        let id = match self.next_id() {
            Ok(id) => id,
            Err(e) => return Err(e),
        };
        let desc = CollectionDesc { id, name, db, partition };
        self.collections.push(desc.clone());
        assert(self@.collections =~= old(self)@.collections.push(desc@));
        Ok(desc)
    }

    /// Removes the collection `name` of database `db`, if there is one, and returns its
    /// id. The shards it had stay in their groups.
    pub fn delete_collection(&mut self, db: u64, name: &String) -> (r: Option<u64>)
        requires
            schema_wf(old(self)@),
        ensures
            schema_wf(final(self)@),
            !has_collection(old(self)@, db, name@) ==> r.is_none() && final(self)@ == old(self)@,
            has_collection(old(self)@, db, name@) ==> {
                let i = collection_index(old(self)@, db, name@);
                &&& r == Some(old(self)@.collections[i].id)
                &&& final(self)@ == (SchemaView {
                    collections: old(self)@.collections.remove(i),
                    ..old(self)@
                })
            },
    {
        match self.find_collection(db, name) {
            None => None,
            Some(i) => {
                let id = self.collections[i].id;
                self.collections.remove(i);
                assert(self@.collections =~= old(self)@.collections.remove(i as int));
                assert forall|a: int, b: int|
                    0 <= a < b < self@.collections.len() implies !(self@.collections[a].db
                    == self@.collections[b].db && self@.collections[a].name
                    == self@.collections[b].name) by {
                    let a2 = if a < i { a } else { a + 1 };
                    let b2 = if b < i { b } else { b + 1 };
                    assert(!(old(self)@.collections[a2].db == old(self)@.collections[b2].db
                        && old(self)@.collections[a2].name == old(self)@.collections[b2].name));
                }
                Some(id)
            },
        }
    }

    fn find_group(&self, id: u64) -> (r: Option<usize>)
        requires
            schema_wf(self@),
        ensures
            r.is_none() <==> !has_group(self@, id),
            r.is_some() ==> r.unwrap() == group_index(self@, id) && r.unwrap() < self@.groups.len(),
    {
        let mut i: usize = 0;
        while i < self.groups.len()
            invariant
                i <= self.groups.len(),
                schema_wf(self@),
                forall|j: int| 0 <= j < i ==> self@.groups[j].id != id,
            decreases self.groups.len() - i,
        {
            if self.groups[i].id == id {
                assert(self@.groups[i as int].id == id);
                let ghost k = group_index(self@, id);
                assert(k == i as int) by {
                    if k > i as int {
                        assert(self@.groups[i as int].id != self@.groups[k].id);
                    }
                }
                return Some(i);
            }
            i = i + 1;
        }
        None
    }

    /// The group with this id.
    pub fn get_group(&self, id: u64) -> (r: Option<GroupDesc>)
        requires
            schema_wf(self@),
        ensures
            r.is_none() <==> !has_group(self@, id),
            r.is_some() ==> r.unwrap()@ == self@.groups[group_index(self@, id)],
    {
        match self.find_group(id) {
            Some(i) => Some(self.groups[i].clone()),
            None => None,
        }
    }

    /// All groups.
    pub fn list_group(&self) -> (r: Vec<GroupDesc>)
        ensures
            r@.map_values(|g: GroupDesc| g@) == self@.groups,
    {
        let mut r: Vec<GroupDesc> = Vec::new();
        let mut i: usize = 0;
        while i < self.groups.len()
            invariant
                i <= self.groups.len(),
                r@.len() == i,
                forall|j: int| 0 <= j < i ==> (#[trigger] r@[j])@ == self@.groups[j],
            decreases self.groups.len() - i,
        {
            r.push(self.groups[i].clone());
            i = i + 1;
        }
        assert(r@.map_values(|g: GroupDesc| g@) =~= self@.groups);
        r
    }

    /// All nodes, in the order they joined.
    pub fn list_node(&self) -> (r: Vec<NodeDesc>)
        ensures
            r@.map_values(|n: NodeDesc| n@) == self@.nodes,
    {
        let mut r: Vec<NodeDesc> = Vec::new();
        let mut i: usize = 0;
        while i < self.nodes.len()
            invariant
                i <= self.nodes.len(),
                r@.len() == i,
                forall|j: int| 0 <= j < i ==> (#[trigger] r@[j])@ == self@.nodes[j],
            decreases self.nodes.len() - i,
        {
            r.push(self.nodes[i].clone());
            i = i + 1;
        }
        assert(r@.map_values(|n: NodeDesc| n@) =~= self@.nodes);
        r
    }

    /// All reported replica states.
    pub fn list_replica_state(&self) -> (r: Vec<ReplicaState>)
        ensures
            r@ == self@.states,
    {
        let mut r: Vec<ReplicaState> = Vec::new();
        let mut i: usize = 0;
        while i < self.states.len()
            invariant
                i <= self.states.len(),
                r@ == self@.states.subrange(0, i as int),
            decreases self.states.len() - i,
        {
            r.push(self.states[i]);
            i = i + 1;
            assert(r@ =~= self@.states.subrange(0, i as int));
        }
        assert(r@ =~= self@.states);
        r
    }

    /// Appends `shards` to the shards of group `group_id`.
    pub fn create_shards(&mut self, group_id: u64, shards: Vec<ShardDesc>) -> (r: Result<(), Error>)
        requires
            schema_wf(old(self)@),
        ensures
            schema_wf(final(self)@),
            !has_group(old(self)@, group_id) ==> r == Err::<(), Error>(Error::GroupNotFound(group_id))
                && final(self)@ == old(self)@,
            has_group(old(self)@, group_id) ==> {
                let i = group_index(old(self)@, group_id);
                let g = old(self)@.groups[i];
                &&& r == Ok::<(), Error>(())
                &&& final(self)@ == (SchemaView {
                    groups: old(self)@.groups.update(
                        i,
                        GroupView { shards: g.shards + shard_views(shards@), ..g },
                    ),
                    ..old(self)@
                })
            },
    {
        let i = match self.find_group(group_id) {
            Some(i) => i,
            None => return Err(Error::GroupNotFound(group_id)),
        };
        let mut all = copy_shards(&self.groups[i].shards);
        let ghost before = all@;
        let mut j: usize = 0;
        while j < shards.len()
            invariant
                j <= shards.len(),
                all@.len() == before.len() + j,
                forall|k: int| 0 <= k < before.len() ==> (#[trigger] all@[k])@ == before[k]@,
                forall|k: int| 0 <= k < j ==> all@[before.len() + k]@ == (#[trigger] shards@[k])@,
            decreases shards.len() - j,
        {
            let c = shards[j].clone();
            all.push(c);
            j = j + 1;
        }
        assert(shard_views(all@) =~= shard_views(before) + shard_views(shards@)) by {
            assert forall|k: int| before.len() <= k < all@.len() implies all@[k]@ == shards@[k - before.len()]@ by {
                assert(all@[before.len() + (k - before.len())]@ == shards@[k - before.len()]@);
            }
        }
        let g = GroupDesc {
            id: self.groups[i].id,
            epoch: self.groups[i].epoch,
            shards: all,
            replicas: crate::types::copy_replicas(&self.groups[i].replicas),
        };
        self.groups.set(i, g);
        assert(self@.groups =~= old(self)@.groups.update(
            i as int,
            GroupView {
                shards: old(self)@.groups[i as int].shards + shard_views(shards@),
                ..old(self)@.groups[i as int]
            },
        ));
        Ok(())
    }

    /// Writes what a node reported: the group's descriptor and the replica's state, each
    /// when present.
    pub fn update_group_replica(&mut self, desc: Option<GroupDesc>, state: Option<ReplicaState>)
        requires
            schema_wf(old(self)@),
        ensures
            schema_wf(final(self)@),
            final(self)@ == (SchemaView {
                groups: match desc {
                    Some(g) => put_group(old(self)@, g@),
                    None => old(self)@.groups,
                },
                states: match state {
                    Some(st) => put_state(old(self)@.states, st),
                    None => old(self)@.states,
                },
                ..old(self)@
            }),
    {
        if let Some(g) = desc {
            let ghost gv = g@;
            match self.find_group(g.id) {
                Some(i) => {
                    self.groups.set(i, g);
                    assert(self@.groups =~= old(self)@.groups.update(i as int, gv));
                },
                None => {
                    self.groups.push(g);
                    assert(self@.groups =~= old(self)@.groups.push(gv));
                },
            }
            assert forall|a: int, b: int|
                0 <= a < b < self@.groups.len() implies self@.groups[a].id != self@.groups[b].id by {
                if b == old(self)@.groups.len() {
                } else if a != group_index(old(self)@, gv.id) && b != group_index(old(self)@, gv.id) {
                    assert(old(self)@.groups[a].id != old(self)@.groups[b].id);
                }
            }
        }
        let ghost mid = self@;
        if let Some(st) = state {
            let mut i: usize = 0;
            let mut found = false;
            while !found && i < self.states.len()
                invariant
                    i <= self.states.len(),
                    self@ == mid,
                    found ==> i < self.states.len() && self@.states[i as int].replica_id == st.replica_id,
                    forall|j: int| 0 <= j < i ==> self@.states[j].replica_id != st.replica_id,
                decreases self.states.len() - i + if found { 0int } else { 1int },
            {
                if self.states[i].replica_id == st.replica_id {
                    found = true;
                } else {
                    i = i + 1;
                }
            }
            if found {
                proof {
                    let k = choose|k: int|
                        0 <= k < mid.states.len() && mid.states[k].replica_id == st.replica_id;
                    if k > i {
                        assert(mid.states[i as int].replica_id != mid.states[k].replica_id);
                    }
                    assert(k == i as int);
                }
                self.states.set(i, st);
            } else {
                self.states.push(st);
            }
            assert(self@.states =~= put_state(mid.states, st));
            assert forall|a: int, b: int|
                0 <= a < b < self@.states.len() implies self@.states[a].replica_id
                != self@.states[b].replica_id by {
                if found && (a == i || b == i) {
                    assert(mid.states[a].replica_id != mid.states[b].replica_id);
                } else if !found && b == mid.states.len() {
                } else {
                    assert(mid.states[a].replica_id != mid.states[b].replica_id);
                }
            }
        }
    }

    /// The reported states of group `group_id`'s replicas.
    pub fn group_state(&self, group_id: u64) -> (r: GroupState)
        ensures
            r@ == (GroupStateView { group_id, replicas: states_of(self@.states, group_id) }),
    {
        let mut replicas: Vec<ReplicaState> = Vec::new();
        let mut i: usize = 0;
        while i < self.states.len()
            invariant
                i <= self.states.len(),
                replicas@ == states_of(self@.states.subrange(0, i as int), group_id),
            decreases self.states.len() - i,
        {
            proof {
                reveal(Seq::filter);
                assert(self@.states.subrange(0, i + 1).drop_last() =~= self@.states.subrange(0, i as int));
            }
            if self.states[i].group_id == group_id {
                replicas.push(self.states[i]);
            }
            i = i + 1;
        }
        assert(self@.states.subrange(0, self.states.len() as int) =~= self@.states);
        GroupState { group_id, replicas }
    }

    /// Records a node that joins the cluster, under a fresh id.
    pub fn add_node(&mut self, addr: String, capacity: Option<NodeCapacity>) -> (r: Result<NodeDesc, Error>)
        requires
            schema_wf(old(self)@),
        ensures
            schema_wf(final(self)@),
            old(self)@.next_id == u64::MAX ==> r == Err::<NodeDesc, Error>(Error::IdExhausted)
                && final(self)@ == old(self)@,
            old(self)@.next_id < u64::MAX ==> r.is_ok() && r.unwrap()@ == (NodeView {
                id: old(self)@.next_id,
                addr: addr@,
                capacity,
            }) && final(self)@ == (SchemaView {
                nodes: old(self)@.nodes.push(r.unwrap()@),
                next_id: (old(self)@.next_id + 1) as u64,
                ..old(self)@
            }),
    {
        let id = match self.next_id() {
            Ok(id) => id,
            Err(e) => return Err(e),
        };
        let node = NodeDesc { id, addr, capacity };
        self.nodes.push(node.clone());
        assert(self@.nodes =~= old(self)@.nodes.push(node@));
        Ok(node)
    }

    /// The cluster's id.
    pub fn cluster_id(&self) -> (r: Vec<u8>)
        ensures
            r@ == self@.cluster_id,
    {
        let mut r: Vec<u8> = Vec::new();
        let mut i: usize = 0;
        while i < self.cluster_id.len()
            invariant
                i <= self.cluster_id.len(),
                r@ == self@.cluster_id.subrange(0, i as int),
            decreases self.cluster_id.len() - i,
        {
            r.push(self.cluster_id[i]);
            i = i + 1;
            assert(r@ =~= self@.cluster_id.subrange(0, i as int));
        }
        assert(r@ =~= self@.cluster_id);
        r
    }

    /// The root-capable nodes, the preferred one first.
    pub fn root_nodes(&self) -> (r: Vec<NodeDesc>)
        ensures
            r@.map_values(|n: NodeDesc| n@) == self@.root_nodes,
    {
        let mut r: Vec<NodeDesc> = Vec::new();
        let mut i: usize = 0;
        while i < self.root_nodes.len()
            invariant
                i <= self.root_nodes.len(),
                r@.len() == i,
                forall|j: int| 0 <= j < i ==> (#[trigger] r@[j])@ == self@.root_nodes[j],
            decreases self.root_nodes.len() - i,
        {
            r.push(self.root_nodes[i].clone());
            i = i + 1;
        }
        assert(r@.map_values(|n: NodeDesc| n@) =~= self@.root_nodes);
        r
    }

    /// Creates the cluster's first records once: the local node, the root group with one
    /// voting replica on it, and the list of root-capable nodes. A store that was
    /// bootstrapped already is left as it is.
    pub fn try_bootstrap_root(&mut self, local_addr: &String, cluster_id: Vec<u8>) -> (r: Result<(), Error>)
        requires
            schema_wf(old(self)@),
        ensures
            schema_wf(final(self)@),
            old(self)@.bootstrapped ==> r.is_ok() && final(self)@ == old(self)@,
            !old(self)@.bootstrapped && old(self)@.next_id > u64::MAX - 3 ==> r == Err::<(), Error>(
                Error::IdExhausted,
            ) && final(self)@ == old(self)@,
            !old(self)@.bootstrapped && old(self)@.next_id <= u64::MAX - 3 ==> r.is_ok() && final(self)@ == bootstrapped_store(old(self)@, local_addr@, cluster_id@),
    {
        if self.bootstrapped {
            return Ok(());
        }
        if self.next_id > u64::MAX - 3 {
            return Err(Error::IdExhausted);
        }
        let node_id = self.next_id;
        let group_id = node_id + 1;
        let replica_id = node_id + 2;
        self.next_id = node_id + 3;
        let node = NodeDesc { id: node_id, addr: local_addr.clone(), capacity: None };
        let root_node = node.clone();
        self.nodes.push(node);
        let mut replicas: Vec<ReplicaDesc> = Vec::new();
        replicas.push(ReplicaDesc { id: replica_id, node_id, role: REPLICA_ROLE_VOTER });
        let group = GroupDesc { id: group_id, epoch: INITIAL_EPOCH, shards: Vec::new(), replicas };
        let ghost gv = group@;
        assert(gv.shards =~= Seq::<crate::types::ShardView>::empty());
        let mut roots: Vec<NodeDesc> = Vec::new();
        roots.push(root_node);
        self.root_nodes = roots;
        self.cluster_id = cluster_id;
        self.bootstrapped = true;
        assert(self@.nodes =~= old(self)@.nodes.push(root_node@));
        assert(self@.root_nodes =~= seq![root_node@]);
        let ghost mid = self@;
        assert(mid.groups =~= old(self)@.groups);
        assert(mid.databases == old(self)@.databases);
        assert(mid.collections == old(self)@.collections);
        assert(mid.states == old(self)@.states);
        assert forall|i: int| 0 <= i < mid.nodes.len() implies mid.nodes[i].id < mid.next_id by {
            if i < old(self)@.nodes.len() {
                assert(mid.nodes[i] == old(self)@.nodes[i]);
            }
        }
        assert(schema_wf(mid));
        self.update_group_replica(Some(group), None);
        Ok(())
    }

    /// The updates and deletes that bring a client that knows the groups `cur` (id and
    /// epoch) up to the current state: every node, database and collection, every group
    /// it does not know at its current epoch, and a delete for each group it knows that
    /// no longer exists.
    pub fn list_all_events(&self, cur: &Vec<(u64, u64)>) -> (r: (Vec<UpdateEvent>, Vec<DeleteEvent>))
        requires
            schema_wf(self@),
        ensures
            update_views(r.0@) == all_updates(self@, cur@),
            r.1@ == all_deletes(self@, cur@),
    {
        let mut ups: Vec<UpdateEvent> = Vec::new();
        let nodes = self.list_node();
        let dbs = self.list_database();
        let cols = self.list_collection_all();
        let mut i: usize = 0;
        let ghost base = Seq::<UpdateView>::empty();
        while i < nodes.len()
            invariant
                i <= nodes.len(),
                nodes@.map_values(|n: NodeDesc| n@) == self@.nodes,
                update_views(ups@) == self@.nodes.subrange(0, i as int).map_values(|n: NodeView| UpdateView::Node(n)),
            decreases nodes.len() - i,
        {
            assert(nodes@.map_values(|n: NodeDesc| n@)[i as int] == nodes@[i as int]@);
            let ghost prev = ups@;
            let e = nodes[i].clone();
            ups.push(UpdateEvent::Node(e));
            assert(update_views(ups@) =~= update_views(prev).push(UpdateView::Node(self@.nodes[i as int])));
            assert(self@.nodes.subrange(0, i + 1).map_values(|n: NodeView| UpdateView::Node(n)) =~= self@.nodes.subrange(0, i as int).map_values(|n: NodeView| UpdateView::Node(n)).push(UpdateView::Node(self@.nodes[i as int])));
            i = i + 1;
            assert(update_views(ups@) =~= self@.nodes.subrange(0, i as int).map_values(|n: NodeView| UpdateView::Node(n)));
        }
        assert(self@.nodes.subrange(0, nodes.len() as int) =~= self@.nodes);
        let ghost after_nodes = update_views(ups@);
        let mut i: usize = 0;
        while i < dbs.len()
            invariant
                i <= dbs.len(),
                dbs@.map_values(|d: DatabaseDesc| d@) == self@.databases,
                update_views(ups@) == after_nodes + self@.databases.subrange(0, i as int).map_values(|d: DatabaseView| UpdateView::Database(d)),
            decreases dbs.len() - i,
        {
            assert(dbs@.map_values(|d: DatabaseDesc| d@)[i as int] == dbs@[i as int]@);
            let ghost prev = ups@;
            let e = dbs[i].clone();
            ups.push(UpdateEvent::Database(e));
            assert(update_views(ups@) =~= update_views(prev).push(UpdateView::Database(self@.databases[i as int])));
            assert(self@.databases.subrange(0, i + 1).map_values(|d: DatabaseView| UpdateView::Database(d)) =~= self@.databases.subrange(0, i as int).map_values(|d: DatabaseView| UpdateView::Database(d)).push(UpdateView::Database(self@.databases[i as int])));
            i = i + 1;
            assert(update_views(ups@) =~= after_nodes + self@.databases.subrange(0, i as int).map_values(|d: DatabaseView| UpdateView::Database(d)));
        }
        assert(self@.databases.subrange(0, dbs.len() as int) =~= self@.databases);
        let ghost after_dbs = update_views(ups@);
        let mut i: usize = 0;
        while i < cols.len()
            invariant
                i <= cols.len(),
                cols@.map_values(|c: CollectionDesc| c@) == self@.collections,
                update_views(ups@) == after_dbs + self@.collections.subrange(0, i as int).map_values(|c: CollectionView| UpdateView::Collection(c)),
            decreases cols.len() - i,
        {
            assert(cols@.map_values(|c: CollectionDesc| c@)[i as int] == cols@[i as int]@);
            let ghost prev = ups@;
            let e = cols[i].clone();
            ups.push(UpdateEvent::Collection(e));
            assert(update_views(ups@) =~= update_views(prev).push(UpdateView::Collection(self@.collections[i as int])));
            assert(self@.collections.subrange(0, i + 1).map_values(|c: CollectionView| UpdateView::Collection(c)) =~= self@.collections.subrange(0, i as int).map_values(|c: CollectionView| UpdateView::Collection(c)).push(UpdateView::Collection(self@.collections[i as int])));
            i = i + 1;
            assert(update_views(ups@) =~= after_dbs + self@.collections.subrange(0, i as int).map_values(|c: CollectionView| UpdateView::Collection(c)));
        }
        assert(self@.collections.subrange(0, cols.len() as int) =~= self@.collections);
        let ghost after_cols = update_views(ups@);
        let mut i: usize = 0;
        while i < self.groups.len()
            invariant
                i <= self.groups.len(),
                update_views(ups@) == after_cols + stale_groups(self@.groups.subrange(0, i as int), cur@),
            decreases self.groups.len() - i,
        {
            let ghost prev = ups@;
            assert(self@.groups.subrange(0, i + 1).drop_last() =~= self@.groups.subrange(0, i as int));
            let mut k: usize = 0;
            let mut known = false;
            while k < cur.len()
                invariant
                    k <= cur.len(),
                    i < self.groups.len(),
                    known <==> exists|m: int| 0 <= m < k && cur@[m] == (self@.groups[i as int].id, self@.groups[i as int].epoch),
                decreases cur.len() - k,
            {
                if cur[k].0 == self.groups[i].id && cur[k].1 == self.groups[i].epoch {
                    known = true;
                }
                k = k + 1;
            }
            if !known {
                ups.push(UpdateEvent::Group(self.groups[i].clone()));
                assert(update_views(ups@) =~= update_views(prev).push(UpdateView::Group(self@.groups[i as int])));
            }
            i = i + 1;
        }
        assert(self@.groups.subrange(0, self.groups.len() as int) =~= self@.groups);
        let mut dels: Vec<DeleteEvent> = Vec::new();
        let mut k: usize = 0;
        while k < cur.len()
            invariant
                k <= cur.len(),
                schema_wf(self@),
                dels@ == removed_groups(self@, cur@.subrange(0, k as int)),
            decreases cur.len() - k,
        {
            assert(cur@.subrange(0, k + 1).drop_last() =~= cur@.subrange(0, k as int));
            if self.find_group(cur[k].0).is_none() {
                dels.push(DeleteEvent::Group(cur[k].0));
            }
            k = k + 1;
        }
        assert(cur@.subrange(0, cur.len() as int) =~= cur@);
        (ups, dels)
    }

    /// All collections, in the order they were created.
    pub fn list_collection_all(&self) -> (r: Vec<CollectionDesc>)
        ensures
            r@.map_values(|c: CollectionDesc| c@) == self@.collections,
    {
        let mut r: Vec<CollectionDesc> = Vec::new();
        let mut i: usize = 0;
        while i < self.collections.len()
            invariant
                i <= self.collections.len(),
                r@.len() == i,
                forall|j: int| 0 <= j < i ==> (#[trigger] r@[j])@ == self@.collections[j],
            decreases self.collections.len() - i,
        {
            r.push(self.collections[i].clone());
            i = i + 1;
        }
        assert(r@.map_values(|c: CollectionDesc| c@) =~= self@.collections);
        r
    }
}

} // verus!
