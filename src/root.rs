use vstd::prelude::*;

use crate::diagnosis::{
    collection_row, collections_in, group_replica_of, metadata_of, node_replicas, shard_row, Metadata,
};
use crate::error::Error;
use crate::placement::{
    assigned, batch_shards, expand_partitions, has_batch, is_target, partition_at,
    partition_count, partition_views, ShardBatch,
};
use crate::schema::{
    all_deletes, all_updates, has_collection, has_database, has_group, put_group, put_state,
    schema_wf, states_of, Schema, SchemaView, INITIAL_EPOCH,
};
use crate::types::{
    node_views, shard_views, CollectionDesc, CollectionPartition, CollectionView, DatabaseDesc,
    DatabaseView, GroupDesc, GroupStateView, GroupView, NodeCapacity, NodeDesc, NodeView,
    ReplicaDesc, ReplicaState, RootDesc, ShardDesc, ShardView, REPLICA_ROLE_VOTER,
};
use crate::watch::{
    broadcast, initialized, registered, update_views, DeleteEvent, ResponseView, UpdateEvent,
    UpdateView, WatchHub, WatchResponse, Watcher, WatcherInitializer, WatcherView,
};

verus! {

pub struct RootView {
    pub node_id: u64,
    pub local_addr: Seq<char>,
    pub cluster_id: Seq<u8>,
    pub installed: bool,
    pub bootstrapped: bool,
    pub store: SchemaView,
    pub hub: Seq<WatcherView>,
}

/// The root coordinator of one node: it serves the cluster map while the node's root
/// replica leads, and hands out watchers at all times.
pub struct Root {
    node_id: u64,
    cluster_id: Vec<u8>,
    local_addr: String,
    store: Schema,
    installed: bool,
    bootstrapped: bool,
    hub: WatchHub,
}

impl View for Root {
    type V = RootView;

    closed spec fn view(&self) -> RootView {
        RootView {
            node_id: self.node_id,
            local_addr: self.local_addr@,
            cluster_id: self.cluster_id@,
            installed: self.installed,
            bootstrapped: self.bootstrapped,
            store: self.store@,
            hub: self.hub@,
        }
    }
}

/// What taking leadership did: the core is installed, the one-time bootstrap is done, and
/// when it had been done before, the cluster map and the watchers are untouched.
pub open spec fn leader_stepped(pre: RootView, post: RootView) -> bool {
    &&& post.installed
    &&& post.bootstrapped
    &&& post.node_id == pre.node_id
    &&& post.local_addr == pre.local_addr
    &&& post.cluster_id == pre.cluster_id
    &&& post.hub == pre.hub
    &&& pre.bootstrapped ==> post.store == pre.store
}

/// What losing leadership did: the core is gone and nothing else changed.
pub open spec fn follower_stepped(pre: RootView, post: RootView) -> bool {
    post == RootView { installed: false, ..pre }
}

/// Taking and losing leadership any number of times after the first bootstrap never
/// bootstraps again: every state along the way has the same cluster map.
pub proof fn lemma_bootstrap_once_over_terms(v: Seq<RootView>)
    requires
        v.len() > 0,
        v[0].bootstrapped,
        forall|i: int|
            0 <= i < v.len() - 1 ==> leader_stepped(#[trigger] v[i], v[i + 1]) || follower_stepped(
                v[i],
                v[i + 1],
            ),
    ensures
        forall|j: int| 0 <= j < v.len() ==> (#[trigger] v[j]).store == v[0].store && v[j].bootstrapped,
    decreases v.len(),
{
    if v.len() > 1 {
        let w = v.drop_last();
        assert forall|i: int| 0 <= i < w.len() - 1 implies leader_stepped(#[trigger] w[i], w[i + 1])
            || follower_stepped(w[i], w[i + 1]) by {
            assert(w[i] == v[i] && w[i + 1] == v[i + 1]);
        }
        lemma_bootstrap_once_over_terms(w);
        let k = v.len() - 2;
        assert(w[k] == v[k]);
        assert(leader_stepped(v[k], v[k + 1]) || follower_stepped(v[k], v[k + 1]));
        assert forall|j: int| 0 <= j < v.len() implies (#[trigger] v[j]).store == v[0].store
            && v[j].bootstrapped by {
            if j < v.len() - 1 {
                assert(w[j] == v[j]);
            }
        }
    }
}

/// What the leader term's cycle reports back.
#[derive(Clone, Copy, Debug, PartialEq, Eq, Structural)]
pub enum CycleEvent {
    /// The replica is still the leader at the start of a cycle.
    StillLeader,
    /// The replica lost leadership.
    LeadershipLost,
    HeartbeatOk,
    /// The heartbeat met a fatal error.
    HeartbeatFailed,
    ReconcileOk,
    /// The reconciliation pass met a fatal error.
    ReconcileFailed,
}

/// What the leader term's cycle does next.
#[derive(Clone, Copy, Debug, PartialEq, Eq, Structural)]
pub enum CycleAction {
    /// Record that the root is healthy.
    Heartbeat,
    /// Run one reconciliation pass.
    Reconcile,
    /// Wait one period, then check leadership again.
    Sleep,
    /// The term is over and the core is discarded.
    StepDown,
}

/// The cycle's next action: heartbeat, then reconcile, then sleep, and step down on a
/// lost leadership or the first fatal error.
pub open spec fn cycle_action(e: CycleEvent) -> CycleAction {
    match e {
        CycleEvent::StillLeader => CycleAction::Heartbeat,
        CycleEvent::HeartbeatOk => CycleAction::Reconcile,
        CycleEvent::ReconcileOk => CycleAction::Sleep,
        _ => CycleAction::StepDown,
    }
}

/// The shards minted for a new collection: ids from `first` on, one per partition.
pub open spec fn new_shards(col: u64, p: Option<CollectionPartition>, first: u64) -> Seq<ShardView> {
    Seq::new(
        partition_count(p),
        |k: int| ShardView { id: (first + k) as u64, collection_id: col, partition: partition_at(p, k) },
    )
}

/// The groups after round robin placed `shards` on the candidates: each target group has
/// its share appended to its shards.
pub open spec fn placed(groups: Seq<GroupView>, shards: Seq<ShardView>, cands: Seq<u64>) -> Seq<GroupView> {
    Seq::new(
        groups.len(),
        |i: int|
            if is_target(cands, shards.len(), groups[i].id) {
                GroupView {
                    shards: groups[i].shards + assigned(shards, cands, groups[i].id, shards.len()),
                    ..groups[i]
                }
            } else {
                groups[i]
            },
    )
}

/// The groups after the first `k` batches were written.
pub open spec fn written(
    groups: Seq<GroupView>,
    shards: Seq<ShardView>,
    cands: Seq<u64>,
    batches: Seq<ShardBatch>,
    k: int,
) -> Seq<GroupView> {
    Seq::new(
        groups.len(),
        |i: int|
            if has_batch(batches.take(k), groups[i].id) {
                GroupView {
                    shards: groups[i].shards + assigned(shards, cands, groups[i].id, shards.len()),
                    ..groups[i]
                }
            } else {
                groups[i]
            },
    )
}

/// The groups that have fewer than `want` replicas, each with how many it lacks, in order.
pub open spec fn deficits(groups: Seq<GroupView>, want: u64) -> Seq<(u64, u64)>
    decreases groups.len(),
{
    if groups.len() == 0 {
        Seq::empty()
    } else {
        let prev = deficits(groups.drop_last(), want);
        let g = groups.last();
        if g.replicas.len() < want {
            prev.push((g.id, (want - g.replicas.len()) as u64))
        } else {
            prev
        }
    }
}

/// The shards minted for a collection are distinct: their ids differ.
pub proof fn lemma_new_shards_distinct(col: u64, p: Option<CollectionPartition>, first: u64)
    requires
        partition_count(p) <= u64::MAX - first,
    ensures
        forall|a: int, b: int|
            0 <= a < b < new_shards(col, p, first).len() ==> new_shards(col, p, first)[a]
                != new_shards(col, p, first)[b],
{
    assert forall|a: int, b: int| 0 <= a < b < new_shards(col, p, first).len() implies new_shards(
        col,
        p,
        first,
    )[a] != new_shards(col, p, first)[b] by {
        assert(new_shards(col, p, first)[a].id != new_shards(col, p, first)[b].id);
    }
}

/// Of distinct shards placed round robin, shard `k` is in the share of group `g` exactly
/// when `g` is its target: every shard lands in one group, and in no other.
pub proof fn lemma_each_shard_placed_once(shards: Seq<ShardView>, cands: Seq<u64>, g: u64, n: nat, k: int)
    requires
        cands.len() > 0,
        n <= shards.len(),
        0 <= k < n,
        forall|a: int, b: int| 0 <= a < b < shards.len() ==> shards[a] != shards[b],
    ensures
        assigned(shards, cands, g, n).contains(shards[k]) <==> crate::placement::target(cands, k) == g,
    decreases n,
{
    let prev = assigned(shards, cands, g, (n - 1) as nat);
    lemma_assigned_within(shards, cands, g, (n - 1) as nat);
    if k < n - 1 {
        lemma_each_shard_placed_once(shards, cands, g, (n - 1) as nat, k);
        if crate::placement::target(cands, n - 1) == g {
            assert(prev.push(shards[n - 1]).contains(shards[k]) <==> prev.contains(shards[k])) by {
                if prev.push(shards[n - 1]).contains(shards[k]) {
                    let j = choose|j: int| 0 <= j < prev.len() + 1 && #[trigger] prev.push(shards[n - 1])[j] == shards[k];
                    if j == prev.len() {
                        assert(shards[n - 1] != shards[k]);
                    } else {
                        assert(prev[j] == shards[k]);
                    }
                }
                if prev.contains(shards[k]) {
                    let j = choose|j: int| 0 <= j < prev.len() && #[trigger] prev[j] == shards[k];
                    assert(prev.push(shards[n - 1])[j] == shards[k]);
                }
            }
        }
    } else {
        if crate::placement::target(cands, k) == g {
            assert(assigned(shards, cands, g, n)[prev.len() as int] == shards[k]);
        } else {
            if prev.contains(shards[k]) {
                let j = choose|j: int| 0 <= j < prev.len() && #[trigger] prev[j] == shards[k];
                let m = choose|m: int| 0 <= m < n - 1 && #[trigger] shards[m] == prev[j];
                assert(shards[m] != shards[k]);
            }
        }
    }
}

/// Every shard in the first `n` shards' share of a group is one of those shards.
pub proof fn lemma_assigned_within(shards: Seq<ShardView>, cands: Seq<u64>, g: u64, n: nat)
    requires
        n <= shards.len(),
    ensures
        forall|j: int|
            0 <= j < assigned(shards, cands, g, n).len() ==> exists|m: int|
                0 <= m < n && shards[m] == #[trigger] assigned(shards, cands, g, n)[j],
    decreases n,
{
    if n > 0 {
        lemma_assigned_within(shards, cands, g, (n - 1) as nat);
        let prev = assigned(shards, cands, g, (n - 1) as nat);
        assert forall|j: int| 0 <= j < assigned(shards, cands, g, n).len() implies exists|m: int|
            0 <= m < n && shards[m] == #[trigger] assigned(shards, cands, g, n)[j] by {
            if j < prev.len() {
                assert(assigned(shards, cands, g, n)[j] == prev[j]);
                let m = choose|m: int| 0 <= m < n - 1 && #[trigger] shards[m] == prev[j];
            } else {
                assert(shards[n - 1] == assigned(shards, cands, g, n)[j]);
            }
        }
    }
}

/// The groups after a placement that stopped part way: each group either is untouched
/// or has received its whole share, and nothing else in the store changed but the ids.
pub open spec fn partly_placed(
    pre: SchemaView,
    post: SchemaView,
    shards: Seq<ShardView>,
    cands: Seq<u64>,
) -> bool {
    &&& post == (SchemaView { groups: post.groups, next_id: post.next_id, ..pre })
    &&& post.groups.len() == pre.groups.len()
    &&& forall|i: int|
        0 <= i < pre.groups.len() ==> #[trigger] post.groups[i] == pre.groups[i] || post.groups[i]
            == placed(pre.groups, shards, cands)[i]
}

/// One group's update in a node's report.
pub struct GroupUpdates {
    pub group_desc: Option<GroupDesc>,
    pub replica_state: Option<ReplicaState>,
}

pub struct GroupUpdatesView {
    pub group_desc: Option<GroupView>,
    pub replica_state: Option<ReplicaState>,
}

impl View for GroupUpdates {
    type V = GroupUpdatesView;

    open spec fn view(&self) -> GroupUpdatesView {
        GroupUpdatesView {
            group_desc: match self.group_desc {
                Some(g) => Some(g@),
                None => None,
            },
            replica_state: self.replica_state,
        }
    }
}

pub open spec fn updates_views(us: Seq<GroupUpdates>) -> Seq<GroupUpdatesView> {
    us.map_values(|u: GroupUpdates| u@)
}

/// The store after the report `us` was written, update by update.
pub open spec fn apply_report(s: SchemaView, us: Seq<GroupUpdatesView>) -> SchemaView
    decreases us.len(),
{
    if us.len() == 0 {
        s
    } else {
        let prev = apply_report(s, us.drop_last());
        let u = us.last();
        SchemaView {
            groups: match u.group_desc {
                Some(g) => put_group(prev, g),
                None => prev.groups,
            },
            states: match u.replica_state {
                Some(st) => put_state(prev.states, st),
                None => prev.states,
            },
            ..prev
        }
    }
}

/// One update event per group descriptor in the report, in order.
pub open spec fn report_descs(us: Seq<GroupUpdatesView>) -> Seq<UpdateView>
    decreases us.len(),
{
    if us.len() == 0 {
        Seq::empty()
    } else {
        let prev = report_descs(us.drop_last());
        match us.last().group_desc {
            Some(g) => prev.push(UpdateView::Group(g)),
            None => prev,
        }
    }
}

/// The groups whose replica state the report changed, each once, in the order of their
/// first change.
pub open spec fn changed_groups(us: Seq<GroupUpdatesView>) -> Seq<u64>
    decreases us.len(),
{
    if us.len() == 0 {
        Seq::empty()
    } else {
        let prev = changed_groups(us.drop_last());
        match us.last().replica_state {
            Some(st) => if prev.contains(st.group_id) {
                prev
            } else {
                prev.push(st.group_id)
            },
            None => prev,
        }
    }
}

/// The batch that a report broadcasts: its group descriptors, then the current state of
/// each group whose replica state changed.
pub open spec fn report_events(s: SchemaView, us: Seq<GroupUpdatesView>) -> Seq<UpdateView> {
    report_descs(us) + changed_groups(us).map_values(
        |g: u64| UpdateView::GroupState(GroupStateView { group_id: g, replicas: states_of(s.states, g) }),
    )
}

/// Whether update `u` reports a replica state of group `g`.
pub open spec fn reports_state_of(u: GroupUpdatesView, g: u64) -> bool {
    u.replica_state matches Some(st) && st.group_id == g
}

/// A report's batch holds one group-state event for each group whose replica state it
/// reported, and none for any other group.
pub proof fn lemma_report_state_events(us: Seq<GroupUpdatesView>)
    ensures
        forall|a: int, b: int|
            0 <= a < b < changed_groups(us).len() ==> changed_groups(us)[a] != changed_groups(us)[b],
        forall|g: u64|
            #[trigger] changed_groups(us).contains(g) <==> exists|i: int|
                0 <= i < us.len() && reports_state_of(us[i], g),
    decreases us.len(),
{
    if us.len() > 0 {
        let init = us.drop_last();
        lemma_report_state_events(init);
        let prev = changed_groups(init);
        assert forall|g: u64| #[trigger] changed_groups(us).contains(g) <==> exists|i: int|
            0 <= i < us.len() && reports_state_of(us[i], g) by {
            if changed_groups(us).contains(g) {
                let k = choose|k: int| 0 <= k < changed_groups(us).len() && changed_groups(us)[k] == g;
                if k < prev.len() {
                    assert(prev.contains(g));
                    let i = choose|i: int|
                        0 <= i < init.len() && reports_state_of(init[i], g);
                    assert(us[i] == init[i]);
                } else {
                    assert(reports_state_of(us[us.len() - 1], g));
                }
            }
            if exists|i: int| 0 <= i < us.len() && reports_state_of(us[i], g) {
                let i = choose|i: int|
                    0 <= i < us.len() && reports_state_of(us[i], g);
                if i < us.len() - 1 {
                    assert(init[i] == us[i]);
                    assert(prev.contains(g));
                    let k = choose|k: int| 0 <= k < prev.len() && prev[k] == g;
                    assert(changed_groups(us)[k] == g);
                } else if !prev.contains(g) {
                    assert(changed_groups(us)[prev.len() as int] == g);
                }
            }
        }
    }
}

/// A remote replica to create: the node's address and the replica's id.
pub struct ReplicaCreation {
    pub addr: String,
    pub replica_id: u64,
}

/// A new group and the replicas that its nodes are to create.
pub struct GroupPlan {
    pub group: GroupDesc,
    pub creations: Vec<ReplicaCreation>,
}

/// Moves the node with id `id`, if any, to the front, keeping the order of the others.
pub fn move_first(nodes: &Vec<NodeDesc>, id: u64) -> (r: Vec<NodeDesc>)
    ensures
        (forall|i: int| 0 <= i < nodes@.len() ==> nodes@[i].id != id) ==> node_views(r@)
            == node_views(nodes@),
        forall|k: int|
            0 <= k < nodes@.len() && nodes@[k].id == id && (forall|i: int|
                0 <= i < k ==> nodes@[i].id != id) ==> node_views(r@) == seq![nodes@[k]@]
                + node_views(nodes@.remove(k)),
{
    let mut i: usize = 0;
    while i < nodes.len() && nodes[i].id != id
        invariant
            i <= nodes.len(),
            forall|j: int| 0 <= j < i ==> nodes@[j].id != id,
        decreases nodes.len() - i,
    {
        i = i + 1;
    }
    let mut r: Vec<NodeDesc> = Vec::new();
    let found = i < nodes.len();
    if found {
        r.push(nodes[i].clone());
    }
    let ghost head: Seq<NodeView> = if found { seq![nodes@[i as int]@] } else { Seq::empty() };
    let ghost rest = if found { nodes@.remove(i as int) } else { nodes@ };
    let mut j: usize = 0;
    while j < nodes.len()
        invariant
            j <= nodes.len(),
            found == (i < nodes.len()),
            head == (if found { seq![nodes@[i as int]@] } else { Seq::<NodeView>::empty() }),
            rest == (if found { nodes@.remove(i as int) } else { nodes@ }),
            node_views(r@) == head + node_views(rest.subrange(0, if found && j > i { j - 1 } else { j as int })),
        decreases nodes.len() - j,
    {
        let ghost prev = r@;
        let ghost m: int = if found && j > i { j - 1 } else { j as int };
        if !(found && j == i) {
            r.push(nodes[j].clone());
            assert(rest[m] == nodes@[j as int]);
            assert(rest.subrange(0, m + 1) =~= rest.subrange(0, m).push(nodes@[j as int]));
            assert(node_views(r@) =~= node_views(prev).push(nodes@[j as int]@));
        }
        j = j + 1;
    }
    proof {
        let m: int = if found { nodes.len() - 1 } else { nodes.len() as int };
        assert(rest.subrange(0, m) =~= rest);
        if found {
            assert forall|k: int|
                0 <= k < nodes@.len() && nodes@[k].id == id && (forall|x: int|
                    0 <= x < k ==> nodes@[x].id != id) implies k == i by {
                if k < i {
                } else if k > i {
                    assert(nodes@[i as int].id == id);
                }
            }
        }
    }
    r
}


impl Root {
    /// The store is well formed, and once this process bootstrapped, the store says so.
    pub open spec fn wf(&self) -> bool {
        &&& schema_wf(self@.store)
        &&& self@.bootstrapped ==> self@.store.bootstrapped
    }

    /// A coordinator for node `node_id` of cluster `cluster_id`, serving at `local_addr`,
    /// over an empty store. It is not the root until its replica leads.
    pub fn new(node_id: u64, cluster_id: Vec<u8>, local_addr: String) -> (r: Root)
        ensures
            r.wf(),
            r@.node_id == node_id,
            r@.cluster_id == cluster_id@,
            r@.local_addr == local_addr@,
            !r@.installed,
            !r@.bootstrapped,
            !r@.store.bootstrapped,
            r@.store.next_id == 1,
            r@.store.databases.len() == 0,
            r@.store.collections.len() == 0,
            r@.store.groups.len() == 0,
            r@.store.nodes.len() == 0,
            r@.hub.len() == 0,
    {
        Root {
            node_id,
            cluster_id,
            local_addr,
            store: Schema::new(),
            installed: false,
            bootstrapped: false,
            hub: WatchHub::new(),
        }
    }

    /// Whether the core is installed: the node serves as the root.
    pub fn is_root(&self) -> (r: bool)
        ensures
            r == self@.installed,
    {
        self.installed
    }

    pub fn current_node_id(&self) -> (r: u64)
        ensures
            r == self@.node_id,
    {
        self.node_id
    }

    /// The metadata store, while the core is installed.
    pub fn schema(&self) -> (r: Result<&Schema, Error>)
        ensures
            !self@.installed ==> r == Err::<&Schema, Error>(Error::NotRootLeader),
            self@.installed ==> r.is_ok() && r.unwrap()@ == self@.store,
    {
        if self.installed {
            Ok(&self.store)
        } else {
            Err(Error::NotRootLeader)
        }
    }

    /// The hub that watchers register with; it is there whether or not the node leads.
    pub fn watcher_hub(&self) -> (r: &WatchHub)
        ensures
            r@ == self@.hub,
    {
        &self.hub
    }

    /// Whether taking leadership can complete its bootstrap: either this process or the
    /// store has bootstrapped already, or three ids are left for the first records.
    pub open spec fn can_take_leadership(v: RootView) -> bool {
        v.bootstrapped || v.store.bootstrapped || v.store.next_id <= u64::MAX - 3
    }

    /// Tests `can_take_leadership`; a node for which it fails must not serve as the root.
    pub fn bootstrap_possible(&self) -> (r: bool)
        ensures
            r == Self::can_take_leadership(self@),
    {
        self.bootstrapped || self.store.is_bootstrapped() || self.store.ids_left() >= 3
    }

    /// The first half of a leader term: bootstrap the cluster if this process has not done
    /// so yet, then install the core. The term ends with `lose_leadership`.
    pub fn take_leadership(&mut self)
        requires
            old(self).wf(),
            Self::can_take_leadership(old(self)@),
        ensures
            final(self).wf(),
            leader_stepped(old(self)@, final(self)@),
            old(self)@.store.bootstrapped ==> final(self)@.store == old(self)@.store,
            !old(self)@.bootstrapped && !old(self)@.store.bootstrapped ==> final(self)@.store
                == crate::schema::bootstrapped_store(
                old(self)@.store,
                old(self)@.local_addr,
                old(self)@.cluster_id,
            ),
    {
        if !self.bootstrapped {
            let cid = crate::types::copy_bytes(&self.cluster_id);
            let r = self.store.try_bootstrap_root(&self.local_addr, cid);
            assert(r.is_ok());
            self.bootstrapped = true;
        }
        self.installed = true;
    }

    /// The end of a leader term: the core is discarded in one step.
    pub fn lose_leadership(&mut self)
        ensures
            follower_stepped(old(self)@, final(self)@),
            final(self).wf() == old(self).wf(),
    {
        self.installed = false;
    }

    /// One decision of the leader term's cycle: after the leadership check comes the
    /// heartbeat, then the reconciliation pass, then the pause; losing leadership or a
    /// fatal error in the heartbeat or the pass ends the term and discards the core.
    pub fn next_cycle_action(&mut self, event: CycleEvent) -> (r: CycleAction)
        ensures
            r == cycle_action(event),
            final(self).wf() == old(self).wf(),
            r == CycleAction::StepDown ==> follower_stepped(old(self)@, final(self)@),
            r != CycleAction::StepDown ==> final(self)@ == old(self)@,
    {
        let action = match event {
            CycleEvent::StillLeader => CycleAction::Heartbeat,
            CycleEvent::HeartbeatOk => CycleAction::Reconcile,
            CycleEvent::ReconcileOk => CycleAction::Sleep,
            CycleEvent::LeadershipLost => CycleAction::StepDown,
            CycleEvent::HeartbeatFailed => CycleAction::StepDown,
            CycleEvent::ReconcileFailed => CycleAction::StepDown,
        };
        if let CycleAction::StepDown = action {
            self.lose_leadership();
        }
        action
    }

    /// Registers a watcher; see `WatchHub::create_watcher`.
    pub fn create_watcher(&mut self) -> (r: (Watcher, WatcherInitializer))
        ensures
            final(self)@ == (RootView { hub: registered(old(self)@.hub), ..old(self)@ }),
            final(self).wf() == old(self).wf(),
            r.0.id() == old(self)@.hub.len(),
            r.1.id() == old(self)@.hub.len(),
    {
        self.hub.create_watcher()
    }

    /// Gives a watcher its snapshot; see `WatcherInitializer::set_init_resp`.
    pub fn set_init_resp(
        &mut self,
        init: WatcherInitializer,
        updates: Vec<UpdateEvent>,
        deletes: Vec<DeleteEvent>,
    )
        requires
            init.id() < old(self)@.hub.len(),
        ensures
            final(self).wf() == old(self).wf(),
            final(self)@ == (RootView {
                hub: initialized(
                    old(self)@.hub,
                    init.id(),
                    ResponseView { updates: update_views(updates@), deletes: deletes@ },
                ),
                ..old(self)@
            }),
    {
        init.set_init_resp(&mut self.hub, updates, deletes);
    }

    /// Takes a watcher's next response; see `WatchHub::next`.
    pub fn next_response(&mut self, w: &Watcher) -> (r: Option<WatchResponse>)
        requires
            w.id() < old(self)@.hub.len(),
        ensures
            final(self).wf() == old(self).wf(),
            final(self)@ == (RootView { hub: final(self)@.hub, ..old(self)@ }),
            final(self)@.hub.len() == old(self)@.hub.len(),
            forall|j: int|
                0 <= j < old(self)@.hub.len() && j != w.id() ==> final(self)@.hub[j] == old(self)@.hub[j],
            crate::watch::stream(old(self)@.hub[w.id()]).len() == 0 ==> r.is_none() && final(self)@ == old(self)@,
            crate::watch::stream(old(self)@.hub[w.id()]).len() > 0 ==> r.is_some() && r.unwrap()@
                == crate::watch::stream(old(self)@.hub[w.id()])[0] && crate::watch::stream(
                final(self)@.hub[w.id()],
            ) == crate::watch::stream(old(self)@.hub[w.id()]).drop_first(),
    {
        self.hub.next(w)
    }

    /// Broadcasts a batch of updates to every watcher.
    pub fn notify_updates(&mut self, events: Vec<UpdateEvent>)
        ensures
            final(self).wf() == old(self).wf(),
            final(self)@ == (RootView {
                hub: broadcast(
                    old(self)@.hub,
                    ResponseView { updates: update_views(events@), deletes: Seq::empty() },
                ),
                ..old(self)@
            }),
    {
        self.hub.notify_updates(events);
    }

    /// Broadcasts a batch of deletes to every watcher.
    pub fn notify_deletes(&mut self, events: Vec<DeleteEvent>)
        ensures
            final(self).wf() == old(self).wf(),
            final(self)@ == (RootView {
                hub: broadcast(old(self)@.hub, ResponseView { updates: Seq::empty(), deletes: events@ }),
                ..old(self)@
            }),
    {
        self.hub.notify_deletes(events);
    }

    /// Creates a database and tells the watchers.
    pub fn create_database(&mut self, name: String) -> (r: Result<DatabaseDesc, Error>)
        requires
            old(self).wf(),
        ensures
            final(self).wf(),
            !old(self)@.installed ==> r == Err::<DatabaseDesc, Error>(Error::NotRootLeader)
                && final(self)@ == old(self)@,
            old(self)@.installed && has_database(old(self)@.store, name@) ==> (r matches Err(
                Error::DatabaseExists(n),
            ) && n@ == name@) && final(self)@ == old(self)@,
            old(self)@.installed && !has_database(old(self)@.store, name@) && old(self)@.store.next_id
                == u64::MAX ==> r == Err::<DatabaseDesc, Error>(Error::IdExhausted) && final(self)@
                == old(self)@,
            old(self)@.installed && !has_database(old(self)@.store, name@) && old(self)@.store.next_id
                < u64::MAX ==> {
                let d = DatabaseView { id: old(self)@.store.next_id, name: name@ };
                &&& r.is_ok() && r.unwrap()@ == d
                &&& forall|i: int|
                    0 <= i < old(self)@.store.databases.len() ==> old(self)@.store.databases[i].id != d.id
                &&& final(self)@ == (RootView {
                    store: SchemaView {
                        databases: old(self)@.store.databases.push(d),
                        next_id: (old(self)@.store.next_id + 1) as u64,
                        ..old(self)@.store
                    },
                    hub: broadcast(
                        old(self)@.hub,
                        ResponseView { updates: seq![UpdateView::Database(d)], deletes: Seq::empty() },
                    ),
                    ..old(self)@
                })
            },
    {
        if !self.installed {
            return Err(Error::NotRootLeader);
        }
        let desc = match self.store.create_database(name) {
            Ok(d) => d,
            Err(e) => return Err(e),
        };
        let mut events: Vec<UpdateEvent> = Vec::new();
        events.push(UpdateEvent::Database(desc.clone()));
        assert(update_views(events@) =~= seq![UpdateView::Database(desc@)]);
        self.hub.notify_updates(events);
        Ok(desc)
    }

    /// Deletes an empty database and tells the watchers. A database that still owns
    /// collections is kept and `DatabaseNotEmpty` returned.
    pub fn delete_database(&mut self, name: &String) -> (r: Result<(), Error>)
        requires
            old(self).wf(),
        ensures
            final(self).wf(),
            !old(self)@.installed ==> r == Err::<(), Error>(Error::NotRootLeader) && final(self)@
                == old(self)@,
            old(self)@.installed && !has_database(old(self)@.store, name@) ==> (r matches Err(
                Error::DatabaseNotFound(n),
            ) && n@ == name@) && final(self)@ == old(self)@,
            old(self)@.installed && has_database(old(self)@.store, name@) ==> {
                let i = crate::schema::database_index(old(self)@.store, name@);
                let id = old(self)@.store.databases[i].id;
                &&& crate::schema::owns_collections(old(self)@.store, id) ==> (r matches Err(
                    Error::DatabaseNotEmpty(n),
                ) && n@ == name@) && final(self)@ == old(self)@
                &&& !crate::schema::owns_collections(old(self)@.store, id) ==> r.is_ok() && final(self)@ == (RootView {
                    store: SchemaView {
                        databases: old(self)@.store.databases.remove(i),
                        ..old(self)@.store
                    },
                    hub: broadcast(
                        old(self)@.hub,
                        ResponseView { updates: Seq::empty(), deletes: seq![DeleteEvent::Database(id)] },
                    ),
                    ..old(self)@
                })
            },
    {
        if !self.installed {
            return Err(Error::NotRootLeader);
        }
        let id = match self.store.delete_database(name) {
            Ok(id) => id,
            Err(e) => return Err(e),
        };
        let mut events: Vec<DeleteEvent> = Vec::new();
        events.push(DeleteEvent::Database(id));
        assert(events@ =~= seq![DeleteEvent::Database(id)]);
        self.hub.notify_deletes(events);
        Ok(())
    }

    /// All databases.
    pub fn list_database(&self) -> (r: Result<Vec<DatabaseDesc>, Error>)
        ensures
            !self@.installed ==> r.is_err() && r.unwrap_err() == Error::NotRootLeader,
            self@.installed ==> r.is_ok() && r.unwrap()@.map_values(|d: DatabaseDesc| d@)
                == self@.store.databases,
    {
        if !self.installed {
            return Err(Error::NotRootLeader);
        }
        Ok(self.store.list_database())
    }

    /// The database of the given name.
    pub fn get_database(&self, name: &String) -> (r: Result<Option<DatabaseDesc>, Error>)
        requires
            self.wf(),
        ensures
            !self@.installed ==> r.is_err() && r.unwrap_err() == Error::NotRootLeader,
            self@.installed ==> r.is_ok() && (r.unwrap().is_none() <==> !has_database(
                self@.store,
                name@,
            )),
            self@.installed && has_database(self@.store, name@) ==> r.unwrap().unwrap()@
                == self@.store.databases[crate::schema::database_index(self@.store, name@)],
    {
        if !self.installed {
            return Err(Error::NotRootLeader);
        }
        Ok(self.store.get_database(name))
    }

    /// The collections of the named database.
    pub fn list_collection(&self, database: &String) -> (r: Result<Vec<CollectionDesc>, Error>)
        requires
            self.wf(),
        ensures
            !self@.installed ==> r.is_err() && r.unwrap_err() == Error::NotRootLeader,
            self@.installed && !has_database(self@.store, database@) ==> (r matches Err(
                Error::DatabaseNotFound(n),
            ) && n@ == database@),
            self@.installed && has_database(self@.store, database@) ==> {
                let db = self@.store.databases[crate::schema::database_index(self@.store, database@)];
                r.is_ok() && r.unwrap()@.map_values(|c: CollectionDesc| c@)
                    == self@.store.collections.filter(|c: CollectionView| c.db == db.id)
            },
    {
        if !self.installed {
            return Err(Error::NotRootLeader);
        }
        let db = match self.store.get_database(database) {
            Some(d) => d,
            None => return Err(Error::DatabaseNotFound(database.clone())),
        };
        Ok(self.store.list_collection(db.id))
    }

    /// The collection `name` of the named database.
    pub fn get_collection(&self, name: &String, database: &String) -> (r: Result<
        Option<CollectionDesc>,
        Error,
    >)
        requires
            self.wf(),
        ensures
            !self@.installed ==> r.is_err() && r.unwrap_err() == Error::NotRootLeader,
            self@.installed && !has_database(self@.store, database@) ==> (r matches Err(
                Error::DatabaseNotFound(n),
            ) && n@ == database@),
            self@.installed && has_database(self@.store, database@) ==> {
                let db = self@.store.databases[crate::schema::database_index(self@.store, database@)];
                &&& r.is_ok()
                &&& r.unwrap().is_none() <==> !has_collection(self@.store, db.id, name@)
                &&& r.unwrap().is_some() ==> r.unwrap().unwrap()@
                    == self@.store.collections[crate::schema::collection_index(
                    self@.store,
                    db.id,
                    name@,
                )]
            },
    {
        let db = match self.get_database(database) {
            Ok(Some(d)) => d,
            Ok(None) => return Err(Error::DatabaseNotFound(database.clone())),
            Err(e) => return Err(e),
        };
        Ok(self.store.get_collection(db.id, name))
    }

    /// Deletes the collection `name` of the named database, if it exists, and tells the
    /// watchers. Its shards stay in their groups.
    pub fn delete_collection(&mut self, name: &String, database: &String) -> (r: Result<(), Error>)
        requires
            old(self).wf(),
        ensures
            final(self).wf(),
            !old(self)@.installed ==> r == Err::<(), Error>(Error::NotRootLeader) && final(self)@
                == old(self)@,
            old(self)@.installed && !has_database(old(self)@.store, database@) ==> (r matches Err(
                Error::DatabaseNotFound(n),
            ) && n@ == database@) && final(self)@ == old(self)@,
            old(self)@.installed && has_database(old(self)@.store, database@) ==> {
                let s = old(self)@.store;
                let db = s.databases[crate::schema::database_index(s, database@)];
                let i = crate::schema::collection_index(s, db.id, name@);
                &&& r.is_ok()
                &&& !has_collection(s, db.id, name@) ==> final(self)@ == old(self)@
                &&& has_collection(s, db.id, name@) ==> final(self)@ == (RootView {
                    store: SchemaView { collections: s.collections.remove(i), ..s },
                    hub: broadcast(
                        old(self)@.hub,
                        ResponseView {
                            updates: Seq::empty(),
                            deletes: seq![DeleteEvent::Collection(s.collections[i].id)],
                        },
                    ),
                    ..old(self)@
                })
            },
    {
        if !self.installed {
            return Err(Error::NotRootLeader);
        }
        let db = match self.store.get_database(database) {
            Some(d) => d,
            None => return Err(Error::DatabaseNotFound(database.clone())),
        };
        if let Some(id) = self.store.delete_collection(db.id, name) {
            let mut events: Vec<DeleteEvent> = Vec::new();
            events.push(DeleteEvent::Collection(id));
            assert(events@ =~= seq![DeleteEvent::Collection(id)]);
            self.hub.notify_deletes(events);
        }
        Ok(())
    }

    /// Registers a watcher whose snapshot brings a client that knows the groups `cur` (id
    /// and epoch) up to the current cluster map.
    pub fn watch(&mut self, cur: &Vec<(u64, u64)>) -> (r: Result<Watcher, Error>)
        requires
            old(self).wf(),
        ensures
            final(self).wf(),
            !old(self)@.installed ==> (r matches Err(Error::NotRootLeader)) && final(self)@ == old(self)@,
            old(self)@.installed ==> r.is_ok() && r.unwrap().id() == old(self)@.hub.len()
                && final(self)@ == (RootView {
                hub: initialized(
                    registered(old(self)@.hub),
                    old(self)@.hub.len() as int,
                    ResponseView {
                        updates: all_updates(old(self)@.store, cur@),
                        deletes: all_deletes(old(self)@.store, cur@),
                    },
                ),
                ..old(self)@
            }),
    {
        if !self.installed {
            return Err(Error::NotRootLeader);
        }
        let (watcher, initializer) = self.hub.create_watcher();
        let (updates, deletes) = self.store.list_all_events(cur);
        initializer.set_init_resp(&mut self.hub, updates, deletes);
        Ok(watcher)
    }

    /// A snapshot of the cluster map for inspection; it is balanced when no group has
    /// fewer than `want` replicas, that is, when no reconciliation is pending.
    pub fn info(&self, want: u64) -> (r: Result<Metadata, Error>)
        requires
            self.wf(),
        ensures
            !self@.installed ==> r.is_err() && r.unwrap_err() == Error::NotRootLeader,
            self@.installed ==> {
                let s = self@.store;
                let m = r.unwrap();
                &&& r.is_ok()
                &&& m.balanced == (deficits(s.groups, want).len() == 0)
                &&& m.nodes@.len() == s.nodes.len()
                &&& forall|i: int|
                    0 <= i < s.nodes.len() ==> (#[trigger] m.nodes@[i]).id == s.nodes[i].id
                        && m.nodes@[i].addr@ == s.nodes[i].addr && m.nodes@[i].replicas@
                        == node_replicas(s.groups, s.states, s.nodes[i].id)
                &&& m.databases@.len() == s.databases.len()
                &&& forall|i: int|
                    0 <= i < s.databases.len() ==> (#[trigger] m.databases@[i]).id == s.databases[i].id
                        && m.databases@[i].name@ == s.databases[i].name
                        && m.databases@[i].collections@.len() == collections_in(
                        s.collections,
                        s.databases[i].id,
                    ).len() && (forall|k: int|
                        0 <= k < m.databases@[i].collections@.len() ==> collection_row(
                            #[trigger] m.databases@[i].collections@[k],
                            collections_in(s.collections, s.databases[i].id)[k],
                        ))
                &&& m.groups@.len() == s.groups.len()
                &&& forall|i: int|
                    0 <= i < s.groups.len() ==> (#[trigger] m.groups@[i]).id == s.groups[i].id
                        && m.groups@[i].epoch == s.groups[i].epoch && m.groups@[i].replicas@
                        == s.groups[i].replicas.map_values(|x: ReplicaDesc| group_replica_of(s.states, x))
                        && m.groups@[i].shards@.len() == s.groups[i].shards.len() && (forall|k: int|
                        0 <= k < s.groups[i].shards.len() ==> shard_row(
                            #[trigger] m.groups@[i].shards@[k],
                            s.groups[i].shards[k],
                        ))
            },
    {
        if !self.installed {
            return Err(Error::NotRootLeader);
        }
        let plan = match self.reconcile_plan(want) {
            Ok(p) => p,
            Err(e) => return Err(e),
        };
        let balanced = plan.len() == 0;
        let nodes = self.store.list_node();
        let dbs = self.store.list_database();
        let cols = self.store.list_collection_all();
        let groups = self.store.list_group();
        let states = self.store.list_replica_state();
        let m = metadata_of(&nodes, &dbs, &cols, &groups, &states, balanced);
        proof {
            let s = self@.store;
            assert forall|i: int| 0 <= i < s.nodes.len() implies #[trigger] nodes@[i]@ == s.nodes[i] by {
                assert(nodes@.map_values(|n: NodeDesc| n@)[i] == nodes@[i]@);
            }
            assert forall|i: int| 0 <= i < s.databases.len() implies #[trigger] dbs@[i]@ == s.databases[i] by {
                assert(dbs@.map_values(|d: DatabaseDesc| d@)[i] == dbs@[i]@);
            }
            assert forall|i: int| 0 <= i < s.groups.len() implies #[trigger] groups@[i]@ == s.groups[i] by {
                assert(groups@.map_values(|g: GroupDesc| g@)[i] == groups@[i]@);
            }
        }
        Ok(m)
    }

    /// One reconciliation pass's decision: each group with fewer than `want` replicas and
    /// how many more it needs. The cluster is balanced when the list is empty.
    pub fn reconcile_plan(&self, want: u64) -> (r: Result<Vec<(u64, u64)>, Error>)
        ensures
            !self@.installed ==> r.is_err() && r.unwrap_err() == Error::NotRootLeader,
            self@.installed ==> r.is_ok() && r.unwrap()@ == deficits(self@.store.groups, want),
    {
        if !self.installed {
            return Err(Error::NotRootLeader);
        }
        let groups = self.store.list_group();
        let ghost gv = groups@.map_values(|g: GroupDesc| g@);
        let mut r: Vec<(u64, u64)> = Vec::new();
        let mut i: usize = 0;
        while i < groups.len()
            invariant
                i <= groups.len(),
                gv == groups@.map_values(|g: GroupDesc| g@),
                r@ == deficits(gv.take(i as int), want),
            decreases groups.len() - i,
        {
            assert(gv.take(i + 1).drop_last() =~= gv.take(i as int));
            assert(gv.take(i + 1).last() == groups@[i as int]@);
            let have = groups[i].replicas.len();
            if (have as u64) < want {
                r.push((groups[i].id, want - have as u64));
            }
            i = i + 1;
        }
        assert(gv.take(groups.len() as int) =~= gv);
        Ok(r)
    }

    /// Registers a node that joins the cluster and tells the watchers. Returns the
    /// cluster's id, the node's descriptor, and the root-capable nodes with the new node
    /// moved to the front when it is one of them.
    pub fn join(&mut self, addr: String, capacity: NodeCapacity) -> (r: Result<
        (Vec<u8>, NodeDesc, RootDesc),
        Error,
    >)
        requires
            old(self).wf(),
        ensures
            final(self).wf(),
            !old(self)@.installed ==> r == Err::<(Vec<u8>, NodeDesc, RootDesc), Error>(
                Error::NotRootLeader,
            ) && final(self)@ == old(self)@,
            old(self)@.installed && old(self)@.store.next_id == u64::MAX ==> r == Err::<
                (Vec<u8>, NodeDesc, RootDesc),
                Error,
            >(Error::IdExhausted) && final(self)@ == old(self)@,
            old(self)@.installed && old(self)@.store.next_id < u64::MAX ==> {
                let s = old(self)@.store;
                let n = NodeView { id: s.next_id, addr: addr@, capacity: Some(capacity) };
                &&& r.is_ok()
                &&& r.unwrap().0@ == s.cluster_id
                &&& r.unwrap().1@ == n
                &&& node_views(r.unwrap().2.root_nodes@) == s.root_nodes
                &&& final(self)@ == (RootView {
                    store: SchemaView { nodes: s.nodes.push(n), next_id: (s.next_id + 1) as u64, ..s },
                    hub: broadcast(
                        old(self)@.hub,
                        ResponseView { updates: seq![UpdateView::Node(n)], deletes: Seq::empty() },
                    ),
                    ..old(self)@
                })
            },
    {
        if !self.installed {
            return Err(Error::NotRootLeader);
        }
        let node = match self.store.add_node(addr, Some(capacity)) {
            Ok(n) => n,
            Err(e) => return Err(e),
        };
        let mut events: Vec<UpdateEvent> = Vec::new();
        events.push(UpdateEvent::Node(node.clone()));
        assert(update_views(events@) =~= seq![UpdateView::Node(node@)]);
        self.hub.notify_updates(events);
        let cluster_id = self.store.cluster_id();
        let roots = self.store.root_nodes();
        proof {
            assert forall|i: int| 0 <= i < roots@.len() implies roots@[i]@ == old(self)@.store.root_nodes[i] by {
                assert(roots@.map_values(|n: NodeDesc| n@)[i] == roots@[i]@);
            }
        }
        let root_nodes = move_first(&roots, node.id);
        proof {
            assert forall|i: int| 0 <= i < roots@.len() implies roots@[i].id != node.id by {
                assert(roots@[i]@ == old(self)@.store.root_nodes[i]);
            }
            assert(node_views(roots@) =~= old(self)@.store.root_nodes);
        }
        Ok((cluster_id, node, RootDesc { root_nodes }))
    }

    /// Mints replica descriptors for group `group_id` on the nodes the allocator chose,
    /// one voter per node, with fresh ids. The group itself is not changed: the result is
    /// advice for a membership change.
    pub fn alloc_replica(&mut self, group_id: u64, nodes: &Vec<u64>) -> (r: Result<Vec<ReplicaDesc>, Error>)
        requires
            old(self).wf(),
        ensures
            final(self).wf(),
            !old(self)@.installed ==> r == Err::<Vec<ReplicaDesc>, Error>(Error::NotRootLeader)
                && final(self)@ == old(self)@,
            old(self)@.installed && !has_group(old(self)@.store, group_id) ==> r == Err::<
                Vec<ReplicaDesc>,
                Error,
            >(Error::GroupNotFound(group_id)) && final(self)@ == old(self)@,
            old(self)@.installed && has_group(old(self)@.store, group_id) && nodes.len()
                > u64::MAX - old(self)@.store.next_id ==> r == Err::<Vec<ReplicaDesc>, Error>(
                Error::IdExhausted,
            ) && final(self)@ == old(self)@,
            old(self)@.installed && has_group(old(self)@.store, group_id) && nodes.len() <= u64::MAX
                - old(self)@.store.next_id ==> {
                let first = old(self)@.store.next_id;
                &&& r.is_ok()
                &&& r.unwrap()@.len() == nodes.len()
                &&& forall|k: int|
                    0 <= k < nodes.len() ==> #[trigger] r.unwrap()@[k] == (ReplicaDesc {
                        id: (first + k) as u64,
                        node_id: nodes@[k],
                        role: REPLICA_ROLE_VOTER,
                    })
                &&& final(self)@ == (RootView {
                    store: SchemaView {
                        next_id: (first + nodes.len()) as u64,
                        ..old(self)@.store
                    },
                    ..old(self)@
                })
            },
    {
        if !self.installed {
            return Err(Error::NotRootLeader);
        }
        if self.store.get_group(group_id).is_none() {
            return Err(Error::GroupNotFound(group_id));
        }
        let first = match self.store.reserve_ids(nodes.len() as u64) {
            Ok(f) => f,
            Err(e) => return Err(e),
        };
        let mut replicas: Vec<ReplicaDesc> = Vec::new();
        let mut k: usize = 0;
        while k < nodes.len()
            invariant
                k <= nodes.len(),
                nodes.len() <= u64::MAX - first,
                replicas@.len() == k,
                forall|m: int|
                    0 <= m < k ==> #[trigger] replicas@[m] == (ReplicaDesc {
                        id: (first + m) as u64,
                        node_id: nodes@[m],
                        role: REPLICA_ROLE_VOTER,
                    }),
            decreases nodes.len() - k,
        {
            replicas.push(ReplicaDesc { id: first + k as u64, node_id: nodes[k], role: REPLICA_ROLE_VOTER });
            k = k + 1;
        }
        Ok(replicas)
    }

    /// Plans a new group on the given nodes: a fresh group id at the initial epoch, with
    /// no shards and one voter with a fresh id on each node, and the replica that each
    /// node is to create. The group is recorded once its replicas report it.
    pub fn create_group(&mut self, nodes: &Vec<NodeDesc>) -> (r: Result<GroupPlan, Error>)
        requires
            old(self).wf(),
        ensures
            final(self).wf(),
            !old(self)@.installed ==> (r matches Err(Error::NotRootLeader)) && final(self)@ == old(self)@,
            old(self)@.installed && nodes.len() >= u64::MAX - old(self)@.store.next_id ==> (r matches Err(
                Error::IdExhausted,
            )) && final(self)@ == old(self)@,
            old(self)@.installed && nodes.len() < u64::MAX - old(self)@.store.next_id ==> {
                let first = old(self)@.store.next_id;
                let p = r.unwrap();
                &&& r.is_ok()
                &&& p.group@.id == first
                &&& p.group@.epoch == INITIAL_EPOCH
                &&& p.group@.shards.len() == 0
                &&& p.group@.replicas.len() == nodes.len()
                &&& p.creations@.len() == nodes.len()
                &&& forall|k: int|
                    0 <= k < nodes.len() ==> #[trigger] p.group@.replicas[k] == (ReplicaDesc {
                        id: (first + 1 + k) as u64,
                        node_id: nodes@[k].id,
                        role: REPLICA_ROLE_VOTER,
                    }) && p.creations@[k].addr@ == nodes@[k].addr@ && p.creations@[k].replica_id == (
                    first + 1 + k) as u64
                &&& final(self)@ == (RootView {
                    store: SchemaView { next_id: (first + 1 + nodes.len()) as u64, ..old(self)@.store },
                    ..old(self)@
                })
            },
    {
        if !self.installed {
            return Err(Error::NotRootLeader);
        }
        if nodes.len() as u64 == u64::MAX {
            return Err(Error::IdExhausted);
        }
        let group_id = match self.store.reserve_ids(nodes.len() as u64 + 1) {
            Ok(f) => f,
            Err(e) => return Err(e),
        };
        let first = group_id + 1;
        let mut replicas: Vec<ReplicaDesc> = Vec::new();
        let mut creations: Vec<ReplicaCreation> = Vec::new();
        let mut k: usize = 0;
        while k < nodes.len()
            invariant
                k <= nodes.len(),
                nodes.len() <= u64::MAX - first,
                replicas@.len() == k,
                creations@.len() == k,
                forall|m: int|
                    0 <= m < k ==> #[trigger] replicas@[m] == (ReplicaDesc {
                        id: (first + m) as u64,
                        node_id: nodes@[m].id,
                        role: REPLICA_ROLE_VOTER,
                    }) && creations@[m].addr@ == nodes@[m].addr@ && creations@[m].replica_id == (first
                        + m) as u64,
            decreases nodes.len() - k,
        {
            let id = first + k as u64;
            replicas.push(ReplicaDesc { id, node_id: nodes[k].id, role: REPLICA_ROLE_VOTER });
            creations.push(ReplicaCreation { addr: nodes[k].addr.clone(), replica_id: id });
            k = k + 1;
        }
        let group = GroupDesc { id: group_id, epoch: INITIAL_EPOCH, shards: Vec::new(), replicas };
        Ok(GroupPlan { group, creations })
    }

    /// Mints the shards of a new collection, places them round robin on the candidate
    /// groups, and appends each group's share to it, group by group. A write that fails
    /// ends the creation; the groups written before keep their shares.
    fn create_collection_shard(&mut self, col: &CollectionDesc, cands: &Vec<u64>) -> (r: Result<(), Error>)
        requires
            old(self).wf(),
        ensures
            final(self).wf(),
            final(self)@.installed == old(self)@.installed,
            final(self)@.hub == old(self)@.hub,
            final(self)@.node_id == old(self)@.node_id,
            final(self)@.bootstrapped == old(self)@.bootstrapped,
            final(self)@.store.collections == old(self)@.store.collections,
            final(self)@.store.databases == old(self)@.store.databases,
            cands.len() == 0 ==> r == Err::<(), Error>(Error::NoAvailableGroup) && final(self)@ == old(self)@,
            r.is_ok() ==> cands.len() > 0 && final(self)@ == (RootView {
                store: SchemaView {
                    groups: placed(
                        old(self)@.store.groups,
                        new_shards(col.id, col.partition, old(self)@.store.next_id),
                        cands@,
                    ),
                    next_id: (old(self)@.store.next_id + partition_count(col.partition)) as u64,
                    ..old(self)@.store
                },
                ..old(self)@
            }),
            r matches Err(Error::GroupNotFound(g)) ==> is_target(cands@, partition_count(col.partition), g)
                && !has_group(old(self)@.store, g),
            r.is_err() ==> partly_placed(
                old(self)@.store,
                final(self)@.store,
                new_shards(col.id, col.partition, old(self)@.store.next_id),
                cands@,
            ),
            cands.len() > 0 && partition_count(col.partition) <= u64::MAX - old(self)@.store.next_id
                && (forall|g: u64| is_target(cands@, partition_count(col.partition), g) ==> has_group(
                old(self)@.store,
                g,
            )) ==> r.is_ok(),
    {
        let parts = expand_partitions(col.partition);
        assert(parts@.len() == partition_views(parts@).len());
        if cands.len() == 0 {
            return Err(Error::NoAvailableGroup);
        }
        let first = match self.store.reserve_ids(parts.len() as u64) {
            Ok(f) => f,
            Err(e) => return Err(e),
        };
        let ghost sv = new_shards(col.id, col.partition, first);
        let mut shards: Vec<ShardDesc> = Vec::new();
        let mut k: usize = 0;
        while k < parts.len()
            invariant
                k <= parts.len(),
                parts.len() <= u64::MAX - first,
                partition_views(parts@) == crate::placement::expanded(col.partition),
                sv == new_shards(col.id, col.partition, first),
                sv.len() == parts@.len(),
                shards@.len() == k,
                forall|m: int| 0 <= m < k ==> (#[trigger] shards@[m])@ == sv[m],
            decreases parts.len() - k,
        {
            assert(partition_views(parts@)[k as int] == parts@[k as int]@);
            let p = parts[k].clone();
            let ghost prev = shards@;
            shards.push(ShardDesc { id: first + k as u64, collection_id: col.id, partition: p });
            assert(shards@[k as int]@ == sv[k as int]);
            assert forall|m: int| 0 <= m < k + 1 implies (#[trigger] shards@[m])@ == sv[m] by {
                if m < k {
                    assert(shards@[m] == prev[m]);
                }
            }
            k = k + 1;
        }
        assert(shard_views(shards@) =~= sv);
        let batches = batch_shards(&shards, cands);
        let ghost n = shards@.len();
        let ghost mid = self.store@;
        let ghost og = mid.groups;
        assert(written(og, sv, cands@, batches@, 0) =~= og) by {
            assert forall|i: int| 0 <= i < og.len() implies !has_batch(batches@.take(0), #[trigger] og[i].id) by {}
        }
        let mut b: usize = 0;
        while b < batches.len()
            invariant
                b <= batches.len(),
                schema_wf(self.store@),
                self.bootstrapped ==> self.store@.bootstrapped,
                self@ == (RootView { store: self@.store, ..old(self)@ }),
                schema_wf(mid),
                og == mid.groups,
                og == old(self)@.store.groups,
                sv == new_shards(col.id, col.partition, old(self)@.store.next_id),
                n == partition_count(col.partition),
                mid == (SchemaView { next_id: mid.next_id, ..old(self)@.store }),
                n == sv.len(),
                shard_views(shards@) == sv,
                cands.len() > 0,
                forall|a: int, c: int| 0 <= a < c < batches@.len() ==> batches@[a].group_id != batches@[c].group_id,
                forall|g: u64|
                    #![trigger has_batch(batches@, g)]
                    #![trigger is_target(cands@, n, g)]
                    has_batch(batches@, g) <==> is_target(cands@, n, g),
                forall|m: int|
                    0 <= m < batches@.len() ==> shard_views(#[trigger] batches@[m].shards@) == assigned(
                        sv,
                        cands@,
                        batches@[m].group_id,
                        n,
                    ),
                self.store@ == (SchemaView { groups: written(og, sv, cands@, batches@, b as int), ..mid }),
            decreases batches.len() - b,
        {
            let g = batches[b].group_id;
            let group_shards = crate::types::copy_shards(&batches[b].shards);
            let ghost pre = self.store@;
            proof {
                assert forall|i: int| 0 <= i < og.len() implies #[trigger] pre.groups[i].id == og[i].id by {}
                assert(has_group(pre, g) == has_group(mid, g)) by {
                    if has_group(mid, g) {
                        let i = choose|i: int| 0 <= i < mid.groups.len() && mid.groups[i].id == g;
                        assert(pre.groups[i].id == g);
                    }
                    if has_group(pre, g) {
                        let i = choose|i: int| 0 <= i < pre.groups.len() && pre.groups[i].id == g;
                        assert(og[i].id == g);
                    }
                }
            }
            match self.store.create_shards(g, group_shards) {
                Ok(()) => {},
                Err(e) => {
                    proof {
                        assert forall|i: int| 0 <= i < og.len() implies #[trigger] self.store@.groups[i] == og[i]
                            || self.store@.groups[i] == placed(og, sv, cands@)[i] by {
                            if has_batch(batches@.take(b as int), og[i].id) {
                                let m = choose|m: int| 0 <= m < batches@.take(b as int).len() && (#[trigger] batches@.take(b as int)[m]).group_id == og[i].id;
                                assert(batches@[m].group_id == og[i].id);
                                assert(has_batch(batches@, og[i].id));
                            }
                        }
                        assert(self.store@ == (SchemaView { groups: self.store@.groups, next_id: self.store@.next_id, ..old(self)@.store }));
                        assert(batches@[b as int].group_id == g);
                        assert(has_batch(batches@, g));
                        assert(is_target(cands@, n, g));
                        assert(!has_group(pre, g));
                        assert(mid.groups == old(self)@.store.groups);
                        assert(!has_group(old(self)@.store, g));
                    }
                    return Err(e);
                },
            }
            proof {
                let i0 = crate::schema::group_index(pre, g);
                assert(!has_batch(batches@.take(b as int), g)) by {
                    if has_batch(batches@.take(b as int), g) {
                        let m = choose|m: int| 0 <= m < batches@.take(b as int).len() && (#[trigger] batches@.take(b as int)[m]).group_id == g;
                        assert(batches@[m].group_id != batches@[b as int].group_id);
                    }
                }
                assert(self.store@.groups =~= written(og, sv, cands@, batches@, b + 1)) by {
                    assert forall|i: int| 0 <= i < og.len() implies self.store@.groups[i] == written(og, sv, cands@, batches@, b + 1)[i] by {
                        let id = og[i].id;
                        if i == i0 {
                            assert(has_batch(batches@.take(b + 1), id)) by {
                                assert(batches@.take(b + 1)[b as int].group_id == g);
                            }
                        } else {
                            assert(pre.groups[i0].id == g);
                            assert(id != g) by {
                                if i < i0 {
                                    assert(mid.groups[i].id != mid.groups[i0].id);
                                } else {
                                    assert(mid.groups[i0].id != mid.groups[i].id);
                                }
                            }
                            assert(has_batch(batches@.take(b + 1), id) == has_batch(batches@.take(b as int), id)) by {
                                if has_batch(batches@.take(b + 1), id) {
                                    let m = choose|m: int| 0 <= m < batches@.take(b + 1).len() && (#[trigger] batches@.take(b + 1)[m]).group_id == id;
                                    assert(m < b);
                                    assert(batches@.take(b as int)[m].group_id == id);
                                }
                                if has_batch(batches@.take(b as int), id) {
                                    let m = choose|m: int| 0 <= m < batches@.take(b as int).len() && (#[trigger] batches@.take(b as int)[m]).group_id == id;
                                    assert(batches@.take(b + 1)[m].group_id == id);
                                }
                            }
                        }
                    }
                }
            }
            b = b + 1;
        }
        proof {
            assert(batches@.take(batches@.len() as int) =~= batches@);
            assert(written(og, sv, cands@, batches@, batches@.len() as int) =~= placed(og, sv, cands@)) by {
                assert forall|i: int| 0 <= i < og.len() implies has_batch(batches@.take(batches@.len() as int), #[trigger] og[i].id) == is_target(cands@, n, og[i].id) by {
                    assert(has_batch(batches@, og[i].id) == is_target(cands@, n, og[i].id));
                }
            }
        }
        Ok(())
    }

    /// Creates a collection in the named database, places its shards on the candidate
    /// groups the allocator offered, and tells the watchers once all of it succeeded.
    pub fn create_collection(
        &mut self,
        name: String,
        database: String,
        partition: Option<CollectionPartition>,
        cands: &Vec<u64>,
    ) -> (r: Result<CollectionDesc, Error>)
        requires
            old(self).wf(),
        ensures
            final(self).wf(),
            !old(self)@.installed ==> r == Err::<CollectionDesc, Error>(Error::NotRootLeader)
                && final(self)@ == old(self)@,
            old(self)@.installed && !has_database(old(self)@.store, database@) ==> (r matches Err(
                Error::DatabaseNotFound(n),
            ) && n@ == database@) && final(self)@ == old(self)@,
            old(self)@.installed && has_database(old(self)@.store, database@) ==> {
                let s = old(self)@.store;
                let db = s.databases[crate::schema::database_index(s, database@)];
                let c = CollectionView { id: s.next_id, name: name@, db: db.id, partition };
                let first = (s.next_id + 1) as u64;
                &&& has_collection(s, db.id, name@) ==> (r matches Err(Error::CollectionExists(n))
                    && n@ == name@) && final(self)@ == old(self)@
                &&& !has_collection(s, db.id, name@) && s.next_id < u64::MAX && cands.len() == 0
                    ==> r == Err::<CollectionDesc, Error>(Error::NoAvailableGroup)
                &&& !has_collection(s, db.id, name@) && s.next_id < u64::MAX && cands.len() > 0
                    && partition_count(partition) <= u64::MAX - first && (forall|g: u64|
                    is_target(cands@, partition_count(partition), g) ==> has_group(s, g)) ==> r.is_ok()
                &&& r.is_err() ==> final(self)@.hub == old(self)@.hub
                &&& r.is_err() && !has_collection(s, db.id, name@) && s.next_id < u64::MAX ==> {
                    let post = final(self)@.store;
                    let pre = SchemaView { collections: s.collections.push(c), next_id: first, ..s };
                    partly_placed(pre, post, new_shards(c.id, partition, first), cands@)
                }
                &&& r.is_ok() ==> r.unwrap()@ == c && final(self)@ == (RootView {
                    store: SchemaView {
                        collections: s.collections.push(c),
                        groups: placed(s.groups, new_shards(c.id, partition, first), cands@),
                        next_id: (first + partition_count(partition)) as u64,
                        ..s
                    },
                    hub: broadcast(
                        old(self)@.hub,
                        ResponseView { updates: seq![UpdateView::Collection(c)], deletes: Seq::empty() },
                    ),
                    ..old(self)@
                })
            },
    {
        if !self.installed {
            return Err(Error::NotRootLeader);
        }
        let db = match self.store.get_database(&database) {
            Some(d) => d,
            None => return Err(Error::DatabaseNotFound(database)),
        };
        let collection = match self.store.create_collection(name, db.id, partition) {
            Ok(c) => c,
            Err(e) => return Err(e),
        };
        let ghost s1 = self@.store;
        proof {
            let s = old(self)@.store;
            assert(s1.groups == s.groups);
            assert forall|g: u64| has_group(s, g) implies has_group(s1, g) by {}
        }
        match self.create_collection_shard(&collection, cands) {
            Ok(()) => {},
            Err(e) => return Err(e),
        }
        let mut events: Vec<UpdateEvent> = Vec::new();
        events.push(UpdateEvent::Collection(collection.clone()));
        assert(update_views(events@) =~= seq![UpdateView::Collection(collection@)]);
        self.hub.notify_updates(events);
        Ok(collection)
    }

    /// Writes a node's report, update by update, then broadcasts one batch: each reported
    /// group descriptor, then the current state of each group whose replica state changed.
    pub fn report(&mut self, updates: Vec<GroupUpdates>) -> (r: Result<(), Error>)
        requires
            old(self).wf(),
        ensures
            final(self).wf(),
            !old(self)@.installed ==> r == Err::<(), Error>(Error::NotRootLeader) && final(self)@
                == old(self)@,
            old(self)@.installed ==> {
                let s = apply_report(old(self)@.store, updates_views(updates@));
                &&& r.is_ok()
                &&& final(self)@ == (RootView {
                    store: s,
                    hub: broadcast(
                        old(self)@.hub,
                        ResponseView {
                            updates: report_events(s, updates_views(updates@)),
                            deletes: Seq::empty(),
                        },
                    ),
                    ..old(self)@
                })
            },
    {
        if !self.installed {
            return Err(Error::NotRootLeader);
        }
        let ghost uv = updates_views(updates@);
        let mut events: Vec<UpdateEvent> = Vec::new();
        let mut changed: Vec<u64> = Vec::new();
        let mut i: usize = 0;
        while i < updates.len()
            invariant
                i <= updates.len(),
                uv == updates_views(updates@),
                schema_wf(self.store@),
                self.bootstrapped ==> self.store@.bootstrapped,
                self@ == (RootView { store: self@.store, ..old(self)@ }),
                self.store@ == apply_report(old(self)@.store, uv.take(i as int)),
                update_views(events@) == report_descs(uv.take(i as int)),
                changed@ == changed_groups(uv.take(i as int)),
            decreases updates.len() - i,
        {
            assert(uv.take(i + 1).drop_last() =~= uv.take(i as int));
            assert(uv.take(i + 1).last() == updates@[i as int]@);
            let desc = match &updates[i].group_desc {
                Some(g) => Some(g.clone()),
                None => None,
            };
            let state = updates[i].replica_state;
            self.store.update_group_replica(desc, state);
            if let Some(g) = &updates[i].group_desc {
                let ghost prev = events@;
                events.push(UpdateEvent::Group(g.clone()));
                assert(update_views(events@) =~= update_views(prev).push(UpdateView::Group(g@)));
            }
            if let Some(st) = updates[i].replica_state {
                let mut seen = false;
                let mut k: usize = 0;
                while k < changed.len()
                    invariant
                        k <= changed.len(),
                        seen <==> exists|m: int| 0 <= m < k && changed@[m] == st.group_id,
                    decreases changed.len() - k,
                {
                    if changed[k] == st.group_id {
                        seen = true;
                    }
                    k = k + 1;
                }
                if !seen {
                    changed.push(st.group_id);
                }
            }
            i = i + 1;
        }
        assert(uv.take(updates.len() as int) =~= uv);
        let ghost descs = events@;
        let mut k: usize = 0;
        while k < changed.len()
            invariant
                k <= changed.len(),
                self@ == (RootView { store: apply_report(old(self)@.store, uv), ..old(self)@ }),
                changed@ == changed_groups(uv),
                update_views(events@) == report_descs(uv) + changed@.take(k as int).map_values(
                    |g: u64| UpdateView::GroupState(GroupStateView { group_id: g, replicas: states_of(self@.store.states, g) }),
                ),
            decreases changed.len() - k,
        {
            let ghost prev = events@;
            let gs = self.store.group_state(changed[k]);
            events.push(UpdateEvent::GroupState(gs));
            assert(changed@.take(k + 1) =~= changed@.take(k as int).push(changed@[k as int]));
            assert(update_views(events@) =~= update_views(prev).push(UpdateView::GroupState(GroupStateView {
                group_id: changed@[k as int],
                replicas: states_of(self@.store.states, changed@[k as int]),
            })));
            k = k + 1;
        }
        assert(changed@.take(changed.len() as int) =~= changed@);
        self.hub.notify_updates(events);
        Ok(())
    }
}

} // verus!
