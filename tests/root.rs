use engula_root::error::Error;
use engula_root::root::{move_first, CycleAction, CycleEvent, GroupUpdates, Root};
use engula_root::types::{
    CollectionPartition, DatabaseDesc, GroupDesc, NodeCapacity, NodeDesc, ReplicaState,
    ShardPartition,
};
use engula_root::watch::{DeleteEvent, UpdateEvent, WatchResponse};

fn create_root(node_id: u64) -> Root {
    Root::new(node_id, vec![], "0.0.0.0:8888".to_string())
}

fn leading_root() -> Root {
    let mut root = create_root(1);
    root.take_leadership();
    root
}

fn database_event(resp: &WatchResponse, i: usize) -> (u64, String) {
    match &resp.updates[i] {
        UpdateEvent::Database(d) => (d.id, d.name.clone()),
        other => panic!("unexpected event {:?}", other),
    }
}

fn root_group_id(root: &Root) -> u64 {
    root.schema().unwrap().list_group()[0].id
}

#[test]
fn boostrap_root() {
    let mut root = create_root(1);
    assert!(!root.is_root());
    root.take_leadership();
    assert!(root.is_root());
    assert_eq!(root.current_node_id(), 1);
    let schema = root.schema().unwrap();
    let nodes = schema.list_node();
    assert_eq!(nodes.len(), 1);
    assert_eq!(nodes[0].addr, "0.0.0.0:8888");
    let groups = schema.list_group();
    assert_eq!(groups.len(), 1);
    assert_eq!(groups[0].replicas.len(), 1);
    assert_eq!(groups[0].replicas[0].node_id, nodes[0].id);
}

#[test]
fn watch_hub() {
    let mut root = create_root(1);
    let (w, initializer) = root.create_watcher();
    root.set_init_resp(
        initializer,
        vec![UpdateEvent::Database(DatabaseDesc { id: 1, name: "db1".into() })],
        vec![],
    );
    let resp1 = root.next_response(&w).unwrap();
    assert_eq!(database_event(&resp1, 0), (1, "db1".to_string()));

    let (w2, _) = root.create_watcher();

    root.notify_updates(vec![UpdateEvent::Database(DatabaseDesc { id: 2, name: "db2".into() })]);
    let resp2 = root.next_response(&w).unwrap();
    assert_eq!(database_event(&resp2, 0), (2, "db2".to_string()));
    let resp22 = root.next_response(&w2).unwrap();
    assert_eq!(database_event(&resp22, 0), (2, "db2".to_string()));
}

#[test]
fn calls_fail_while_not_leading() {
    let mut root = create_root(1);
    assert!(matches!(root.schema(), Err(Error::NotRootLeader)));
    assert_eq!(root.create_database("db1".into()).unwrap_err(), Error::NotRootLeader);
    assert_eq!(root.delete_database(&"db1".to_string()).unwrap_err(), Error::NotRootLeader);
    assert_eq!(root.list_database().unwrap_err(), Error::NotRootLeader);
    assert_eq!(root.report(vec![]).unwrap_err(), Error::NotRootLeader);
    assert_eq!(root.alloc_replica(1, &vec![1]).unwrap_err(), Error::NotRootLeader);
    assert!(root.watch(&vec![]).is_err());
    root.take_leadership();
    assert!(root.schema().is_ok());
    assert_eq!(root.create_database("db1".into()).unwrap().name, "db1");
    root.lose_leadership();
    assert!(!root.is_root());
    assert_eq!(root.create_database("db2".into()).unwrap_err(), Error::NotRootLeader);
}

#[test]
fn bootstrap_runs_once_per_process() {
    let mut root = leading_root();
    let nodes = root.schema().unwrap().list_node().len();
    let groups = root.schema().unwrap().list_group().len();
    root.lose_leadership();
    root.take_leadership();
    assert_eq!(root.schema().unwrap().list_node().len(), nodes);
    assert_eq!(root.schema().unwrap().list_group().len(), groups);
    assert_eq!(nodes, 1);
    assert_eq!(groups, 1);
}

#[test]
fn create_and_get_database() {
    let mut root = leading_root();
    let d = root.create_database("db1".into()).unwrap();
    assert_eq!(d.name, "db1");
    assert_eq!(d.id, 4);
    let got = root.get_database(&"db1".to_string()).unwrap().unwrap();
    assert_eq!(got.id, d.id);
    assert!(root.get_database(&"nope".to_string()).unwrap().is_none());
    assert_eq!(root.list_database().unwrap().len(), 1);
    assert_eq!(
        root.create_database("db1".into()).unwrap_err(),
        Error::DatabaseExists("db1".into())
    );
}

#[test]
fn end_to_end_collection_lifecycle() {
    let mut root = leading_root();
    let (w, init) = root.create_watcher();
    root.set_init_resp(init, vec![], vec![]);
    let _ = root.next_response(&w).unwrap();

    let db = root.create_database("db1".into()).unwrap();
    assert_eq!(db.name, "db1");
    let g = root_group_id(&root);
    let c = root
        .create_collection(
            "c1".into(),
            "db1".into(),
            Some(CollectionPartition::Hash { slots: 4 }),
            &vec![g],
        )
        .unwrap();
    assert_eq!(c.db, db.id);
    let groups = root.schema().unwrap().list_group();
    assert_eq!(groups[0].shards.len(), 4);
    for (i, s) in groups[0].shards.iter().enumerate() {
        assert_eq!(s.collection_id, c.id);
        match s.partition {
            ShardPartition::Hash { slot_id, slots } => {
                assert_eq!(slot_id as usize, i);
                assert_eq!(slots, 4);
            }
            _ => panic!("expected a hash partition"),
        }
    }

    let r1 = root.next_response(&w).unwrap();
    assert!(matches!(r1.updates[0], UpdateEvent::Database(_)));
    let r2 = root.next_response(&w).unwrap();
    assert_eq!(r2.updates.len(), 1);
    assert!(matches!(&r2.updates[0], UpdateEvent::Collection(col) if col.name == "c1"));
    assert!(root.next_response(&w).is_none());

    assert_eq!(
        root.delete_database(&"db1".to_string()).unwrap_err(),
        Error::DatabaseNotEmpty("db1".into())
    );
    root.delete_collection(&"c1".to_string(), &"db1".to_string()).unwrap();
    let r3 = root.next_response(&w).unwrap();
    assert_eq!(r3.deletes, vec![DeleteEvent::Collection(c.id)]);
    root.delete_database(&"db1".to_string()).unwrap();
    let r4 = root.next_response(&w).unwrap();
    assert_eq!(r4.deletes, vec![DeleteEvent::Database(db.id)]);
}

#[test]
fn create_collection_errors() {
    let mut root = leading_root();
    let g = root_group_id(&root);
    assert_eq!(
        root.create_collection("c1".into(), "db1".into(), None, &vec![g]).unwrap_err(),
        Error::DatabaseNotFound("db1".into())
    );
    root.create_database("db1".into()).unwrap();
    assert_eq!(
        root.create_collection("c1".into(), "db1".into(), None, &vec![]).unwrap_err(),
        Error::NoAvailableGroup
    );
    assert_eq!(
        root.create_collection("c1".into(), "db1".into(), None, &vec![g]).unwrap_err(),
        Error::CollectionExists("c1".into())
    );
    assert_eq!(
        root.create_collection("c2".into(), "db1".into(), None, &vec![999]).unwrap_err(),
        Error::GroupNotFound(999)
    );
}

#[test]
fn range_collection_has_one_full_shard() {
    let mut root = leading_root();
    root.create_database("db1".into()).unwrap();
    let g = root_group_id(&root);
    root.create_collection("r".into(), "db1".into(), Some(CollectionPartition::Range), &vec![g])
        .unwrap();
    let groups = root.schema().unwrap().list_group();
    assert_eq!(groups[0].shards.len(), 1);
    match &groups[0].shards[0].partition {
        ShardPartition::Range { start, end } => {
            assert!(start.is_empty());
            assert!(end.is_empty());
        }
        _ => panic!("expected a range partition"),
    }
    let cols = root.list_collection(&"db1".to_string()).unwrap();
    assert_eq!(cols.len(), 1);
    assert!(root.get_collection(&"r".to_string(), &"db1".to_string()).unwrap().is_some());
    assert!(root.get_collection(&"x".to_string(), &"db1".to_string()).unwrap().is_none());
    assert_eq!(
        root.list_collection(&"nope".to_string()).unwrap_err(),
        Error::DatabaseNotFound("nope".into())
    );
}

#[test]
fn later_watcher_gets_state_in_snapshot_only() {
    let mut root = leading_root();
    let (early, init) = root.create_watcher();
    root.set_init_resp(init, vec![], vec![]);
    root.create_database("db1".into()).unwrap();
    let late = root.watch(&vec![]).unwrap();

    let _ = root.next_response(&early).unwrap();
    let live = root.next_response(&early).unwrap();
    assert_eq!(database_event(&live, 0).1, "db1");
    assert!(root.next_response(&early).is_none());

    let snap = root.next_response(&late).unwrap();
    let dbs: Vec<_> = snap
        .updates
        .iter()
        .filter(|e| matches!(e, UpdateEvent::Database(_)))
        .collect();
    assert_eq!(dbs.len(), 1);
    assert!(root.next_response(&late).is_none());
}

#[test]
fn watch_catch_up_skips_current_groups() {
    let mut root = leading_root();
    let group = root.schema().unwrap().list_group()[0].clone();
    let w = root.watch(&vec![(group.id, group.epoch), (77, 1)]).unwrap();
    let snap = root.next_response(&w).unwrap();
    assert!(!snap.updates.iter().any(|e| matches!(e, UpdateEvent::Group(_))));
    assert_eq!(snap.deletes, vec![DeleteEvent::Group(77)]);
    let w2 = root.watch(&vec![(group.id, group.epoch + 1)]).unwrap();
    let snap2 = root.next_response(&w2).unwrap();
    assert_eq!(
        snap2.updates.iter().filter(|e| matches!(e, UpdateEvent::Group(_))).count(),
        1
    );
    assert!(snap2.deletes.is_empty());
}

fn state(replica_id: u64, group_id: u64, term: u64) -> ReplicaState {
    ReplicaState { replica_id, group_id, term, role: 2 }
}

#[test]
fn report_emits_one_state_event_per_changed_group() {
    let mut root = leading_root();
    let (w, init) = root.create_watcher();
    root.set_init_resp(init, vec![], vec![]);
    let _ = root.next_response(&w);
    let desc = GroupDesc { id: 5, epoch: 2, shards: vec![], replicas: vec![] };
    root.report(vec![
        GroupUpdates { group_desc: Some(desc), replica_state: Some(state(50, 5, 1)) },
        GroupUpdates { group_desc: None, replica_state: Some(state(51, 5, 1)) },
        GroupUpdates { group_desc: None, replica_state: Some(state(70, 7, 3)) },
    ])
    .unwrap();
    let resp = root.next_response(&w).unwrap();
    assert!(root.next_response(&w).is_none());
    let group_events: Vec<u64> = resp
        .updates
        .iter()
        .filter_map(|e| match e {
            UpdateEvent::Group(g) => Some(g.id),
            _ => None,
        })
        .collect();
    assert_eq!(group_events, vec![5]);
    let state_events: Vec<(u64, usize)> = resp
        .updates
        .iter()
        .filter_map(|e| match e {
            UpdateEvent::GroupState(s) => Some((s.group_id, s.replicas.len())),
            _ => None,
        })
        .collect();
    assert_eq!(state_events, vec![(5, 2), (7, 1)]);
    assert!(root.schema().unwrap().get_group(5).is_some());
}

#[test]
fn report_replaces_state_of_same_replica() {
    let mut root = leading_root();
    root.report(vec![GroupUpdates { group_desc: None, replica_state: Some(state(9, 3, 1)) }])
        .unwrap();
    root.report(vec![GroupUpdates { group_desc: None, replica_state: Some(state(9, 3, 4)) }])
        .unwrap();
    let states = root.schema().unwrap().list_replica_state();
    assert_eq!(states.len(), 1);
    assert_eq!(states[0].term, 4);
}

#[test]
fn alloc_replica_mints_voters() {
    let mut root = leading_root();
    let g = root_group_id(&root);
    let rs = root.alloc_replica(g, &vec![10, 11]).unwrap();
    assert_eq!(rs.len(), 2);
    assert_eq!(rs[0].node_id, 10);
    assert_eq!(rs[1].node_id, 11);
    assert_eq!(rs[1].id, rs[0].id + 1);
    assert_eq!(rs[0].role, engula_root::types::REPLICA_ROLE_VOTER);
    assert_eq!(root.alloc_replica(999, &vec![10]).unwrap_err(), Error::GroupNotFound(999));
}

#[test]
fn create_group_plans_replicas() {
    let mut root = leading_root();
    let nodes = vec![
        NodeDesc { id: 10, addr: "a:1".into(), capacity: None },
        NodeDesc { id: 11, addr: "b:1".into(), capacity: None },
    ];
    let plan = root.create_group(&nodes).unwrap();
    assert_eq!(plan.group.epoch, engula_root::schema::INITIAL_EPOCH);
    assert!(plan.group.shards.is_empty());
    assert_eq!(plan.group.replicas.len(), 2);
    assert_eq!(plan.creations.len(), 2);
    assert_eq!(plan.creations[1].addr, "b:1");
    assert_eq!(plan.creations[1].replica_id, plan.group.replicas[1].id);
    assert_eq!(plan.group.replicas[0].id, plan.group.id + 1);
}

#[test]
fn join_returns_cluster_and_roots() {
    let mut root = Root::new(1, vec![7, 7], "0.0.0.0:8888".into());
    root.take_leadership();
    let (cid, node, desc) = root
        .join("10.0.0.2:8888".into(), NodeCapacity { replica_count: 0, leader_count: 0 })
        .unwrap();
    assert_eq!(cid, vec![7, 7]);
    assert_eq!(node.addr, "10.0.0.2:8888");
    assert_eq!(desc.root_nodes.len(), 1);
    assert_eq!(desc.root_nodes[0].addr, "0.0.0.0:8888");
    assert_eq!(root.schema().unwrap().list_node().len(), 2);
}

#[test]
fn move_first_reorders() {
    let nodes = vec![
        NodeDesc { id: 1, addr: "a".into(), capacity: None },
        NodeDesc { id: 2, addr: "b".into(), capacity: None },
        NodeDesc { id: 3, addr: "c".into(), capacity: None },
    ];
    let ids: Vec<u64> = move_first(&nodes, 3).iter().map(|n| n.id).collect();
    assert_eq!(ids, vec![3, 1, 2]);
    let same: Vec<u64> = move_first(&nodes, 9).iter().map(|n| n.id).collect();
    assert_eq!(same, vec![1, 2, 3]);
}

#[test]
fn info_snapshot() {
    let mut root = leading_root();
    assert!(create_root(2).info(3).is_err());
    root.create_database("db1".into()).unwrap();
    let g = root_group_id(&root);
    root.create_collection("c1".into(), "db1".into(), None, &vec![g]).unwrap();
    root.report(vec![GroupUpdates { group_desc: None, replica_state: Some(state(3, g, 6)) }])
        .unwrap();
    let m = root.info(3).unwrap();
    assert!(!m.balanced);
    assert!(root.info(1).unwrap().balanced);
    assert_eq!(m.nodes.len(), 1);
    assert_eq!(m.nodes[0].replicas.len(), 1);
    assert_eq!(m.nodes[0].replicas[0].group, g);
    assert_eq!(m.databases.len(), 1);
    assert_eq!(m.databases[0].collections.len(), 1);
    assert_eq!(m.databases[0].collections[0].mode, CollectionPartition::Hash { slots: 1 });
    assert_eq!(m.groups.len(), 1);
    assert_eq!(m.groups[0].shards.len(), 1);
    let r = m.groups[0].replicas[0];
    assert_eq!((r.id, r.raft_role, r.term), (3, 2, 6));
}

#[test]
fn reconcile_plan_lists_short_groups() {
    let mut root = leading_root();
    assert_eq!(create_root(2).reconcile_plan(3).unwrap_err(), Error::NotRootLeader);
    let g = root_group_id(&root);
    assert_eq!(root.reconcile_plan(3).unwrap(), vec![(g, 2)]);
    assert!(root.reconcile_plan(1).unwrap().is_empty());
    let full = GroupDesc {
        id: 40,
        epoch: 1,
        shards: vec![],
        replicas: root.alloc_replica(g, &vec![1, 2, 3]).unwrap(),
    };
    root.report(vec![GroupUpdates { group_desc: Some(full), replica_state: None }]).unwrap();
    assert_eq!(root.reconcile_plan(3).unwrap(), vec![(g, 2)]);
}

#[test]
fn ids_are_fresh_and_increasing() {
    let mut root = leading_root();
    let a = root.create_database("a".into()).unwrap();
    let b = root.create_database("b".into()).unwrap();
    let g = root_group_id(&root);
    let c = root
        .create_collection("c".into(), "a".into(), Some(CollectionPartition::Hash { slots: 2 }), &vec![g])
        .unwrap();
    assert!(a.id < b.id && b.id < c.id);
    let shard_ids: Vec<u64> = root.schema().unwrap().list_group()[0].shards.iter().map(|s| s.id).collect();
    assert_eq!(shard_ids, vec![c.id + 1, c.id + 2]);
}

#[test]
fn leader_cycle_runs_heartbeat_then_reconcile() {
    let mut root = leading_root();
    assert_eq!(root.next_cycle_action(CycleEvent::StillLeader), CycleAction::Heartbeat);
    assert_eq!(root.next_cycle_action(CycleEvent::HeartbeatOk), CycleAction::Reconcile);
    assert_eq!(root.next_cycle_action(CycleEvent::ReconcileOk), CycleAction::Sleep);
    assert!(root.is_root());
    assert_eq!(root.next_cycle_action(CycleEvent::ReconcileFailed), CycleAction::StepDown);
    assert!(!root.is_root());
    root.take_leadership();
    assert_eq!(root.next_cycle_action(CycleEvent::HeartbeatFailed), CycleAction::StepDown);
    assert!(!root.is_root());
    root.take_leadership();
    assert_eq!(root.next_cycle_action(CycleEvent::LeadershipLost), CycleAction::StepDown);
    assert!(matches!(root.schema(), Err(Error::NotRootLeader)));
}

#[test]
fn fresh_root_can_bootstrap() {
    let root = create_root(1);
    assert!(root.bootstrap_possible());
}

#[test]
fn failed_shard_placement_broadcasts_nothing() {
    let mut root = leading_root();
    root.create_database("db1".into()).unwrap();
    let (w, init) = root.create_watcher();
    root.set_init_resp(init, vec![], vec![]);
    let _ = root.next_response(&w);
    let g = root_group_id(&root);
    let err = root
        .create_collection(
            "c1".into(),
            "db1".into(),
            Some(CollectionPartition::Hash { slots: 4 }),
            &vec![g, 999],
        )
        .unwrap_err();
    assert_eq!(err, Error::GroupNotFound(999));
    assert!(root.next_response(&w).is_none());
    // The record and the first group's share stay: no rollback.
    assert!(root.get_collection(&"c1".to_string(), &"db1".to_string()).unwrap().is_some());
    assert_eq!(root.schema().unwrap().list_group()[0].shards.len(), 2);
}
