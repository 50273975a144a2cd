use engula_root::placement::{batch_shards, expand_partitions, requested_shard_count};
use engula_root::types::{CollectionPartition, ShardDesc, ShardPartition};

fn slots_of(p: &[ShardPartition]) -> Vec<(u32, u32)> {
    p.iter()
        .map(|x| match x {
            ShardPartition::Hash { slot_id, slots } => (*slot_id, *slots),
            _ => panic!("expected a hash partition"),
        })
        .collect()
}

#[test]
fn hash_partitions_cover_every_slot() {
    let p = expand_partitions(Some(CollectionPartition::Hash { slots: 4 }));
    assert_eq!(slots_of(&p), vec![(0, 4), (1, 4), (2, 4), (3, 4)]);
}

#[test]
fn missing_scheme_is_one_slot() {
    let p = expand_partitions(None);
    assert_eq!(slots_of(&p), vec![(0, 1)]);
}

#[test]
fn zero_slots_give_no_shards() {
    assert!(expand_partitions(Some(CollectionPartition::Hash { slots: 0 })).is_empty());
}

#[test]
fn range_is_one_full_partition() {
    let p = expand_partitions(Some(CollectionPartition::Range));
    assert_eq!(p.len(), 1);
    assert!(matches!(&p[0], ShardPartition::Range { start, end } if start.is_empty() && end.is_empty()));
}

fn shards(n: u64) -> Vec<ShardDesc> {
    (0..n)
        .map(|i| ShardDesc {
            id: 100 + i,
            collection_id: 1,
            partition: ShardPartition::Hash { slot_id: i as u32, slots: n as u32 },
        })
        .collect()
}

#[test]
fn round_robin_batches() {
    let b = batch_shards(&shards(5), &vec![7, 9]);
    assert_eq!(b.len(), 2);
    assert_eq!(b[0].group_id, 7);
    assert_eq!(b[0].shards.iter().map(|s| s.id).collect::<Vec<_>>(), vec![100, 102, 104]);
    assert_eq!(b[1].group_id, 9);
    assert_eq!(b[1].shards.iter().map(|s| s.id).collect::<Vec<_>>(), vec![101, 103]);
}

#[test]
fn fewer_shards_than_candidates() {
    let b = batch_shards(&shards(2), &vec![1, 2, 3]);
    assert_eq!(b.iter().map(|x| x.group_id).collect::<Vec<_>>(), vec![1, 2]);
}

#[test]
fn repeated_candidate_gets_one_batch() {
    let b = batch_shards(&shards(4), &vec![3, 3]);
    assert_eq!(b.len(), 1);
    assert_eq!(b[0].shards.len(), 4);
}

#[test]
fn round_robin_spreads_evenly() {
    let b = batch_shards(&shards(7), &vec![1, 2, 3]);
    let counts: Vec<usize> = b.iter().map(|x| x.shards.len()).collect();
    assert_eq!(counts, vec![3, 2, 2]);
}

#[test]
fn requested_count_matches_partitions() {
    assert_eq!(requested_shard_count(Some(CollectionPartition::Hash { slots: 6 })), 6);
    assert_eq!(requested_shard_count(Some(CollectionPartition::Range)), 1);
    assert_eq!(requested_shard_count(None), 1);
}
