use vstd::prelude::*;
use vstd::arithmetic::div_mod::{lemma_fundamental_div_mod, lemma_fundamental_div_mod_converse};

use crate::types::{
    shard_views, CollectionPartition, ShardDesc, ShardPartition, ShardPartitionView, ShardView,
};

verus! {

/// The partition scheme a collection uses: one hash slot when it names none.
pub open spec fn effective_partition(p: Option<CollectionPartition>) -> CollectionPartition {
    match p {
        Some(q) => q,
        None => CollectionPartition::Hash { slots: 1 },
    }
}

/// How many shards a new collection with this scheme is split into.
pub open spec fn partition_count(p: Option<CollectionPartition>) -> nat {
    match effective_partition(p) {
        CollectionPartition::Hash { slots } => slots as nat,
        CollectionPartition::Range => 1,
    }
}

/// The range partition that spans the whole key space: both bounds open.
pub open spec fn full_range() -> ShardPartitionView {
    ShardPartitionView::Range { start: Seq::empty(), end: Seq::empty() }
}

/// The `i`-th shard partition of a new collection with this scheme.
pub open spec fn partition_at(p: Option<CollectionPartition>, i: int) -> ShardPartitionView {
    match effective_partition(p) {
        CollectionPartition::Hash { slots } => ShardPartitionView::Hash {
            slot_id: i as u32,
            slots,
        },
        CollectionPartition::Range => full_range(),
    }
}

/// The shard partitions of a new collection with this scheme, in order.
pub open spec fn expanded(p: Option<CollectionPartition>) -> Seq<ShardPartitionView> {
    Seq::new(partition_count(p), |i: int| partition_at(p, i))
}

pub open spec fn partition_views(s: Seq<ShardPartition>) -> Seq<ShardPartitionView> {
    s.map_values(|x: ShardPartition| x@)
}

/// How many shards, and so how many candidate groups, a new collection with this scheme
/// asks the allocator for.
pub fn requested_shard_count(partition: Option<CollectionPartition>) -> (r: u64)
    ensures
        r == partition_count(partition),
{
    match partition {
        Some(CollectionPartition::Hash { slots }) => slots as u64,
        Some(CollectionPartition::Range) => 1,
        None => 1,
    }
}

/// Splits a collection's declared key space into the partitions of its shards:
/// `slots` hash slots for a hash scheme, one full range for a range scheme.
pub fn expand_partitions(partition: Option<CollectionPartition>) -> (r: Vec<ShardPartition>)
    ensures
        partition_views(r@) == expanded(partition),
{
    let scheme = match partition {
        Some(q) => q,
        None => CollectionPartition::Hash { slots: 1 },
    };
    match scheme {
        CollectionPartition::Hash { slots } => {
            let mut ps: Vec<ShardPartition> = Vec::new();
            let mut id: u32 = 0;
            while id < slots
                invariant
                    id <= slots,
                    effective_partition(partition) == (CollectionPartition::Hash { slots }),
                    ps@.len() == id,
                    forall|j: int| 0 <= j < id ==> (#[trigger] ps@[j])@ == partition_at(partition, j),
                decreases slots - id,
            {
                ps.push(ShardPartition::Hash { slot_id: id, slots });
                id = id + 1;
            }
            assert(partition_views(ps@) =~= expanded(partition));
            ps
        },
        CollectionPartition::Range => {
            let ps = vec![ShardPartition::Range { start: Vec::new(), end: Vec::new() }];
            assert(partition_views(ps@) =~= expanded(partition));
            ps
        },
    }
}

/// Whether one of `parts` is hash slot `s` out of `slots`.
pub open spec fn holds_slot(parts: Seq<ShardPartitionView>, s: u32, slots: u32) -> bool {
    exists|i: int| 0 <= i < parts.len() && parts[i] == (ShardPartitionView::Hash { slot_id: s, slots })
}

/// A hash-partitioned collection's shards hold each slot `0..slots` exactly once, and a
/// range-partitioned collection has exactly one shard, over the full key range.
pub proof fn lemma_partition_coverage(slots: u32)
    ensures
        expanded(Some(CollectionPartition::Hash { slots })).len() == slots,
        forall|i: int|
            0 <= i < slots ==> #[trigger] expanded(Some(CollectionPartition::Hash { slots }))[i]
                == (ShardPartitionView::Hash { slot_id: i as u32, slots }),
        forall|s: u32|
            #[trigger] holds_slot(expanded(Some(CollectionPartition::Hash { slots })), s, slots)
                <==> s < slots,
        forall|i: int, j: int|
            0 <= i < j < expanded(Some(CollectionPartition::Hash { slots })).len() ==> expanded(
                Some(CollectionPartition::Hash { slots }),
            )[i] != expanded(Some(CollectionPartition::Hash { slots }))[j],
        expanded(Some(CollectionPartition::Range)) == seq![full_range()],
{
    let p = Some(CollectionPartition::Hash { slots });
    assert forall|s: u32| s < slots implies #[trigger] holds_slot(expanded(p), s, slots) by {
        assert(expanded(p)[s as int] == (ShardPartitionView::Hash { slot_id: s, slots }));
    }
    assert(expanded(Some(CollectionPartition::Range)) =~= seq![full_range()]);
}

/// The candidate group that the `i`-th shard is placed on: round robin.
pub open spec fn target(cands: Seq<u64>, i: int) -> u64 {
    cands[i % cands.len() as int]
}

/// The shards among the first `n` that are placed on group `g`, in order.
pub open spec fn assigned(shards: Seq<ShardView>, cands: Seq<u64>, g: u64, n: nat) -> Seq<ShardView>
    decreases n,
{
    if n == 0 {
        Seq::empty()
    } else {
        let prev = assigned(shards, cands, g, (n - 1) as nat);
        if target(cands, n - 1) == g {
            prev.push(shards[n - 1])
        } else {
            prev
        }
    }
}

/// How many of the first `n` shards are placed on group `g`.
pub open spec fn assigned_count(cands: Seq<u64>, g: u64, n: nat) -> nat
    decreases n,
{
    if n == 0 {
        0
    } else {
        assigned_count(cands, g, (n - 1) as nat) + if target(cands, n - 1) == g {
            1nat
        } else {
            0nat
        }
    }
}

/// The shards that one group receives.
pub struct ShardBatch {
    pub group_id: u64,
    pub shards: Vec<ShardDesc>,
}

/// Collects, in order, the shards that round robin places on group `g`.
pub fn shards_for_group(shards: &Vec<ShardDesc>, cands: &Vec<u64>, g: u64) -> (r: Vec<ShardDesc>)
    requires
        cands.len() > 0,
    ensures
        shard_views(r@) == assigned(shard_views(shards@), cands@, g, shards.len() as nat),
{
    let mut r: Vec<ShardDesc> = Vec::new();
    let mut i: usize = 0;
    while i < shards.len()
        invariant
            i <= shards.len(),
            cands.len() > 0,
            shard_views(r@) == assigned(shard_views(shards@), cands@, g, i as nat),
        decreases shards.len() - i,
    {
        if cands[i % cands.len()] == g {
            let c = shards[i].clone();
            r.push(c);
            assert(shard_views(r@) =~= assigned(shard_views(shards@), cands@, g, (i + 1) as nat));
        }
        i = i + 1;
    }
    r
}

/// Whether one of the batches is for group `g`.
pub open spec fn has_batch(r: Seq<ShardBatch>, g: u64) -> bool {
    exists|k: int| 0 <= k < r.len() && r[k].group_id == g
}

/// Whether one of the first `n` shards is placed on group `g`.
pub open spec fn is_target(cands: Seq<u64>, n: nat, g: u64) -> bool {
    exists|i: int| 0 <= i < n && target(cands, i) == g
}

/// Places shard `i` on candidate group `i % cands.len()` and batches the shards by group.
/// Each group that receives a shard has exactly one batch, with its shards in order.
pub fn batch_shards(shards: &Vec<ShardDesc>, cands: &Vec<u64>) -> (r: Vec<ShardBatch>)
    requires
        cands.len() > 0,
    ensures
        forall|a: int, b: int|
            0 <= a < b < r@.len() ==> r@[a].group_id != r@[b].group_id,
        forall|g: u64|
            #![trigger has_batch(r@, g)]
            #![trigger is_target(cands@, shards.len() as nat, g)]
            has_batch(r@, g) <==> is_target(cands@, shards.len() as nat, g),
        forall|k: int|
            0 <= k < r@.len() ==> shard_views(#[trigger] r@[k].shards@) == assigned(
                shard_views(shards@),
                cands@,
                r@[k].group_id,
                shards.len() as nat,
            ),
{
    let mut r: Vec<ShardBatch> = Vec::new();
    let mut i: usize = 0;
    while i < shards.len()
        invariant
            i <= shards.len(),
            cands.len() > 0,
            forall|a: int, b: int| 0 <= a < b < r@.len() ==> r@[a].group_id != r@[b].group_id,
            forall|g: u64|
                #![trigger has_batch(r@, g)]
                #![trigger is_target(cands@, i as nat, g)]
                has_batch(r@, g) <==> is_target(cands@, i as nat, g),
            forall|k: int|
                0 <= k < r@.len() ==> shard_views(#[trigger] r@[k].shards@) == assigned(
                    shard_views(shards@),
                    cands@,
                    r@[k].group_id,
                    shards.len() as nat,
                ),
        decreases shards.len() - i,
    {
        let g = cands[i % cands.len()];
        let ghost old_r = r@;
        let mut seen = false;
        let mut k: usize = 0;
        while k < r.len()
            invariant
                k <= r.len(),
                seen <==> exists|m: int| 0 <= m < k && r@[m].group_id == g,
            decreases r.len() - k,
        {
            if r[k].group_id == g {
                seen = true;
            }
            k = k + 1;
        }
        if !seen {
            let batch = shards_for_group(shards, cands, g);
            r.push(ShardBatch { group_id: g, shards: batch });
        }
        i = i + 1;
        assert forall|h: u64| #[trigger] has_batch(r@, h) implies is_target(cands@, i as nat, h) by {
            if h == g {
                assert(target(cands@, i - 1) == h);
            } else {
                let k = choose|k: int| 0 <= k < r@.len() && r@[k].group_id == h;
                if !seen {
                    assert(k < r@.len() - 1);
                }
                assert(has_batch(old_r, h));
                assert(is_target(cands@, (i - 1) as nat, h));
            }
        }
        assert forall|h: u64| #[trigger] is_target(cands@, i as nat, h) implies has_batch(r@, h) by {
            if h == g {
                if !seen {
                    assert(r@[r@.len() - 1].group_id == h);
                }
            } else {
                let j = choose|j: int| 0 <= j < i && target(cands@, j) == h;
                assert(j < i - 1);
                assert(is_target(cands@, (i - 1) as nat, h));
                assert(has_batch(old_r, h));
                let k = choose|k: int| 0 <= k < old_r.len() && old_r[k].group_id == h;
                assert(r@[k] == old_r[k]);
            }
        }
    }
    r
}

/// The number of shards on group `g` is the length of its batch.
pub proof fn lemma_assigned_len(shards: Seq<ShardView>, cands: Seq<u64>, g: u64, n: nat)
    requires
        n <= shards.len(),
    ensures
        assigned(shards, cands, g, n).len() == assigned_count(cands, g, n),
    decreases n,
{
    if n > 0 {
        lemma_assigned_len(shards, cands, g, (n - 1) as nat);
    }
}

/// With `c` distinct candidate groups, the first `n` shards placed round robin give
/// candidate `j` exactly `n / c` shards, one more when `j < n % c`; so every candidate
/// receives either the floor or the ceiling of `n / c`.
pub proof fn lemma_round_robin_balanced(cands: Seq<u64>, j: int, n: nat)
    requires
        cands.len() > 0,
        0 <= j < cands.len(),
        forall|a: int, b: int| 0 <= a < b < cands.len() ==> cands[a] != cands[b],
    ensures
        assigned_count(cands, cands[j], n) == n as int / cands.len() as int + if j < n as int
            % cands.len() as int {
            1int
        } else {
            0int
        },
        n as int / cands.len() as int <= assigned_count(cands, cands[j], n) <= n as int
            / cands.len() as int + 1,
    decreases n,
{
    let c = cands.len() as int;
    if n == 0 {
        assert(0int / c == 0) by (nonlinear_arith)
            requires
                c > 0,
        ;
        assert(0int % c == 0) by (nonlinear_arith)
            requires
                c > 0,
        ;
    } else {
        let m = (n - 1) as nat;
        lemma_round_robin_balanced(cands, j, m);
        let q = m as int / c;
        let r = m as int % c;
        lemma_fundamental_div_mod(m as int, c);
        assert(0 <= r < c) by {
            vstd::arithmetic::div_mod::lemma_mod_bound(m as int, c);
        }
        assert(target(cands, m as int) == cands[r]);
        assert(target(cands, m as int) == cands[j] <==> r == j);
        assert(m as int == q * c + r) by (nonlinear_arith)
            requires
                m as int == c * (m as int / c) + m as int % c,
                q == m as int / c,
                r == m as int % c,
        ;
        if r + 1 < c {
            lemma_fundamental_div_mod_converse(n as int, c, q, r + 1);
        } else {
            assert(n as int == (q + 1) * c + 0) by (nonlinear_arith)
                requires
                    m as int == q * c + r,
                    r + 1 == c,
                    n == m + 1,
            ;
            lemma_fundamental_div_mod_converse(n as int, c, q + 1, 0);
        }
    }
}

} // verus!
