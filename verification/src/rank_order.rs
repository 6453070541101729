//! Rank order: the order of a bucket in which ranks ascend and entities of
//! equal rank keep the order in which they were given.

use vstd::prelude::*;
use vstd::seq_lib::{to_multiset_build, to_multiset_insert};
use crate::models::RankedEntity;

verus! {

/// The entities of `bucket` that have the rank `ranking`, in the order in
/// which they stand in `bucket`.
pub open spec fn of_rank(bucket: Seq<RankedEntity>, ranking: u16) -> Seq<RankedEntity>
    decreases bucket.len(),
{
    if bucket.len() == 0 {
        Seq::empty()
    } else {
        let before = of_rank(bucket.drop_last(), ranking);
        if bucket.last().ranking == ranking {
            before.push(bucket.last())
        } else {
            before
        }
    }
}

/// Whether ranks never descend along `bucket`.
pub open spec fn ranks_ascend(bucket: Seq<RankedEntity>) -> bool {
    forall|j: int, k: int|
        0 <= j < k < bucket.len() ==> (#[trigger] bucket[j]).ranking <= (#[trigger] bucket[k]).ranking
}

/// Whether `bucket` holds the entities of `rows` in rank order: it is a
/// reordering of `rows` in which ranks never descend and in which, for every
/// rank, the entities of that rank stand in the order they have in `rows`.
pub open spec fn is_rank_order_of(bucket: Seq<RankedEntity>, rows: Seq<RankedEntity>) -> bool {
    &&& ranks_ascend(bucket)
    &&& bucket.to_multiset() == rows.to_multiset()
    &&& forall|ranking: u16| #[trigger] of_rank(bucket, ranking) == of_rank(rows, ranking)
}

/// Where an entity of rank `ranking` goes in a bucket in rank order: behind
/// the last entity whose rank is not above `ranking`.
pub open spec fn insertion_point(bucket: Seq<RankedEntity>, ranking: u16) -> int
    decreases bucket.len(),
{
    if bucket.len() == 0 || bucket.last().ranking <= ranking {
        bucket.len() as int
    } else {
        insertion_point(bucket.drop_last(), ranking)
    }
}

/// The rows in rank order: each row, in row order, put behind the last
/// entity before it whose rank is not above its own.
pub open spec fn rank_ordered(rows: Seq<RankedEntity>) -> Seq<RankedEntity>
    decreases rows.len(),
{
    if rows.len() == 0 {
        Seq::empty()
    } else {
        let before = rank_ordered(rows.drop_last());
        before.insert(insertion_point(before, rows.last().ranking), rows.last())
    }
}

/// The entities of rank `ranking` of two sequences laid end to end are those
/// of the first followed by those of the second.
pub proof fn lemma_of_rank_concat(a: Seq<RankedEntity>, b: Seq<RankedEntity>, ranking: u16)
    ensures
        of_rank(a + b, ranking) == of_rank(a, ranking) + of_rank(b, ranking),
    decreases b.len(),
{
    if b.len() == 0 {
        assert(a + b == a);
        assert(of_rank(a, ranking) + Seq::<RankedEntity>::empty() == of_rank(a, ranking));
    } else {
        lemma_of_rank_concat(a, b.drop_last(), ranking);
        assert((a + b).drop_last() == a + b.drop_last());
        assert((a + b).last() == b.last());
        if b.last().ranking == ranking {
            assert((of_rank(a, ranking) + of_rank(b.drop_last(), ranking)).push(b.last())
                == of_rank(a, ranking) + of_rank(b.drop_last(), ranking).push(b.last()));
        }
    }
}

/// A bucket has entities of a rank exactly if one of its entities has that
/// rank; each of them has it, and the last entity of the bucket is the last
/// of its rank.
pub proof fn lemma_of_rank_members(bucket: Seq<RankedEntity>, ranking: u16)
    ensures
        of_rank(bucket, ranking).len() > 0 <==> exists|i: int|
            0 <= i < bucket.len() && (#[trigger] bucket[i]).ranking == ranking,
        forall|k: int|
            0 <= k < of_rank(bucket, ranking).len() ==> (#[trigger] of_rank(
                bucket,
                ranking,
            )[k]).ranking == ranking,
        bucket.len() > 0 && bucket.last().ranking == ranking ==> of_rank(bucket, ranking).len() > 0
            && of_rank(bucket, ranking).last() == bucket.last(),
    decreases bucket.len(),
{
    if bucket.len() > 0 {
        let init = bucket.drop_last();
        lemma_of_rank_members(init, ranking);
        if of_rank(init, ranking).len() > 0 {
            let i = choose|i: int| 0 <= i < init.len() && (#[trigger] init[i]).ranking == ranking;
            assert(bucket[i].ranking == ranking);
        }
        if exists|i: int| 0 <= i < bucket.len() && (#[trigger] bucket[i]).ranking == ranking {
            let i = choose|i: int|
                0 <= i < bucket.len() && (#[trigger] bucket[i]).ranking == ranking;
            if i < init.len() {
                assert(init[i].ranking == ranking);
            }
        }
    }
}

/// In a bucket whose ranks ascend, the insertion point parts the entities
/// whose rank is not above `ranking` from those whose rank is.
pub proof fn lemma_insertion_point(bucket: Seq<RankedEntity>, ranking: u16)
    requires
        ranks_ascend(bucket),
    ensures
        0 <= insertion_point(bucket, ranking) <= bucket.len(),
        forall|i: int|
            0 <= i < insertion_point(bucket, ranking) ==> (#[trigger] bucket[i]).ranking
                <= ranking,
        forall|i: int|
            insertion_point(bucket, ranking) <= i < bucket.len() ==> (#[trigger] bucket[i]).ranking
                > ranking,
    decreases bucket.len(),
{
    if bucket.len() == 0 || bucket.last().ranking <= ranking {
        assert forall|i: int| 0 <= i < bucket.len() implies (#[trigger] bucket[i]).ranking
            <= ranking by {
            if i < bucket.len() - 1 {
                assert(bucket[i].ranking <= bucket[bucket.len() - 1].ranking);
            }
        }
    } else {
        let init = bucket.drop_last();
        assert(ranks_ascend(init)) by {
            assert forall|j: int, k: int| 0 <= j < k < init.len() implies (#[trigger] init[j]).ranking
                <= (#[trigger] init[k]).ranking by {
                assert(bucket[j].ranking <= bucket[k].ranking);
            }
        }
        lemma_insertion_point(init, ranking);
        let p = insertion_point(init, ranking);
        assert forall|i: int| 0 <= i < p implies (#[trigger] bucket[i]).ranking <= ranking by {
            assert(init[i].ranking <= ranking);
        }
        assert forall|i: int| p <= i < bucket.len() implies (#[trigger] bucket[i]).ranking
            > ranking by {
            if i < init.len() {
                assert(init[i].ranking > ranking);
            }
        }
    }
}

/// Ranks still ascend after an entity was inserted at the insertion point of
/// its rank.
proof fn lemma_insert_keeps_ranks_ascending(bucket: Seq<RankedEntity>, entity: RankedEntity)
    requires
        ranks_ascend(bucket),
    ensures
        ranks_ascend(bucket.insert(insertion_point(bucket, entity.ranking), entity)),
{
    let p = insertion_point(bucket, entity.ranking);
    lemma_insertion_point(bucket, entity.ranking);
    let out = bucket.insert(p, entity);
    assert forall|j: int, k: int| 0 <= j < k < out.len() implies (#[trigger] out[j]).ranking
        <= (#[trigger] out[k]).ranking by {
        if k < p {
            assert(out[j] == bucket[j] && out[k] == bucket[k]);
        } else if k == p {
            assert(out[j] == bucket[j]);
        } else if j < p {
            assert(out[j] == bucket[j] && out[k] == bucket[k - 1]);
        } else if j == p {
            assert(out[k] == bucket[k - 1]);
        } else {
            assert(out[j] == bucket[j - 1] && out[k] == bucket[k - 1]);
        }
    }
}

/// After an entity was inserted at the insertion point of its rank, the
/// entities of its rank are those of before followed by it, and the entities
/// of every other rank are those of before.
proof fn lemma_of_rank_after_insert(bucket: Seq<RankedEntity>, entity: RankedEntity, ranking: u16)
    requires
        ranks_ascend(bucket),
    ensures
        of_rank(bucket.insert(insertion_point(bucket, entity.ranking), entity), ranking) == if
            entity.ranking == ranking {
            of_rank(bucket, ranking).push(entity)
        } else {
            of_rank(bucket, ranking)
        },
{
    let p = insertion_point(bucket, entity.ranking);
    lemma_insertion_point(bucket, entity.ranking);
    let head = bucket.subrange(0, p);
    let tail = bucket.subrange(p, bucket.len() as int);
    let out = bucket.insert(p, entity);
    assert(out == head.push(entity) + tail);
    assert(bucket == head + tail);
    lemma_of_rank_concat(head.push(entity), tail, ranking);
    lemma_of_rank_concat(head, tail, ranking);
    assert(head.push(entity).drop_last() == head);
    if entity.ranking == ranking {
        lemma_of_rank_members(tail, ranking);
        assert(of_rank(tail, ranking).len() == 0) by {
            if of_rank(tail, ranking).len() > 0 {
                let i = choose|i: int| 0 <= i < tail.len() && (#[trigger] tail[i]).ranking == ranking;
                assert(bucket[p + i].ranking > ranking);
            }
        }
        assert(of_rank(tail, ranking) == Seq::<RankedEntity>::empty());
        assert(of_rank(head, ranking) + Seq::<RankedEntity>::empty() == of_rank(head, ranking));
        assert(of_rank(head, ranking).push(entity) + Seq::<RankedEntity>::empty() == of_rank(
            head,
            ranking,
        ).push(entity));
    }
}

/// Inserting the next row at its insertion point keeps a bucket in rank
/// order.
pub proof fn lemma_insert_keeps_rank_order(
    bucket: Seq<RankedEntity>,
    rows: Seq<RankedEntity>,
    entity: RankedEntity,
)
    requires
        is_rank_order_of(bucket, rows),
    ensures
        is_rank_order_of(
            bucket.insert(insertion_point(bucket, entity.ranking), entity),
            rows.push(entity),
        ),
{
    let p = insertion_point(bucket, entity.ranking);
    let out = bucket.insert(p, entity);
    lemma_insertion_point(bucket, entity.ranking);
    lemma_insert_keeps_ranks_ascending(bucket, entity);
    assert(out.to_multiset() == rows.push(entity).to_multiset()) by {
        to_multiset_insert(bucket, p, entity);
        to_multiset_build(rows, entity);
    }
    assert forall|ranking: u16| #[trigger] of_rank(out, ranking) == of_rank(
        rows.push(entity),
        ranking,
    ) by {
        lemma_of_rank_after_insert(bucket, entity, ranking);
        assert(rows.push(entity).drop_last() == rows);
        assert(of_rank(bucket, ranking) == of_rank(rows, ranking));
    }
}

/// `rank_ordered(rows)` holds `rows` in rank order.
pub proof fn lemma_rank_ordered(rows: Seq<RankedEntity>)
    ensures
        is_rank_order_of(rank_ordered(rows), rows),
        rank_ordered(rows).len() == rows.len(),
    decreases rows.len(),
{
    if rows.len() > 0 {
        let before = rank_ordered(rows.drop_last());
        lemma_rank_ordered(rows.drop_last());
        lemma_insert_keeps_rank_order(before, rows.drop_last(), rows.last());
        assert(rows.drop_last().push(rows.last()) == rows);
        lemma_insertion_point(before, rows.last().ranking);
        before.insert_ensures(insertion_point(before, rows.last().ranking), rows.last());
    } else {
        assert(rows =~= Seq::<RankedEntity>::empty());
    }
}

/// A bucket holds rows in rank order exactly if it is `rank_ordered` of
/// them.
pub proof fn lemma_rank_order_is_rank_ordered(bucket: Seq<RankedEntity>, rows: Seq<RankedEntity>)
    ensures
        is_rank_order_of(bucket, rows) <==> bucket == rank_ordered(rows),
{
    lemma_rank_ordered(rows);
    if is_rank_order_of(bucket, rows) {
        lemma_rank_order_is_unique(bucket, rank_ordered(rows), rows);
    }
}

/// A bucket whose ranks ascend is in rank order already.
pub proof fn lemma_ascending_is_rank_ordered(bucket: Seq<RankedEntity>)
    requires
        ranks_ascend(bucket),
    ensures
        rank_ordered(bucket) == bucket,
{
    assert(is_rank_order_of(bucket, bucket));
    lemma_rank_order_is_rank_ordered(bucket, bucket);
}

/// Rank order is unique: two buckets that both hold the same rows in rank
/// order are equal.
pub proof fn lemma_rank_order_is_unique(
    a: Seq<RankedEntity>,
    b: Seq<RankedEntity>,
    rows: Seq<RankedEntity>,
)
    requires
        is_rank_order_of(a, rows),
        is_rank_order_of(b, rows),
    ensures
        a == b,
{
    assert forall|ranking: u16| #[trigger] of_rank(a, ranking) == of_rank(b, ranking) by {
        assert(of_rank(a, ranking) == of_rank(rows, ranking));
        assert(of_rank(b, ranking) == of_rank(rows, ranking));
    }
    lemma_ascending_with_same_ranks(a, b);
}

/// Two buckets whose ranks ascend and that agree, rank by rank, on their
/// entities of that rank are equal.
pub proof fn lemma_ascending_with_same_ranks(a: Seq<RankedEntity>, b: Seq<RankedEntity>)
    requires
        ranks_ascend(a),
        ranks_ascend(b),
        forall|ranking: u16| #[trigger] of_rank(a, ranking) == of_rank(b, ranking),
    ensures
        a == b,
    decreases a.len(),
{
    if a.len() == 0 {
        if b.len() > 0 {
            lemma_of_rank_members(b, b.last().ranking);
            assert(of_rank(a, b.last().ranking) == of_rank(b, b.last().ranking));
        }
        assert(a =~= b);
    } else {
        let top = a.last().ranking;
        lemma_of_rank_members(a, top);
        lemma_of_rank_members(b, top);
        assert(of_rank(a, top) == of_rank(b, top));
        assert(b.len() > 0);
        let other = b.last().ranking;
        lemma_of_rank_members(b, other);
        lemma_of_rank_members(a, other);
        assert(of_rank(a, other) == of_rank(b, other));
        // Each bucket holds an entity of the other's last rank, and its own
        // last rank is its highest.
        let i = choose|i: int| 0 <= i < b.len() && (#[trigger] b[i]).ranking == top;
        assert(top <= other) by {
            if i < b.len() - 1 {
                assert(b[i].ranking <= b[b.len() - 1].ranking);
            }
        }
        let j = choose|j: int| 0 <= j < a.len() && (#[trigger] a[j]).ranking == other;
        assert(other <= top) by {
            if j < a.len() - 1 {
                assert(a[j].ranking <= a[a.len() - 1].ranking);
            }
        }
        assert(a.last() == b.last());
        let a_init = a.drop_last();
        let b_init = b.drop_last();
        assert(ranks_ascend(a_init)) by {
            assert forall|j: int, k: int| 0 <= j < k < a_init.len() implies (
            #[trigger] a_init[j]).ranking <= (#[trigger] a_init[k]).ranking by {
                assert(a[j].ranking <= a[k].ranking);
            }
        }
        assert(ranks_ascend(b_init)) by {
            assert forall|j: int, k: int| 0 <= j < k < b_init.len() implies (
            #[trigger] b_init[j]).ranking <= (#[trigger] b_init[k]).ranking by {
                assert(b[j].ranking <= b[k].ranking);
            }
        }
        assert forall|ranking: u16| #[trigger] of_rank(a_init, ranking) == of_rank(
            b_init,
            ranking,
        ) by {
            assert(of_rank(a, ranking) == of_rank(b, ranking));
            if ranking == top {
                assert(of_rank(a, ranking).drop_last() == of_rank(a_init, ranking));
                assert(of_rank(b, ranking).drop_last() == of_rank(b_init, ranking));
            }
        }
        lemma_ascending_with_same_ranks(a_init, b_init);
        assert(a == a_init.push(a.last()));
        assert(b == b_init.push(b.last()));
    }
}

/// In a bucket that holds at each of its first `count` positions an entity
/// ranked by that position, the entities of a rank among these are the one at
/// the position of that rank.
proof fn lemma_of_rank_by_position(bucket: Seq<RankedEntity>, count: int, ranking: u16)
    requires
        0 <= count <= bucket.len(),
        forall|j: int| 0 <= j < count ==> (#[trigger] bucket[j]).ranking == j,
    ensures
        of_rank(bucket.take(count), ranking) == if ranking < count {
            seq![bucket[ranking as int]]
        } else {
            Seq::<RankedEntity>::empty()
        },
    decreases count,
{
    if count > 0 {
        lemma_of_rank_by_position(bucket, count - 1, ranking);
        assert(bucket.take(count).drop_last() == bucket.take(count - 1));
        assert(bucket.take(count).last() == bucket[count - 1]);
        if ranking == count - 1 {
            assert(Seq::<RankedEntity>::empty().push(bucket[count - 1]) == seq![
                bucket[ranking as int],
            ]);
        }
    }
}

/// Rank order puts every row at the position of its rank: where the ranks of
/// the rows are the numbers from 0 up to the number of rows, each exactly
/// once, position `j` of the bucket holds the row ranked `j`.
pub proof fn lemma_each_rank_at_its_position(bucket: Seq<RankedEntity>, rows: Seq<RankedEntity>)
    requires
        is_rank_order_of(bucket, rows),
        rows.len() <= 0x10000,
        forall|i: int| 0 <= i < rows.len() ==> (#[trigger] rows[i]).ranking < rows.len(),
        forall|ranking: u16| ranking < rows.len() ==> (#[trigger] of_rank(rows, ranking)).len() == 1,
    ensures
        bucket.len() == rows.len(),
        forall|j: int|
            0 <= j < bucket.len() ==> (#[trigger] bucket[j]).ranking == j && bucket[j] == of_rank(
                rows,
                j as u16,
            )[0],
{
    let by_position = Seq::new(rows.len(), |j: int| of_rank(rows, j as u16)[0]);
    assert forall|j: int| 0 <= j < by_position.len() implies (#[trigger] by_position[j]).ranking
        == j by {
        lemma_of_rank_members(rows, j as u16);
        assert(of_rank(rows, j as u16).len() == 1);
    }
    assert(ranks_ascend(by_position));
    assert forall|ranking: u16| #[trigger] of_rank(bucket, ranking) == of_rank(
        by_position,
        ranking,
    ) by {
        assert(of_rank(bucket, ranking) == of_rank(rows, ranking));
        lemma_of_rank_by_position(by_position, by_position.len() as int, ranking);
        assert(by_position.take(by_position.len() as int) == by_position);
        lemma_of_rank_members(rows, ranking);
        if ranking < rows.len() {
            assert(of_rank(rows, ranking).len() == 1);
            assert(of_rank(rows, ranking) =~= seq![by_position[ranking as int]]);
        } else {
            assert(of_rank(rows, ranking).len() == 0) by {
                if of_rank(rows, ranking).len() > 0 {
                    let i = choose|i: int|
                        0 <= i < rows.len() && (#[trigger] rows[i]).ranking == ranking;
                    assert(rows[i].ranking < rows.len());
                }
            }
            assert(of_rank(rows, ranking) =~= Seq::<RankedEntity>::empty());
        }
    }
    lemma_ascending_with_same_ranks(bucket, by_position);
}

/// Inserts `entity` into a bucket at the insertion point of its rank: behind
/// the last entity whose rank is not above its own.
pub fn insert_in_rank_order(bucket: &mut Vec<RankedEntity>, entity: RankedEntity)
    ensures
        final(bucket)@ == old(bucket)@.insert(
            insertion_point(old(bucket)@, entity.ranking),
            entity,
        ),
{
    let mut p: usize = bucket.len();
    proof {
        assert(bucket@.take(p as int) == bucket@);
    }
    while p > 0 && bucket[p - 1].ranking > entity.ranking
        invariant
            p <= bucket.len(),
            insertion_point(bucket@, entity.ranking) == insertion_point(
                bucket@.take(p as int),
                entity.ranking,
            ),
        decreases p,
    {
        proof {
            assert(bucket@.take(p as int).drop_last() == bucket@.take(p - 1));
            assert(bucket@.take(p as int).last() == bucket@[p - 1]);
        }
        p -= 1;
    }
    proof {
        if p > 0 {
            assert(bucket@.take(p as int).last() == bucket@[p - 1]);
        }
    }
    bucket.insert(p, entity);
}

/// A copy of `bucket` in rank order.
pub fn in_rank_order(bucket: &Vec<RankedEntity>) -> (ordered: Vec<RankedEntity>)
    ensures
        ordered@ == rank_ordered(bucket@),
        ordered.len() == bucket.len(),
{
    let mut ordered: Vec<RankedEntity> = Vec::new();
    let mut i: usize = 0;
    proof {
        assert(bucket@.take(0) == Seq::<RankedEntity>::empty());
    }
    while i < bucket.len()
        invariant
            i <= bucket.len(),
            ordered@ == rank_ordered(bucket@.take(i as int)),
        decreases bucket.len() - i,
    {
        let entity = RankedEntity {
            spotify_id: bucket[i].spotify_id.clone(),
            ranking: bucket[i].ranking,
        };
        proof {
            assert(entity == bucket@[i as int]);
            assert(bucket@.take(i + 1).drop_last() == bucket@.take(i as int));
            assert(bucket@.take(i + 1).last() == bucket@[i as int]);
        }
        insert_in_rank_order(&mut ordered, entity);
        i += 1;
    }
    proof {
        assert(bucket@.take(bucket.len() as int) == bucket@);
        lemma_rank_ordered(bucket@);
    }
    ordered
}

} // verus!
