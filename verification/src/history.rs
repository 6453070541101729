//! The rows under which a raw snapshot is stored, and the rankings read
//! back from stored rows, in rank order.

use vstd::prelude::*;
use crate::acquire::TopEntities;
use crate::error::{FetchError, FetchErrorKind};
use crate::models::{NewHistoryEntry, RankedEntity, TimeFrames, User};
use crate::rank_order::{insert_in_rank_order, is_rank_order_of, lemma_insert_keeps_rank_order};
use crate::timeframe::Timeframe;

verus! {

/// What is written for one snapshot of one listener: a row per ranked
/// artist, a row per ranked track, and the listener's new update time.
#[derive(Debug, PartialEq, Eq)]
pub struct SnapshotRows {
    pub user_id: i64,
    pub last_update_time: chrono::NaiveDateTime,
    pub artist_entries: Vec<NewHistoryEntry>,
    pub track_entries: Vec<NewHistoryEntry>,
}

/// The rows of one bucket: one per ranked identifier, in rank order, under
/// the id of the bucket's timeframe.
pub open spec fn bucket_entries(
    user_id: i64,
    update_time: chrono::NaiveDateTime,
    timeframe: Timeframe,
    bucket: Seq<RankedEntity>,
) -> Seq<NewHistoryEntry> {
    Seq::new(
        bucket.len(),
        |i: int|
            NewHistoryEntry {
                user_id,
                spotify_id: bucket[i].spotify_id,
                update_time,
                timeframe: timeframe.spec_id(),
                ranking: bucket[i].ranking,
            },
    )
}

/// The rows of one entity type: those of the short bucket, then of the
/// medium one, then of the long one.
pub open spec fn history_entries(
    user_id: i64,
    update_time: chrono::NaiveDateTime,
    rankings: TimeFrames<RankedEntity>,
) -> Seq<NewHistoryEntry> {
    bucket_entries(user_id, update_time, Timeframe::Short, rankings.short@) + bucket_entries(
        user_id,
        update_time,
        Timeframe::Medium,
        rankings.medium@,
    ) + bucket_entries(user_id, update_time, Timeframe::Long, rankings.long@)
}

/// The ranked identifiers stored under the timeframe `timeframe`, in row
/// order.
pub open spec fn entries_of_timeframe(entries: Seq<NewHistoryEntry>, timeframe: Timeframe) -> Seq<
    RankedEntity,
>
    decreases entries.len(),
{
    if entries.len() == 0 {
        Seq::empty()
    } else {
        let before = entries_of_timeframe(entries.drop_last(), timeframe);
        let entry = entries.last();
        if entry.timeframe == timeframe.spec_id() {
            before.push(RankedEntity { spotify_id: entry.spotify_id, ranking: entry.ranking })
        } else {
            before
        }
    }
}

/// Whether some row names a timeframe id outside the grid.
pub open spec fn has_invalid_timeframe(entries: Seq<NewHistoryEntry>) -> bool {
    exists|i: int| 0 <= i < entries.len() && (#[trigger] entries[i]).timeframe > 2
}

/// Appends the rows of one bucket to `entries`.
fn push_bucket_entries(
    entries: &mut Vec<NewHistoryEntry>,
    user_id: i64,
    update_time: chrono::NaiveDateTime,
    timeframe: Timeframe,
    bucket: &Vec<RankedEntity>,
)
    ensures
        final(entries)@ == old(entries)@ + bucket_entries(user_id, update_time, timeframe, bucket@),
{
    let ghost start = entries@;
    let ghost rows = bucket_entries(user_id, update_time, timeframe, bucket@);
    let mut i: usize = 0;
    while i < bucket.len()
        invariant
            i <= bucket.len(),
            rows == bucket_entries(user_id, update_time, timeframe, bucket@),
            entries@ == start + rows.take(i as int),
        decreases bucket.len() - i,
    {
        let entry = NewHistoryEntry {
            user_id,
            spotify_id: bucket[i].spotify_id.clone(),
            update_time,
            timeframe: timeframe.id(),
            ranking: bucket[i].ranking,
        };
        proof {
            assert(entry == rows[i as int]);
            assert(rows.take(i + 1) == rows.take(i as int).push(rows[i as int]));
            assert(start + rows.take(i + 1) == (start + rows.take(i as int)).push(entry));
        }
        entries.push(entry);
        i += 1;
    }
    proof {
        assert(rows.take(bucket.len() as int) == rows);
    }
}

/// The rows of one entity type for the listener `user_id` at `update_time`:
/// one per ranked identifier, bucket by bucket in the order short, medium,
/// long, each with the id of its timeframe and its rank.
pub fn new_history_entries(
    user_id: i64,
    update_time: chrono::NaiveDateTime,
    rankings: &TimeFrames<RankedEntity>,
) -> (entries: Vec<NewHistoryEntry>)
    ensures
        entries@ == history_entries(user_id, update_time, *rankings),
{
    let mut entries: Vec<NewHistoryEntry> = Vec::new();
    push_bucket_entries(&mut entries, user_id, update_time, Timeframe::Short, &rankings.short);
    push_bucket_entries(&mut entries, user_id, update_time, Timeframe::Medium, &rankings.medium);
    push_bucket_entries(&mut entries, user_id, update_time, Timeframe::Long, &rankings.long);
    proof {
        assert(Seq::<NewHistoryEntry>::empty() + bucket_entries(
            user_id,
            update_time,
            Timeframe::Short,
            rankings.short@,
        ) == bucket_entries(user_id, update_time, Timeframe::Short, rankings.short@));
    }
    entries
}

/// What storing the raw snapshot `stats` for `user` writes: the artist rows,
/// the track rows, and the snapshot's capture instant as the listener's new
/// update time.
pub fn snapshot_rows(user: &User, stats: &TopEntities) -> (rows: SnapshotRows)
    ensures
        rows.user_id == user.id,
        rows.last_update_time == stats.last_update_time,
        rows.artist_entries@ == history_entries(user.id, stats.last_update_time, stats.artists),
        rows.track_entries@ == history_entries(user.id, stats.last_update_time, stats.tracks),
{
    let artist_entries = new_history_entries(user.id, stats.last_update_time, &stats.artists);
    let track_entries = new_history_entries(user.id, stats.last_update_time, &stats.tracks);
    SnapshotRows {
        user_id: user.id,
        last_update_time: stats.last_update_time,
        artist_entries,
        track_entries,
    }
}

/// The rankings stored in `entries`. Every row goes to the bucket of its
/// timeframe id, and every bucket is put in rank order: ranks ascend, and rows
/// of equal rank keep their row order, whatever order the rows came in. A
/// row with an id above 2 fails the whole reading with `InvalidTimeframe`.
pub fn rankings_of_history(entries: &Vec<NewHistoryEntry>) -> (result: Result<
    TimeFrames<RankedEntity>,
    FetchError,
>)
    ensures
        has_invalid_timeframe(entries@) ==> (result matches Err(error) && error.kind
            == FetchErrorKind::InvalidTimeframe && error.context@
            == "timeframe id out of range"@),
        !has_invalid_timeframe(entries@) ==> (result matches Ok(rankings) && forall|
            tf: Timeframe,
        |
            is_rank_order_of(#[trigger] rankings.bucket(tf), entries_of_timeframe(entries@, tf))),
{
    let mut rankings: TimeFrames<RankedEntity> = TimeFrames::new();
    let mut i: usize = 0;
    proof {
        assert(entries@.take(0) == Seq::<NewHistoryEntry>::empty());
        assert forall|tf: Timeframe|
            is_rank_order_of(
                #[trigger] rankings.bucket(tf),
                entries_of_timeframe(entries@.take(0), tf),
            ) by {
            assert(rankings.bucket(tf) == Seq::<RankedEntity>::empty());
        }
    }
    while i < entries.len()
        invariant
            i <= entries.len(),
            forall|k: int| 0 <= k < i ==> (#[trigger] entries@[k]).timeframe <= 2,
            forall|tf: Timeframe|
                is_rank_order_of(
                    #[trigger] rankings.bucket(tf),
                    entries_of_timeframe(entries@.take(i as int), tf),
                ),
        decreases entries.len() - i,
    {
        let entry = &entries[i];
        let entity = RankedEntity { spotify_id: entry.spotify_id.clone(), ranking: entry.ranking };
        let ghost before = rankings;
        proof {
            assert(entries@.take(i + 1).drop_last() == entries@.take(i as int));
            assert(entries@.take(i + 1).last() == entries@[i as int]);
        }
        match Timeframe::from_id(entry.timeframe) {
            Ok(target) => {
                match target {
                    Timeframe::Short => insert_in_rank_order(&mut rankings.short, entity),
                    Timeframe::Medium => insert_in_rank_order(&mut rankings.medium, entity),
                    Timeframe::Long => insert_in_rank_order(&mut rankings.long, entity),
                }
                proof {
                    assert forall|tf: Timeframe|
                        is_rank_order_of(
                            #[trigger] rankings.bucket(tf),
                            entries_of_timeframe(entries@.take(i + 1), tf),
                        ) by {
                        let rows = entries_of_timeframe(entries@.take(i as int), tf);
                        assert(is_rank_order_of(before.bucket(tf), rows));
                        assert(tf.spec_id() == entry.timeframe <==> tf == target);
                        if tf == target {
                            lemma_insert_keeps_rank_order(before.bucket(tf), rows, entity);
                        } else {
                            assert(rankings.bucket(tf) == before.bucket(tf));
                        }
                    }
                }
            },
            Err(error) => {
                return Err(error);
            },
        }
        i += 1;
    }
    proof {
        assert(entries@.take(entries.len() as int) == entries@);
    }
    Ok(rankings)
}

/// The identifiers of all three buckets, short, medium, long, each in rank
/// order: what has to be resolved to display `rankings`.
pub fn ranked_identifiers(rankings: &TimeFrames<RankedEntity>) -> (ids: Vec<String>)
    ensures
        ids@ == identifiers_of(rankings.short@) + identifiers_of(rankings.medium@)
            + identifiers_of(rankings.long@),
{
    let mut ids: Vec<String> = Vec::new();
    push_identifiers(&mut ids, &rankings.short);
    push_identifiers(&mut ids, &rankings.medium);
    push_identifiers(&mut ids, &rankings.long);
    proof {
        assert(Seq::<String>::empty() + identifiers_of(rankings.short@) == identifiers_of(
            rankings.short@,
        ));
    }
    ids
}

/// The identifiers of a bucket, in rank order.
pub open spec fn identifiers_of(bucket: Seq<RankedEntity>) -> Seq<String> {
    Seq::new(bucket.len(), |i: int| bucket[i].spotify_id)
}

/// Appends the identifiers of one bucket to `ids`.
fn push_identifiers(ids: &mut Vec<String>, bucket: &Vec<RankedEntity>)
    ensures
        final(ids)@ == old(ids)@ + identifiers_of(bucket@),
{
    let ghost start = ids@;
    let ghost all = identifiers_of(bucket@);
    let mut i: usize = 0;
    while i < bucket.len()
        invariant
            i <= bucket.len(),
            all == identifiers_of(bucket@),
            ids@ == start + all.take(i as int),
        decreases bucket.len() - i,
    {
        let id = bucket[i].spotify_id.clone();
        proof {
            assert(all.take(i + 1) == all.take(i as int).push(all[i as int]));
            assert(start + all.take(i + 1) == (start + all.take(i as int)).push(id));
        }
        ids.push(id);
        i += 1;
    }
    proof {
        assert(all.take(bucket.len() as int) == all);
    }
}

} // verus!
