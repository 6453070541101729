//! Assembly of the externally visible snapshot: resolved records put back
//! into the timeframe buckets of their rankings.
//!
//! Every bucket is assembled in rank order: ranks ascend, and identifiers of
//! equal rank keep the order in which the ranking holds them.

use vstd::prelude::*;
use crate::acquire::TopEntities;
use crate::error::{FetchError, FetchErrorKind};
use crate::models::{Artist, RankedEntity, StatsSnapshot, TimeFrames, Track};
use crate::rank_order::{
    in_rank_order, is_rank_order_of, lemma_ascending_is_rank_ordered,
    lemma_each_rank_at_its_position, lemma_rank_ordered, of_rank, rank_ordered,
};
use crate::timeframe::Timeframe;

verus! {

/// The position of the first pair of `resolved` whose identifier reads
/// `id`, if there is one.
pub open spec fn resolution_of<T>(resolved: Seq<(String, T)>, id: Seq<char>) -> Option<int>
    decreases resolved.len(),
{
    if resolved.len() == 0 {
        None
    } else {
        match resolution_of(resolved.drop_last(), id) {
            Some(position) => Some(position),
            None => if resolved.last().0@ == id {
                Some(resolved.len() - 1)
            } else {
                None
            },
        }
    }
}

/// The position of the first ranked identifier without a resolved record,
/// if there is one.
pub open spec fn first_unresolved<T>(ranked: Seq<RankedEntity>, resolved: Seq<(String, T)>) -> Option<
    int,
>
    decreases ranked.len(),
{
    if ranked.len() == 0 {
        None
    } else {
        match first_unresolved(ranked.drop_last(), resolved) {
            Some(position) => Some(position),
            None => if resolution_of(resolved, ranked.last().spotify_id@) is None {
                Some(ranked.len() - 1)
            } else {
                None
            },
        }
    }
}

/// The records of one bucket: for each ranked identifier, in rank order, the
/// record it resolves to.
pub open spec fn assembled<T>(ranked: Seq<RankedEntity>, resolved: Seq<(String, T)>) -> Seq<T> {
    Seq::new(
        ranked.len(),
        |i: int| resolved[resolution_of(resolved, ranked[i].spotify_id@)->Some_0].1,
    )
}

/// The identifier for which the assembly of `rankings` fails: the first
/// unresolved one, in rank order, of the short bucket, else of the medium
/// one, else of the long one.
pub open spec fn missing_identifier<T>(
    rankings: TimeFrames<RankedEntity>,
    resolved: Seq<(String, T)>,
) -> Option<Seq<char>> {
    match first_unresolved(rank_ordered(rankings.short@), resolved) {
        Some(i) => Some(rank_ordered(rankings.short@)[i].spotify_id@),
        None => match first_unresolved(rank_ordered(rankings.medium@), resolved) {
            Some(i) => Some(rank_ordered(rankings.medium@)[i].spotify_id@),
            None => match first_unresolved(rank_ordered(rankings.long@), resolved) {
                Some(i) => Some(rank_ordered(rankings.long@)[i].spotify_id@),
                None => None,
            },
        },
    }
}

/// Display in rank order: for a bucket that holds stored rows in rank order,
/// the ranks of the rows being the numbers from 0 up to their number, each
/// exactly once, position `j` of the assembled bucket holds the record
/// resolved for the row ranked `j`.
pub proof fn lemma_assembled_in_rank_order<T>(
    bucket: Seq<RankedEntity>,
    rows: Seq<RankedEntity>,
    resolved: Seq<(String, T)>,
)
    requires
        is_rank_order_of(bucket, rows),
        rows.len() <= 0x10000,
        forall|i: int| 0 <= i < rows.len() ==> (#[trigger] rows[i]).ranking < rows.len(),
        forall|ranking: u16| ranking < rows.len() ==> (#[trigger] of_rank(rows, ranking)).len() == 1,
    ensures
        rank_ordered(bucket) == bucket,
        assembled(rank_ordered(bucket), resolved).len() == rows.len(),
        forall|j: int|
            0 <= j < rows.len() ==> #[trigger] assembled(rank_ordered(bucket), resolved)[j]
                == resolved[resolution_of(
                resolved,
                of_rank(rows, j as u16)[0].spotify_id@,
            )->Some_0].1,
{
    lemma_each_rank_at_its_position(bucket, rows);
    lemma_ascending_is_rank_ordered(bucket);
}

/// A resolution among the first `n` pairs is the resolution among all.
pub proof fn lemma_resolution_of_prefix<T>(resolved: Seq<(String, T)>, id: Seq<char>, n: int)
    requires
        0 <= n <= resolved.len(),
        resolution_of(resolved.take(n), id) is Some,
    ensures
        resolution_of(resolved, id) == resolution_of(resolved.take(n), id),
    decreases resolved.len() - n,
{
    if n < resolved.len() {
        assert(resolved.take(n + 1).drop_last() == resolved.take(n));
        lemma_resolution_of_prefix(resolved, id, n + 1);
    } else {
        assert(resolved.take(n) == resolved);
    }
}

/// A resolution is a position whose identifier reads `id`, and the first
/// such.
pub proof fn lemma_resolution_of<T>(resolved: Seq<(String, T)>, id: Seq<char>)
    ensures
        match resolution_of(resolved, id) {
            Some(position) => 0 <= position < resolved.len() && resolved[position].0@ == id
                && forall|j: int| 0 <= j < position ==> (#[trigger] resolved[j]).0@ != id,
            None => forall|j: int| 0 <= j < resolved.len() ==> (#[trigger] resolved[j]).0@ != id,
        },
    decreases resolved.len(),
{
    if resolved.len() > 0 {
        let init = resolved.drop_last();
        lemma_resolution_of(init, id);
        assert forall|j: int| 0 <= j < init.len() implies init[j] == resolved[j] by {}
        match resolution_of(init, id) {
            Some(position) => {
                assert forall|j: int| 0 <= j < position implies (#[trigger] resolved[j]).0@
                    != id by {
                    assert(init[j].0@ != id);
                }
            },
            None => {
                assert forall|j: int| 0 <= j < init.len() implies (#[trigger] resolved[j]).0@
                    != id by {
                    assert(init[j].0@ != id);
                }
            },
        }
    }
}

/// An unresolved identifier among the first `n` is the first unresolved of
/// all.
pub proof fn lemma_first_unresolved_of_prefix<T>(
    ranked: Seq<RankedEntity>,
    resolved: Seq<(String, T)>,
    n: int,
)
    requires
        0 <= n <= ranked.len(),
        first_unresolved(ranked.take(n), resolved) is Some,
    ensures
        first_unresolved(ranked, resolved) == first_unresolved(ranked.take(n), resolved),
    decreases ranked.len() - n,
{
    if n < ranked.len() {
        assert(ranked.take(n + 1).drop_last() == ranked.take(n));
        lemma_first_unresolved_of_prefix(ranked, resolved, n + 1);
    } else {
        assert(ranked.take(n) == ranked);
    }
}

/// The position of the first pair of `resolved` whose identifier reads as
/// `id` does.
pub fn find_resolution<T>(resolved: &Vec<(String, T)>, id: &String) -> (found: Option<usize>)
    ensures
        match found {
            Some(position) => resolution_of(resolved@, id@) == Some(position as int) && position
                < resolved.len(),
            None => resolution_of(resolved@, id@) is None,
        },
{
    let mut j: usize = 0;
    while j < resolved.len()
        invariant
            j <= resolved.len(),
            resolution_of(resolved@.take(j as int), id@) is None,
        decreases resolved.len() - j,
    {
        proof {
            assert(resolved@.take(j + 1).drop_last() == resolved@.take(j as int));
            assert(resolved@.take(j + 1).last() == resolved@[j as int]);
        }
        if resolved[j].0 == *id {
            proof {
                lemma_resolution_of_prefix(resolved@, id@, j + 1);
            }
            return Some(j);
        }
        j += 1;
    }
    proof {
        assert(resolved@.take(resolved.len() as int) == resolved@);
    }
    None
}

/// Assembles one bucket: for each ranked identifier, in rank order, a copy
/// of the record that `resolved` pairs with it. The first identifier, in
/// rank order, that `resolved` does not hold fails the assembly with
/// `MissingResolution` and that identifier as context.
pub fn assemble_bucket<T: Clone>(ranked: &Vec<RankedEntity>, resolved: &Vec<(String, T)>) -> (result:
    Result<Vec<T>, FetchError>)
    ensures
        match first_unresolved(rank_ordered(ranked@), resolved@) {
            Some(i) => result matches Err(error) && error.kind
                == FetchErrorKind::MissingResolution && error.context@ == rank_ordered(
                ranked@,
            )[i].spotify_id@,
            None => result matches Ok(records) && records.len() == ranked.len() && forall|i: int|
                0 <= i < ranked.len() ==> cloned(
                    assembled(rank_ordered(ranked@), resolved@)[i],
                    #[trigger] records[i],
                ),
        },
{
    let ordered = in_rank_order(ranked);
    let mut records: Vec<T> = Vec::new();
    let mut i: usize = 0;
    proof {
        assert(ordered@.take(0) == Seq::<RankedEntity>::empty());
    }
    while i < ordered.len()
        invariant
            i <= ordered.len(),
            records.len() == i,
            ordered@ == rank_ordered(ranked@),
            ordered.len() == ranked.len(),
            first_unresolved(ordered@.take(i as int), resolved@) is None,
            forall|k: int|
                0 <= k < i ==> cloned(assembled(ordered@, resolved@)[k], #[trigger] records[k]),
        decreases ordered.len() - i,
    {
        proof {
            assert(ordered@.take(i + 1).drop_last() == ordered@.take(i as int));
            assert(ordered@.take(i + 1).last() == ordered@[i as int]);
        }
        match find_resolution(resolved, &ordered[i].spotify_id) {
            Some(position) => {
                let record = resolved[position].1.clone();
                records.push(record);
            },
            None => {
                proof {
                    lemma_first_unresolved_of_prefix(ordered@, resolved@, i + 1);
                }
                return Err(
                    FetchError::new(
                        FetchErrorKind::MissingResolution,
                        ordered[i].spotify_id.as_str(),
                    ),
                );
            },
        }
        i += 1;
    }
    proof {
        assert(ordered@.take(ordered.len() as int) == ordered@);
    }
    Ok(records)
}

/// Assembles the three buckets of one entity type, short, medium, long,
/// each in rank order. The first unresolved identifier in that order fails
/// the assembly.
pub fn assemble_frames<T: Clone>(rankings: &TimeFrames<RankedEntity>, resolved: &Vec<(String, T)>) -> (result:
    Result<TimeFrames<T>, FetchError>)
    ensures
        match missing_identifier(*rankings, resolved@) {
            Some(id) => result matches Err(error) && error.kind
                == FetchErrorKind::MissingResolution && error.context@ == id,
            None => result matches Ok(frames) && forall|tf: Timeframe|
                #![trigger frames.bucket(tf)]
                frames.bucket(tf).len() == rankings.bucket(tf).len() && forall|i: int|
                    0 <= i < rankings.bucket(tf).len() ==> cloned(
                        assembled(rank_ordered(rankings.bucket(tf)), resolved@)[i],
                        #[trigger] frames.bucket(tf)[i],
                    ),
        },
{
    let short = match assemble_bucket(&rankings.short, resolved) {
        Ok(records) => records,
        Err(error) => {
            return Err(error);
        },
    };
    let medium = match assemble_bucket(&rankings.medium, resolved) {
        Ok(records) => records,
        Err(error) => {
            return Err(error);
        },
    };
    let long = match assemble_bucket(&rankings.long, resolved) {
        Ok(records) => records,
        Err(error) => {
            return Err(error);
        },
    };
    Ok(TimeFrames { short, medium, long })
}

/// Assembles the snapshot of a raw snapshot from the records resolved for
/// its identifiers. The capture instant is kept; every bucket holds, in rank
/// order, whatever the order of the ranking it is given, the records that
/// its ranked identifiers resolve to. If an
/// identifier has no record the failure is `MissingResolution` with that
/// identifier as context: the first such among the artists, in the order
/// short, medium, long, else the first among the tracks.
pub fn assemble_snapshot(
    rankings: &TopEntities,
    tracks: &Vec<(String, Track)>,
    artists: &Vec<(String, Artist)>,
) -> (result: Result<StatsSnapshot, FetchError>)
    ensures
        match missing_identifier(rankings.artists, artists@) {
            Some(id) => result matches Err(error) && error.kind
                == FetchErrorKind::MissingResolution && error.context@ == id,
            None => match missing_identifier(rankings.tracks, tracks@) {
                Some(id) => result matches Err(error) && error.kind
                    == FetchErrorKind::MissingResolution && error.context@ == id,
                None => result matches Ok(snapshot) && snapshot.last_update_time
                    == rankings.last_update_time && (forall|tf: Timeframe| #[trigger]
                    snapshot.tracks.bucket(tf) == assembled(
                        rank_ordered(rankings.tracks.bucket(tf)),
                        tracks@,
                    )) && (forall|tf: Timeframe| #[trigger]
                    snapshot.artists.bucket(tf) == assembled(
                        rank_ordered(rankings.artists.bucket(tf)),
                        artists@,
                    )),
            },
        },
{
    let artist_frames = match assemble_frames(&rankings.artists, artists) {
        Ok(frames) => frames,
        Err(error) => {
            return Err(error);
        },
    };
    let track_frames = match assemble_frames(&rankings.tracks, tracks) {
        Ok(frames) => frames,
        Err(error) => {
            return Err(error);
        },
    };
    proof {
        assert forall|tf: Timeframe| #[trigger]
            track_frames.bucket(tf) == assembled(
                rank_ordered(rankings.tracks.bucket(tf)),
                tracks@,
            ) by {
            let expected = assembled(rank_ordered(rankings.tracks.bucket(tf)), tracks@);
            lemma_rank_ordered(rankings.tracks.bucket(tf));
            assert forall|i: int| 0 <= i < expected.len() implies track_frames.bucket(tf)[i]
                == expected[i] by {
                assert(cloned(expected[i], track_frames.bucket(tf)[i]));
            }
            assert(track_frames.bucket(tf) =~= expected);
        }
        assert forall|tf: Timeframe| #[trigger]
            artist_frames.bucket(tf) == assembled(
                rank_ordered(rankings.artists.bucket(tf)),
                artists@,
            ) by {
            let expected = assembled(rank_ordered(rankings.artists.bucket(tf)), artists@);
            lemma_rank_ordered(rankings.artists.bucket(tf));
            assert forall|i: int| 0 <= i < expected.len() implies artist_frames.bucket(tf)[i]
                == expected[i] by {
                assert(cloned(expected[i], artist_frames.bucket(tf)[i]));
            }
            assert(artist_frames.bucket(tf) =~= expected);
        }
    }
    Ok(
        StatsSnapshot {
            last_update_time: rankings.last_update_time,
            tracks: track_frames,
            artists: artist_frames,
        },
    )
}

} // verus!
