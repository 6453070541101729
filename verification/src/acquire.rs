//! Fan-in of the six "top items" responses into one raw snapshot.
//!
//! The embedding program issues one request per cell of the grid, all at
//! once, and hands the tagged outcomes over in the order in which they
//! arrived. The first failure in that order fails the whole acquisition, and
//! so does a cell that was not answered exactly once.

use vstd::prelude::*;
use crate::error::{FetchError, FetchErrorKind, FetchErrorView};
use crate::models::{RankedEntity, TimeFrames};
use crate::timeframe::{EntityType, Timeframe};
use crate::urls::{get_top_entities_url, top_entities_url};

verus! {

/// The outcome of the request for one cell: the identifiers that upstream
/// ranked, best first, or why there are none.
#[derive(Debug, PartialEq, Eq)]
pub struct TopEntitiesResponse {
    pub entity_type: EntityType,
    pub timeframe: Timeframe,
    pub items: Result<Vec<String>, FetchError>,
}

/// A raw snapshot: for each entity type and timeframe the ranked
/// identifiers, not yet resolved into records.
#[derive(Debug, PartialEq, Eq)]
pub struct TopEntities {
    pub last_update_time: chrono::NaiveDateTime,
    pub tracks: TimeFrames<RankedEntity>,
    pub artists: TimeFrames<RankedEntity>,
}

/// One request of the fan-out: the cell and the address to get.
#[derive(Debug, PartialEq, Eq)]
pub struct TopEntitiesRequest {
    pub entity_type: EntityType,
    pub timeframe: Timeframe,
    pub url: String,
}

/// The six cells of the grid, tracks before artists and, within each, short,
/// medium, long.
pub open spec fn grid_cells() -> Seq<(EntityType, Timeframe)> {
    seq![
        (EntityType::Tracks, Timeframe::Short),
        (EntityType::Tracks, Timeframe::Medium),
        (EntityType::Tracks, Timeframe::Long),
        (EntityType::Artists, Timeframe::Short),
        (EntityType::Artists, Timeframe::Medium),
        (EntityType::Artists, Timeframe::Long),
    ]
}

/// The failure of a cell: the failure of its request, with the cell put
/// before its context.
pub open spec fn cell_failure(
    entity_type: EntityType,
    timeframe: Timeframe,
    error: FetchErrorView,
) -> FetchErrorView {
    FetchErrorView {
        kind: error.kind,
        context: entity_type.spec_name() + " "@ + timeframe.spec_name() + ": "@ + error.context,
    }
}

/// The failure of the first response, in arrival order, that failed.
pub open spec fn first_failure(responses: Seq<TopEntitiesResponse>) -> Option<FetchErrorView>
    decreases responses.len(),
{
    if responses.len() == 0 {
        None
    } else {
        match first_failure(responses.drop_last()) {
            Some(failure) => Some(failure),
            None => match responses.last().items {
                Err(error) => Some(
                    cell_failure(responses.last().entity_type, responses.last().timeframe, error@),
                ),
                Ok(_) => None,
            },
        }
    }
}

/// The number of responses tagged with one cell.
pub open spec fn answers_of(
    responses: Seq<TopEntitiesResponse>,
    entity_type: EntityType,
    timeframe: Timeframe,
) -> nat
    decreases responses.len(),
{
    if responses.len() == 0 {
        0
    } else {
        let before = answers_of(responses.drop_last(), entity_type, timeframe);
        if responses.last().entity_type == entity_type && responses.last().timeframe
            == timeframe {
            before + 1
        } else {
            before
        }
    }
}

/// The first cell, in grid order from the cell with the number `from` on,
/// that was not answered exactly once.
pub open spec fn first_unanswered_from(responses: Seq<TopEntitiesResponse>, from: int) -> Option<
    int,
>
    decreases 6 - from,
{
    if from < 0 || from >= 6 {
        None
    } else if answers_of(responses, grid_cells()[from].0, grid_cells()[from].1) != 1 {
        Some(from)
    } else {
        first_unanswered_from(responses, from + 1)
    }
}

/// The failure of a cell that was answered `answers` times, not once: a
/// network error where it was never answered, an upstream error where it
/// was answered more than once.
pub open spec fn unanswered_failure(
    entity_type: EntityType,
    timeframe: Timeframe,
    answers: nat,
) -> FetchErrorView {
    if answers == 0 {
        cell_failure(
            entity_type,
            timeframe,
            FetchErrorView { kind: FetchErrorKind::NetworkError, context: "no answer"@ },
        )
    } else {
        cell_failure(
            entity_type,
            timeframe,
            FetchErrorView {
                kind: FetchErrorKind::UpstreamError,
                context: "more than one answer"@,
            },
        )
    }
}

/// Why an acquisition fails, if it does: the first failed response in
/// arrival order; else the first cell in grid order that was not answered
/// exactly once.
pub open spec fn acquisition_failure(responses: Seq<TopEntitiesResponse>) -> Option<
    FetchErrorView,
> {
    match first_failure(responses) {
        Some(failure) => Some(failure),
        None => match first_unanswered_from(responses, 0) {
            Some(k) => Some(
                unanswered_failure(
                    grid_cells()[k].0,
                    grid_cells()[k].1,
                    answers_of(responses, grid_cells()[k].0, grid_cells()[k].1),
                ),
            ),
            None => None,
        },
    }
}

/// The identifiers of one cell: those of the successful responses tagged
/// with it, in arrival order, each response's in upstream order.
pub open spec fn cell_items(
    responses: Seq<TopEntitiesResponse>,
    entity_type: EntityType,
    timeframe: Timeframe,
) -> Seq<String>
    decreases responses.len(),
{
    if responses.len() == 0 {
        Seq::empty()
    } else {
        let before = cell_items(responses.drop_last(), entity_type, timeframe);
        let response = responses.last();
        match response.items {
            Ok(ids) if response.entity_type == entity_type && response.timeframe == timeframe
                => before + ids@,
            _ => before,
        }
    }
}

/// The identifiers with their ranks: the rank of each is its position,
/// reduced to 16 bits.
pub open spec fn ranked(ids: Seq<String>) -> Seq<RankedEntity> {
    Seq::new(
        ids.len(),
        |i: int| RankedEntity { spotify_id: ids[i], ranking: (i % 0x10000) as u16 },
    )
}

/// The requests of one acquisition: one per cell of the grid, in grid
/// order, each with the address of its cell.
pub fn top_entities_requests() -> (requests: Vec<TopEntitiesRequest>)
    ensures
        requests.len() == 6,
        forall|k: int|
            0 <= k < 6 ==> (#[trigger] requests[k]).entity_type == grid_cells()[k].0 && requests[k].timeframe
                == grid_cells()[k].1 && requests[k].url@ == top_entities_url(
                grid_cells()[k].0.spec_name(),
                grid_cells()[k].1.spec_name(),
            ),
{
    let mut requests: Vec<TopEntitiesRequest> = Vec::new();
    requests.push(request_for(EntityType::Tracks, Timeframe::Short));
    requests.push(request_for(EntityType::Tracks, Timeframe::Medium));
    requests.push(request_for(EntityType::Tracks, Timeframe::Long));
    requests.push(request_for(EntityType::Artists, Timeframe::Short));
    requests.push(request_for(EntityType::Artists, Timeframe::Medium));
    requests.push(request_for(EntityType::Artists, Timeframe::Long));
    requests
}

/// The request for one cell.
pub fn request_for(entity_type: EntityType, timeframe: Timeframe) -> (request: TopEntitiesRequest)
    ensures
        request.entity_type == entity_type,
        request.timeframe == timeframe,
        request.url@ == top_entities_url(entity_type.spec_name(), timeframe.spec_name()),
{
    TopEntitiesRequest {
        entity_type,
        timeframe,
        url: get_top_entities_url(entity_type.name(), timeframe.name()),
    }
}

/// Puts the cell before the context of `error`.
fn in_cell(entity_type: EntityType, timeframe: Timeframe, error: FetchError) -> (located: FetchError)
    ensures
        located@ == cell_failure(entity_type, timeframe, error@),
{
    let mut context = entity_type.name().to_owned();
    context.append(" ");
    context.append(timeframe.name());
    context.append(": ");
    context.append(error.context.as_str());
    FetchError { kind: error.kind, context }
}

/// Counts the responses tagged with one cell.
fn count_answers(
    responses: &Vec<TopEntitiesResponse>,
    entity_type: EntityType,
    timeframe: Timeframe,
) -> (answers: usize)
    ensures
        answers == answers_of(responses@, entity_type, timeframe),
{
    let mut answers: usize = 0;
    let mut i: usize = 0;
    while i < responses.len()
        invariant
            i <= responses.len(),
            answers <= i,
            answers == answers_of(responses@.take(i as int), entity_type, timeframe),
        decreases responses.len() - i,
    {
        proof {
            assert(responses@.take(i + 1).drop_last() == responses@.take(i as int));
            assert(responses@.take(i + 1).last() == responses@[i as int]);
        }
        if responses[i].entity_type == entity_type && responses[i].timeframe == timeframe {
            answers += 1;
        }
        i += 1;
    }
    proof {
        assert(responses@.take(responses.len() as int) == responses@);
    }
    answers
}

/// The cells of the grid, in grid order.
fn cells() -> (cells: Vec<(EntityType, Timeframe)>)
    ensures
        cells@ == grid_cells(),
{
    let mut cells: Vec<(EntityType, Timeframe)> = Vec::new();
    cells.push((EntityType::Tracks, Timeframe::Short));
    cells.push((EntityType::Tracks, Timeframe::Medium));
    cells.push((EntityType::Tracks, Timeframe::Long));
    cells.push((EntityType::Artists, Timeframe::Short));
    cells.push((EntityType::Artists, Timeframe::Medium));
    cells.push((EntityType::Artists, Timeframe::Long));
    proof {
        assert(cells@ =~= grid_cells());
    }
    cells
}

/// The failure of the first cell, in grid order, that was not answered
/// exactly once.
fn unanswered_cell(responses: &Vec<TopEntitiesResponse>) -> (failure: Option<FetchError>)
    ensures
        match first_unanswered_from(responses@, 0) {
            Some(k) => failure matches Some(error) && error@ == unanswered_failure(
                grid_cells()[k].0,
                grid_cells()[k].1,
                answers_of(responses@, grid_cells()[k].0, grid_cells()[k].1),
            ),
            None => failure is None,
        },
{
    let cells = cells();
    let mut k: usize = 0;
    while k < 6
        invariant
            k <= 6,
            cells@ == grid_cells(),
            first_unanswered_from(responses@, 0) == first_unanswered_from(responses@, k as int),
        decreases 6 - k,
    {
        let entity_type = cells[k].0;
        let timeframe = cells[k].1;
        let answers = count_answers(responses, entity_type, timeframe);
        if answers == 0 {
            return Some(
                in_cell(
                    entity_type,
                    timeframe,
                    FetchError::new(FetchErrorKind::NetworkError, "no answer"),
                ),
            );
        }
        if answers > 1 {
            return Some(
                in_cell(
                    entity_type,
                    timeframe,
                    FetchError::new(FetchErrorKind::UpstreamError, "more than one answer"),
                ),
            );
        }
        k += 1;
    }
    None
}

/// Appends `ids` to the sequence of `timeframe`, each with its position in
/// that sequence as its rank.
fn append_ranked(frames: &mut TimeFrames<RankedEntity>, timeframe: Timeframe, ids: Vec<String>, Ghost(
    before,
): Ghost<Seq<String>>)
    requires
        old(frames).bucket(timeframe) == ranked(before),
    ensures
        final(frames).bucket(timeframe) == ranked(before + ids@),
        forall|other: Timeframe|
            other != timeframe ==> #[trigger] final(frames).bucket(other) == old(frames).bucket(
                other,
            ),
{
    let ghost start = *frames;
    for id in it: ids.into_iter()
        invariant
            it.seq() == ids@,
            frames.bucket(timeframe) == ranked(before + ids@.take(it.index() as int)),
            forall|other: Timeframe|
                other != timeframe ==> #[trigger] frames.bucket(other) == start.bucket(other),
    {
        let ghost sofar = before + ids@.take(it.index() as int);
        let position = frames.get(timeframe).len();
        let entity = RankedEntity { spotify_id: id, ranking: (position % 0x10000) as u16 };
        let ghost earlier = *frames;
        frames.push(timeframe, entity);
        proof {
            assert(before + ids@.take(it.index() + 1) == sofar.push(id));
            assert(earlier.bucket(timeframe).push(entity) == ranked(sofar.push(id)));
            assert(frames.bucket(timeframe) == earlier.bucket(timeframe).push(entity));
            assert forall|other: Timeframe| other != timeframe implies #[trigger] frames.bucket(
                other,
            ) == start.bucket(other) by {
                assert(frames.bucket(other) == earlier.bucket(other));
            }
        }
    }
    proof {
        assert(ids@.take(ids@.len() as int) == ids@);
    }
}

/// Joins the responses of one acquisition, captured at `last_update_time`,
/// into a raw snapshot.
///
/// If any response failed, the result is the failure of the first such
/// response in arrival order, with its cell put before its context, and no
/// snapshot. If none failed but a cell of the grid was not answered exactly
/// once, the result is the failure of the first such cell in grid order:
/// a network error for a cell without an answer, an upstream error for a
/// cell with more than one. Otherwise every one of the six sequences of the
/// snapshot holds the identifiers of the one response tagged with its cell,
/// in upstream order, ranked by position.
pub fn collect_top_entities(
    last_update_time: chrono::NaiveDateTime,
    responses: Vec<TopEntitiesResponse>,
) -> (result: Result<TopEntities, FetchError>)
    ensures
        match acquisition_failure(responses@) {
            Some(failure) => result matches Err(error) && error@ == failure,
            None => result matches Ok(snapshot) && snapshot.last_update_time == last_update_time
                && (forall|tf: Timeframe| #[trigger]
                snapshot.tracks.bucket(tf) == ranked(
                    cell_items(responses@, EntityType::Tracks, tf),
                )) && (forall|tf: Timeframe| #[trigger]
                snapshot.artists.bucket(tf) == ranked(
                    cell_items(responses@, EntityType::Artists, tf),
                )),
        },
{
    let unanswered = unanswered_cell(&responses);
    let mut tracks: TimeFrames<RankedEntity> = TimeFrames::new();
    let mut artists: TimeFrames<RankedEntity> = TimeFrames::new();
    proof {
        assert(responses@.take(0) == Seq::<TopEntitiesResponse>::empty());
        assert forall|tf: Timeframe| #[trigger] tracks.bucket(tf) == ranked(Seq::<String>::empty()) by {
            assert(ranked(Seq::<String>::empty()) == Seq::<RankedEntity>::empty());
        }
        assert forall|tf: Timeframe| #[trigger] artists.bucket(tf) == ranked(Seq::<String>::empty()) by {
            assert(ranked(Seq::<String>::empty()) == Seq::<RankedEntity>::empty());
        }
    }
    for response in it: responses.into_iter()
        invariant
            it.seq() == responses@,
            first_failure(responses@.take(it.index() as int)) is None,
            forall|tf: Timeframe| #[trigger]
                tracks.bucket(tf) == ranked(
                    cell_items(responses@.take(it.index() as int), EntityType::Tracks, tf),
                ),
            forall|tf: Timeframe| #[trigger]
                artists.bucket(tf) == ranked(
                    cell_items(responses@.take(it.index() as int), EntityType::Artists, tf),
                ),
    {
        let ghost seen = responses@.take(it.index() as int);
        let ghost next = responses@.take(it.index() + 1);
        proof {
            assert(next.drop_last() == seen);
            assert(next.last() == response);
        }
        let TopEntitiesResponse { entity_type, timeframe, items } = response;
        match items {
            Err(error) => {
                proof {
                    assert(first_failure(next) == Some(cell_failure(entity_type, timeframe, error@)));
                    lemma_first_failure_of_prefix(responses@, it.index() + 1);
                }
                return Err(in_cell(entity_type, timeframe, error));
            },
            Ok(ids) => {
                let ghost before = cell_items(seen, entity_type, timeframe);
                let ghost tracks_before = tracks;
                let ghost artists_before = artists;
                match entity_type {
                    EntityType::Tracks => {
                        proof {
                            assert(tracks.bucket(timeframe) == ranked(before));
                        }
                        append_ranked(&mut tracks, timeframe, ids, Ghost(before));
                    },
                    EntityType::Artists => {
                        proof {
                            assert(artists.bucket(timeframe) == ranked(before));
                        }
                        append_ranked(&mut artists, timeframe, ids, Ghost(before));
                    },
                }
                proof {
                    assert forall|tf: Timeframe| #[trigger]
                        tracks.bucket(tf) == ranked(
                            cell_items(next, EntityType::Tracks, tf),
                        ) by {
                        assert(tracks_before.bucket(tf) == ranked(
                            cell_items(seen, EntityType::Tracks, tf),
                        ));
                    }
                    assert forall|tf: Timeframe| #[trigger]
                        artists.bucket(tf) == ranked(
                            cell_items(next, EntityType::Artists, tf),
                        ) by {
                        assert(artists_before.bucket(tf) == ranked(
                            cell_items(seen, EntityType::Artists, tf),
                        ));
                    }
                }
            },
        }
    }
    proof {
        assert(responses@.take(responses@.len() as int) == responses@);
    }
    match unanswered {
        Some(error) => Err(error),
        None => Ok(TopEntities { last_update_time, tracks, artists }),
    }
}

/// A failure among the first `n` responses is the first failure of all.
pub proof fn lemma_first_failure_of_prefix(responses: Seq<TopEntitiesResponse>, n: int)
    requires
        0 <= n <= responses.len(),
        first_failure(responses.take(n)) is Some,
    ensures
        first_failure(responses) == first_failure(responses.take(n)),
    decreases responses.len() - n,
{
    if n < responses.len() {
        let longer = responses.take(n + 1);
        assert(longer.drop_last() == responses.take(n));
        lemma_first_failure_of_prefix(responses, n + 1);
    } else {
        assert(responses.take(n) == responses);
    }
}

} // verus!
