//! What holds of every acquisition: one failure fails it all, a cell that
//! was not answered exactly once fails it too, and an acquisition that does
//! not fail has for every cell of the grid exactly the items that were
//! returned for it.

use vstd::prelude::*;
use crate::acquire::{
    acquisition_failure, answers_of, cell_failure, cell_items, first_failure,
    first_unanswered_from, grid_cells, TopEntitiesResponse,
};
use crate::timeframe::{EntityType, Timeframe};

verus! {

/// Every cell of the grid occurs in `grid_cells()`, and exactly once.
pub proof fn lemma_grid_is_complete(entity_type: EntityType, timeframe: Timeframe)
    ensures
        grid_cells().len() == 6,
        exists|k: int| 0 <= k < 6 && grid_cells()[k] == (entity_type, timeframe),
        forall|j: int, k: int|
            0 <= j < 6 && 0 <= k < 6 && grid_cells()[j] == grid_cells()[k] ==> j == k,
{
    let k: int = match entity_type {
        EntityType::Tracks => 0int,
        EntityType::Artists => 3int,
    } + match timeframe {
        Timeframe::Short => 0int,
        Timeframe::Medium => 1int,
        Timeframe::Long => 2int,
    };
    assert(grid_cells()[k] == (entity_type, timeframe));
}

/// The first failure is the failure of a response before which no response
/// failed; where there is none, no response failed.
pub proof fn lemma_first_failure(responses: Seq<TopEntitiesResponse>)
    ensures
        match first_failure(responses) {
            Some(failure) => exists|i: int|
                0 <= i < responses.len() && is_failure_of(#[trigger] responses[i], failure)
                    && forall|j: int| 0 <= j < i ==> (#[trigger] responses[j]).items is Ok,
            None => forall|i: int| 0 <= i < responses.len() ==> (#[trigger] responses[i]).items is Ok,
        },
    decreases responses.len(),
{
    if responses.len() > 0 {
        let init = responses.drop_last();
        lemma_first_failure(init);
        assert forall|i: int| 0 <= i < init.len() implies init[i] == responses[i] by {}
        match first_failure(init) {
            Some(failure) => {
                let i = choose|i: int|
                    0 <= i < init.len() && is_failure_of(#[trigger] init[i], failure) && forall|
                        j: int,
                    | 0 <= j < i ==> (#[trigger] init[j]).items is Ok;
                assert(is_failure_of(responses[i], failure));
                assert forall|j: int| 0 <= j < i implies (#[trigger] responses[j]).items is Ok by {
                    assert(init[j].items is Ok);
                }
            },
            None => {
                assert forall|j: int| 0 <= j < init.len() implies (#[trigger] responses[j]).items is Ok by {
                    assert(init[j].items is Ok);
                }
                match responses.last().items {
                    Err(error) => {
                        let i = responses.len() - 1;
                        assert(is_failure_of(responses[i], first_failure(responses)->Some_0));
                    },
                    Ok(_) => {},
                }
            },
        }
    }
}

/// Whether `response` failed, and `failure` is its failure with its cell put
/// before its context.
pub open spec fn is_failure_of(response: TopEntitiesResponse, failure: crate::error::FetchErrorView) -> bool {
    response.items matches Err(error) && failure == cell_failure(
        response.entity_type,
        response.timeframe,
        error@,
    )
}

/// Fail-fast: if any one response failed, the acquisition fails, whatever
/// the other responses hold.
pub proof fn lemma_one_failure_fails_all(responses: Seq<TopEntitiesResponse>, i: int)
    requires
        0 <= i < responses.len(),
        responses[i].items is Err,
    ensures
        acquisition_failure(responses) is Some,
{
    lemma_first_failure(responses);
}

/// The first cell not answered exactly once is such a cell, and every cell
/// before it in grid order was answered exactly once; where there is none,
/// every cell from `from` on was.
pub proof fn lemma_first_unanswered(responses: Seq<TopEntitiesResponse>, from: int)
    requires
        0 <= from <= 6,
    ensures
        match first_unanswered_from(responses, from) {
            Some(k) => from <= k < 6 && answers_of(
                responses,
                grid_cells()[k].0,
                grid_cells()[k].1,
            ) != 1 && forall|j: int|
                from <= j < k ==> answers_of(
                    responses,
                    (#[trigger] grid_cells()[j]).0,
                    grid_cells()[j].1,
                ) == 1,
            None => forall|j: int|
                from <= j < 6 ==> answers_of(
                    responses,
                    (#[trigger] grid_cells()[j]).0,
                    grid_cells()[j].1,
                ) == 1,
        },
    decreases 6 - from,
{
    if from < 6 {
        lemma_first_unanswered(responses, from + 1);
    }
}

/// No partial snapshot: if any cell of the grid was not answered, or was
/// answered more than once, the acquisition fails.
pub proof fn lemma_unanswered_cell_fails(
    responses: Seq<TopEntitiesResponse>,
    entity_type: EntityType,
    timeframe: Timeframe,
)
    requires
        answers_of(responses, entity_type, timeframe) != 1,
    ensures
        acquisition_failure(responses) is Some,
{
    lemma_grid_is_complete(entity_type, timeframe);
    lemma_first_unanswered(responses, 0);
    let k = choose|k: int| 0 <= k < 6 && grid_cells()[k] == (entity_type, timeframe);
    assert(grid_cells()[k].0 == entity_type && grid_cells()[k].1 == timeframe);
}

/// A cell answered exactly once has one response, and no other response is
/// tagged with it.
pub proof fn lemma_answered_once(
    responses: Seq<TopEntitiesResponse>,
    entity_type: EntityType,
    timeframe: Timeframe,
)
    ensures
        answers_of(responses, entity_type, timeframe) == 0 ==> forall|i: int|
            0 <= i < responses.len() ==> !((#[trigger] responses[i]).entity_type == entity_type
                && responses[i].timeframe == timeframe),
        answers_of(responses, entity_type, timeframe) == 1 ==> exists|i: int|
            0 <= i < responses.len() && is_only_answer(responses, i, entity_type, timeframe),
    decreases responses.len(),
{
    if responses.len() > 0 {
        let init = responses.drop_last();
        let last = responses.len() - 1;
        lemma_answered_once(init, entity_type, timeframe);
        assert forall|i: int| 0 <= i < init.len() implies init[i] == responses[i] by {}
        assert(responses.last() == responses[last]);
        let tagged = responses[last].entity_type == entity_type && responses[last].timeframe
            == timeframe;
        if answers_of(responses, entity_type, timeframe) == 0 {
            assert forall|i: int| 0 <= i < responses.len() implies !((
            #[trigger] responses[i]).entity_type == entity_type && responses[i].timeframe
                == timeframe) by {
                if i < last {
                    assert(!(init[i].entity_type == entity_type && init[i].timeframe
                        == timeframe));
                }
            }
        }
        if answers_of(responses, entity_type, timeframe) == 1 {
            if tagged {
                assert forall|j: int| 0 <= j < responses.len() && j != last implies !((
                #[trigger] responses[j]).entity_type == entity_type && responses[j].timeframe
                    == timeframe) by {
                    assert(!(init[j].entity_type == entity_type && init[j].timeframe
                        == timeframe));
                }
                assert(is_only_answer(responses, last, entity_type, timeframe));
            } else {
                let i = choose|i: int|
                    0 <= i < init.len() && is_only_answer(init, i, entity_type, timeframe);
                assert forall|j: int| 0 <= j < responses.len() && j != i implies !((
                #[trigger] responses[j]).entity_type == entity_type && responses[j].timeframe
                    == timeframe) by {
                    if j < last {
                        assert(!(init[j].entity_type == entity_type && init[j].timeframe
                            == timeframe));
                    }
                }
                assert(is_only_answer(responses, i, entity_type, timeframe));
            }
        }
    }
}

/// Whether the response with the number `i` is tagged with the cell and no
/// other response is.
pub open spec fn is_only_answer(
    responses: Seq<TopEntitiesResponse>,
    i: int,
    entity_type: EntityType,
    timeframe: Timeframe,
) -> bool {
    &&& 0 <= i < responses.len()
    &&& responses[i].entity_type == entity_type
    &&& responses[i].timeframe == timeframe
    &&& forall|j: int|
        0 <= j < responses.len() && j != i ==> !((#[trigger] responses[j]).entity_type
            == entity_type && responses[j].timeframe == timeframe)
}

/// All six or nothing: an acquisition that does not fail has, for every
/// cell of the grid, exactly one response, that response succeeded, and the
/// cell's items are its items in upstream order, whenever it arrived.
pub proof fn lemma_complete_acquisition(
    responses: Seq<TopEntitiesResponse>,
    entity_type: EntityType,
    timeframe: Timeframe,
)
    requires
        acquisition_failure(responses) is None,
    ensures
        exists|i: int|
            is_only_answer(responses, i, entity_type, timeframe) && (
            #[trigger] responses[i]).items is Ok && cell_items(responses, entity_type, timeframe)
                == responses[i].items->Ok_0@,
{
    lemma_first_failure(responses);
    lemma_first_unanswered(responses, 0);
    lemma_grid_is_complete(entity_type, timeframe);
    let k = choose|k: int| 0 <= k < 6 && grid_cells()[k] == (entity_type, timeframe);
    assert(grid_cells()[k].0 == entity_type && grid_cells()[k].1 == timeframe);
    assert(answers_of(responses, entity_type, timeframe) == 1);
    lemma_answered_once(responses, entity_type, timeframe);
    let i = choose|i: int|
        0 <= i < responses.len() && is_only_answer(responses, i, entity_type, timeframe);
    assert(responses[i].items is Ok);
    lemma_cell_of_response(responses, i);
}

/// A cell that no successful response is tagged with has no items.
pub proof fn lemma_cell_without_response(
    responses: Seq<TopEntitiesResponse>,
    entity_type: EntityType,
    timeframe: Timeframe,
)
    requires
        forall|i: int|
            0 <= i < responses.len() ==> !((#[trigger] responses[i]).entity_type == entity_type
                && responses[i].timeframe == timeframe && responses[i].items is Ok),
    ensures
        cell_items(responses, entity_type, timeframe) == Seq::<String>::empty(),
    decreases responses.len(),
{
    if responses.len() > 0 {
        let init = responses.drop_last();
        assert forall|i: int| 0 <= i < init.len() implies !((#[trigger] init[i]).entity_type
            == entity_type && init[i].timeframe == timeframe && init[i].items is Ok) by {
            assert(init[i] == responses[i]);
        }
        lemma_cell_without_response(init, entity_type, timeframe);
        assert(responses.last() == responses[responses.len() - 1]);
    }
}

/// The items of a cell that exactly one response is tagged with are the
/// items of that response, in upstream order and whenever it arrived.
pub proof fn lemma_cell_of_response(responses: Seq<TopEntitiesResponse>, i: int)
    requires
        0 <= i < responses.len(),
        responses[i].items is Ok,
        is_only_answer(responses, i, responses[i].entity_type, responses[i].timeframe),
    ensures
        cell_items(responses, responses[i].entity_type, responses[i].timeframe)
            == responses[i].items->Ok_0@,
    decreases responses.len(),
{
    let init = responses.drop_last();
    let entity_type = responses[i].entity_type;
    let timeframe = responses[i].timeframe;
    let last = responses.len() - 1;
    assert(responses.last() == responses[last]);
    if i == last {
        assert forall|j: int| 0 <= j < init.len() implies !((#[trigger] init[j]).entity_type
            == entity_type && init[j].timeframe == timeframe && init[j].items is Ok) by {
            assert(init[j] == responses[j]);
            assert(!(responses[j].entity_type == entity_type && responses[j].timeframe
                == timeframe));
        }
        lemma_cell_without_response(init, entity_type, timeframe);
        assert(Seq::<String>::empty() + responses[i].items->Ok_0@ == responses[i].items->Ok_0@);
    } else {
        assert(init[i] == responses[i]);
        assert forall|j: int| 0 <= j < init.len() && j != i implies !((
        #[trigger] init[j]).entity_type == entity_type && init[j].timeframe == timeframe) by {
            assert(init[j] == responses[j]);
            assert(!(responses[j].entity_type == entity_type && responses[j].timeframe
                == timeframe));
        }
        assert(is_only_answer(init, i, entity_type, timeframe));
        lemma_cell_of_response(init, i);
        assert(!(responses[last].entity_type == entity_type && responses[last].timeframe
            == timeframe));
    }
}

} // verus!
