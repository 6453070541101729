//! The mathematical model of cache-backed resolution: which positions miss,
//! how misses are split into batches, how hits and fetched records are put
//! back in input order, and the states a resolution moves through.

use vstd::prelude::*;
use crate::error::{FetchErrorKind, FetchErrorView};
use crate::timeframe::EntityType;
use crate::urls::decimal;

verus! {

/// The positions of `cached` that hold no record, ascending.
pub open spec fn miss_positions<T>(cached: Seq<Option<T>>) -> Seq<int>
    decreases cached.len(),
{
    if cached.len() == 0 {
        Seq::empty()
    } else {
        let before = miss_positions(cached.drop_last());
        if cached.last() is None {
            before.push(cached.len() - 1)
        } else {
            before
        }
    }
}

/// The identifiers at the positions that miss, in input order. An identifier
/// that occurs at two missing positions occurs twice.
pub open spec fn miss_ids<T>(ids: Seq<String>, cached: Seq<Option<T>>) -> Seq<String>
    decreases cached.len(),
{
    if cached.len() == 0 {
        Seq::empty()
    } else {
        let before = miss_ids(ids, cached.drop_last());
        if cached.last() is None {
            before.push(ids[cached.len() - 1])
        } else {
            before
        }
    }
}

/// Final assembly: position by position, the cached record where there is
/// one, else the next record of `fetched`, each taken once and in order.
pub open spec fn combined<T>(cached: Seq<Option<T>>, fetched: Seq<T>) -> Seq<T>
    decreases cached.len(),
{
    if cached.len() == 0 {
        Seq::empty()
    } else {
        match cached.last() {
            Some(record) => combined(cached.drop_last(), fetched).push(record),
            None => combined(cached.drop_last(), fetched.drop_last()).push(fetched.last()),
        }
    }
}

/// The batch that starts at position `start` of the missing identifiers: up
/// to `limit` of them.
pub open spec fn batch_at(miss_ids: Seq<String>, start: int, limit: int) -> Seq<String> {
    miss_ids.subrange(
        start,
        if start + limit <= miss_ids.len() {
            start + limit
        } else {
            miss_ids.len() as int
        },
    )
}

/// The number of batches of at most `limit` that `count` identifiers make:
/// `count / limit`, rounded up.
pub open spec fn batch_count(count: int, limit: int) -> int {
    (count + limit - 1) / limit
}

/// Context of the failure reported when the cache does not answer with one
/// entry per key.
pub open spec fn cache_shape_context() -> Seq<char> {
    "cache answered with a different number of entries than keys"@
}

/// Context of the failure reported when upstream does not answer with one
/// record per identifier of the batch.
pub open spec fn batch_shape_context() -> Seq<char> {
    "upstream answered with a different number of records than identifiers"@
}

/// A failure of the cache lookup, with the entity type put before its
/// context.
pub open spec fn lookup_failure(entity_type: EntityType, error: FetchErrorView) -> FetchErrorView {
    FetchErrorView {
        kind: error.kind,
        context: entity_type.spec_name() + " cache lookup"@ + ": "@ + error.context,
    }
}

/// A failure of the upstream request for the batch with the number `index`,
/// with the entity type and that number put before its context.
pub open spec fn batch_failure(entity_type: EntityType, index: int, error: FetchErrorView) -> FetchErrorView {
    FetchErrorView {
        kind: error.kind,
        context: entity_type.spec_name() + " batch "@ + decimal(index as nat) + ": "@
            + error.context,
    }
}

/// A failure of the cache write for the batch with the number `index`, with
/// the entity type and that number put before its context.
pub open spec fn write_failure(entity_type: EntityType, index: int, error: FetchErrorView) -> FetchErrorView {
    FetchErrorView {
        kind: error.kind,
        context: entity_type.spec_name() + " cache write of batch "@ + decimal(index as nat)
            + ": "@ + error.context,
    }
}

/// A resolution that waits for the cache to answer a lookup of `ids`.
pub struct LookupView {
    pub entity_type: EntityType,
    pub ids: Seq<String>,
    pub batch_limit: nat,
}

/// A resolution past the cache lookup: what the cache answered, the
/// identifiers that missed, and the records fetched for them so far.
pub struct ProgressView<T> {
    pub entity_type: EntityType,
    pub batch_limit: nat,
    pub cached: Seq<Option<T>>,
    pub miss_ids: Seq<String>,
    pub fetched: Seq<T>,
}

impl<T> ProgressView<T> {
    /// There is one missing identifier per missing position, and at least
    /// one of them is still to be fetched.
    pub open spec fn wf(self) -> bool {
        &&& self.batch_limit > 0
        &&& self.miss_ids.len() == miss_positions(self.cached).len()
        &&& self.fetched.len() < self.miss_ids.len()
    }

    /// The identifiers of the batch in flight.
    pub open spec fn batch(self) -> Seq<String> {
        batch_at(self.miss_ids, self.fetched.len() as int, self.batch_limit as int)
    }

    /// How many batches were completed before the one in flight.
    pub open spec fn batch_index(self) -> int {
        self.fetched.len() as int / self.batch_limit as int
    }
}

/// The states of a resolution. Each of the first three is a request to the
/// embedding program; the last two are final. A failure says in its context
/// for which entity type and at which request it occurred.
pub enum ResolutionView<T> {
    /// Look up `ids` in the cache, in one call.
    CacheLookup(LookupView),
    /// Fetch the records of the batch in flight from upstream.
    BatchFetch(ProgressView<T>),
    /// Write the records just fetched to the cache, keyed by the batch's
    /// identifiers.
    CacheWrite(ProgressView<T>, Seq<T>),
    /// Resolved: one record per identifier, in input order.
    Done(Seq<T>),
    /// Failed; nothing is returned.
    Failed(FetchErrorView),
}

/// The first state: with no identifier there is nothing to ask anyone.
pub open spec fn resolution_start<T>(
    entity_type: EntityType,
    ids: Seq<String>,
    batch_limit: nat,
) -> ResolutionView<T> {
    if ids.len() == 0 {
        ResolutionView::Done(Seq::empty())
    } else {
        ResolutionView::CacheLookup(LookupView { entity_type, ids, batch_limit })
    }
}

/// The state after the cache answered the lookup.
pub open spec fn after_cache_lookup<T>(
    lookup: LookupView,
    answer: Result<Seq<Option<T>>, FetchErrorView>,
) -> ResolutionView<T> {
    match answer {
        Err(error) => ResolutionView::Failed(lookup_failure(lookup.entity_type, error)),
        Ok(cached) => {
            if cached.len() != lookup.ids.len() {
                ResolutionView::Failed(
                    lookup_failure(
                        lookup.entity_type,
                        FetchErrorView {
                            kind: FetchErrorKind::CacheError,
                            context: cache_shape_context(),
                        },
                    ),
                )
            } else if miss_positions(cached).len() == 0 {
                ResolutionView::Done(combined(cached, Seq::empty()))
            } else {
                ResolutionView::BatchFetch(
                    ProgressView {
                        entity_type: lookup.entity_type,
                        batch_limit: lookup.batch_limit,
                        cached,
                        miss_ids: miss_ids(lookup.ids, cached),
                        fetched: Seq::empty(),
                    },
                )
            }
        },
    }
}

/// The state after upstream answered the batch in flight.
pub open spec fn after_batch_fetch<T>(
    progress: ProgressView<T>,
    answer: Result<Seq<T>, FetchErrorView>,
) -> ResolutionView<T> {
    match answer {
        Err(error) => ResolutionView::Failed(
            batch_failure(progress.entity_type, progress.batch_index(), error),
        ),
        Ok(records) => {
            if records.len() != progress.batch().len() {
                ResolutionView::Failed(
                    batch_failure(
                        progress.entity_type,
                        progress.batch_index(),
                        FetchErrorView {
                            kind: FetchErrorKind::UpstreamError,
                            context: batch_shape_context(),
                        },
                    ),
                )
            } else {
                ResolutionView::CacheWrite(progress, records)
            }
        },
    }
}

/// The state after the cache answered the write of `pending`.
pub open spec fn after_cache_write<T>(
    progress: ProgressView<T>,
    pending: Seq<T>,
    answer: Result<(), FetchErrorView>,
) -> ResolutionView<T> {
    match answer {
        Err(error) => ResolutionView::Failed(
            write_failure(progress.entity_type, progress.batch_index(), error),
        ),
        Ok(_) => {
            let fetched = progress.fetched + pending;
            if fetched.len() >= progress.miss_ids.len() {
                ResolutionView::Done(combined(progress.cached, fetched))
            } else {
                ResolutionView::BatchFetch(
                    ProgressView {
                        entity_type: progress.entity_type,
                        batch_limit: progress.batch_limit,
                        cached: progress.cached,
                        miss_ids: progress.miss_ids,
                        fetched,
                    },
                )
            }
        },
    }
}

} // verus!
