//! What holds of every resolution: the result is aligned with the input,
//! cached identifiers cost no upstream request, and misses are fetched in the
//! fewest batches that the limit allows.

use vstd::prelude::*;
use crate::resolver_model::{
    after_batch_fetch, after_cache_lookup, after_cache_write, batch_at, batch_count, combined,
    miss_ids, miss_positions, LookupView, ProgressView, ResolutionView,
};

verus! {

/// The missing positions are positions of misses, in ascending order, and
/// every miss is among them.
pub proof fn lemma_miss_positions<T>(cached: Seq<Option<T>>)
    ensures
        miss_positions(cached).len() <= cached.len(),
        forall|k: int|
            0 <= k < miss_positions(cached).len() ==> 0 <= #[trigger] miss_positions(cached)[k]
                < cached.len() && cached[miss_positions(cached)[k]] is None,
        forall|j: int, k: int|
            0 <= j < k < miss_positions(cached).len() ==> #[trigger] miss_positions(cached)[j]
                < #[trigger] miss_positions(cached)[k],
        forall|i: int|
            0 <= i < cached.len() && #[trigger] cached[i] is None ==> exists|k: int|
                0 <= k < miss_positions(cached).len() && miss_positions(cached)[k] == i,
    decreases cached.len(),
{
    if cached.len() > 0 {
        let init = cached.drop_last();
        lemma_miss_positions(init);
        let before = miss_positions(init);
        let all = miss_positions(cached);
        assert forall|i: int| 0 <= i < cached.len() && #[trigger] cached[i] is None implies exists|
            k: int,
        | 0 <= k < all.len() && all[k] == i by {
            if i < cached.len() - 1 {
                assert(init[i] is None);
                let k = choose|k: int| 0 <= k < before.len() && before[k] == i;
                assert(all[k] == i);
            } else {
                assert(all[all.len() - 1] == i);
            }
        }
    }
}

/// The k-th missing identifier is the identifier at the k-th missing
/// position.
pub proof fn lemma_miss_ids<T>(ids: Seq<String>, cached: Seq<Option<T>>)
    ensures
        miss_ids(ids, cached).len() == miss_positions(cached).len(),
        forall|k: int|
            0 <= k < miss_positions(cached).len() ==> #[trigger] miss_ids(ids, cached)[k]
                == ids[miss_positions(cached)[k]],
    decreases cached.len(),
{
    if cached.len() > 0 {
        lemma_miss_ids(ids, cached.drop_last());
    }
}

/// Final assembly is positional: a hit keeps its cached record, and the
/// k-th miss gets the k-th fetched record.
pub proof fn lemma_combined<T>(cached: Seq<Option<T>>, fetched: Seq<T>)
    requires
        fetched.len() == miss_positions(cached).len(),
    ensures
        combined(cached, fetched).len() == cached.len(),
        forall|i: int|
            0 <= i < cached.len() && cached[i] is Some ==> #[trigger] combined(cached, fetched)[i]
                == cached[i]->Some_0,
        forall|k: int|
            0 <= k < fetched.len() ==> combined(cached, fetched)[miss_positions(cached)[k]]
                == #[trigger] fetched[k],
    decreases cached.len(),
{
    if cached.len() > 0 {
        let init = cached.drop_last();
        lemma_miss_positions(init);
        lemma_miss_positions(cached);
        match cached.last() {
            Some(record) => {
                lemma_combined(init, fetched);
                assert forall|i: int| 0 <= i < cached.len() && cached[i] is Some implies #[trigger] combined(
                    cached,
                    fetched,
                )[i] == cached[i]->Some_0 by {
                    if i < cached.len() - 1 {
                        assert(init[i] == cached[i]);
                    }
                }
            },
            None => {
                let earlier = fetched.drop_last();
                lemma_combined(init, earlier);
                assert forall|i: int| 0 <= i < cached.len() && cached[i] is Some implies #[trigger] combined(
                    cached,
                    fetched,
                )[i] == cached[i]->Some_0 by {
                    assert(init[i] == cached[i]);
                }
                assert forall|k: int| 0 <= k < fetched.len() implies combined(
                    cached,
                    fetched,
                )[miss_positions(cached)[k]] == #[trigger] fetched[k] by {
                    if k < fetched.len() - 1 {
                        assert(miss_positions(cached)[k] == miss_positions(init)[k]);
                        assert(earlier[k] == fetched[k]);
                    }
                }
            },
        }
    }
}

/// Order preservation. Let `resolves(id, record)` be any relation between
/// identifiers and records. If every cached record resolves the identifier
/// it was looked up under, and every fetched record resolves the identifier
/// at its position among the requested ones, then the assembled result has
/// one record per input identifier and the record at each position resolves
/// the identifier at that position. Identifiers that occur twice are no
/// exception.
pub proof fn lemma_resolution_preserves_order<T>(
    ids: Seq<String>,
    cached: Seq<Option<T>>,
    fetched: Seq<T>,
    resolves: spec_fn(String, T) -> bool,
)
    requires
        cached.len() == ids.len(),
        fetched.len() == miss_positions(cached).len(),
        forall|i: int|
            0 <= i < ids.len() && cached[i] is Some ==> resolves(
                ids[i],
                #[trigger] cached[i]->Some_0,
            ),
        forall|k: int|
            0 <= k < fetched.len() ==> resolves(miss_ids(ids, cached)[k], #[trigger] fetched[k]),
    ensures
        combined(cached, fetched).len() == ids.len(),
        forall|i: int|
            0 <= i < ids.len() ==> resolves(ids[i], #[trigger] combined(cached, fetched)[i]),
{
    lemma_miss_positions(cached);
    lemma_miss_ids(ids, cached);
    lemma_combined(cached, fetched);
    assert forall|i: int| 0 <= i < ids.len() implies resolves(
        ids[i],
        #[trigger] combined(cached, fetched)[i],
    ) by {
        if cached[i] is Some {
            assert(resolves(ids[i], cached[i]->Some_0));
        } else {
            let k = choose|k: int|
                0 <= k < miss_positions(cached).len() && miss_positions(cached)[k] == i;
            assert(miss_ids(ids, cached)[k] == ids[i]);
            assert(resolves(miss_ids(ids, cached)[k], fetched[k]));
        }
    }
}

/// What a resolution asks of its collaborators from some state on, when
/// every request succeeds: the batches requested from upstream, the keys and
/// the records written to the cache, batch by batch, and the state reached.
pub struct Run<T> {
    pub batches: Seq<Seq<String>>,
    pub written_keys: Seq<Seq<String>>,
    pub written_records: Seq<Seq<T>>,
    pub end: ResolutionView<T>,
}

/// Bounds the number of requests still to come from `state`.
pub open spec fn requests_left<T>(state: ResolutionView<T>) -> int {
    match state {
        ResolutionView::BatchFetch(progress) => 2 * (progress.miss_ids.len()
            - progress.fetched.len()),
        ResolutionView::CacheWrite(progress, _) => 2 * (progress.miss_ids.len()
            - progress.fetched.len()) - 1,
        _ => 0,
    }
}

/// The run that asks for nothing more and stays in `state`.
pub open spec fn ended<T>(state: ResolutionView<T>) -> Run<T> {
    Run {
        batches: Seq::empty(),
        written_keys: Seq::empty(),
        written_records: Seq::empty(),
        end: state,
    }
}

/// The run from `state` in which upstream answers the batch `ids` with
/// `upstream(ids)` and every cache write succeeds.
pub open spec fn run<T>(state: ResolutionView<T>, upstream: spec_fn(Seq<String>) -> Seq<T>) -> Run<
    T,
>
    decreases requests_left(state),
{
    match state {
        ResolutionView::BatchFetch(progress) => {
            if progress.wf() {
                let rest = run(
                    after_batch_fetch(progress, Ok(upstream(progress.batch()))),
                    upstream,
                );
                Run {
                    batches: seq![progress.batch()] + rest.batches,
                    written_keys: rest.written_keys,
                    written_records: rest.written_records,
                    end: rest.end,
                }
            } else {
                ended(state)
            }
        },
        ResolutionView::CacheWrite(progress, pending) => {
            if progress.wf() && pending.len() == progress.batch().len() {
                let rest = run(after_cache_write(progress, pending, Ok(())), upstream);
                Run {
                    batches: rest.batches,
                    written_keys: seq![progress.batch()] + rest.written_keys,
                    written_records: seq![pending] + rest.written_records,
                    end: rest.end,
                }
            } else {
                ended(state)
            }
        },
        _ => ended(state),
    }
}

/// The number of batches that `count` identifiers make, one limit at a time.
proof fn lemma_batch_count_step(count: int, limit: int)
    requires
        limit > 0,
        count > 0,
    ensures
        count <= limit ==> batch_count(count, limit) == 1,
        count > limit ==> batch_count(count, limit) == 1 + batch_count(count - limit, limit),
{
    if count <= limit {
        assert((count + limit - 1) / limit == 1) by (nonlinear_arith)
            requires
                0 < count <= limit,
        ;
    } else {
        assert((count + limit - 1) / limit == 1 + (count - limit + limit - 1) / limit)
            by (nonlinear_arith)
            requires
                limit > 0,
                count > limit,
        ;
    }
}

/// From a pending batch request on, a resolution asks upstream for exactly
/// the identifiers still missing, `batch_limit` at a time and in order,
/// writes each answer to the cache under the identifiers it was requested
/// with, and ends with the records assembled in input order.
pub proof fn lemma_run_fetches_each_miss_once<T>(
    progress: ProgressView<T>,
    upstream: spec_fn(Seq<String>) -> Seq<T>,
)
    requires
        progress.wf(),
        forall|ids: Seq<String>| #[trigger] upstream(ids).len() == ids.len(),
    ensures
        ({
            let r = run(ResolutionView::BatchFetch(progress), upstream);
            let start = progress.fetched.len() as int;
            let limit = progress.batch_limit as int;
            &&& r.batches.len() == batch_count(progress.miss_ids.len() - start, limit)
            &&& forall|k: int|
                0 <= k < r.batches.len() ==> #[trigger] r.batches[k] == batch_at(
                    progress.miss_ids,
                    start + k * limit,
                    limit,
                ) && 0 < r.batches[k].len() <= limit
            &&& r.batches.flatten() == progress.miss_ids.subrange(
                start,
                progress.miss_ids.len() as int,
            )
            &&& r.written_keys == r.batches
            &&& r.written_records.len() == r.batches.len()
            &&& forall|k: int|
                0 <= k < r.batches.len() ==> #[trigger] r.written_records[k] == upstream(
                    r.batches[k],
                )
            &&& r.end == ResolutionView::Done(
                combined(progress.cached, progress.fetched + r.written_records.flatten()),
            )
        }),
    decreases progress.miss_ids.len() - progress.fetched.len(),
{
    let state = ResolutionView::BatchFetch(progress);
    let r = run(state, upstream);
    let start = progress.fetched.len() as int;
    let limit = progress.batch_limit as int;
    let total = progress.miss_ids.len() as int;
    let batch = progress.batch();
    let records = upstream(batch);
    let written = after_batch_fetch(progress, Ok(records));
    assert(written == ResolutionView::CacheWrite(progress, records));
    let next = after_cache_write(progress, records, Ok(()));
    let rest = run(next, upstream);
    assert(run(written, upstream).batches == rest.batches);
    assert(r.batches == seq![batch] + rest.batches);
    assert(r.written_keys == seq![batch] + rest.written_keys);
    assert(r.written_records == seq![records] + rest.written_records);
    assert(r.end == rest.end);
    lemma_batch_count_step(total - start, limit);
    let fetched = progress.fetched + records;
    if total - start <= limit {
        assert(batch == progress.miss_ids.subrange(start, total));
        assert(next == ResolutionView::Done(combined(progress.cached, fetched)));
        assert(rest.batches == Seq::<Seq<String>>::empty());
        assert(r.batches == seq![batch]);
        assert(r.written_records == seq![records]);
        assert(r.batches.flatten() == batch) by {
            assert(r.batches.drop_first() == Seq::<Seq<String>>::empty());
            assert(r.batches.first() == batch);
            assert(r.batches.drop_first().flatten() == Seq::<String>::empty());
            assert(batch + Seq::<String>::empty() == batch);
        }
        assert(r.written_records.flatten() == records) by {
            assert(r.written_records.drop_first() == Seq::<Seq<T>>::empty());
            assert(r.written_records.first() == records);
            assert(r.written_records.drop_first().flatten() == Seq::<T>::empty());
            assert(records + Seq::<T>::empty() == records);
        }
        assert forall|k: int| 0 <= k < r.batches.len() implies #[trigger] r.batches[k] == batch_at(
            progress.miss_ids,
            start + k * limit,
            limit,
        ) && 0 < r.batches[k].len() <= limit by {
            assert(k * limit == 0) by (nonlinear_arith)
                requires
                    k == 0,
            ;
        }
    } else {
        let later = ProgressView {
            entity_type: progress.entity_type,
            batch_limit: progress.batch_limit,
            cached: progress.cached,
            miss_ids: progress.miss_ids,
            fetched,
        };
        assert(batch == progress.miss_ids.subrange(start, start + limit));
        assert(next == ResolutionView::BatchFetch(later));
        lemma_run_fetches_each_miss_once(later, upstream);
        assert(rest.batches.len() == batch_count(total - start - limit, limit));
        assert forall|k: int| 0 <= k < r.batches.len() implies #[trigger] r.batches[k] == batch_at(
            progress.miss_ids,
            start + k * limit,
            limit,
        ) && 0 < r.batches[k].len() <= limit by {
            if k == 0 {
                assert(k * limit == 0) by (nonlinear_arith)
                    requires
                        k == 0,
                ;
            } else {
                assert(r.batches[k] == rest.batches[k - 1]);
                assert(start + limit + (k - 1) * limit == start + k * limit)
                    by (nonlinear_arith);
            }
        }
        assert(r.batches.flatten() == progress.miss_ids.subrange(start, total)) by {
            assert(r.batches.first() == batch);
            assert(r.batches.drop_first() == rest.batches);
            assert(batch + progress.miss_ids.subrange(start + limit, total)
                == progress.miss_ids.subrange(start, total));
        }
        assert(r.written_records.flatten() == records + rest.written_records.flatten()) by {
            assert(r.written_records.first() == records);
            assert(r.written_records.drop_first() == rest.written_records);
        }
        assert(progress.fetched + r.written_records.flatten() == fetched
            + rest.written_records.flatten());
        assert forall|k: int| 0 <= k < r.batches.len() implies #[trigger] r.written_records[k]
            == upstream(r.batches[k]) by {
            if k > 0 {
                assert(r.written_records[k] == rest.written_records[k - 1]);
                assert(r.batches[k] == rest.batches[k - 1]);
            }
        }
    }
}

/// Where nothing is cached, the k-th missing position is k.
proof fn lemma_all_positions_miss<T>(cached: Seq<Option<T>>)
    requires
        forall|i: int| 0 <= i < cached.len() ==> #[trigger] cached[i] is None,
    ensures
        miss_positions(cached).len() == cached.len(),
        forall|k: int| 0 <= k < cached.len() ==> #[trigger] miss_positions(cached)[k] == k,
    decreases cached.len(),
{
    if cached.len() > 0 {
        let init = cached.drop_last();
        assert forall|i: int| 0 <= i < init.len() implies #[trigger] init[i] is None by {
            assert(cached[i] is None);
        }
        lemma_all_positions_miss(init);
        assert(cached[cached.len() - 1] is None);
    }
}

/// Where nothing is cached, every identifier misses.
pub proof fn lemma_nothing_cached<T>(ids: Seq<String>, cached: Seq<Option<T>>)
    requires
        cached.len() == ids.len(),
        forall|i: int| 0 <= i < cached.len() ==> #[trigger] cached[i] is None,
    ensures
        miss_positions(cached).len() == ids.len(),
        miss_ids(ids, cached) == ids,
{
    lemma_all_positions_miss(cached);
    lemma_miss_ids(ids, cached);
    assert(miss_ids(ids, cached) =~= ids);
}

/// Where nothing is cached, the result is what was fetched.
pub proof fn lemma_nothing_cached_result<T>(cached: Seq<Option<T>>, fetched: Seq<T>)
    requires
        fetched.len() == cached.len(),
        forall|i: int| 0 <= i < cached.len() ==> #[trigger] cached[i] is None,
    ensures
        combined(cached, fetched) == fetched,
{
    lemma_all_positions_miss(cached);
    lemma_combined(cached, fetched);
    assert forall|k: int| 0 <= k < fetched.len() implies combined(cached, fetched)[k]
        == fetched[k] by {
        assert(miss_positions(cached)[k] == k);
    }
    assert(combined(cached, fetched) =~= fetched);
}

/// The cache after `records` were written under `keys`, one after the
/// other, a later write of a key replacing an earlier one.
pub open spec fn cache_after_writes<T>(
    cache: Map<Seq<char>, T>,
    keys: Seq<String>,
    records: Seq<T>,
) -> Map<Seq<char>, T>
    decreases keys.len(),
{
    if keys.len() == 0 {
        cache
    } else {
        cache_after_writes(cache, keys.drop_last(), records.drop_last()).insert(
            keys.last()@,
            records.last(),
        )
    }
}

/// After records were written under their keys, the cache holds an entry
/// for every key, and it is a record that was written under that key.
pub proof fn lemma_written_records_are_cached<T>(
    cache: Map<Seq<char>, T>,
    keys: Seq<String>,
    records: Seq<T>,
)
    requires
        records.len() == keys.len(),
    ensures
        forall|i: int|
            0 <= i < keys.len() ==> cache_after_writes(cache, keys, records).contains_key(
                (#[trigger] keys[i])@,
            ) && exists|j: int|
                0 <= j < keys.len() && keys[j]@ == keys[i]@ && cache_after_writes(
                    cache,
                    keys,
                    records,
                )[keys[i]@] == records[j],
    decreases keys.len(),
{
    if keys.len() > 0 {
        let init = keys.drop_last();
        let earlier = records.drop_last();
        lemma_written_records_are_cached(cache, init, earlier);
        let before = cache_after_writes(cache, init, earlier);
        let after = cache_after_writes(cache, keys, records);
        let last = keys.len() - 1;
        assert forall|i: int| 0 <= i < keys.len() implies after.contains_key(
            (#[trigger] keys[i])@,
        ) && exists|j: int|
            0 <= j < keys.len() && keys[j]@ == keys[i]@ && after[keys[i]@] == records[j] by {
            if keys[i]@ == keys[last]@ {
                assert(keys[last]@ == keys[i]@ && after[keys[i]@] == records[last]);
            } else {
                assert(init[i] == keys[i]);
                let j = choose|j: int|
                    0 <= j < init.len() && init[j]@ == init[i]@ && before[init[i]@] == earlier[j];
                assert(keys[j]@ == keys[i]@ && after[keys[i]@] == records[j]);
            }
        }
    }
}

/// Where everything is cached, nothing misses.
pub proof fn lemma_everything_cached<T>(cached: Seq<Option<T>>)
    requires
        forall|i: int| 0 <= i < cached.len() ==> #[trigger] cached[i] is Some,
    ensures
        miss_positions(cached).len() == 0,
    decreases cached.len(),
{
    if cached.len() > 0 {
        let init = cached.drop_last();
        assert forall|i: int| 0 <= i < init.len() implies #[trigger] init[i] is Some by {
            assert(cached[i] is Some);
        }
        lemma_everything_cached(init);
        assert(cached[cached.len() - 1] is Some);
    }
}

/// If every identifier is cached, the resolution is done as soon as the
/// cache has answered: it asks upstream for nothing, writes nothing, and
/// returns the cached records in input order.
pub proof fn lemma_all_cached_no_upstream_request<T>(
    lookup: LookupView,
    cached: Seq<Option<T>>,
    upstream: spec_fn(Seq<String>) -> Seq<T>,
)
    requires
        cached.len() == lookup.ids.len(),
        forall|i: int| 0 <= i < cached.len() ==> #[trigger] cached[i] is Some,
    ensures
        ({
            let after = after_cache_lookup(lookup, Ok(cached));
            let r = run(after, upstream);
            &&& after matches ResolutionView::Done(records)
            &&& records.len() == lookup.ids.len()
            &&& forall|i: int| 0 <= i < records.len() ==> #[trigger] records[i] == cached[i]->Some_0
            &&& r.batches.len() == 0
            &&& r.written_keys.len() == 0
            &&& r.end == after
        }),
{
    lemma_everything_cached(cached);
    lemma_combined(cached, Seq::<T>::empty());
}

/// If no identifier is cached, a resolution with a positive batch limit asks
/// upstream `ceil(n / batch_limit)` times for the `n` identifiers, each time
/// for at most `batch_limit` of them and in input order, writes every record
/// to the cache under the identifier it was requested with, and returns the
/// records in input order.
pub proof fn lemma_nothing_cached_fetches_in_batches<T>(
    lookup: LookupView,
    cached: Seq<Option<T>>,
    upstream: spec_fn(Seq<String>) -> Seq<T>,
)
    requires
        lookup.batch_limit > 0,
        lookup.ids.len() > 0,
        cached.len() == lookup.ids.len(),
        forall|i: int| 0 <= i < cached.len() ==> #[trigger] cached[i] is None,
        forall|ids: Seq<String>| #[trigger] upstream(ids).len() == ids.len(),
    ensures
        ({
            let r = run(after_cache_lookup(lookup, Ok(cached)), upstream);
            let limit = lookup.batch_limit as int;
            &&& r.batches.len() == batch_count(lookup.ids.len() as int, limit)
            &&& forall|k: int|
                0 <= k < r.batches.len() ==> #[trigger] r.batches[k] == batch_at(
                    lookup.ids,
                    k * limit,
                    limit,
                ) && 0 < r.batches[k].len() <= limit
            &&& r.batches.flatten() == lookup.ids
            &&& r.written_keys == r.batches
            &&& r.written_keys.flatten() == lookup.ids
            &&& r.written_records.len() == r.batches.len()
            &&& forall|k: int|
                0 <= k < r.batches.len() ==> #[trigger] r.written_records[k] == upstream(
                    r.batches[k],
                )
            &&& r.written_records.flatten().len() == lookup.ids.len()
            &&& r.end == ResolutionView::Done(r.written_records.flatten())
        }),
{
    let progress = ProgressView {
        entity_type: lookup.entity_type,
        batch_limit: lookup.batch_limit,
        cached,
        miss_ids: miss_ids(lookup.ids, cached),
        fetched: Seq::<T>::empty(),
    };
    lemma_nothing_cached(lookup.ids, cached);
    assert(after_cache_lookup(lookup, Ok(cached)) == ResolutionView::BatchFetch(progress));
    lemma_run_fetches_each_miss_once(progress, upstream);
    let r = run(ResolutionView::BatchFetch(progress), upstream);
    assert(lookup.ids.subrange(0, lookup.ids.len() as int) == lookup.ids);
    let all = r.written_records.flatten();
    assert(Seq::<T>::empty() + all == all);
    lemma_flatten_len(r.batches, r.written_records, upstream);
    lemma_nothing_cached_result(cached, all);
}

/// If no identifier is cached, then after the resolution the cache,
/// whatever it held before, holds for every identifier a record that
/// upstream returned for it, and the result holds at each position a record
/// returned for the identifier at that position.
pub proof fn lemma_nothing_cached_fills_cache<T>(
    lookup: LookupView,
    cached: Seq<Option<T>>,
    upstream: spec_fn(Seq<String>) -> Seq<T>,
    cache: Map<Seq<char>, T>,
)
    requires
        lookup.batch_limit > 0,
        lookup.ids.len() > 0,
        cached.len() == lookup.ids.len(),
        forall|i: int| 0 <= i < cached.len() ==> #[trigger] cached[i] is None,
        forall|ids: Seq<String>| #[trigger] upstream(ids).len() == ids.len(),
    ensures
        ({
            let r = run(after_cache_lookup(lookup, Ok(cached)), upstream);
            let after = cache_after_writes(
                cache,
                r.written_keys.flatten(),
                r.written_records.flatten(),
            );
            &&& r.end matches ResolutionView::Done(records)
            &&& records.len() == lookup.ids.len()
            &&& forall|i: int|
                0 <= i < lookup.ids.len() ==> after.contains_key((#[trigger] lookup.ids[i])@)
                    && exists|j: int|
                    0 <= j < lookup.ids.len() && lookup.ids[j]@ == lookup.ids[i]@
                        && after[lookup.ids[i]@] == records[j]
        }),
{
    lemma_nothing_cached_fetches_in_batches(lookup, cached, upstream);
    let r = run(after_cache_lookup(lookup, Ok(cached)), upstream);
    lemma_written_records_are_cached(cache, lookup.ids, r.written_records.flatten());
}

/// Answers of the same sizes as their batches have, flattened, the same
/// length as the batches flattened.
proof fn lemma_flatten_len<T>(
    batches: Seq<Seq<String>>,
    records: Seq<Seq<T>>,
    upstream: spec_fn(Seq<String>) -> Seq<T>,
)
    requires
        records.len() == batches.len(),
        forall|k: int| 0 <= k < batches.len() ==> #[trigger] records[k] == upstream(batches[k]),
        forall|ids: Seq<String>| #[trigger] upstream(ids).len() == ids.len(),
    ensures
        records.flatten().len() == batches.flatten().len(),
    decreases batches.len(),
{
    if batches.len() > 0 {
        assert(records[0] == upstream(batches[0]));
        assert forall|k: int| 0 <= k < batches.drop_first().len() implies #[trigger] records.drop_first()[k]
            == upstream(batches.drop_first()[k]) by {
            assert(records[k + 1] == upstream(batches[k + 1]));
        }
        lemma_flatten_len(batches.drop_first(), records.drop_first(), upstream);
    }
}

/// Answers that resolve their batches position by position still do so
/// when batches and answers are laid end to end.
proof fn lemma_flatten_aligned<T>(
    batches: Seq<Seq<String>>,
    records: Seq<Seq<T>>,
    upstream: spec_fn(Seq<String>) -> Seq<T>,
    resolves: spec_fn(String, T) -> bool,
)
    requires
        records.len() == batches.len(),
        forall|k: int| 0 <= k < batches.len() ==> #[trigger] records[k] == upstream(batches[k]),
        forall|ids: Seq<String>| #[trigger] upstream(ids).len() == ids.len(),
        forall|ids: Seq<String>, k: int|
            0 <= k < ids.len() ==> resolves(ids[k], #[trigger] upstream(ids)[k]),
    ensures
        records.flatten().len() == batches.flatten().len(),
        forall|m: int|
            0 <= m < batches.flatten().len() ==> resolves(
                batches.flatten()[m],
                #[trigger] records.flatten()[m],
            ),
    decreases batches.len(),
{
    if batches.len() > 0 {
        let first = batches.first();
        let answer = records.first();
        assert(answer == upstream(first)) by {
            assert(records[0] == upstream(batches[0]));
        }
        assert forall|k: int| 0 <= k < batches.drop_first().len() implies #[trigger] records.drop_first()[k]
            == upstream(batches.drop_first()[k]) by {
            assert(records[k + 1] == upstream(batches[k + 1]));
        }
        lemma_flatten_aligned(batches.drop_first(), records.drop_first(), upstream, resolves);
        let rest_ids = batches.drop_first().flatten();
        let rest_records = records.drop_first().flatten();
        assert(batches.flatten() == first + rest_ids);
        assert(records.flatten() == answer + rest_records);
        assert forall|m: int| 0 <= m < batches.flatten().len() implies resolves(
            batches.flatten()[m],
            #[trigger] records.flatten()[m],
        ) by {
            if m < first.len() {
                assert(resolves(first[m], upstream(first)[m]));
            } else {
                assert(resolves(rest_ids[m - first.len()], rest_records[m - first.len()]));
            }
        }
    }
}

/// Order preservation from end to end. Let `resolves(id, record)` be any
/// relation between identifiers and records. If the cache answers with one
/// entry per identifier and every record it holds resolves the identifier it
/// was looked up under, and upstream answers every batch with one record per
/// identifier, each resolving the identifier at its position, then the
/// resolution ends with one record per input identifier, and the record at
/// each position resolves the identifier at that position.
pub proof fn lemma_resolution_resolves_every_position<T>(
    lookup: LookupView,
    cached: Seq<Option<T>>,
    upstream: spec_fn(Seq<String>) -> Seq<T>,
    resolves: spec_fn(String, T) -> bool,
)
    requires
        lookup.batch_limit > 0,
        cached.len() == lookup.ids.len(),
        forall|i: int|
            0 <= i < cached.len() && cached[i] is Some ==> resolves(
                lookup.ids[i],
                #[trigger] cached[i]->Some_0,
            ),
        forall|ids: Seq<String>| #[trigger] upstream(ids).len() == ids.len(),
        forall|ids: Seq<String>, k: int|
            0 <= k < ids.len() ==> resolves(ids[k], #[trigger] upstream(ids)[k]),
    ensures
        ({
            let r = run(after_cache_lookup(lookup, Ok(cached)), upstream);
            &&& r.end matches ResolutionView::Done(records)
            &&& records.len() == lookup.ids.len()
            &&& forall|i: int|
                0 <= i < lookup.ids.len() ==> resolves(lookup.ids[i], #[trigger] records[i])
        }),
{
    let after = after_cache_lookup(lookup, Ok(cached));
    lemma_miss_ids(lookup.ids, cached);
    if miss_positions(cached).len() == 0 {
        lemma_resolution_preserves_order(lookup.ids, cached, Seq::<T>::empty(), resolves);
    } else {
        let progress = ProgressView {
            entity_type: lookup.entity_type,
            batch_limit: lookup.batch_limit,
            cached,
            miss_ids: miss_ids(lookup.ids, cached),
            fetched: Seq::<T>::empty(),
        };
        assert(after == ResolutionView::BatchFetch(progress));
        lemma_run_fetches_each_miss_once(progress, upstream);
        let r = run(after, upstream);
        let fetched = r.written_records.flatten();
        assert(progress.miss_ids.subrange(0, progress.miss_ids.len() as int) == progress.miss_ids);
        assert(Seq::<T>::empty() + fetched == fetched);
        lemma_flatten_aligned(r.batches, r.written_records, upstream, resolves);
        lemma_resolution_preserves_order(lookup.ids, cached, fetched, resolves);
    }
}

/// Whatever the cache holds, a resolution asks upstream once per batch of
/// misses: `ceil(m / batch_limit)` times for `m` misses, each time for at
/// most `batch_limit` identifiers, and altogether for the missing
/// identifiers in input order and for no other.
pub proof fn lemma_one_request_per_batch_of_misses<T>(
    lookup: LookupView,
    cached: Seq<Option<T>>,
    upstream: spec_fn(Seq<String>) -> Seq<T>,
)
    requires
        lookup.batch_limit > 0,
        cached.len() == lookup.ids.len(),
        forall|ids: Seq<String>| #[trigger] upstream(ids).len() == ids.len(),
    ensures
        ({
            let r = run(after_cache_lookup(lookup, Ok(cached)), upstream);
            let limit = lookup.batch_limit as int;
            &&& r.batches.len() == batch_count(miss_positions(cached).len() as int, limit)
            &&& forall|k: int| 0 <= k < r.batches.len() ==> 0 < (#[trigger] r.batches[k]).len() <= limit
            &&& r.batches.flatten() == miss_ids(lookup.ids, cached)
            &&& r.written_keys == r.batches
        }),
{
    let after = after_cache_lookup(lookup, Ok(cached));
    let limit = lookup.batch_limit as int;
    lemma_miss_ids(lookup.ids, cached);
    if miss_positions(cached).len() == 0 {
        assert((0 + limit - 1) / limit == 0) by (nonlinear_arith)
            requires
                limit > 0,
        ;
        assert(run(after, upstream).batches.flatten() == Seq::<String>::empty());
        assert(miss_ids(lookup.ids, cached) == Seq::<String>::empty());
    } else {
        let progress = ProgressView {
            entity_type: lookup.entity_type,
            batch_limit: lookup.batch_limit,
            cached,
            miss_ids: miss_ids(lookup.ids, cached),
            fetched: Seq::<T>::empty(),
        };
        assert(after == ResolutionView::BatchFetch(progress));
        lemma_run_fetches_each_miss_once(progress, upstream);
        assert(progress.miss_ids.subrange(0, progress.miss_ids.len() as int) == progress.miss_ids);
    }
}

/// A hit keeps its cached record from end to end: whatever upstream
/// answers for the misses, the resolution ends with one record per input
/// identifier, and at every position that the cache held a record for, the
/// result holds that record.
pub proof fn lemma_hit_keeps_cached_record<T>(
    lookup: LookupView,
    cached: Seq<Option<T>>,
    upstream: spec_fn(Seq<String>) -> Seq<T>,
)
    requires
        lookup.batch_limit > 0,
        cached.len() == lookup.ids.len(),
        forall|ids: Seq<String>| #[trigger] upstream(ids).len() == ids.len(),
    ensures
        ({
            let r = run(after_cache_lookup(lookup, Ok(cached)), upstream);
            &&& r.end matches ResolutionView::Done(records)
            &&& records.len() == lookup.ids.len()
            &&& forall|i: int|
                0 <= i < cached.len() && cached[i] is Some ==> #[trigger] records[i]
                    == cached[i]->Some_0
        }),
{
    let after = after_cache_lookup(lookup, Ok(cached));
    lemma_miss_ids(lookup.ids, cached);
    if miss_positions(cached).len() == 0 {
        lemma_combined(cached, Seq::<T>::empty());
    } else {
        let progress = ProgressView {
            entity_type: lookup.entity_type,
            batch_limit: lookup.batch_limit,
            cached,
            miss_ids: miss_ids(lookup.ids, cached),
            fetched: Seq::<T>::empty(),
        };
        assert(after == ResolutionView::BatchFetch(progress));
        lemma_run_fetches_each_miss_once(progress, upstream);
        let r = run(after, upstream);
        let fetched = r.written_records.flatten();
        assert(progress.miss_ids.subrange(0, progress.miss_ids.len() as int) == progress.miss_ids);
        assert(Seq::<T>::empty() + fetched == fetched);
        lemma_flatten_len(r.batches, r.written_records, upstream);
        lemma_combined(cached, fetched);
    }
}

/// Writes leave other keys alone: a key under which nothing was written is
/// in the cache after the writes exactly if it was before, with the record
/// it had.
pub proof fn lemma_unwritten_key_is_kept<T>(
    cache: Map<Seq<char>, T>,
    keys: Seq<String>,
    records: Seq<T>,
    key: Seq<char>,
)
    requires
        records.len() == keys.len(),
        forall|i: int| 0 <= i < keys.len() ==> (#[trigger] keys[i])@ != key,
    ensures
        cache_after_writes(cache, keys, records).contains_key(key) == cache.contains_key(key),
        cache.contains_key(key) ==> cache_after_writes(cache, keys, records)[key] == cache[key],
    decreases keys.len(),
{
    if keys.len() > 0 {
        let init = keys.drop_last();
        assert forall|i: int| 0 <= i < init.len() implies (#[trigger] init[i])@ != key by {
            assert(keys[i]@ != key);
        }
        lemma_unwritten_key_is_kept(cache, init, records.drop_last(), key);
        assert(keys.last() == keys[keys.len() - 1]);
    }
}

} // verus!
