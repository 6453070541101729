//! Cache-backed batch resolution of bare identifiers into full records.
//!
//! A resolution is a value that says what has to be done next: look the
//! identifiers up in the cache, fetch one batch of misses from upstream, or
//! write a fetched batch back to the cache. The embedding program performs
//! the request and hands the outcome to `answer`, which gives the next state.
//! The first failure ends the resolution; nothing partial is ever returned.

use vstd::prelude::*;
use crate::error::{FetchError, FetchErrorKind, FetchErrorView};
use crate::models::{Artist, Track};
use crate::resolver_model::{
    after_batch_fetch, after_cache_lookup, after_cache_write, batch_at, combined, miss_ids,
    miss_positions, resolution_start, LookupView, ProgressView, ResolutionView,
};
use crate::timeframe::EntityType;
use crate::urls::{decimal, decimal_string};

verus! {

/// The largest number of identifiers that one upstream batch request takes.
pub const MAX_BATCH_ENTITY_COUNT: usize = 50;

/// The identifiers whose cache entry is missing, in input order.
pub fn missing_identifiers<T>(ids: &Vec<String>, cached: &Vec<Option<T>>) -> (missing: Vec<String>)
    requires
        cached.len() <= ids.len(),
    ensures
        missing@ == miss_ids(ids@, cached@),
        missing.len() == miss_positions(cached@).len(),
{
    let mut missing: Vec<String> = Vec::new();
    let mut i: usize = 0;
    while i < cached.len()
        invariant
            i <= cached.len() <= ids.len(),
            missing@ == miss_ids(ids@, cached@.take(i as int)),
            missing.len() == miss_positions(cached@.take(i as int)).len(),
        decreases cached.len() - i,
    {
        proof {
            let next = cached@.take(i + 1);
            assert(next.drop_last() == cached@.take(i as int));
            assert(next.last() == cached@[i as int]);
        }
        if cached[i].is_none() {
            missing.push(ids[i].clone());
        }
        i += 1;
    }
    proof {
        assert(cached@.take(cached.len() as int) == cached@);
    }
    missing
}

/// Final assembly. Walks the positions of `cached`: a hit gives its cached
/// record, a miss gives the next record of `fetched`. Every record is moved,
/// none is copied.
pub fn combine_results<T>(cached: Vec<Option<T>>, fetched: Vec<T>) -> (records: Vec<T>)
    requires
        fetched.len() == miss_positions(cached@).len(),
    ensures
        records@ == combined(cached@, fetched@),
        records.len() == cached.len(),
{
    let ghost all_cached = cached@;
    let ghost all_fetched = fetched@;
    let mut cached = cached;
    let mut fetched = fetched;
    // Filled from the last position to the first.
    let mut backwards: Vec<T> = Vec::new();
    while cached.len() > 0
        invariant
            fetched.len() == miss_positions(cached@).len(),
            backwards.len() + cached.len() == all_cached.len(),
            combined(all_cached, all_fetched) == combined(cached@, fetched@) + backwards@.reverse(),
        decreases cached.len(),
    {
        let ghost before = combined(cached@, fetched@);
        let ghost tail = backwards@.reverse();
        let entry = cached.pop();
        match entry {
            Some(Some(record)) => {
                backwards.push(record);
            },
            Some(None) => {
                let record = fetched.pop();
                match record {
                    Some(record) => backwards.push(record),
                    None => {
                        assert(false);
                    },
                }
            },
            None => {
                assert(false);
            },
        }
        proof {
            let last = backwards@.last();
            assert(before == combined(cached@, fetched@).push(last));
            assert(backwards@.reverse() == seq![last] + tail);
            assert(combined(cached@, fetched@).push(last) + tail == combined(cached@, fetched@)
                + (seq![last] + tail));
        }
    }
    let mut records: Vec<T> = Vec::new();
    while backwards.len() > 0
        invariant
            records@ + backwards@.reverse() == combined(all_cached, all_fetched),
            records.len() + backwards.len() == all_cached.len(),
        decreases backwards.len(),
    {
        let ghost tail = backwards@.reverse();
        let ghost head = records@;
        let record = backwards.pop();
        match record {
            Some(record) => {
                records.push(record);
                proof {
                    assert(tail == seq![record] + backwards@.reverse());
                    assert(head.push(record) + backwards@.reverse() == head + (seq![record]
                        + backwards@.reverse()));
                }
            },
            None => {
                assert(false);
            },
        }
    }
    proof {
        assert(backwards@.reverse() == Seq::<T>::empty());
        assert(records@ + Seq::<T>::empty() == records@);
    }
    records
}

/// The identifiers of the batch that starts at `start`: copies of up to
/// `limit` of the missing identifiers.
fn batch_from(missing: &Vec<String>, start: usize, limit: usize) -> (batch: Vec<String>)
    requires
        start <= missing.len(),
        limit > 0,
    ensures
        batch@ == batch_at(missing@, start as int, limit as int),
        batch.len() <= limit,
        start < missing.len() ==> batch.len() > 0,
{
    let end: usize = if limit <= missing.len() - start {
        start + limit
    } else {
        missing.len()
    };
    let mut batch: Vec<String> = Vec::new();
    let mut i: usize = start;
    while i < end
        invariant
            start <= i <= end <= missing.len(),
            batch@ == missing@.subrange(start as int, i as int),
        decreases end - i,
    {
        batch.push(missing[i].clone());
        proof {
            assert(missing@.subrange(start as int, i + 1) == missing@.subrange(
                start as int,
                i as int,
            ).push(missing@[i as int]));
        }
        i += 1;
    }
    batch
}

/// Puts the entity type and the words of `place` before the context of
/// `error`.
fn in_context(error: FetchError, entity_type: EntityType, place: &str) -> (located: FetchError)
    ensures
        located.kind == error.kind,
        located.context@ == entity_type.spec_name() + place@ + ": "@ + error.context@,
{
    let mut context = entity_type.name().to_owned();
    context.append(place);
    context.append(": ");
    context.append(error.context.as_str());
    FetchError { kind: error.kind, context }
}

/// Puts the entity type, the words of `place` and the number of the batch
/// before the context of `error`.
fn in_batch_context(error: FetchError, entity_type: EntityType, place: &str, index: usize) -> (located:
    FetchError)
    ensures
        located.kind == error.kind,
        located.context@ == entity_type.spec_name() + place@ + decimal(index as nat) + ": "@
            + error.context@,
{
    let mut context = entity_type.name().to_owned();
    context.append(place);
    let number = decimal_string(index);
    context.append(number.as_str());
    context.append(": ");
    context.append(error.context.as_str());
    FetchError { kind: error.kind, context }
}

/// The cache's answer to a lookup, as the model reads it.
pub open spec fn lookup_answer_view<T>(answer: Result<Vec<Option<T>>, FetchError>) -> Result<
    Seq<Option<T>>,
    FetchErrorView,
> {
    match answer {
        Ok(cached) => Ok(cached@),
        Err(error) => Err(error@),
    }
}

/// Upstream's answer to a batch request, as the model reads it.
pub open spec fn batch_answer_view<T>(answer: Result<Vec<T>, FetchError>) -> Result<
    Seq<T>,
    FetchErrorView,
> {
    match answer {
        Ok(records) => Ok(records@),
        Err(error) => Err(error@),
    }
}

/// The cache's answer to a write, as the model reads it.
pub open spec fn write_answer_view(answer: Result<(), FetchError>) -> Result<(), FetchErrorView> {
    match answer {
        Ok(_) => Ok(()),
        Err(error) => Err(error@),
    }
}

/// A pending cache lookup of all identifiers, in one call.
pub struct CacheLookup<T> {
    entity_type: EntityType,
    ids: Vec<String>,
    batch_limit: usize,
    records: core::marker::PhantomData<T>,
}

/// A pending upstream request for one batch of missing identifiers.
pub struct BatchFetch<T> {
    entity_type: EntityType,
    batch_limit: usize,
    cached: Vec<Option<T>>,
    missing: Vec<String>,
    fetched: Vec<T>,
    batch: Vec<String>,
}

/// A pending cache write of the records of the batch just fetched.
pub struct CacheWrite<T> {
    entity_type: EntityType,
    batch_limit: usize,
    cached: Vec<Option<T>>,
    missing: Vec<String>,
    fetched: Vec<T>,
    batch: Vec<String>,
    pending: Vec<T>,
}

/// A resolution: the request that the embedding program has to carry out
/// next, or the final outcome.
pub enum Resolution<T> {
    CacheLookup(CacheLookup<T>),
    BatchFetch(BatchFetch<T>),
    CacheWrite(CacheWrite<T>),
    Done(Vec<T>),
    Failed(FetchError),
}

impl<T> View for CacheLookup<T> {
    type V = LookupView;

    closed spec fn view(&self) -> LookupView {
        LookupView {
            entity_type: self.entity_type,
            ids: self.ids@,
            batch_limit: self.batch_limit as nat,
        }
    }
}

impl<T> View for BatchFetch<T> {
    type V = ProgressView<T>;

    closed spec fn view(&self) -> ProgressView<T> {
        ProgressView {
            entity_type: self.entity_type,
            batch_limit: self.batch_limit as nat,
            cached: self.cached@,
            miss_ids: self.missing@,
            fetched: self.fetched@,
        }
    }
}

impl<T> View for CacheWrite<T> {
    type V = (ProgressView<T>, Seq<T>);

    closed spec fn view(&self) -> (ProgressView<T>, Seq<T>) {
        (
            ProgressView {
                entity_type: self.entity_type,
                batch_limit: self.batch_limit as nat,
                cached: self.cached@,
                miss_ids: self.missing@,
                fetched: self.fetched@,
            },
            self.pending@,
        )
    }
}

impl<T> View for Resolution<T> {
    type V = ResolutionView<T>;

    open spec fn view(&self) -> ResolutionView<T> {
        match self {
            Resolution::CacheLookup(lookup) => ResolutionView::CacheLookup(lookup@),
            Resolution::BatchFetch(fetch) => ResolutionView::BatchFetch(fetch@),
            Resolution::CacheWrite(write) => ResolutionView::CacheWrite(write@.0, write@.1),
            Resolution::Done(records) => ResolutionView::Done(records@),
            Resolution::Failed(error) => ResolutionView::Failed(error@),
        }
    }
}

impl<T> CacheLookup<T> {
    #[verifier::type_invariant]
    spec fn inv(self) -> bool {
        self.batch_limit > 0 && self.ids.len() > 0
    }

    /// Whose records are being resolved.
    pub fn entity_type(&self) -> (entity_type: EntityType)
        ensures
            entity_type == self@.entity_type,
    {
        self.entity_type
    }

    /// The keys to look up: every identifier, in input order.
    pub fn keys(&self) -> (keys: &Vec<String>)
        ensures
            keys@ == self@.ids,
    {
        &self.ids
    }

    /// Takes the cache's answer: one entry per key, in key order, `None`
    /// for a miss. With no miss the resolution is done without any upstream
    /// request; otherwise the first batch of misses is requested.
    pub fn answer(self, answer: Result<Vec<Option<T>>, FetchError>) -> (next: Resolution<T>)
        ensures
            next@ == after_cache_lookup(self@, lookup_answer_view(answer)),
    {
        proof {
            use_type_invariant(&self);
        }
        match answer {
            Err(error) => Resolution::Failed(
                in_context(error, self.entity_type, " cache lookup"),
            ),
            Ok(cached) => {
                if cached.len() != self.ids.len() {
                    let error = FetchError::new(
                        FetchErrorKind::CacheError,
                        "cache answered with a different number of entries than keys",
                    );
                    Resolution::Failed(in_context(error, self.entity_type, " cache lookup"))
                } else {
                    let missing = missing_identifiers(&self.ids, &cached);
                    if missing.len() == 0 {
                        Resolution::Done(combine_results(cached, Vec::new()))
                    } else {
                        let batch = batch_from(&missing, 0, self.batch_limit);
                        Resolution::BatchFetch(
                            BatchFetch {
                                entity_type: self.entity_type,
                                batch_limit: self.batch_limit,
                                cached,
                                missing,
                                fetched: Vec::new(),
                                batch,
                            },
                        )
                    }
                }
            },
        }
    }
}

impl<T> BatchFetch<T> {
    #[verifier::type_invariant]
    spec fn inv(self) -> bool {
        self@.wf() && self.batch@ == self@.batch()
    }

    /// Whose records are being resolved.
    pub fn entity_type(&self) -> (entity_type: EntityType)
        ensures
            entity_type == self@.entity_type,
    {
        self.entity_type
    }

    /// The identifiers to request, in the order in which the records are
    /// expected back: at least one, at most the batch limit.
    pub fn ids(&self) -> (ids: &Vec<String>)
        ensures
            ids@ == self@.batch(),
            0 < ids.len() <= self@.batch_limit,
    {
        proof {
            use_type_invariant(self);
        }
        &self.batch
    }

    /// The number of batches completed before this one.
    pub fn batch_index(&self) -> (index: usize)
        ensures
            index == self@.batch_index(),
    {
        proof {
            use_type_invariant(self);
        }
        self.fetched.len() / self.batch_limit
    }

    /// Takes upstream's answer: the records of the batch, in request order.
    /// A failure, or an answer of another length than the batch, ends the
    /// resolution.
    pub fn answer(self, answer: Result<Vec<T>, FetchError>) -> (next: Resolution<T>)
        ensures
            next@ == after_batch_fetch(self@, batch_answer_view(answer)),
    {
        proof {
            use_type_invariant(&self);
        }
        let index = self.fetched.len() / self.batch_limit;
        match answer {
            Err(error) => Resolution::Failed(
                in_batch_context(error, self.entity_type, " batch ", index),
            ),
            Ok(records) => {
                if records.len() != self.batch.len() {
                    let error = FetchError::new(
                        FetchErrorKind::UpstreamError,
                        "upstream answered with a different number of records than identifiers",
                    );
                    Resolution::Failed(in_batch_context(error, self.entity_type, " batch ", index))
                } else {
                    Resolution::CacheWrite(
                        CacheWrite {
                            entity_type: self.entity_type,
                            batch_limit: self.batch_limit,
                            cached: self.cached,
                            missing: self.missing,
                            fetched: self.fetched,
                            batch: self.batch,
                            pending: records,
                        },
                    )
                }
            },
        }
    }
}

impl<T> CacheWrite<T> {
    #[verifier::type_invariant]
    spec fn inv(self) -> bool {
        &&& self@.0.wf()
        &&& self.batch@ == self@.0.batch()
        &&& self.pending.len() == self.batch.len()
    }

    /// Whose records are being resolved.
    pub fn entity_type(&self) -> (entity_type: EntityType)
        ensures
            entity_type == self@.0.entity_type,
    {
        self.entity_type
    }

    /// The keys to write: the identifiers of the batch just fetched.
    pub fn keys(&self) -> (keys: &Vec<String>)
        ensures
            keys@ == self@.0.batch(),
    {
        proof {
            use_type_invariant(self);
        }
        &self.batch
    }

    /// The records to write, one per key and in key order.
    pub fn records(&self) -> (records: &Vec<T>)
        ensures
            records@ == self@.1,
            records.len() == self@.0.batch().len(),
    {
        proof {
            use_type_invariant(self);
        }
        &self.pending
    }

    /// Takes the cache's answer to the write. The records join those
    /// fetched before; then the next batch is requested, or, after the last
    /// one, the result is assembled.
    pub fn answer(self, answer: Result<(), FetchError>) -> (next: Resolution<T>)
        ensures
            next@ == after_cache_write(self@.0, self@.1, write_answer_view(answer)),
    {
        proof {
            use_type_invariant(&self);
        }
        let index = self.fetched.len() / self.batch_limit;
        match answer {
            Err(error) => Resolution::Failed(
                in_batch_context(error, self.entity_type, " cache write of batch ", index),
            ),
            Ok(_) => {
                let mut fetched = self.fetched;
                let mut pending = self.pending;
                fetched.append(&mut pending);
                if fetched.len() >= self.missing.len() {
                    Resolution::Done(combine_results(self.cached, fetched))
                } else {
                    let batch = batch_from(&self.missing, fetched.len(), self.batch_limit);
                    Resolution::BatchFetch(
                        BatchFetch {
                            entity_type: self.entity_type,
                            batch_limit: self.batch_limit,
                            cached: self.cached,
                            missing: self.missing,
                            fetched,
                            batch,
                        },
                    )
                }
            },
        }
    }
}

/// Starts the resolution of `ids` into records of `entity_type`, with
/// upstream batches of at most `batch_limit` identifiers. With no identifier
/// the resolution is done at once, with no record.
pub fn start_resolution<T>(entity_type: EntityType, ids: Vec<String>, batch_limit: usize) -> (first:
    Resolution<T>)
    requires
        batch_limit > 0,
    ensures
        first@ == resolution_start::<T>(entity_type, ids@, batch_limit as nat),
{
    if ids.len() == 0 {
        Resolution::Done(Vec::new())
    } else {
        Resolution::CacheLookup(
            CacheLookup { entity_type, ids, batch_limit, records: core::marker::PhantomData },
        )
    }
}

/// Starts the resolution of artist identifiers, in batches of at most
/// `MAX_BATCH_ENTITY_COUNT`.
pub fn fetch_artists(spotify_ids: Vec<String>) -> (first: Resolution<Artist>)
    ensures
        first@ == resolution_start::<Artist>(
            EntityType::Artists,
            spotify_ids@,
            MAX_BATCH_ENTITY_COUNT as nat,
        ),
{
    start_resolution(EntityType::Artists, spotify_ids, MAX_BATCH_ENTITY_COUNT)
}

/// Starts the resolution of track identifiers, in batches of at most
/// `MAX_BATCH_ENTITY_COUNT`.
pub fn fetch_tracks(spotify_ids: Vec<String>) -> (first: Resolution<Track>)
    ensures
        first@ == resolution_start::<Track>(
            EntityType::Tracks,
            spotify_ids@,
            MAX_BATCH_ENTITY_COUNT as nat,
        ),
{
    start_resolution(EntityType::Tracks, spotify_ids, MAX_BATCH_ENTITY_COUNT)
}

} // verus!
