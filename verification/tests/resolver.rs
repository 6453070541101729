use std::collections::HashMap;

use spotify_stats::error::{FetchError, FetchErrorKind};
use spotify_stats::resolver::{
    combine_results, fetch_artists, fetch_tracks, missing_identifiers, start_resolution, Resolution,
    MAX_BATCH_ENTITY_COUNT,
};
use spotify_stats::timeframe::EntityType;

/// What a run of a resolution did to its collaborators.
struct Trace {
    lookups: Vec<Vec<String>>,
    batches: Vec<Vec<String>>,
    writes: Vec<Vec<(String, String)>>,
    result: Result<Vec<String>, FetchError>,
}

fn ids(names: &[&str]) -> Vec<String> {
    names.iter().map(|name| name.to_string()).collect()
}

fn record_of(id: &str) -> String {
    format!("R_{}", id)
}

/// Runs a resolution against an in-memory cache. Upstream answers a batch
/// with `record_of` each identifier, and fails the batch with the number
/// `failing_batch`.
fn run(
    first: Resolution<String>,
    cache: &mut HashMap<String, String>,
    failing_batch: Option<usize>,
) -> Trace {
    let mut trace = Trace { lookups: vec![], batches: vec![], writes: vec![], result: Ok(vec![]) };
    let mut state = first;
    loop {
        state = match state {
            Resolution::CacheLookup(lookup) => {
                trace.lookups.push(lookup.keys().clone());
                let answer = lookup.keys().iter().map(|key| cache.get(key).cloned()).collect();
                lookup.answer(Ok(answer))
            }
            Resolution::BatchFetch(fetch) => {
                assert_eq!(fetch.batch_index(), trace.batches.len());
                trace.batches.push(fetch.ids().clone());
                if failing_batch == Some(fetch.batch_index()) {
                    fetch.answer(Err(FetchError::new(FetchErrorKind::UpstreamError, "status 500")))
                } else {
                    let records = fetch.ids().iter().map(|id| record_of(id)).collect();
                    fetch.answer(Ok(records))
                }
            }
            Resolution::CacheWrite(write) => {
                let entries: Vec<(String, String)> =
                    write.keys().iter().cloned().zip(write.records().iter().cloned()).collect();
                for (key, record) in entries.iter() {
                    cache.insert(key.clone(), record.clone());
                }
                trace.writes.push(entries);
                write.answer(Ok(()))
            }
            Resolution::Done(records) => {
                trace.result = Ok(records);
                return trace;
            }
            Resolution::Failed(error) => {
                trace.result = Err(error);
                return trace;
            }
        }
    }
}

#[test]
fn partial_hit_fetches_only_the_misses_in_order() {
    let mut cache = HashMap::new();
    cache.insert("b".to_string(), "R_b".to_string());
    let trace = run(start_resolution(EntityType::Tracks, ids(&["a", "b", "c"]), 50), &mut cache, None);
    assert_eq!(trace.lookups, vec![ids(&["a", "b", "c"])]);
    assert_eq!(trace.batches, vec![ids(&["a", "c"])]);
    assert_eq!(trace.result, Ok(ids(&["R_a", "R_b", "R_c"])));
}

#[test]
fn five_misses_with_limit_two_make_three_batches() {
    let mut cache = HashMap::new();
    let trace =
        run(start_resolution(EntityType::Artists, ids(&["a", "b", "c", "d", "e"]), 2), &mut cache, None);
    let sizes: Vec<usize> = trace.batches.iter().map(|batch| batch.len()).collect();
    assert_eq!(sizes, vec![2, 2, 1]);
    assert_eq!(trace.batches, vec![ids(&["a", "b"]), ids(&["c", "d"]), ids(&["e"])]);
    assert_eq!(trace.result, Ok(ids(&["R_a", "R_b", "R_c", "R_d", "R_e"])));
}

#[test]
fn everything_cached_asks_upstream_for_nothing() {
    let mut cache = HashMap::new();
    for id in ["x", "y", "z"] {
        cache.insert(id.to_string(), record_of(id));
    }
    let trace = run(start_resolution(EntityType::Tracks, ids(&["z", "x", "y", "x"]), 2), &mut cache, None);
    assert_eq!(trace.lookups.len(), 1);
    assert!(trace.batches.is_empty());
    assert!(trace.writes.is_empty());
    assert_eq!(trace.result, Ok(ids(&["R_z", "R_x", "R_y", "R_x"])));
}

#[test]
fn nothing_cached_makes_ceil_n_over_limit_batches_and_fills_the_cache() {
    for (n, limit, expected) in [(1usize, 1usize, 1usize), (6, 3, 2), (7, 3, 3), (10, 50, 1), (101, 50, 3)] {
        let names: Vec<String> = (0..n).map(|i| format!("id{}", i)).collect();
        let mut cache = HashMap::new();
        let trace = run(start_resolution(EntityType::Tracks, names.clone(), limit), &mut cache, None);
        assert_eq!(trace.batches.len(), expected);
        assert!(trace.batches.iter().all(|batch| !batch.is_empty() && batch.len() <= limit));
        assert_eq!(trace.batches.concat(), names);
        let expected_records: Vec<String> = names.iter().map(|id| record_of(id)).collect();
        assert_eq!(trace.result, Ok(expected_records));
        for id in names.iter() {
            assert_eq!(cache.get(id), Some(&record_of(id)));
        }
        let written: Vec<String> = trace.writes.concat().into_iter().map(|(key, _)| key).collect();
        assert_eq!(written, names);
    }
}

#[test]
fn no_identifier_contacts_neither_cache_nor_upstream() {
    let first: Resolution<String> = start_resolution(EntityType::Tracks, vec![], 50);
    assert!(matches!(&first, Resolution::Done(records) if records.is_empty()));
    let trace = run(first, &mut HashMap::new(), None);
    assert!(trace.lookups.is_empty());
    assert!(trace.batches.is_empty());
    assert_eq!(trace.result, Ok(vec![]));
}

#[test]
fn duplicate_misses_are_each_fetched_and_resolved() {
    let mut cache = HashMap::new();
    cache.insert("h".to_string(), "R_h".to_string());
    let trace =
        run(start_resolution(EntityType::Tracks, ids(&["m", "h", "m", "h", "m"]), 2), &mut cache, None);
    assert_eq!(trace.batches, vec![ids(&["m", "m"]), ids(&["m"])]);
    assert_eq!(trace.result, Ok(ids(&["R_m", "R_h", "R_m", "R_h", "R_m"])));
}

#[test]
fn records_follow_positions_not_arrival() {
    // Records that differ for one identifier show which position each went to.
    let first: Resolution<u32> = start_resolution(EntityType::Tracks, ids(&["a", "b", "a", "c"]), 2);
    let Resolution::CacheLookup(lookup) = first else { panic!("expected a cache lookup") };
    let Resolution::BatchFetch(fetch) = lookup.answer(Ok(vec![None, Some(20), None, None])) else {
        panic!("expected a batch request")
    };
    assert_eq!(fetch.ids(), &ids(&["a", "a"]));
    let Resolution::CacheWrite(write) = fetch.answer(Ok(vec![11, 12])) else {
        panic!("expected a cache write")
    };
    assert_eq!(write.keys(), &ids(&["a", "a"]));
    assert_eq!(write.records(), &vec![11, 12]);
    let Resolution::BatchFetch(fetch) = write.answer(Ok(())) else {
        panic!("expected a second batch request")
    };
    assert_eq!(fetch.batch_index(), 1);
    assert_eq!(fetch.ids(), &ids(&["c"]));
    let Resolution::CacheWrite(write) = fetch.answer(Ok(vec![30])) else {
        panic!("expected a cache write")
    };
    let Resolution::Done(records) = write.answer(Ok(())) else { panic!("expected the result") };
    assert_eq!(records, vec![11, 20, 12, 30]);
}

#[test]
fn failed_batch_fails_the_resolution_and_keeps_earlier_writes() {
    let mut cache = HashMap::new();
    let trace =
        run(start_resolution(EntityType::Tracks, ids(&["a", "b", "c", "d", "e"]), 2), &mut cache, Some(1));
    assert_eq!(
        trace.result,
        Err(FetchError {
            kind: FetchErrorKind::UpstreamError,
            context: "tracks batch 1: status 500".into()
        })
    );
    assert_eq!(trace.batches.len(), 2);
    assert_eq!(trace.writes.len(), 1);
    assert_eq!(cache.get("a"), Some(&"R_a".to_string()));
    assert_eq!(cache.get("b"), Some(&"R_b".to_string()));
    assert_eq!(cache.get("c"), None);
}

#[test]
fn failed_lookup_fails_the_resolution() {
    let first: Resolution<u32> = start_resolution(EntityType::Artists, ids(&["a"]), 50);
    let Resolution::CacheLookup(lookup) = first else { panic!("expected a cache lookup") };
    let error = FetchError::new(FetchErrorKind::CacheError, "connection refused");
    assert_eq!(lookup.entity_type(), EntityType::Artists);
    let next = lookup.answer(Err(error));
    assert!(matches!(next, Resolution::Failed(e) if e.kind == FetchErrorKind::CacheError
        && e.context == "artists cache lookup: connection refused"));
}

#[test]
fn failed_write_fails_the_resolution() {
    let first: Resolution<u32> = start_resolution(EntityType::Artists, ids(&["a"]), 50);
    let Resolution::CacheLookup(lookup) = first else { panic!("expected a cache lookup") };
    let Resolution::BatchFetch(fetch) = lookup.answer(Ok(vec![None])) else {
        panic!("expected a batch request")
    };
    assert_eq!(fetch.entity_type(), EntityType::Artists);
    let Resolution::CacheWrite(write) = fetch.answer(Ok(vec![1])) else {
        panic!("expected a cache write")
    };
    assert_eq!(write.entity_type(), EntityType::Artists);
    let error = FetchError::new(FetchErrorKind::CacheError, "read only");
    assert!(matches!(write.answer(Err(error)), Resolution::Failed(e) if e.kind == FetchErrorKind::CacheError
        && e.context == "artists cache write of batch 0: read only"));
}

#[test]
fn lookup_answer_of_wrong_length_is_a_cache_error() {
    for answer in [vec![], vec![None], vec![None, Some(1), None]] {
        let first: Resolution<u32> = start_resolution(EntityType::Tracks, ids(&["a", "b"]), 50);
        let Resolution::CacheLookup(lookup) = first else { panic!("expected a cache lookup") };
        let next = lookup.answer(Ok(answer));
        assert!(matches!(next, Resolution::Failed(e) if e.kind == FetchErrorKind::CacheError
            && e.context
                == "tracks cache lookup: cache answered with a different number of entries than keys"));
    }
}

#[test]
fn batch_answer_of_wrong_length_is_an_upstream_error() {
    for answer in [vec![], vec![1], vec![1, 2, 3]] {
        let first: Resolution<u32> = start_resolution(EntityType::Tracks, ids(&["a", "b"]), 50);
        let Resolution::CacheLookup(lookup) = first else { panic!("expected a cache lookup") };
        let Resolution::BatchFetch(fetch) = lookup.answer(Ok(vec![None, None])) else {
            panic!("expected a batch request")
        };
        let next = fetch.answer(Ok(answer));
        assert!(matches!(next, Resolution::Failed(e) if e.kind == FetchErrorKind::UpstreamError
            && e.context
                == "tracks batch 0: upstream answered with a different number of records than identifiers"));
    }
}

#[test]
fn artists_and_tracks_use_the_upstream_batch_limit() {
    assert_eq!(MAX_BATCH_ENTITY_COUNT, 50);
    let names: Vec<String> = (0..51).map(|i| format!("id{}", i)).collect();
    let Resolution::CacheLookup(lookup) = fetch_artists(names.clone()) else {
        panic!("expected a cache lookup")
    };
    assert_eq!(lookup.entity_type(), EntityType::Artists);
    let Resolution::BatchFetch(fetch) = lookup.answer(Ok(names.iter().map(|_| None).collect()))
    else {
        panic!("expected a batch request")
    };
    assert_eq!(fetch.ids().len(), 50);
    let Resolution::CacheLookup(lookup) = fetch_tracks(names.clone()) else {
        panic!("expected a cache lookup")
    };
    assert_eq!(lookup.entity_type(), EntityType::Tracks);
    assert_eq!(lookup.keys(), &names);
    assert!(matches!(fetch_tracks(vec![]), Resolution::Done(records) if records.is_empty()));
}

#[test]
fn missing_identifiers_are_those_without_entry() {
    let cached = vec![Some(1), None, None, Some(4), None];
    assert_eq!(missing_identifiers(&ids(&["a", "b", "c", "d", "e"]), &cached), ids(&["b", "c", "e"]));
    let all: Vec<Option<u8>> = vec![Some(1)];
    assert!(missing_identifiers(&ids(&["a"]), &all).is_empty());
}

#[test]
fn combine_results_fills_misses_in_order() {
    assert_eq!(combine_results(vec![None, Some(2), None, None, Some(5)], vec![1, 3, 4]), vec![1, 2, 3, 4, 5]);
    assert_eq!(combine_results(vec![Some(7), Some(8)], vec![]), vec![7, 8]);
    assert_eq!(combine_results(vec![None, None], vec![9, 10]), vec![9, 10]);
    assert_eq!(combine_results::<u8>(vec![], vec![]), vec![]);
}
