use chrono::{NaiveDate, NaiveDateTime};
use spotify_stats::acquire::{
    collect_top_entities, request_for, top_entities_requests, TopEntitiesResponse,
};
use spotify_stats::error::{FetchError, FetchErrorKind};
use spotify_stats::models::{RankedEntity, TimeFrames};
use spotify_stats::timeframe::{EntityType, Timeframe};

fn instant() -> NaiveDateTime {
    NaiveDate::from_ymd_opt(2019, 6, 1).unwrap().and_hms_opt(8, 0, 0).unwrap()
}

fn ok(entity_type: EntityType, timeframe: Timeframe, ids: &[&str]) -> TopEntitiesResponse {
    TopEntitiesResponse {
        entity_type,
        timeframe,
        items: Ok(ids.iter().map(|id| id.to_string()).collect()),
    }
}

fn ranked(ids: &[&str]) -> Vec<RankedEntity> {
    ids.iter()
        .enumerate()
        .map(|(i, id)| RankedEntity { spotify_id: id.to_string(), ranking: i as u16 })
        .collect()
}

fn six_responses() -> Vec<TopEntitiesResponse> {
    vec![
        ok(EntityType::Tracks, Timeframe::Short, &["t1", "t2"]),
        ok(EntityType::Tracks, Timeframe::Medium, &["t3"]),
        ok(EntityType::Tracks, Timeframe::Long, &[]),
        ok(EntityType::Artists, Timeframe::Short, &["a1"]),
        ok(EntityType::Artists, Timeframe::Medium, &["a2", "a3", "a1"]),
        ok(EntityType::Artists, Timeframe::Long, &["a4"]),
    ]
}

#[test]
fn six_successes_populate_six_buckets() {
    let snapshot = collect_top_entities(instant(), six_responses()).unwrap();
    assert_eq!(snapshot.last_update_time, instant());
    assert_eq!(
        snapshot.tracks,
        TimeFrames { short: ranked(&["t1", "t2"]), medium: ranked(&["t3"]), long: vec![] }
    );
    assert_eq!(
        snapshot.artists,
        TimeFrames {
            short: ranked(&["a1"]),
            medium: ranked(&["a2", "a3", "a1"]),
            long: ranked(&["a4"]),
        }
    );
}

#[test]
fn arrival_order_does_not_change_the_snapshot() {
    let expected = collect_top_entities(instant(), six_responses()).unwrap();
    let mut reversed = six_responses();
    reversed.reverse();
    assert_eq!(collect_top_entities(instant(), reversed), Ok(expected));
}

#[test]
fn failed_long_artists_cell_fails_the_acquisition() {
    let mut responses = six_responses();
    responses[5].items = Err(FetchError::new(FetchErrorKind::UpstreamError, "status 500"));
    assert_eq!(
        collect_top_entities(instant(), responses),
        Err(FetchError { kind: FetchErrorKind::UpstreamError, context: "artists long: status 500".into() })
    );
}

#[test]
fn any_single_failed_cell_fails_the_acquisition() {
    for failing in 0..6 {
        let mut responses = six_responses();
        responses[failing].items = Err(FetchError::new(FetchErrorKind::NetworkError, "timed out"));
        let error = collect_top_entities(instant(), responses).unwrap_err();
        assert_eq!(error.kind, FetchErrorKind::NetworkError);
        assert!(error.context.ends_with(": timed out"));
    }
}

#[test]
fn first_failure_in_arrival_order_is_reported() {
    let mut responses = six_responses();
    responses[4].items = Err(FetchError::new(FetchErrorKind::UpstreamError, "malformed payload"));
    responses[1].items = Err(FetchError::new(FetchErrorKind::NetworkError, "connection reset"));
    assert_eq!(
        collect_top_entities(instant(), responses),
        Err(FetchError {
            kind: FetchErrorKind::NetworkError,
            context: "tracks medium: connection reset".into()
        })
    );
}

#[test]
fn no_response_fails_the_acquisition() {
    assert_eq!(
        collect_top_entities(instant(), vec![]),
        Err(FetchError { kind: FetchErrorKind::NetworkError, context: "tracks short: no answer".into() })
    );
}

#[test]
fn five_successes_without_the_long_artists_cell_fail() {
    let mut responses = six_responses();
    responses.pop();
    assert_eq!(
        collect_top_entities(instant(), responses),
        Err(FetchError { kind: FetchErrorKind::NetworkError, context: "artists long: no answer".into() })
    );
}

#[test]
fn any_single_missing_cell_fails_the_acquisition() {
    for missing in 0..6 {
        let mut responses = six_responses();
        responses.remove(missing);
        let error = collect_top_entities(instant(), responses).unwrap_err();
        assert_eq!(error.kind, FetchErrorKind::NetworkError);
        assert!(error.context.ends_with(": no answer"));
    }
}

#[test]
fn cell_answered_twice_fails_the_acquisition() {
    let mut responses = six_responses();
    responses.push(ok(EntityType::Tracks, Timeframe::Medium, &["t9"]));
    assert_eq!(
        collect_top_entities(instant(), responses),
        Err(FetchError {
            kind: FetchErrorKind::UpstreamError,
            context: "tracks medium: more than one answer".into()
        })
    );
}

#[test]
fn six_answers_for_five_cells_fail_at_the_first_cell_in_grid_order() {
    let mut responses = six_responses();
    responses[0] = ok(EntityType::Artists, Timeframe::Long, &["a9"]);
    assert_eq!(
        collect_top_entities(instant(), responses),
        Err(FetchError { kind: FetchErrorKind::NetworkError, context: "tracks short: no answer".into() })
    );
}

#[test]
fn failed_response_is_reported_before_a_missing_cell() {
    let mut responses = six_responses();
    responses.remove(0);
    responses[4].items = Err(FetchError::new(FetchErrorKind::UpstreamError, "status 500"));
    assert_eq!(
        collect_top_entities(instant(), responses),
        Err(FetchError { kind: FetchErrorKind::UpstreamError, context: "artists long: status 500".into() })
    );
}

#[test]
fn ranks_are_positions_reduced_to_sixteen_bits() {
    let many: Vec<String> = (0..65538).map(|i| format!("id{}", i)).collect();
    let mut responses = six_responses();
    responses[2] = TopEntitiesResponse {
        entity_type: EntityType::Tracks,
        timeframe: Timeframe::Long,
        items: Ok(many),
    };
    let snapshot = collect_top_entities(instant(), responses).unwrap();
    assert_eq!(snapshot.tracks.long.len(), 65538);
    assert_eq!(snapshot.tracks.long[49].ranking, 49);
    assert_eq!(snapshot.tracks.long[65535].ranking, 65535);
    assert_eq!(snapshot.tracks.long[65536].ranking, 0);
    assert_eq!(snapshot.tracks.long[65537].ranking, 1);
    assert_eq!(snapshot.tracks.long[65537].spotify_id, "id65537");
}

#[test]
fn requests_cover_the_grid_once_each() {
    let requests = top_entities_requests();
    let cells: Vec<(EntityType, Timeframe)> =
        requests.iter().map(|request| (request.entity_type, request.timeframe)).collect();
    assert_eq!(
        cells,
        vec![
            (EntityType::Tracks, Timeframe::Short),
            (EntityType::Tracks, Timeframe::Medium),
            (EntityType::Tracks, Timeframe::Long),
            (EntityType::Artists, Timeframe::Short),
            (EntityType::Artists, Timeframe::Medium),
            (EntityType::Artists, Timeframe::Long),
        ]
    );
    assert_eq!(
        requests[5].url,
        "https://api.spotify.com/v1/me/top/artists?limit=50&time_range=long_term"
    );
    assert_eq!(requests[1], request_for(EntityType::Tracks, Timeframe::Medium));
}
