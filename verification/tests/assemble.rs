use chrono::{NaiveDate, NaiveDateTime};
use spotify_stats::acquire::TopEntities;
use spotify_stats::assemble::{assemble_bucket, assemble_frames, assemble_snapshot, find_resolution};
use spotify_stats::error::{FetchError, FetchErrorKind};
use spotify_stats::history::{
    new_history_entries, ranked_identifiers, rankings_of_history, snapshot_rows,
};
use spotify_stats::models::{Artist, NewHistoryEntry, RankedEntity, TimeFrames, Track, User};
use spotify_stats::rank_order::{in_rank_order, insert_in_rank_order};

fn instant() -> NaiveDateTime {
    NaiveDate::from_ymd_opt(2020, 2, 29).unwrap().and_hms_opt(23, 59, 59).unwrap()
}

fn ranked(ids: &[&str]) -> Vec<RankedEntity> {
    ids.iter()
        .enumerate()
        .map(|(i, id)| RankedEntity { spotify_id: id.to_string(), ranking: i as u16 })
        .collect()
}

fn track(id: i64, title: &str) -> Track {
    Track {
        id,
        title: title.into(),
        artists: "someone".into(),
        preview_url: "https://p.example/x".into(),
        album: "album".into(),
        image_url: "https://i.example/x".into(),
    }
}

fn artist(id: i64, name: &str) -> Artist {
    Artist {
        id,
        name: name.into(),
        genres: "genre".into(),
        image_url: "https://i.example/y".into(),
        uri: "spotify:artist:y".into(),
    }
}

fn rankings() -> TopEntities {
    TopEntities {
        last_update_time: instant(),
        tracks: TimeFrames { short: ranked(&["t1", "t2"]), medium: ranked(&["t2"]), long: vec![] },
        artists: TimeFrames { short: ranked(&["a1"]), medium: vec![], long: ranked(&["a2", "a1"]) },
    }
}

fn entry(spotify_id: &str, timeframe: u8, ranking: u16) -> NewHistoryEntry {
    NewHistoryEntry { user_id: 7, spotify_id: spotify_id.into(), update_time: instant(), timeframe, ranking }
}

#[test]
fn snapshot_holds_resolved_records_in_rank_order() {
    let tracks = vec![("t2".to_string(), track(2, "two")), ("t1".to_string(), track(1, "one"))];
    let artists = vec![("a1".to_string(), artist(1, "A")), ("a2".to_string(), artist(2, "B"))];
    let snapshot = assemble_snapshot(&rankings(), &tracks, &artists).unwrap();
    assert_eq!(snapshot.last_update_time, instant());
    assert_eq!(
        snapshot.tracks,
        TimeFrames { short: vec![track(1, "one"), track(2, "two")], medium: vec![track(2, "two")], long: vec![] }
    );
    assert_eq!(
        snapshot.artists,
        TimeFrames { short: vec![artist(1, "A")], medium: vec![], long: vec![artist(2, "B"), artist(1, "A")] }
    );
}

#[test]
fn unresolved_identifier_is_missing_resolution() {
    let tracks = vec![("t1".to_string(), track(1, "one"))];
    let artists = vec![("a1".to_string(), artist(1, "A")), ("a2".to_string(), artist(2, "B"))];
    assert_eq!(
        assemble_snapshot(&rankings(), &tracks, &artists),
        Err(FetchError { kind: FetchErrorKind::MissingResolution, context: "t2".into() })
    );
}

#[test]
fn artists_are_assembled_before_tracks() {
    let tracks = vec![];
    let artists = vec![("a1".to_string(), artist(1, "A"))];
    assert_eq!(
        assemble_snapshot(&rankings(), &tracks, &artists),
        Err(FetchError { kind: FetchErrorKind::MissingResolution, context: "a2".into() })
    );
}

#[test]
fn first_pair_of_an_identifier_wins() {
    let resolved = vec![("x".to_string(), 1), ("y".to_string(), 2), ("x".to_string(), 3)];
    assert_eq!(find_resolution(&resolved, &"x".to_string()), Some(0));
    assert_eq!(find_resolution(&resolved, &"y".to_string()), Some(1));
    assert_eq!(find_resolution(&resolved, &"z".to_string()), None);
    assert_eq!(assemble_bucket(&ranked(&["y", "x", "y"]), &resolved), Ok(vec![2, 1, 2]));
}

#[test]
fn empty_bucket_needs_no_record() {
    let resolved: Vec<(String, u8)> = vec![];
    assert_eq!(assemble_bucket(&vec![], &resolved), Ok(vec![]));
    assert_eq!(assemble_frames(&TimeFrames::new(), &resolved), Ok(TimeFrames::new()));
}

#[test]
fn frames_fail_on_the_first_unresolved_in_bucket_order() {
    let resolved = vec![("k".to_string(), 1)];
    let frames = TimeFrames { short: ranked(&["k"]), medium: ranked(&["k", "m"]), long: ranked(&["l"]) };
    assert_eq!(
        assemble_frames(&frames, &resolved),
        Err(FetchError { kind: FetchErrorKind::MissingResolution, context: "m".into() })
    );
}

#[test]
fn history_rows_go_bucket_by_bucket_with_timeframe_ids() {
    let frames = TimeFrames { short: ranked(&["s0", "s1"]), medium: ranked(&["m0"]), long: ranked(&["l0", "l1"]) };
    assert_eq!(
        new_history_entries(7, instant(), &frames),
        vec![entry("s0", 0, 0), entry("s1", 0, 1), entry("m0", 1, 0), entry("l0", 2, 0), entry("l1", 2, 1)]
    );
    assert_eq!(new_history_entries(7, instant(), &TimeFrames::new()), vec![]);
}

#[test]
fn snapshot_rows_hold_artist_and_track_rows() {
    let user = User {
        id: 7,
        creation_time: instant(),
        last_update_time: instant(),
        username: "listener".into(),
        token: "token".into(),
        refresh_token: "refresh".into(),
    };
    let rows = snapshot_rows(&user, &rankings());
    assert_eq!(rows.user_id, 7);
    assert_eq!(rows.last_update_time, instant());
    assert_eq!(rows.artist_entries, vec![entry("a1", 0, 0), entry("a2", 2, 0), entry("a1", 2, 1)]);
    assert_eq!(rows.track_entries, vec![entry("t1", 0, 0), entry("t2", 0, 1), entry("t2", 1, 0)]);
}

#[test]
fn rankings_are_read_back_from_rows() {
    let rows = vec![entry("l0", 2, 0), entry("s0", 0, 0), entry("m0", 1, 0), entry("s1", 0, 1)];
    let frames = rankings_of_history(&rows).unwrap();
    assert_eq!(
        frames,
        TimeFrames { short: ranked(&["s0", "s1"]), medium: ranked(&["m0"]), long: ranked(&["l0"]) }
    );
    assert_eq!(ranked_identifiers(&frames), vec!["s0", "s1", "m0", "l0"]);
}

#[test]
fn rows_round_trip_through_rankings() {
    let frames = TimeFrames { short: ranked(&["a", "b"]), medium: vec![], long: ranked(&["c"]) };
    let rows = new_history_entries(1, instant(), &frames);
    assert_eq!(rankings_of_history(&rows), Ok(frames));
}

#[test]
fn row_with_unknown_timeframe_id_is_invalid_timeframe() {
    let rows = vec![entry("a", 0, 0), entry("b", 3, 0)];
    let error = rankings_of_history(&rows).unwrap_err();
    assert_eq!(error.kind, FetchErrorKind::InvalidTimeframe);
}

fn entity(spotify_id: &str, ranking: u16) -> RankedEntity {
    RankedEntity { spotify_id: spotify_id.into(), ranking }
}

#[test]
fn rows_out_of_rank_order_are_read_back_in_rank_order() {
    let rows = vec![
        entry("s2", 0, 2),
        entry("l1", 2, 1),
        entry("s0", 0, 0),
        entry("m1", 1, 1),
        entry("l0", 2, 0),
        entry("s1", 0, 1),
        entry("m0", 1, 0),
    ];
    let frames = rankings_of_history(&rows).unwrap();
    assert_eq!(
        frames,
        TimeFrames {
            short: ranked(&["s0", "s1", "s2"]),
            medium: ranked(&["m0", "m1"]),
            long: ranked(&["l0", "l1"]),
        }
    );
}

#[test]
fn rows_of_equal_rank_keep_their_row_order() {
    let rows =
        vec![entry("b", 0, 1), entry("x", 0, 0), entry("a", 0, 1), entry("y", 0, 0), entry("c", 0, 1)];
    let frames = rankings_of_history(&rows).unwrap();
    assert_eq!(
        frames.short,
        vec![entity("x", 0), entity("y", 0), entity("b", 1), entity("a", 1), entity("c", 1)]
    );
}

#[test]
fn rows_in_descending_rank_order_are_reversed() {
    let rows: Vec<NewHistoryEntry> =
        (0..50u16).rev().map(|rank| entry(&format!("id{}", rank), 1, rank)).collect();
    let frames = rankings_of_history(&rows).unwrap();
    let expected: Vec<RankedEntity> = (0..50u16).map(|rank| entity(&format!("id{}", rank), rank)).collect();
    assert_eq!(frames.medium, expected);
    assert!(frames.short.is_empty());
    assert!(frames.long.is_empty());
}

#[test]
fn displayed_position_holds_the_record_of_the_row_with_that_rank() {
    // Two stored rows of the short bucket, ranked 1 then 0.
    let track_rows = vec![entry("second", 0, 1), entry("first", 0, 0)];
    let artist_rows = vec![entry("a2", 2, 2), entry("a0", 2, 0), entry("a1", 2, 1)];
    let rankings = TopEntities {
        last_update_time: instant(),
        tracks: rankings_of_history(&track_rows).unwrap(),
        artists: rankings_of_history(&artist_rows).unwrap(),
    };
    assert_eq!(ranked_identifiers(&rankings.tracks), vec!["first", "second"]);
    let tracks = vec![("second".to_string(), track(2, "two")), ("first".to_string(), track(1, "one"))];
    let artists = vec![
        ("a2".to_string(), artist(3, "C")),
        ("a0".to_string(), artist(1, "A")),
        ("a1".to_string(), artist(2, "B")),
    ];
    let snapshot = assemble_snapshot(&rankings, &tracks, &artists).unwrap();
    assert_eq!(snapshot.tracks.short, vec![track(1, "one"), track(2, "two")]);
    assert_eq!(snapshot.artists.long, vec![artist(1, "A"), artist(2, "B"), artist(3, "C")]);
}

#[test]
fn insert_in_rank_order_goes_behind_equal_ranks() {
    let mut bucket = vec![entity("a", 0), entity("b", 2), entity("c", 2), entity("d", 5)];
    insert_in_rank_order(&mut bucket, entity("e", 2));
    insert_in_rank_order(&mut bucket, entity("f", 0));
    insert_in_rank_order(&mut bucket, entity("g", 9));
    insert_in_rank_order(&mut bucket, entity("h", 1));
    let order: Vec<&str> = bucket.iter().map(|entity| entity.spotify_id.as_str()).collect();
    assert_eq!(order, vec!["a", "f", "h", "b", "c", "e", "d", "g"]);
    let mut empty = vec![];
    insert_in_rank_order(&mut empty, entity("z", 7));
    assert_eq!(empty, vec![entity("z", 7)]);
}

#[test]
fn bucket_out_of_rank_order_is_assembled_in_rank_order() {
    let resolved = vec![("a".to_string(), 10), ("b".to_string(), 20), ("c".to_string(), 30)];
    let bucket = vec![entity("c", 2), entity("a", 0), entity("b", 1)];
    assert_eq!(assemble_bucket(&bucket, &resolved), Ok(vec![10, 20, 30]));
    let ties = vec![entity("c", 1), entity("b", 0), entity("a", 1), entity("b", 1)];
    assert_eq!(assemble_bucket(&ties, &resolved), Ok(vec![20, 30, 10, 20]));
}

#[test]
fn first_unresolved_goes_by_rank_order() {
    let resolved = vec![("a".to_string(), 10)];
    let bucket = vec![entity("late", 5), entity("a", 0), entity("early", 1)];
    assert_eq!(
        assemble_bucket(&bucket, &resolved),
        Err(FetchError { kind: FetchErrorKind::MissingResolution, context: "early".into() })
    );
}

#[test]
fn snapshot_of_rankings_out_of_rank_order_is_in_rank_order() {
    let rankings = TopEntities {
        last_update_time: instant(),
        tracks: TimeFrames { short: vec![entity("t2", 1), entity("t1", 0)], medium: vec![], long: vec![] },
        artists: TimeFrames { short: vec![], medium: vec![], long: vec![entity("a1", 7), entity("a2", 3)] },
    };
    let tracks = vec![("t1".to_string(), track(1, "one")), ("t2".to_string(), track(2, "two"))];
    let artists = vec![("a1".to_string(), artist(1, "A")), ("a2".to_string(), artist(2, "B"))];
    let snapshot = assemble_snapshot(&rankings, &tracks, &artists).unwrap();
    assert_eq!(snapshot.tracks.short, vec![track(1, "one"), track(2, "two")]);
    assert_eq!(snapshot.artists.long, vec![artist(2, "B"), artist(1, "A")]);
}

#[test]
fn in_rank_order_copies_a_bucket_in_rank_order() {
    let bucket = vec![entity("d", 3), entity("a", 0), entity("c", 3), entity("b", 1)];
    assert_eq!(in_rank_order(&bucket), vec![entity("a", 0), entity("b", 1), entity("d", 3), entity("c", 3)]);
    assert_eq!(in_rank_order(&ranked(&["x", "y", "z"])), ranked(&["x", "y", "z"]));
    assert_eq!(in_rank_order(&vec![]), vec![]);
}
