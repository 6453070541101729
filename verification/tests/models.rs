use chrono::{NaiveDate, NaiveDateTime};
use spotify_stats::error::{FetchError, FetchErrorKind};
use spotify_stats::models::{Artist, StatsSnapshot, TimeFrames, Track};
use spotify_stats::timeframe::Timeframe;

fn instant() -> NaiveDateTime {
    NaiveDate::from_ymd_opt(2019, 6, 1).unwrap().and_hms_opt(12, 30, 0).unwrap()
}

#[test]
fn new_time_frames_has_three_empty_sequences() {
    let frames: TimeFrames<u32> = TimeFrames::new();
    assert!(frames.short.is_empty());
    assert!(frames.medium.is_empty());
    assert!(frames.long.is_empty());
}

#[test]
fn add_item_appends_to_the_named_sequence() {
    let mut frames: TimeFrames<u32> = TimeFrames::new();
    assert_eq!(frames.add_item("medium", 1), Ok(()));
    assert_eq!(frames.add_item("short", 2), Ok(()));
    assert_eq!(frames.add_item("medium", 3), Ok(()));
    assert_eq!(frames.add_item("long", 4), Ok(()));
    assert_eq!(frames, TimeFrames { short: vec![2], medium: vec![1, 3], long: vec![4] });
}

#[test]
fn add_item_rejects_unknown_name_and_changes_nothing() {
    let mut frames: TimeFrames<u32> = TimeFrames::new();
    frames.add_item("short", 1).unwrap();
    let error = frames.add_item("weekly", 2).unwrap_err();
    assert_eq!(error, FetchError { kind: FetchErrorKind::InvalidTimeframe, context: "weekly".into() });
    assert_eq!(frames, TimeFrames { short: vec![1], medium: vec![], long: vec![] });
}

#[test]
fn add_item_by_id_appends_to_the_stored_sequence() {
    let mut frames: TimeFrames<&str> = TimeFrames::new();
    assert_eq!(frames.add_item_by_id(2, "c"), Ok(()));
    assert_eq!(frames.add_item_by_id(0, "a"), Ok(()));
    assert_eq!(frames.add_item_by_id(1, "b"), Ok(()));
    assert_eq!(frames.add_item_by_id(0, "d"), Ok(()));
    assert_eq!(frames, TimeFrames { short: vec!["a", "d"], medium: vec!["b"], long: vec!["c"] });
}

#[test]
fn add_item_by_id_rejects_unknown_id_and_changes_nothing() {
    let mut frames: TimeFrames<u32> = TimeFrames::new();
    let error = frames.add_item_by_id(3, 9).unwrap_err();
    assert_eq!(error.kind, FetchErrorKind::InvalidTimeframe);
    assert_eq!(frames, TimeFrames::new());
}

#[test]
fn push_and_get_go_by_timeframe() {
    let mut frames: TimeFrames<u32> = TimeFrames::new();
    frames.push(Timeframe::Long, 5);
    frames.push(Timeframe::Long, 6);
    assert_eq!(frames.get(Timeframe::Long), &vec![5, 6]);
    assert!(frames.get(Timeframe::Short).is_empty());
    assert!(frames.get(Timeframe::Medium).is_empty());
}

#[test]
fn new_snapshot_is_empty_and_keeps_the_instant() {
    let snapshot = StatsSnapshot::new(instant());
    assert_eq!(snapshot.last_update_time, instant());
    assert_eq!(snapshot.tracks, TimeFrames::new());
    assert_eq!(snapshot.artists, TimeFrames::new());
}

#[test]
fn records_clone_to_equal_records() {
    let track = Track {
        id: 1,
        title: "t".into(),
        artists: "a, b".into(),
        preview_url: "p".into(),
        album: "al".into(),
        image_url: "i".into(),
    };
    let artist =
        Artist { id: 2, name: "n".into(), genres: "g".into(), image_url: "i".into(), uri: "u".into() };
    assert_eq!(track.clone(), track);
    assert_eq!(artist.clone(), artist);
}

#[test]
fn error_message_names_kind_and_context() {
    let error = FetchError::new(FetchErrorKind::UpstreamError, "status 500");
    assert_eq!(error.message(), "UpstreamError: status 500");
    assert_eq!(error.clone(), error);
    assert_eq!(FetchErrorKind::NetworkError.name(), "NetworkError");
    assert_eq!(FetchErrorKind::CacheError.name(), "CacheError");
    assert_eq!(FetchErrorKind::InvalidTimeframe.name(), "InvalidTimeframe");
    assert_eq!(FetchErrorKind::MissingResolution.name(), "MissingResolution");
}
