use spotify_stats::error::FetchErrorKind;
use spotify_stats::timeframe::{
    map_timeframe_id_to_timeframe, map_timeframe_to_timeframe_id, EntityType, Timeframe,
};

#[test]
fn names_map_to_ids() {
    assert_eq!(map_timeframe_to_timeframe_id("short"), Ok(0));
    assert_eq!(map_timeframe_to_timeframe_id("medium"), Ok(1));
    assert_eq!(map_timeframe_to_timeframe_id("long"), Ok(2));
}

#[test]
fn ids_map_to_names() {
    assert_eq!(map_timeframe_id_to_timeframe(0), Ok("short"));
    assert_eq!(map_timeframe_id_to_timeframe(1), Ok("medium"));
    assert_eq!(map_timeframe_id_to_timeframe(2), Ok("long"));
}

#[test]
fn id_of_name_of_id_is_id() {
    for id in 0u8..3 {
        let name = map_timeframe_id_to_timeframe(id).unwrap();
        assert_eq!(map_timeframe_to_timeframe_id(name), Ok(id));
    }
}

#[test]
fn name_of_id_of_name_is_name() {
    for name in ["short", "medium", "long"] {
        let id = map_timeframe_to_timeframe_id(name).unwrap();
        assert_eq!(map_timeframe_id_to_timeframe(id), Ok(name));
    }
}

#[test]
fn unknown_name_is_invalid_timeframe() {
    let error = map_timeframe_to_timeframe_id("eternal").unwrap_err();
    assert_eq!(error.kind, FetchErrorKind::InvalidTimeframe);
    assert_eq!(error.context, "eternal");
}

#[test]
fn names_are_case_sensitive_and_exact() {
    assert!(map_timeframe_to_timeframe_id("Short").is_err());
    assert!(map_timeframe_to_timeframe_id("short_term").is_err());
    assert!(map_timeframe_to_timeframe_id("").is_err());
}

#[test]
fn unknown_id_is_invalid_timeframe() {
    for id in [3u8, 4, 200, 255] {
        let error = map_timeframe_id_to_timeframe(id).unwrap_err();
        assert_eq!(error.kind, FetchErrorKind::InvalidTimeframe);
        assert_eq!(error.context, "timeframe id out of range");
    }
}

#[test]
fn timeframe_values_agree_with_the_mappings() {
    for (timeframe, id, name) in [
        (Timeframe::Short, 0u8, "short"),
        (Timeframe::Medium, 1, "medium"),
        (Timeframe::Long, 2, "long"),
    ] {
        assert_eq!(timeframe.id(), id);
        assert_eq!(timeframe.name(), name);
        assert_eq!(Timeframe::from_id(id), Ok(timeframe));
        assert_eq!(Timeframe::from_name(name), Ok(timeframe));
    }
}

#[test]
fn entity_types_have_their_upstream_names() {
    assert_eq!(EntityType::Tracks.name(), "tracks");
    assert_eq!(EntityType::Artists.name(), "artists");
}
