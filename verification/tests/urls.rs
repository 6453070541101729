use spotify_stats::timeframe::EntityType;
use spotify_stats::urls::{
    authorize_url, batch_url_of, decimal_string, fetch_batch_entities_url, get_top_entities_url,
    join_identifiers, stats_page_path, ENTITY_FETCH_COUNT,
};

#[test]
fn top_entities_url_names_cell_and_page_size() {
    assert_eq!(
        get_top_entities_url("tracks", "short"),
        "https://api.spotify.com/v1/me/top/tracks?limit=50&time_range=short_term"
    );
    assert_eq!(
        get_top_entities_url("artists", "long"),
        "https://api.spotify.com/v1/me/top/artists?limit=50&time_range=long_term"
    );
}

#[test]
fn page_size_is_fifty() {
    assert_eq!(ENTITY_FETCH_COUNT, 50);
}

#[test]
fn decimal_string_writes_numbers() {
    assert_eq!(decimal_string(0), "0");
    assert_eq!(decimal_string(7), "7");
    assert_eq!(decimal_string(10), "10");
    assert_eq!(decimal_string(50), "50");
    assert_eq!(decimal_string(1234567890), "1234567890");
    assert_eq!(decimal_string(usize::MAX), format!("{}", usize::MAX));
}

#[test]
fn identifiers_are_joined_by_commas() {
    let none: Vec<String> = vec![];
    assert_eq!(join_identifiers(&none), "");
    assert_eq!(join_identifiers(&vec!["a".to_string()]), "a");
    assert_eq!(
        join_identifiers(&vec!["a".to_string(), "b".to_string(), "c".to_string()]),
        "a,b,c"
    );
}

#[test]
fn batch_url_holds_the_joined_identifiers() {
    let ids = vec!["4uLU6hMCjMI75M1A2tKUQC".to_string(), "0TnOYISbd1XYRBk9myaseg".to_string()];
    assert_eq!(
        fetch_batch_entities_url("https://api.spotify.com/v1/tracks", &ids),
        "https://api.spotify.com/v1/tracks?ids=4uLU6hMCjMI75M1A2tKUQC,0TnOYISbd1XYRBk9myaseg"
    );
}

#[test]
fn batch_url_of_each_entity_type() {
    assert_eq!(batch_url_of(EntityType::Tracks), "https://api.spotify.com/v1/tracks");
    assert_eq!(batch_url_of(EntityType::Artists), "https://api.spotify.com/v1/artists");
}

#[test]
fn authorize_url_names_client_callback_and_scopes() {
    assert_eq!(
        authorize_url("abc123", "https://example.com/oauth_cb"),
        "https://accounts.spotify.com/authorize?client_id=abc123&response_type=code\
         &redirect_uri=https://example.com/oauth_cb\
         &scope=user-read-recently-played%20user-top-read%20user-follow-read"
    );
}

#[test]
fn stats_page_path_ends_in_the_listener() {
    assert_eq!(stats_page_path("listener-1"), "/stats/listener-1");
}
