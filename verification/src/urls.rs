//! The addresses of the upstream endpoints.

use vstd::prelude::*;
use crate::timeframe::EntityType;

verus! {

/// The page size asked of the "top items" endpoint. Paging beyond one page
/// is not handled.
pub const ENTITY_FETCH_COUNT: usize = 50;

/// The decimal digit `d`, for `d` below 10.
pub open spec fn digit(d: nat) -> Seq<char> {
    if d == 0 {
        "0"@
    } else if d == 1 {
        "1"@
    } else if d == 2 {
        "2"@
    } else if d == 3 {
        "3"@
    } else if d == 4 {
        "4"@
    } else if d == 5 {
        "5"@
    } else if d == 6 {
        "6"@
    } else if d == 7 {
        "7"@
    } else if d == 8 {
        "8"@
    } else {
        "9"@
    }
}

/// `n` in decimal, without leading zeros.
pub open spec fn decimal(n: nat) -> Seq<char>
    decreases n,
{
    if n < 10 {
        digit(n)
    } else {
        decimal(n / 10) + digit(n % 10)
    }
}

/// The identifiers joined by commas.
pub open spec fn comma_joined(ids: Seq<String>) -> Seq<char>
    decreases ids.len(),
{
    if ids.len() == 0 {
        Seq::empty()
    } else if ids.len() == 1 {
        ids[0]@
    } else {
        comma_joined(ids.drop_last()) + ","@ + ids.last()@
    }
}

/// The address of the "top items" request for one cell of the grid.
pub open spec fn top_entities_url(entity_type: Seq<char>, timeframe: Seq<char>) -> Seq<char> {
    "https://api.spotify.com/v1/me/top/"@ + entity_type + "?limit="@ + decimal(
        ENTITY_FETCH_COUNT as nat,
    ) + "&time_range="@ + timeframe + "_term"@
}

/// The address of the batch lookup of one entity type, without its query.
pub open spec fn batch_base_url(entity_type: EntityType) -> Seq<char> {
    match entity_type {
        EntityType::Tracks => "https://api.spotify.com/v1/tracks"@,
        EntityType::Artists => "https://api.spotify.com/v1/artists"@,
    }
}

/// The address of a batch lookup of `ids` at `base_url`.
pub open spec fn batch_entities_url(base_url: Seq<char>, ids: Seq<String>) -> Seq<char> {
    base_url + "?ids="@ + comma_joined(ids)
}

/// The scopes asked of a listener, as they stand in the authorization
/// address.
pub open spec fn authorization_scopes() -> Seq<char> {
    "user-read-recently-played%20user-top-read%20user-follow-read"@
}

/// The address of upstream's authorization page for the application.
pub open spec fn authorization_url(client_id: Seq<char>, redirect_uri: Seq<char>) -> Seq<char> {
    "https://accounts.spotify.com/authorize?client_id="@ + client_id
        + "&response_type=code&redirect_uri="@ + redirect_uri + "&scope="@
        + authorization_scopes()
}

/// The path of a listener's stats page.
pub open spec fn stats_path(spotify_id: Seq<char>) -> Seq<char> {
    "/stats/"@ + spotify_id
}

fn digit_str(d: usize) -> (s: &'static str)
    requires
        d < 10,
    ensures
        s@ == digit(d as nat),
{
    if d == 0 {
        "0"
    } else if d == 1 {
        "1"
    } else if d == 2 {
        "2"
    } else if d == 3 {
        "3"
    } else if d == 4 {
        "4"
    } else if d == 5 {
        "5"
    } else if d == 6 {
        "6"
    } else if d == 7 {
        "7"
    } else if d == 8 {
        "8"
    } else {
        "9"
    }
}

/// Writes `n` in decimal.
pub fn decimal_string(n: usize) -> (s: String)
    ensures
        s@ == decimal(n as nat),
    decreases n,
{
    if n < 10 {
        digit_str(n).to_owned()
    } else {
        let mut s = decimal_string(n / 10);
        s.append(digit_str(n % 10));
        s
    }
}

/// The address of the "top items" request for `entity_type` over
/// `timeframe`: `https://api.spotify.com/v1/me/top/<entity
/// type>?limit=<page size>&time_range=<timeframe>_term`.
pub fn get_top_entities_url(entity_type: &str, timeframe: &str) -> (url: String)
    ensures
        url@ == top_entities_url(entity_type@, timeframe@),
{
    let mut url = "https://api.spotify.com/v1/me/top/".to_owned();
    url.append(entity_type);
    url.append("?limit=");
    let limit = decimal_string(ENTITY_FETCH_COUNT);
    url.append(limit.as_str());
    url.append("&time_range=");
    url.append(timeframe);
    url.append("_term");
    url
}

/// Joins `ids` with commas.
pub fn join_identifiers(ids: &Vec<String>) -> (joined: String)
    ensures
        joined@ == comma_joined(ids@),
{
    let mut joined = String::new();
    let mut i: usize = 0;
    while i < ids.len()
        invariant
            i <= ids.len(),
            joined@ == comma_joined(ids@.take(i as int)),
        decreases ids.len() - i,
    {
        proof {
            let next = ids@.take(i + 1);
            assert(next.drop_last() == ids@.take(i as int));
            assert(next.last() == ids@[i as int]);
            if i == 0 {
                assert(Seq::<char>::empty() + ids@[0]@ == ids@[0]@);
            }
        }
        if i > 0 {
            joined.append(",");
        }
        joined.append(ids[i].as_str());
        i += 1;
    }
    proof {
        assert(ids@.take(ids.len() as int) == ids@);
    }
    joined
}

/// The address of the batch lookup of one entity type, without its query.
pub fn batch_url_of(entity_type: EntityType) -> (url: &'static str)
    ensures
        url@ == batch_base_url(entity_type),
{
    match entity_type {
        EntityType::Tracks => "https://api.spotify.com/v1/tracks",
        EntityType::Artists => "https://api.spotify.com/v1/artists",
    }
}

/// The address of a batch lookup: `<base url>?ids=<identifiers joined by
/// commas>`.
pub fn fetch_batch_entities_url(base_url: &str, spotify_entity_ids: &Vec<String>) -> (url: String)
    ensures
        url@ == batch_entities_url(base_url@, spotify_entity_ids@),
{
    let mut url = base_url.to_owned();
    url.append("?ids=");
    let joined = join_identifiers(spotify_entity_ids);
    url.append(joined.as_str());
    url
}

/// The address to which a listener is sent to authorize the application:
/// upstream's authorization page with the client id, the address to come
/// back to, and the scopes asked for.
pub fn authorize_url(client_id: &str, redirect_uri: &str) -> (url: String)
    ensures
        url@ == authorization_url(client_id@, redirect_uri@),
{
    let mut url = "https://accounts.spotify.com/authorize?client_id=".to_owned();
    url.append(client_id);
    url.append("&response_type=code&redirect_uri=");
    url.append(redirect_uri);
    url.append("&scope=");
    url.append("user-read-recently-played%20user-top-read%20user-follow-read");
    url
}

/// The path of the stats page of the listener `spotify_id`.
pub fn stats_page_path(spotify_id: &str) -> (path: String)
    ensures
        path@ == stats_path(spotify_id@),
{
    let mut path = "/stats/".to_owned();
    path.append(spotify_id);
    path
}

} // verus!
