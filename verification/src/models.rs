//! The records of the pipeline: resolved tracks and artists, the collection
//! that holds one sequence per timeframe, and the snapshot built from them.

use vstd::prelude::*;
use crate::error::{FetchError, FetchErrorKind};
use crate::timeframe::{is_timeframe_name, timeframe_id, Timeframe};

verus! {

/// `chrono::NaiveDateTime`, the capture instant of a snapshot. The library
/// only carries values of it from its callers to its results; nothing is
/// assumed of what a value holds.
#[verifier::external_type_specification]
#[verifier::external_body]
pub struct ExNaiveDateTime(chrono::NaiveDateTime);

/// A registered listener.
#[derive(Debug, PartialEq, Eq)]
pub struct User {
    pub id: i64,
    pub creation_time: chrono::NaiveDateTime,
    pub last_update_time: chrono::NaiveDateTime,
    pub username: String,
    pub token: String,
    pub refresh_token: String,
}

/// A resolved track.
#[derive(Debug, PartialEq, Eq)]
pub struct Track {
    pub id: i64,
    pub title: String,
    pub artists: String,
    pub preview_url: String,
    pub album: String,
    pub image_url: String,
}

/// A resolved artist.
#[derive(Debug, PartialEq, Eq)]
pub struct Artist {
    pub id: i64,
    pub name: String,
    pub genres: String,
    pub image_url: String,
    pub uri: String,
}

impl Clone for Track {
    fn clone(&self) -> (t: Self)
        ensures
            t == *self,
    {
        Track {
            id: self.id,
            title: self.title.clone(),
            artists: self.artists.clone(),
            preview_url: self.preview_url.clone(),
            album: self.album.clone(),
            image_url: self.image_url.clone(),
        }
    }
}

impl Clone for Artist {
    fn clone(&self) -> (a: Self)
        ensures
            a == *self,
    {
        Artist {
            id: self.id,
            name: self.name.clone(),
            genres: self.genres.clone(),
            image_url: self.image_url.clone(),
            uri: self.uri.clone(),
        }
    }
}

/// A bare identifier with its rank in one cell of the grid: the 0-based
/// position at which upstream returned it.
#[derive(Debug, PartialEq, Eq)]
pub struct RankedEntity {
    pub spotify_id: String,
    pub ranking: u16,
}

/// One row of a listener's history: an entity's rank in one timeframe at one
/// capture instant.
#[derive(Debug, PartialEq, Eq)]
pub struct NewHistoryEntry {
    pub user_id: i64,
    pub spotify_id: String,
    pub update_time: chrono::NaiveDateTime,
    pub timeframe: u8,
    pub ranking: u16,
}

/// One ordered sequence per timeframe. A sequence may be empty; none is ever
/// absent.
#[derive(Debug, PartialEq, Eq)]
pub struct TimeFrames<T> {
    pub short: Vec<T>,
    pub medium: Vec<T>,
    pub long: Vec<T>,
}

impl<T> View for TimeFrames<T> {
    type V = Map<Timeframe, Seq<T>>;

    /// The total map from timeframe to the sequence held for it.
    open spec fn view(&self) -> Map<Timeframe, Seq<T>> {
        Map::new(|tf: Timeframe| true, |tf: Timeframe| self.bucket(tf))
    }
}

impl<T> TimeFrames<T> {
    /// The sequence held for `tf`.
    pub open spec fn bucket(self, tf: Timeframe) -> Seq<T> {
        match tf {
            Timeframe::Short => self.short@,
            Timeframe::Medium => self.medium@,
            Timeframe::Long => self.long@,
        }
    }

    /// The collection after `item` was appended to the sequence of `tf`:
    /// that sequence grew by `item` at its end, the other two are the same.
    pub open spec fn pushed(self, after: Self, tf: Timeframe, item: T) -> bool {
        forall|t: Timeframe|
            #[trigger] after.bucket(t) == if t == tf {
                self.bucket(t).push(item)
            } else {
                self.bucket(t)
            }
    }

    /// Three empty sequences.
    pub fn new() -> (frames: Self)
        ensures
            forall|tf: Timeframe| #[trigger] frames.bucket(tf) == Seq::<T>::empty(),
    {
        TimeFrames { short: Vec::new(), medium: Vec::new(), long: Vec::new() }
    }

    /// The sequence held for `tf`.
    pub fn get(&self, tf: Timeframe) -> (items: &Vec<T>)
        ensures
            items@ == self.bucket(tf),
    {
        match tf {
            Timeframe::Short => &self.short,
            Timeframe::Medium => &self.medium,
            Timeframe::Long => &self.long,
        }
    }

    /// Appends `item` to the sequence of `tf`.
    pub fn push(&mut self, tf: Timeframe, item: T)
        ensures
            old(self).pushed(*final(self), tf, item),
    {
        match tf {
            Timeframe::Short => self.short.push(item),
            Timeframe::Medium => self.medium.push(item),
            Timeframe::Long => self.long.push(item),
        }
    }

    /// Appends `item` to the sequence of the timeframe called `timeframe`.
    /// For a string that names no timeframe nothing changes and the failure
    /// is `InvalidTimeframe`, with the string as context.
    pub fn add_item(&mut self, timeframe: &str, item: T) -> (r: Result<(), FetchError>)
        ensures
            is_timeframe_name(timeframe@) ==> r is Ok && old(self).pushed(
                *final(self),
                Timeframe::spec_from_id(timeframe_id(timeframe@)),
                item,
            ),
            !is_timeframe_name(timeframe@) ==> *final(self) == *old(self) && (r matches Err(e)
                && e.kind == FetchErrorKind::InvalidTimeframe && e.context@ == timeframe@),
    {
        match Timeframe::from_name(timeframe) {
            Ok(tf) => {
                self.push(tf, item);
                Ok(())
            },
            Err(e) => Err(e),
        }
    }

    /// Appends `item` to the sequence of the timeframe stored under
    /// `timeframe_id`. For an id above 2 nothing changes and the failure is
    /// `InvalidTimeframe`.
    pub fn add_item_by_id(&mut self, timeframe_id: u8, item: T) -> (r: Result<(), FetchError>)
        ensures
            timeframe_id <= 2 ==> r is Ok && old(self).pushed(
                *final(self),
                Timeframe::spec_from_id(timeframe_id),
                item,
            ),
            timeframe_id > 2 ==> *final(self) == *old(self) && (r matches Err(e) && e.kind
                == FetchErrorKind::InvalidTimeframe && e.context@
                == "timeframe id out of range"@),
    {
        match Timeframe::from_id(timeframe_id) {
            Ok(tf) => {
                self.push(tf, item);
                Ok(())
            },
            Err(e) => Err(e),
        }
    }
}

/// A complete, time-stamped set of resolved tracks and artists across the
/// three timeframes.
#[derive(Debug, PartialEq, Eq)]
pub struct StatsSnapshot {
    pub last_update_time: chrono::NaiveDateTime,
    pub tracks: TimeFrames<Track>,
    pub artists: TimeFrames<Artist>,
}

impl StatsSnapshot {
    /// A snapshot captured at `last_update_time` whose six sequences are
    /// empty.
    pub fn new(last_update_time: chrono::NaiveDateTime) -> (snapshot: Self)
        ensures
            snapshot.last_update_time == last_update_time,
            forall|tf: Timeframe| #[trigger] snapshot.tracks.bucket(tf) == Seq::<Track>::empty(),
            forall|tf: Timeframe| #[trigger] snapshot.artists.bucket(tf) == Seq::<Artist>::empty(),
    {
        StatsSnapshot { last_update_time, tracks: TimeFrames::new(), artists: TimeFrames::new() }
    }
}

} // verus!
