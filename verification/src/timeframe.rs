//! The grid of entity types and timeframes, and the mapping between a
//! timeframe's external name and the compact id under which it is stored.

use vstd::prelude::*;
use crate::error::{FetchError, FetchErrorKind};

verus! {

/// The two kinds of entity that the upstream API ranks.
#[derive(Clone, Copy, Debug, PartialEq, Eq, Structural)]
pub enum EntityType {
    Tracks,
    Artists,
}

/// The three listening-history windows.
#[derive(Clone, Copy, Debug, PartialEq, Eq, Structural)]
pub enum Timeframe {
    Short,
    Medium,
    Long,
}

/// The external name of the timeframe stored under `id`; meaningful for ids
/// up to 2.
pub open spec fn timeframe_name(id: u8) -> Seq<char> {
    if id == 0 {
        "short"@
    } else if id == 1 {
        "medium"@
    } else {
        "long"@
    }
}

/// Whether `name` is the external name of a timeframe.
pub open spec fn is_timeframe_name(name: Seq<char>) -> bool {
    name == "short"@ || name == "medium"@ || name == "long"@
}

/// The id under which the timeframe called `name` is stored; meaningful for
/// the three timeframe names.
pub open spec fn timeframe_id(name: Seq<char>) -> u8 {
    if name == "short"@ {
        0
    } else if name == "medium"@ {
        1
    } else {
        2
    }
}

impl EntityType {
    /// The path segment that names this entity type upstream.
    pub open spec fn spec_name(self) -> Seq<char> {
        match self {
            EntityType::Tracks => "tracks"@,
            EntityType::Artists => "artists"@,
        }
    }

    /// The path segment that names this entity type upstream.
    pub fn name(&self) -> (s: &'static str)
        ensures
            s@ == self.spec_name(),
    {
        match self {
            EntityType::Tracks => "tracks",
            EntityType::Artists => "artists",
        }
    }
}

impl Timeframe {
    /// The storage id: 0, 1, 2 for short, medium, long.
    pub open spec fn spec_id(self) -> u8 {
        match self {
            Timeframe::Short => 0,
            Timeframe::Medium => 1,
            Timeframe::Long => 2,
        }
    }

    /// The timeframe stored under `id`; meaningful for ids up to 2.
    pub open spec fn spec_from_id(id: u8) -> Timeframe {
        if id == 0 {
            Timeframe::Short
        } else if id == 1 {
            Timeframe::Medium
        } else {
            Timeframe::Long
        }
    }

    /// The external name.
    pub open spec fn spec_name(self) -> Seq<char> {
        timeframe_name(self.spec_id())
    }

    /// The storage id of this timeframe.
    pub fn id(&self) -> (id: u8)
        ensures
            id == self.spec_id(),
            id <= 2,
    {
        match self {
            Timeframe::Short => 0,
            Timeframe::Medium => 1,
            Timeframe::Long => 2,
        }
    }

    /// The external name of this timeframe.
    pub fn name(&self) -> (s: &'static str)
        ensures
            s@ == self.spec_name(),
    {
        match self {
            Timeframe::Short => "short",
            Timeframe::Medium => "medium",
            Timeframe::Long => "long",
        }
    }

    /// The timeframe stored under `id`, or `InvalidTimeframe` for an id
    /// above 2.
    pub fn from_id(id: u8) -> (r: Result<Timeframe, FetchError>)
        ensures
            id <= 2 ==> r == Ok::<Timeframe, FetchError>(Timeframe::spec_from_id(id)),
            id > 2 ==> (r matches Err(e) && e.kind == FetchErrorKind::InvalidTimeframe
                && e.context@ == "timeframe id out of range"@),
    {
        if id == 0 {
            Ok(Timeframe::Short)
        } else if id == 1 {
            Ok(Timeframe::Medium)
        } else if id == 2 {
            Ok(Timeframe::Long)
        } else {
            Err(FetchError::new(FetchErrorKind::InvalidTimeframe, "timeframe id out of range"))
        }
    }

    /// The timeframe called `name`, or `InvalidTimeframe`, with the name as
    /// context, for any other string.
    pub fn from_name(name: &str) -> (r: Result<Timeframe, FetchError>)
        ensures
            is_timeframe_name(name@) ==> r == Ok::<Timeframe, FetchError>(
                Timeframe::spec_from_id(timeframe_id(name@)),
            ),
            !is_timeframe_name(name@) ==> (r matches Err(e) && e.kind
                == FetchErrorKind::InvalidTimeframe && e.context@ == name@),
    {
        let owned = name.to_owned();
        if owned == "short".to_owned() {
            Ok(Timeframe::Short)
        } else if owned == "medium".to_owned() {
            Ok(Timeframe::Medium)
        } else if owned == "long".to_owned() {
            Ok(Timeframe::Long)
        } else {
            Err(FetchError::new(FetchErrorKind::InvalidTimeframe, name))
        }
    }
}

/// Maps a timeframe's external name to its storage id: `"short"` to 0,
/// `"medium"` to 1, `"long"` to 2. Any other name is an `InvalidTimeframe`
/// failure that carries the name.
pub fn map_timeframe_to_timeframe_id(timeframe: &str) -> (r: Result<u8, FetchError>)
    ensures
        is_timeframe_name(timeframe@) ==> r == Ok::<u8, FetchError>(timeframe_id(timeframe@)),
        !is_timeframe_name(timeframe@) ==> (r matches Err(e) && e.kind
            == FetchErrorKind::InvalidTimeframe && e.context@ == timeframe@),
{
    match Timeframe::from_name(timeframe) {
        Ok(tf) => Ok(tf.id()),
        Err(e) => Err(e),
    }
}

/// Maps a storage id back to the timeframe's external name. An id above 2 is
/// an `InvalidTimeframe` failure.
pub fn map_timeframe_id_to_timeframe(id: u8) -> (r: Result<&'static str, FetchError>)
    ensures
        id <= 2 ==> (r matches Ok(name) && name@ == timeframe_name(id)),
        id > 2 ==> (r matches Err(e) && e.kind == FetchErrorKind::InvalidTimeframe && e.context@
            == "timeframe id out of range"@),
{
    match Timeframe::from_id(id) {
        Ok(tf) => Ok(tf.name()),
        Err(e) => Err(e),
    }
}

/// The three names are pairwise different.
pub proof fn lemma_timeframe_names_distinct()
    ensures
        "short"@ != "medium"@,
        "short"@ != "long"@,
        "medium"@ != "long"@,
{
    reveal_strlit("short");
    reveal_strlit("medium");
    reveal_strlit("long");
    assert("short"@.len() == 5);
    assert("medium"@.len() == 6);
    assert("long"@.len() == 4);
}

/// Round trip from ids: the id of the name of a valid id is that id.
pub proof fn lemma_id_name_round_trip(id: u8)
    requires
        id <= 2,
    ensures
        is_timeframe_name(timeframe_name(id)),
        timeframe_id(timeframe_name(id)) == id,
{
    lemma_timeframe_names_distinct();
}

/// Round trip from names: the name of the id of a timeframe name is that
/// name, and the id is one of the three.
pub proof fn lemma_name_id_round_trip(name: Seq<char>)
    requires
        is_timeframe_name(name),
    ensures
        timeframe_id(name) <= 2,
        timeframe_name(timeframe_id(name)) == name,
{
    lemma_timeframe_names_distinct();
}

} // verus!
