//! The single failure value that every operation of the pipeline reports.

use vstd::prelude::*;

verus! {

/// The kinds of failure.
#[derive(Clone, Copy, Debug, PartialEq, Eq, Structural)]
pub enum FetchErrorKind {
    /// Transport or connection failure.
    NetworkError,
    /// Non-success status or malformed payload from the upstream API.
    UpstreamError,
    /// The cache store was unavailable or answered out of shape.
    CacheError,
    /// A timeframe name or id outside the grid.
    InvalidTimeframe,
    /// A ranked identifier without a resolved record.
    MissingResolution,
}

/// A failure: its kind, and free-form context for logging.
#[derive(Debug, PartialEq, Eq)]
pub struct FetchError {
    pub kind: FetchErrorKind,
    pub context: String,
}

/// What a failure is in contracts: its kind, and its context as a sequence
/// of characters.
pub struct FetchErrorView {
    pub kind: FetchErrorKind,
    pub context: Seq<char>,
}

impl View for FetchError {
    type V = FetchErrorView;

    open spec fn view(&self) -> FetchErrorView {
        FetchErrorView { kind: self.kind, context: self.context@ }
    }
}

impl FetchError {
    /// Builds a failure of the given kind whose context is `context`.
    pub fn new(kind: FetchErrorKind, context: &str) -> (e: FetchError)
        ensures
            e.kind == kind,
            e.context@ == context@,
    {
        FetchError { kind, context: context.to_owned() }
    }

    /// A one-line rendering, `"<kind>: <context>"`.
    pub fn message(&self) -> (s: String)
        ensures
            s@ == kind_name(self.kind) + ": "@ + self.context@,
    {
        let mut s = self.kind.name().to_owned();
        s.append(": ");
        s.append(self.context.as_str());
        s
    }
}

/// The name under which a kind of failure is reported.
pub open spec fn kind_name(kind: FetchErrorKind) -> Seq<char> {
    match kind {
        FetchErrorKind::NetworkError => "NetworkError"@,
        FetchErrorKind::UpstreamError => "UpstreamError"@,
        FetchErrorKind::CacheError => "CacheError"@,
        FetchErrorKind::InvalidTimeframe => "InvalidTimeframe"@,
        FetchErrorKind::MissingResolution => "MissingResolution"@,
    }
}

impl FetchErrorKind {
    /// The name of this kind.
    pub fn name(&self) -> (s: &'static str)
        ensures
            s@ == kind_name(*self),
    {
        match self {
            FetchErrorKind::NetworkError => "NetworkError",
            FetchErrorKind::UpstreamError => "UpstreamError",
            FetchErrorKind::CacheError => "CacheError",
            FetchErrorKind::InvalidTimeframe => "InvalidTimeframe",
            FetchErrorKind::MissingResolution => "MissingResolution",
        }
    }
}

impl Clone for FetchError {
    fn clone(&self) -> (e: Self)
        ensures
            e == *self,
    {
        FetchError { kind: self.kind, context: self.context.clone() }
    }
}

} // verus!
