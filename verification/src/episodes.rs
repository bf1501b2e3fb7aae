//! The episode request resolver: combines the independent episode and
//! season selectors into one request shape, totally over the 3x3 grid of
//! `{Unspecified, All, Custom}` pairs.

use vstd::prelude::*;

use crate::ranges::{Range, SimpleRanges};

verus! {

/// Either everything, or a specific merged list of ranges.
#[derive(Debug, Clone, PartialEq, Eq)]
pub enum AllOrSpecific {
    All,
    Specific(Vec<Range>),
}

/// The resolved request shape handed to the download orchestrator.
#[derive(Debug, Clone, PartialEq, Eq)]
pub enum EpisodesRequest {
    Unspecified,
    Episodes(AllOrSpecific),
    Seasons(AllOrSpecific),
    Combined { seasons: AllOrSpecific, episodes: AllOrSpecific },
    All,
}

/// The request shape for each of the nine selector combinations. Both
/// custom lists are preserved verbatim: they index different dimensions and
/// are never merged with each other.
pub open spec fn resolve_spec(episodes: SimpleRanges, seasons: SimpleRanges) -> EpisodesRequest {
    match (episodes, seasons) {
        (SimpleRanges::Unspecified, SimpleRanges::Unspecified) => EpisodesRequest::Unspecified,
        (SimpleRanges::Custom(e), SimpleRanges::Unspecified) => EpisodesRequest::Episodes(
            AllOrSpecific::Specific(e),
        ),
        (SimpleRanges::Unspecified, SimpleRanges::Custom(s)) => EpisodesRequest::Seasons(
            AllOrSpecific::Specific(s),
        ),
        (SimpleRanges::All, SimpleRanges::Unspecified) => EpisodesRequest::Episodes(
            AllOrSpecific::All,
        ),
        (SimpleRanges::Unspecified, SimpleRanges::All) => EpisodesRequest::Seasons(
            AllOrSpecific::All,
        ),
        (SimpleRanges::Custom(e), SimpleRanges::Custom(s)) => EpisodesRequest::Combined {
            seasons: AllOrSpecific::Specific(s),
            episodes: AllOrSpecific::Specific(e),
        },
        (SimpleRanges::All, SimpleRanges::Custom(s)) => EpisodesRequest::Combined {
            seasons: AllOrSpecific::Specific(s),
            episodes: AllOrSpecific::All,
        },
        (SimpleRanges::Custom(e), SimpleRanges::All) => EpisodesRequest::Combined {
            seasons: AllOrSpecific::All,
            episodes: AllOrSpecific::Specific(e),
        },
        (SimpleRanges::All, SimpleRanges::All) => EpisodesRequest::All,
    }
}

/// Combines the two selectors into a request shape, per `resolve_spec`.
pub fn resolve_episodes_request(episodes: SimpleRanges, seasons: SimpleRanges) -> (r:
    EpisodesRequest)
    ensures
        r == resolve_spec(episodes, seasons),
{
    match (episodes, seasons) {
        (SimpleRanges::Unspecified, SimpleRanges::Unspecified) => EpisodesRequest::Unspecified,
        (SimpleRanges::Custom(e), SimpleRanges::Unspecified) => EpisodesRequest::Episodes(
            AllOrSpecific::Specific(e),
        ),
        (SimpleRanges::Unspecified, SimpleRanges::Custom(s)) => EpisodesRequest::Seasons(
            AllOrSpecific::Specific(s),
        ),
        (SimpleRanges::All, SimpleRanges::Unspecified) => EpisodesRequest::Episodes(
            AllOrSpecific::All,
        ),
        (SimpleRanges::Unspecified, SimpleRanges::All) => EpisodesRequest::Seasons(
            AllOrSpecific::All,
        ),
        (SimpleRanges::Custom(e), SimpleRanges::Custom(s)) => EpisodesRequest::Combined {
            seasons: AllOrSpecific::Specific(s),
            episodes: AllOrSpecific::Specific(e),
        },
        (SimpleRanges::All, SimpleRanges::Custom(s)) => EpisodesRequest::Combined {
            seasons: AllOrSpecific::Specific(s),
            episodes: AllOrSpecific::All,
        },
        (SimpleRanges::Custom(e), SimpleRanges::All) => EpisodesRequest::Combined {
            seasons: AllOrSpecific::All,
            episodes: AllOrSpecific::Specific(e),
        },
        (SimpleRanges::All, SimpleRanges::All) => EpisodesRequest::All,
    }
}

} // verus!
