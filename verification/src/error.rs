//! The error taxonomy of the transform buffer.

use vstd::prelude::*;

verus! {

/// Everything that can go wrong while ingesting a transform or answering a
/// lookup. Every error surfaces to the caller verbatim; the buffer recovers
/// nothing itself, ingestion errors leave the buffer unchanged, and lookup
/// errors never mutate state.
#[derive(Debug, Clone, PartialEq, Eq)]
pub enum TF2Error {
    /// Catch-all for truly unexpected states.
    Unknown,
    /// A cache was read while holding no records.
    Empty,
    /// Ingestion where the parent and child names are equal after stripping
    /// leading slashes; carries the authority and the offending name.
    MatchingFrameIDs(String, String),
    /// Ingestion with an empty parent or child name; carries the authority
    /// and which of the two names was empty.
    EmptyFrameID(String, String),
    /// Lookup for a frame name that was never interned.
    UnknownFrameID(String),
    /// No common ancestor links the two frames, the walk depth cap was
    /// exceeded, or no common validity interval exists for a latest-time
    /// query; carries the target and source ids.
    UnknownRelationBetweenFrames(u32, u32),
    /// A single-entry cache was queried at a time other than the one held;
    /// carries the requested and the held timestamp.
    SingleExtrapolationError(u64, u64),
    /// The requested time lies above the newest record; carries the
    /// requested and the newest timestamp.
    FutureExtrapolationError(u64, u64),
    /// The requested time lies below the oldest record; carries the
    /// requested and the oldest timestamp.
    PastExtrapolationError(u64, u64),
}

} // verus!
