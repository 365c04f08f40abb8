//! Core domain entities and the error taxonomy.

use vstd::prelude::*;

verus! {

/// A clan member as observed in one roster snapshot.
///
/// `id` is the stable external identity key; `name` is mutable display
/// data and not part of the identity.
#[derive(Clone, Debug, PartialEq)]
pub struct Member {
    pub name: String,
    pub id: i32,
    pub exp: i64,
    pub contribution: i32,
}

/// Point-in-time clan aggregate counters; a fact, not an identity.
#[derive(Clone, Copy, Debug, PartialEq, Eq, Structural)]
pub struct Clan {
    pub members: u8,
    pub wins: u16,
    pub losses: u16,
    pub draws: u16,
}

/// A calendar day, counted in days from a fixed epoch.
#[derive(Clone, Copy, Debug, PartialEq, Eq, Structural)]
pub struct Date {
    pub day: i64,
}

/// The payload fields that the extractor reads from roster and profile
/// records.
#[derive(Clone, Copy, Debug, PartialEq, Eq, Structural)]
pub enum Field {
    Name,
    Usn,
    XpPoint,
    Contribution,
    Nick,
    TotalCount,
}

/// The four independently matched clan statistics.
#[derive(Clone, Copy, Debug, PartialEq, Eq, Structural)]
pub enum StatField {
    Wins,
    Losses,
    Draws,
    Members,
}

/// A structural defect in an external payload.  Recoverable by the
/// caller: the snapshot is skipped and retried on the next poll.
#[derive(Clone, Debug)]
pub enum ParseError {
    /// The payload is not well-formed JSON; carries the decoder's message.
    Syntax(String),
    /// A required key is absent (or null).
    MissingValue(Field),
    /// The key is present but its value is not a string.
    NoString(Field),
    /// The key is present but its value is not a 32-bit integer.
    NoI32(Field),
    /// The key is present but its value is not a 64-bit integer.
    NoI64(Field),
    /// The profile header array holds no record.
    EmptyHeader,
    /// One of the four stat patterns does not occur in the markup.
    PatternNotFound(StatField),
    /// A stat digit run exceeds the field's numeric bound.
    ValueOutOfRange(StatField),
}

/// A duplicate member id inside one snapshot: the whole snapshot is
/// rejected and no events are emitted.
#[derive(Clone, Copy, Debug, PartialEq, Eq, Structural)]
pub struct AmbiguousInputError {
    pub id: i32,
}

/// A failure while applying one snapshot's events.  An invariant
/// violation is fatal for the affected clan and is never repaired by
/// guessing.
#[derive(Clone, Copy, Debug, PartialEq, Eq, Structural)]
pub enum StorageError {
    /// The persisted history contradicts the open-period invariant.
    InvariantViolation,
    /// No record number is left to assign.
    NrExhausted,
}

/// A membership transition for one member id, produced by the
/// classifier in snapshot order (joins and continues) followed by
/// store order (leaves).
#[derive(Clone, Copy, Debug, PartialEq, Eq, Structural)]
pub enum Event {
    Join(i32),
    Continue(i32),
    Leave(i32),
}

/// Why one reconciliation round left the store untouched.
#[derive(Clone, Copy, Debug, PartialEq, Eq, Structural)]
pub enum ReconcileError {
    Ambiguous(AmbiguousInputError),
    Storage(StorageError),
}

} // verus!
