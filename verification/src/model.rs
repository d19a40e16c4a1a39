//! Core data model: candidates, persisted tally records, and ranking requests.

use vstd::prelude::*;

verus! {

/// Identifies one nominated message. Two votes with the same triple
/// `(message_id, user_id, group_id)` are votes for the same candidate.
#[derive(Clone, Copy, Debug, PartialEq, Eq, Structural)]
pub struct Candidate {
    /// Platform-assigned id of the nominated message.
    pub message_id: i64,
    /// Id of the nominated message's author.
    pub user_id: i64,
    /// Id of the group chat the nominated message belongs to.
    pub group_id: i64,
}

/// One tally record per unique candidate: the identity triple, a vote
/// counter, and the timestamp (seconds) of the first nomination.
#[derive(Clone, Copy, Debug, PartialEq, Eq, Structural)]
pub struct CandidateRecord {
    /// The identity triple; immutable once the record is created.
    pub candidate: Candidate,
    /// Number of nominations received; starts at 1, increases by 1 per vote.
    pub votes: i64,
    /// Timestamp of the first nomination; never updated afterwards.
    pub created: i64,
}

/// A validated `/top` ranking request: how many records to return, over how
/// many trailing days.
#[derive(Clone, Copy, Debug, PartialEq, Eq, Structural)]
pub struct RankingRequest {
    /// Number of records asked for, clamped into `[1, 5]`.
    pub top: i64,
    /// Size of the ranking window in days, clamped into `[1, 365]`.
    pub days: i64,
}

impl RankingRequest {
    /// Both fields lie inside the clamped ranges the command parser enforces.
    pub open spec fn valid(self) -> bool {
        &&& 1 <= self.top <= 5
        &&& 1 <= self.days <= 365
    }
}

} // verus!
