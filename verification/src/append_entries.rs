//! The request by which a leader extends the log of a follower, and the answer to it.
use vstd::prelude::*;

use crate::log_entry::LogEntry;

verus! {

/// A request of the leader. Without entries it is a heartbeat.
pub struct AppendEntriesRequest {
    pub term: u64,
    /// The place of the entry that the new ones follow.
    pub prev_log_idx: u64,
    /// The term of the entry that the new ones follow.
    pub prev_log_term: u64,
    /// The highest place that the leader knows to be committed.
    pub commit_idx: u64,
    pub leader_id: usize,
    pub entries: Vec<LogEntry>,
}

/// The answer of a follower: whether it took the request, and where it stands now.
#[derive(Clone, Copy, Debug, PartialEq, Eq, Structural)]
pub struct AppendEntriesResponse {
    pub success: bool,
    pub term: u64,
    pub idx: u64,
    pub commit_idx: u64,
}

} // verus!
