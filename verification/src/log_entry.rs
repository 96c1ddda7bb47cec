//! Entries of the replicated log.
use vstd::prelude::*;

verus! {

/// An entry of the log: its place, the term of the leader that made it, a client's command and
/// the line by which the client names the command.
pub struct LogEntry {
    pub idx: u64,
    pub term: u64,
    pub data: String,
    pub uuid: String,
}

impl Clone for LogEntry {
    fn clone(&self) -> (r: Self)
        ensures
            r == *self,
    {
        LogEntry {
            idx: self.idx,
            term: self.term,
            data: self.data.clone(),
            uuid: self.uuid.clone(),
        }
    }
}

} // verus!
