//! What requests do to a log.

use schooner::append_entries::AppendEntriesRequest;
use schooner::log::{AppendError, Log, LogWrite, Verdict};
use schooner::log_entry::LogEntry;

fn entry(idx: u64, term: u64) -> LogEntry {
    LogEntry { idx, term, data: format!("PUT x={}", idx), uuid: format!("Uuid: {}", idx) }
}

fn request(term: u64, prev: (u64, u64), entries: Vec<LogEntry>) -> AppendEntriesRequest {
    AppendEntriesRequest {
        term,
        prev_log_idx: prev.0,
        prev_log_term: prev.1,
        commit_idx: 0,
        leader_id: 1,
        entries,
    }
}

#[test]
fn log_knows_its_last_entry() {
    let empty = Log::new(Vec::new());
    assert_eq!((0, 0), (empty.idx, empty.term));
    let log = Log::new(vec![entry(1, 1), entry(2, 5)]);
    assert_eq!((2, 5), (log.idx, log.term));
}

#[test]
fn request_that_follows_is_taken() {
    let mut log = Log::new(vec![entry(1, 1)]);
    let req = request(2, (1, 1), vec![entry(2, 2), entry(3, 2)]);
    assert_eq!(Verdict::Follows, log.verdict(&req));
    assert_eq!(LogWrite::Append, log.pending_write(&req));
    assert_eq!(Ok(()), log.append_entries(&req, true));
    assert_eq!((3, 2, 3), (log.idx, log.term, log.entries.len()));
    assert_eq!("PUT x=3", log.entries[2].data);
    assert_eq!("Uuid: 3", log.entries[2].uuid);
}

#[test]
fn request_that_is_not_stored_is_refused() {
    let mut log = Log::new(vec![entry(1, 1)]);
    let req = request(1, (1, 1), vec![entry(2, 1)]);
    assert_eq!(Err(AppendError::NotStored), log.append_entries(&req, false));
    assert_eq!((1, 1, 1), (log.idx, log.term, log.entries.len()));
}

#[test]
fn request_of_a_past_term_is_refused() {
    let mut log = Log::new(vec![entry(1, 2)]);
    let req = request(1, (1, 2), vec![entry(2, 1)]);
    assert_eq!(LogWrite::Nothing, log.pending_write(&req));
    assert_eq!(Err(AppendError::PastTerm), log.append_entries(&req, true));
    assert_eq!(1, log.entries.len());
}

#[test]
fn request_after_another_place_is_refused() {
    let mut log = Log::new(vec![entry(1, 1), entry(2, 1)]);
    for prev in [0, 1, 3] {
        let req = request(1, (prev, 1), vec![entry(prev + 1, 1)]);
        assert_eq!(Verdict::OtherIdx, log.verdict(&req));
        assert_eq!(Err(AppendError::OtherIdx), log.append_entries(&req, true));
    }
    assert_eq!((2, 1, 2), (log.idx, log.term, log.entries.len()));
}

#[test]
fn conflict_removes_the_last_entry() {
    let mut log = Log::new(vec![entry(1, 1), entry(2, 1)]);
    let req = request(2, (2, 2), vec![entry(3, 2)]);
    assert_eq!(LogWrite::DropLast, log.pending_write(&req));
    assert_eq!(Err(AppendError::OtherTerm), log.append_entries(&req, false));
    assert_eq!(2, log.entries.len());
    assert_eq!(Err(AppendError::OtherTerm), log.append_entries(&req, true));
    assert_eq!((1, 1, 1), (log.idx, log.term, log.entries.len()));
    let next = request(2, (1, 1), vec![entry(2, 2)]);
    assert_eq!(Ok(()), log.append_entries(&next, true));
    assert_eq!((2, 2, 2), (log.idx, log.term, log.entries.len()));
}

#[test]
fn conflict_can_empty_a_log() {
    let mut log = Log::new(vec![entry(1, 1)]);
    let req = request(2, (1, 2), vec![]);
    assert_eq!(Err(AppendError::OtherTerm), log.append_entries(&req, true));
    assert_eq!((0, 0, 0), (log.idx, log.term, log.entries.len()));
    let on_empty = request(2, (0, 2), vec![]);
    assert_eq!(LogWrite::Nothing, log.pending_write(&on_empty));
    assert_eq!(Err(AppendError::OtherTerm), log.append_entries(&on_empty, true));
}

#[test]
fn places_count_the_entries() {
    let mut log = Log::new(Vec::new());
    assert!(log.append_entries(&request(1, (0, 0), vec![entry(1, 1), entry(2, 1)]), true).is_ok());
    assert_eq!(log.idx, log.entries.len() as u64);
    assert!(log.append_entries(&request(3, (2, 3), vec![]), true).is_err());
    assert_eq!(log.idx, log.entries.len() as u64);
    assert!(log.append_entries(&request(3, (1, 1), vec![entry(2, 3)]), true).is_ok());
    assert_eq!(log.idx, log.entries.len() as u64);
}
