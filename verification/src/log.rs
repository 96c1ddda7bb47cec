//! The log of a server: which requests of a leader extend it, and what it holds afterwards.
use vstd::prelude::*;

use crate::append_entries::AppendEntriesRequest;
use crate::log_entry::LogEntry;

verus! {

/// The entries of a server, and the place and term of the last of them. Without entries both
/// are 0.
pub struct Log {
    pub idx: u64,
    pub term: u64,
    pub entries: Vec<LogEntry>,
}

/// How a request stands to a log.
#[derive(Clone, Copy, Debug, PartialEq, Eq, Structural)]
pub enum Verdict {
    /// The request follows the last entry.
    Follows,
    /// The request is of a term before that of the last entry.
    PastTerm,
    /// The request follows an entry at another place than the last.
    OtherIdx,
    /// The request follows an entry at the place of the last, but of another term.
    OtherTerm,
}

/// What has to be done to the stored log before a request can be answered.
#[derive(Clone, Copy, Debug, PartialEq, Eq, Structural)]
pub enum LogWrite {
    /// Store the entries of the request behind those that are there.
    Append,
    /// Remove the last entry.
    DropLast,
    Nothing,
}

/// Why a request was refused.
#[derive(Clone, Copy, Debug, PartialEq, Eq, Structural)]
pub enum AppendError {
    PastTerm,
    OtherIdx,
    OtherTerm,
    /// The entries could not be stored.
    NotStored,
}

/// The place of the last of `entries`.
pub open spec fn last_idx(entries: Seq<LogEntry>) -> u64 {
    if entries.len() == 0 {
        0
    } else {
        entries.last().idx
    }
}

/// The term of the last of `entries`.
pub open spec fn last_term(entries: Seq<LogEntry>) -> u64 {
    if entries.len() == 0 {
        0
    } else {
        entries.last().term
    }
}

/// How `req` stands to the log `entries`.
pub open spec fn verdict_of(entries: Seq<LogEntry>, req: AppendEntriesRequest) -> Verdict {
    if req.term < last_term(entries) {
        Verdict::PastTerm
    } else if req.prev_log_idx != last_idx(entries) {
        Verdict::OtherIdx
    } else if req.prev_log_term != last_term(entries) {
        Verdict::OtherTerm
    } else {
        Verdict::Follows
    }
}

/// What `req` asks of the store of the log `entries`.
pub open spec fn write_of(entries: Seq<LogEntry>, req: AppendEntriesRequest) -> LogWrite {
    match verdict_of(entries, req) {
        Verdict::Follows => LogWrite::Append,
        Verdict::OtherTerm => if entries.len() > 0 {
            LogWrite::DropLast
        } else {
            LogWrite::Nothing
        },
        _ => LogWrite::Nothing,
    }
}

/// What the log `entries` holds after `req`, if the store has done what was asked of it, or has
/// not.
pub open spec fn entries_after(
    entries: Seq<LogEntry>,
    req: AppendEntriesRequest,
    stored: bool,
) -> Seq<LogEntry> {
    match write_of(entries, req) {
        LogWrite::Append if stored => entries + req.entries@,
        LogWrite::DropLast if stored => entries.drop_last(),
        _ => entries,
    }
}

/// Whether the log `entries` takes `req`, or why it refuses it.
pub open spec fn outcome_of(
    entries: Seq<LogEntry>,
    req: AppendEntriesRequest,
    stored: bool,
) -> Result<(), AppendError> {
    match verdict_of(entries, req) {
        Verdict::Follows => if stored {
            Ok(())
        } else {
            Err(AppendError::NotStored)
        },
        Verdict::PastTerm => Err(AppendError::PastTerm),
        Verdict::OtherIdx => Err(AppendError::OtherIdx),
        Verdict::OtherTerm => Err(AppendError::OtherTerm),
    }
}

/// Whether the entries stand at the places 1, 2, 3 and so on.
pub open spec fn in_sequence(entries: Seq<LogEntry>) -> bool {
    forall|i: int| 0 <= i < entries.len() ==> (#[trigger] entries[i]).idx == i + 1
}

/// Whether the entries of `req` stand at the places after the one that it follows.
pub open spec fn continues(req: AppendEntriesRequest) -> bool {
    forall|i: int|
        0 <= i < req.entries@.len() ==> (#[trigger] req.entries@[i]).idx == req.prev_log_idx + 1 + i
}

impl Log {
    /// The place and the term are those of the last entry.
    pub open spec fn wf(self) -> bool {
        &&& self.idx == last_idx(self.entries@)
        &&& self.term == last_term(self.entries@)
    }

    /// A log that holds `entries`.
    pub fn new(entries: Vec<LogEntry>) -> (r: Log)
        ensures
            r.wf(),
            r.entries == entries,
    {
        let mut idx: u64 = 0;
        let mut term: u64 = 0;
        let len: usize = entries.len();
        if len > 0 {
            idx = entries[len - 1].idx;
            term = entries[len - 1].term;
        }
        Log { idx, term, entries }
    }

    /// Tells how a request stands to the log.
    pub fn verdict(&self, req: &AppendEntriesRequest) -> (r: Verdict)
        requires
            self.wf(),
        ensures
            r == verdict_of(self.entries@, *req),
    {
        if req.term < self.term {
            Verdict::PastTerm
        } else if req.prev_log_idx != self.idx {
            Verdict::OtherIdx
        } else if req.prev_log_term != self.term {
            Verdict::OtherTerm
        } else {
            Verdict::Follows
        }
    }

    /// Tells what a request asks of the store.
    pub fn pending_write(&self, req: &AppendEntriesRequest) -> (r: LogWrite)
        requires
            self.wf(),
        ensures
            r == write_of(self.entries@, *req),
    {
        match self.verdict(req) {
            Verdict::Follows => LogWrite::Append,
            Verdict::OtherTerm => if self.entries.len() > 0 {
                LogWrite::DropLast
            } else {
                LogWrite::Nothing
            },
            Verdict::PastTerm | Verdict::OtherIdx => LogWrite::Nothing,
        }
    }

    /// Carries a request out, once the store has done, or has failed to do, what
    /// `pending_write` says.
    pub fn append_entries(&mut self, req: &AppendEntriesRequest, stored: bool) -> (r: Result<
        (),
        AppendError,
    >)
        requires
            old(self).wf(),
        ensures
            final(self).wf(),
            final(self).entries@ == entries_after(old(self).entries@, *req, stored),
            r == outcome_of(old(self).entries@, *req, stored),
    {
        match self.verdict(req) {
            Verdict::PastTerm => Err(AppendError::PastTerm),
            Verdict::OtherIdx => Err(AppendError::OtherIdx),
            Verdict::OtherTerm => {
                if stored && self.entries.len() > 0 {
                    let _dropped = self.entries.pop();
                    let len: usize = self.entries.len();
                    if len > 0 {
                        self.idx = self.entries[len - 1].idx;
                        self.term = self.entries[len - 1].term;
                    } else {
                        self.idx = 0;
                        self.term = 0;
                    }
                }
                Err(AppendError::OtherTerm)
            },
            Verdict::Follows => {
                if !stored {
                    return Err(AppendError::NotStored);
                }
                let mut i: usize = 0;
                while i < req.entries.len()
                    invariant
                        i <= req.entries@.len(),
                        self.wf(),
                        self.entries@ == old(self).entries@ + req.entries@.take(i as int),
                    decreases req.entries.len() - i,
                {
                    assert(req.entries@.take(i + 1) =~= req.entries@.take(i as int).push(
                        req.entries@[i as int],
                    ));
                    self.idx = req.entries[i].idx;
                    self.term = req.entries[i].term;
                    self.entries.push(req.entries[i].clone());
                    i = i + 1;
                }
                assert(req.entries@.take(req.entries@.len() as int) =~= req.entries@);
                Ok(())
            },
        }
    }
}

/// A request that was taken is refused when it comes again, and then changes nothing, unless its
/// last entry stands at the very place that the request follows.
pub proof fn law_taken_once(entries: Seq<LogEntry>, req: AppendEntriesRequest, stored: bool)
    requires
        outcome_of(entries, req, true) is Ok,
        req.entries@.len() > 0,
        req.entries@.last().idx != req.prev_log_idx,
    ensures
        ({
            let after = entries_after(entries, req, true);
            &&& outcome_of(after, req, stored) is Err
            &&& entries_after(after, req, stored) == after
            &&& write_of(after, req) == LogWrite::Nothing
        }),
{
    assert((entries + req.entries@).last() == req.entries@.last());
}

/// A request of a past term is refused and changes nothing.
pub proof fn law_past_term_refused(entries: Seq<LogEntry>, req: AppendEntriesRequest, stored: bool)
    requires
        req.term < last_term(entries),
    ensures
        outcome_of(entries, req, stored) == Err::<(), AppendError>(AppendError::PastTerm),
        entries_after(entries, req, stored) == entries,
{
}

/// A request that follows an entry at the place of the last, but of another term, is refused, and
/// removes that last entry; a request of no past term that follows the entry before it is then
/// taken, and its entries stand where the last entry stood.
pub proof fn law_conflict_resolved(
    entries: Seq<LogEntry>,
    req: AppendEntriesRequest,
    next: AppendEntriesRequest,
)
    requires
        entries.len() > 0,
        verdict_of(entries, req) == Verdict::OtherTerm,
        next.term >= last_term(entries.drop_last()),
        next.prev_log_idx == last_idx(entries.drop_last()),
        next.prev_log_term == last_term(entries.drop_last()),
    ensures
        outcome_of(entries, req, true) is Err,
        entries_after(entries, req, true) == entries.drop_last(),
        outcome_of(entries.drop_last(), next, true) is Ok,
        entries_after(entries.drop_last(), next, true) == entries.drop_last() + next.entries@,
{
}

/// A heartbeat changes no log, unless it is in conflict with the last entry.
pub proof fn law_heartbeat_keeps_log(
    entries: Seq<LogEntry>,
    req: AppendEntriesRequest,
    stored: bool,
)
    requires
        req.entries@.len() == 0,
        verdict_of(entries, req) != Verdict::OtherTerm,
    ensures
        entries_after(entries, req, stored) == entries,
{
    assert(entries + req.entries@ =~= entries);
}

/// A log whose entries stand at the places 1, 2, 3 and so on stays so under requests whose entries
/// stand at the places after the one that they follow; the place of its last entry is then the
/// number of its entries.
pub proof fn law_stays_in_sequence(entries: Seq<LogEntry>, req: AppendEntriesRequest, stored: bool)
    requires
        in_sequence(entries),
        continues(req),
    ensures
        in_sequence(entries_after(entries, req, stored)),
        last_idx(entries_after(entries, req, stored)) == entries_after(entries, req, stored).len(),
{
    let after = entries_after(entries, req, stored);
    assert(entries.len() > 0 ==> entries.last() == entries[entries.len() - 1]);
    if write_of(entries, req) == LogWrite::Append && stored {
        assert(req.prev_log_idx == entries.len());
        assert forall|i: int| 0 <= i < after.len() implies (#[trigger] after[i]).idx == i + 1 by {
            if i >= entries.len() {
                assert(after[i] == req.entries@[i - entries.len()]);
            } else {
                assert(after[i] == entries[i]);
            }
        }
    } else if write_of(entries, req) == LogWrite::DropLast && stored {
        assert forall|i: int| 0 <= i < after.len() implies (#[trigger] after[i]).idx == i + 1 by {
            assert(after[i] == entries[i]);
        }
    }
    assert(after.len() > 0 ==> after.last() == after[after.len() - 1]);
}

/// What the log `entries` holds after a number of requests, each with the word of the store on it.
pub open spec fn entries_after_all(
    entries: Seq<LogEntry>,
    reqs: Seq<(AppendEntriesRequest, bool)>,
) -> Seq<LogEntry>
    decreases reqs.len(),
{
    if reqs.len() == 0 {
        entries
    } else {
        entries_after(
            entries_after_all(entries, reqs.drop_last()),
            reqs.last().0,
            reqs.last().1,
        )
    }
}

/// However many such requests come, a log that was empty at first has its entries at the places
/// 1, 2, 3 and so on.
pub proof fn law_always_in_sequence(reqs: Seq<(AppendEntriesRequest, bool)>)
    requires
        forall|i: int| 0 <= i < reqs.len() ==> continues((#[trigger] reqs[i]).0),
    ensures
        ({
            let entries = entries_after_all(Seq::empty(), reqs);
            in_sequence(entries) && last_idx(entries) == entries.len()
        }),
    decreases reqs.len(),
{
    if reqs.len() > 0 {
        let front = reqs.drop_last();
        assert forall|i: int| 0 <= i < front.len() implies continues((#[trigger] front[i]).0) by {
            assert(front[i] == reqs[i]);
        }
        law_always_in_sequence(front);
        assert(continues(reqs[reqs.len() - 1].0));
        law_stays_in_sequence(
            entries_after_all(Seq::empty(), front),
            reqs.last().0,
            reqs.last().1,
        );
    }
}

/// The place and the term of a log are those of the entry that was put there last. Without entries
/// both are 0.
pub proof fn law_last_entry(entries: Seq<LogEntry>, e: LogEntry)
    ensures
        last_idx(entries.push(e)) == e.idx,
        last_term(entries.push(e)) == e.term,
        last_idx(Seq::empty()) == 0,
        last_term(Seq::empty()) == 0,
{
}

/// A well-formed log holds the place and the term of its last entry, or 0 and 0.
pub proof fn law_log_wf(log: Log)
    ensures
        log.entries@.len() == 0 ==> (log.wf() <==> log.idx == 0 && log.term == 0),
        log.entries@.len() > 0 ==> (log.wf() <==> log.idx == log.entries@[log.entries@.len()
            - 1].idx && log.term == log.entries@[log.entries@.len() - 1].term),
{
}

/// A request is taken exactly if it is of no term before that of the last entry, the entry that it
/// follows has the place and the term of the last entry, and its entries are stored. They then
/// stand behind those there.
pub proof fn law_taken_only_at_the_end(
    entries: Seq<LogEntry>,
    req: AppendEntriesRequest,
    stored: bool,
)
    ensures
        ({
            let end: u64 = if entries.len() == 0 {
                0
            } else {
                entries[entries.len() - 1].idx
            };
            let end_term: u64 = if entries.len() == 0 {
                0
            } else {
                entries[entries.len() - 1].term
            };
            let after = entries_after(entries, req, stored);
            &&& outcome_of(entries, req, stored) is Ok <==> stored && req.term >= end_term
                && req.prev_log_idx == end && req.prev_log_term == end_term
            &&& outcome_of(entries, req, stored) is Ok ==> {
                &&& after.len() == entries.len() + req.entries@.len()
                &&& forall|i: int| 0 <= i < entries.len() ==> #[trigger] after[i] == entries[i]
                &&& forall|i: int|
                    0 <= i < req.entries@.len() ==> after[entries.len() + i]
                        == #[trigger] req.entries@[i]
            }
        }),
{
}

/// A request of no past term that follows an entry at the place of the last, but of another term,
/// be it an earlier or a later one, is refused. The last entry is then removed, as soon as the
/// store has removed it, and all others stay.
pub proof fn law_other_term_removes_last_entry(
    entries: Seq<LogEntry>,
    req: AppendEntriesRequest,
    stored: bool,
)
    requires
        entries.len() > 0,
        req.term >= entries[entries.len() - 1].term,
        req.prev_log_idx == entries[entries.len() - 1].idx,
        req.prev_log_term != entries[entries.len() - 1].term,
    ensures
        outcome_of(entries, req, stored) == Err::<(), AppendError>(AppendError::OtherTerm),
        write_of(entries, req) == LogWrite::DropLast,
        entries_after(entries, req, true) == entries.take(entries.len() - 1),
        entries_after(entries, req, false) == entries,
{
    assert(entries.drop_last() =~= entries.take(entries.len() - 1));
}

/// A request that is refused for any other reason changes nothing, and asks nothing of the store
/// unless it is the store that failed. Why it is refused depends on the last entry alone.
pub proof fn law_refused_otherwise_changes_nothing(
    entries: Seq<LogEntry>,
    req: AppendEntriesRequest,
    stored: bool,
)
    ensures
        ({
            let end: u64 = if entries.len() == 0 {
                0
            } else {
                entries[entries.len() - 1].idx
            };
            let end_term: u64 = if entries.len() == 0 {
                0
            } else {
                entries[entries.len() - 1].term
            };
            let outcome = outcome_of(entries, req, stored);
            &&& req.term < end_term ==> outcome == Err::<(), AppendError>(AppendError::PastTerm)
                && entries_after(entries, req, stored) == entries && write_of(entries, req)
                == LogWrite::Nothing
            &&& req.term >= end_term && req.prev_log_idx != end ==> outcome == Err::<
                (),
                AppendError,
            >(AppendError::OtherIdx) && entries_after(entries, req, stored) == entries && write_of(
                entries,
                req,
            ) == LogWrite::Nothing
            &&& entries.len() == 0 && req.prev_log_idx == 0 && req.prev_log_term != 0 ==> outcome
                == Err::<(), AppendError>(AppendError::OtherTerm) && entries_after(
                entries,
                req,
                stored,
            ) == entries && write_of(entries, req) == LogWrite::Nothing
            &&& req.term >= end_term && req.prev_log_idx == end && req.prev_log_term == end_term
                && !stored ==> outcome == Err::<(), AppendError>(AppendError::NotStored)
                && entries_after(entries, req, stored) == entries
            &&& write_of(entries, req) == LogWrite::Append <==> req.term >= end_term
                && req.prev_log_idx == end && req.prev_log_term == end_term
        }),
{
}

/// How a request stands to a log says whether it is taken, and otherwise why not.
pub proof fn law_verdict_decides(entries: Seq<LogEntry>, req: AppendEntriesRequest)
    ensures
        verdict_of(entries, req) == Verdict::Follows <==> outcome_of(entries, req, true) is Ok,
        verdict_of(entries, req) == Verdict::PastTerm <==> outcome_of(entries, req, true) == Err::<
            (),
            AppendError,
        >(AppendError::PastTerm),
        verdict_of(entries, req) == Verdict::OtherIdx <==> outcome_of(entries, req, true) == Err::<
            (),
            AppendError,
        >(AppendError::OtherIdx),
        verdict_of(entries, req) == Verdict::OtherTerm <==> outcome_of(entries, req, true) == Err::<
            (),
            AppendError,
        >(AppendError::OtherTerm),
{
}

/// A follower that takes a request with all that the leader has behind the place `k` has the log of
/// the leader, if logs that end with an entry of the same place and term are the same.
pub proof fn law_taken_log_is_the_leaders(
    leader: Seq<LogEntry>,
    k: int,
    entries: Seq<LogEntry>,
    req: AppendEntriesRequest,
)
    requires
        0 < k <= leader.len(),
        req.prev_log_idx == leader[k - 1].idx,
        req.prev_log_term == leader[k - 1].term,
        req.prev_log_idx > 0,
        req.entries@ == leader.skip(k),
        entries.len() > 0 && entries[entries.len() - 1].idx == leader[k - 1].idx
            && entries[entries.len() - 1].term == leader[k - 1].term ==> entries == leader.take(k),
        outcome_of(entries, req, true) is Ok,
    ensures
        entries_after(entries, req, true) == leader,
{
    assert(leader.take(k) + leader.skip(k) =~= leader);
}

} // verus!
