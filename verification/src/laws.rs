//! What holds of a leader, a follower and a client together.
use vstd::prelude::*;
use vstd::utf8::encode_utf8;

use crate::append_entries::{AppendEntriesRequest, AppendEntriesResponse};
use crate::follower::{commit_after, law_request_makes_its_sender_leader, redirect_of};
use crate::log::{
    continues, entries_after, in_sequence, last_idx, last_term, law_stays_in_sequence, outcome_of,
    verdict_of, Verdict,
};
use crate::log_entry::LogEntry;
use crate::message::{law_framed_message_read_back, message_of, ClientMsgView};
use crate::peer::{law_peer_index, peer_index, Peer, PeerView};
use crate::server::Server;
use crate::text::position_of;

verus! {

/// A request of a leader is taken by every follower whose log ends with an entry of the place and
/// the term of the leader's last, and puts the entries of the request behind those there.
pub proof fn law_request_taken_by_follower(
    leader: Server,
    req: AppendEntriesRequest,
    entries: Seq<LogEntry>,
)
    requires
        leader.is_request(req),
        last_idx(entries) == leader.log.idx,
        last_term(entries) == leader.log.term,
    ensures
        outcome_of(entries, req, true) is Ok,
        entries_after(entries, req, true) == entries + req.entries@,
{
}

/// A follower that gets a request of a leader among its peers holds that leader for its own,
/// whatever becomes of the request.
pub proof fn law_follower_knows_its_leader(
    leader: Server,
    req: AppendEntriesRequest,
    follower: Server,
    stored: bool,
    after: Server,
)
    requires
        leader.is_request(req),
        follower.is_after_request(req, stored, after),
        exists|i: int|
            0 <= i < follower.peers@.len() && (#[trigger] follower.peers@[i]).id == leader.id,
    ensures
        0 <= after.leader < after.peers@.len(),
        after.peers@[after.leader as int].id == leader.id,
{
    law_request_makes_its_sender_leader(follower, req, stored, after);
}

/// A follower whose log ends where that of the leader does takes its request once it is stored: it
/// then holds the entries of the request behind its own, and knows of as much that is committed as
/// the leader does, as far as its log reaches. Its answer says so.
pub proof fn law_follower_catches_up(
    leader: Server,
    req: AppendEntriesRequest,
    follower: Server,
    after: Server,
    res: AppendEntriesResponse,
)
    requires
        leader.is_request(req),
        follower.log.wf(),
        follower.log.idx == leader.log.idx,
        follower.log.term == leader.log.term,
        follower.is_after_request(req, true, after),
        after.is_response(outcome_of(follower.log.entries@, req, true) is Ok, res),
    ensures
        after.log.entries@ == follower.log.entries@ + req.entries@,
        res.success,
        res.idx == after.log.idx,
        res.term == after.log.term,
        res.commit_idx == after.commit_idx,
        req.entries@.len() == 0 ==> res.idx == leader.log.idx && res.term == leader.log.term,
        req.entries@.len() > 0 ==> res.idx == req.entries@[req.entries@.len() - 1].idx && res.term
            == req.entries@[req.entries@.len() - 1].term,
        follower.commit_idx <= leader.commit_idx <= after.log.idx ==> after.commit_idx
            == leader.commit_idx,
        leader.commit_idx < follower.commit_idx ==> after.commit_idx == follower.commit_idx,
        follower.commit_idx < leader.commit_idx && after.log.idx < leader.commit_idx
            ==> after.commit_idx == after.log.idx,
{
    law_request_taken_by_follower(leader, req, follower.log.entries@);
    if req.entries@.len() == 0 {
        assert(follower.log.entries@ + req.entries@ =~= follower.log.entries@);
    }
}

/// A client's command that the leader has sent on is the last entry of such a follower.
pub proof fn law_command_reaches_follower(
    leader: Server,
    req: AppendEntriesRequest,
    m: ClientMsgView,
    entries: Seq<LogEntry>,
)
    requires
        leader.is_request_with(req, m),
        last_idx(entries) == leader.log.idx,
        last_term(entries) == leader.log.term,
    ensures
        ({
            let after = entries_after(entries, req, true);
            &&& after.len() == entries.len() + 1
            &&& after.drop_last() == entries
            &&& after.last().data@ == m.cmd
            &&& after.last().uuid@ == m.uuid
        }),
{
    law_request_taken_by_follower(leader, req, entries);
    assert((entries + req.entries@).drop_last() =~= entries);
}

/// A request that is refused moves no commit index. One that is taken moves it never past the end
/// of the log, nor past what the leader has committed, and, unless it lies past the end of the
/// log already, never back.
pub proof fn law_commit_index(
    commit_idx: u64,
    log_idx: u64,
    req: AppendEntriesRequest,
    taken: bool,
)
    ensures
        ({
            let after = commit_after(commit_idx, log_idx, req, taken);
            &&& !taken ==> after == commit_idx
            &&& after != commit_idx ==> after <= log_idx && after <= req.commit_idx
            &&& commit_idx <= log_idx ==> commit_idx <= after <= log_idx
            &&& taken && commit_idx < req.commit_idx <= log_idx ==> after == req.commit_idx
        }),
{
}

/// In a log whose entries stand at the places 1, 2, 3 and so on, a commit index that lies within
/// the log stays within it and never goes back, unless the last entry is removed in a conflict.
pub proof fn law_commit_index_stays_in_log(
    entries: Seq<LogEntry>,
    commit_idx: u64,
    req: AppendEntriesRequest,
    stored: bool,
)
    requires
        in_sequence(entries),
        continues(req),
        commit_idx <= last_idx(entries),
        verdict_of(entries, req) != Verdict::OtherTerm,
    ensures
        ({
            let end = last_idx(entries_after(entries, req, stored));
            let taken = outcome_of(entries, req, stored) is Ok;
            commit_idx <= commit_after(commit_idx, end, req, taken) <= end
        }),
{
    law_stays_in_sequence(entries, req, stored);
    assert(entries.len() > 0 ==> entries.last() == entries[entries.len() - 1]);
}

/// A client that is sent elsewhere is sent to another server.
pub proof fn law_redirect_names_another(server: Server, msg: Seq<char>)
    requires
        server.wf(),
        server.is_redirect(msg),
    ensures
        exists|p: Peer|
            server.peers@.contains(p) && p.id != server.id && msg == #[trigger] redirect_of(p@),
{
    let k = if server.leader >= 0 {
        server.leader as int
    } else {
        choose|i: int|
            0 <= i < server.peers@.len() && msg == redirect_of((#[trigger] server.peers@[i])@)
    };
    let p = server.peers@[k];
    assert(server.peers@.contains(p));
    assert(msg == redirect_of(p@));
}

/// Once a request has come from a leader among the peers, clients are sent to that leader.
pub proof fn law_redirect_names_leader(server: Server, leader_id: usize, msg: Seq<char>)
    requires
        server.wf(),
        server.leader == peer_index(server.peers@, leader_id),
        exists|i: int|
            0 <= i < server.peers@.len() && (#[trigger] server.peers@[i]).id == leader_id,
        server.is_redirect(msg),
    ensures
        0 <= server.leader < server.peers@.len(),
        server.peers@[server.leader as int].id == leader_id,
        msg == redirect_of(server.peers@[server.leader as int]@),
{
    law_peer_index(server.peers@, leader_id);
}

/// What a client reads of the message that sends it to `p` is `Redirect:` and the address of `p`.
pub proof fn law_redirect_read_back(p: PeerView)
    requires
        encode_utf8("Redirect: "@ + p.addr() + "\n"@).len() <= usize::MAX,
    ensures
        ({
            let end = position_of(redirect_of(p), '\n') as int;
            let line = redirect_of(p).take(end + 1);
            let rest = redirect_of(p).skip(end + 1);
            &&& rest == "Redirect: "@ + p.addr() + "\n"@
            &&& message_of(line, encode_utf8(rest)) == Some(rest)
        }),
{
    law_framed_message_read_back("Redirect: "@ + p.addr() + "\n"@);
}

} // verus!
