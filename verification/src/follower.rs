//! A server as a follower: it answers the requests of the leader, sends clients to the leader,
//! and takes the lead when nothing is heard for too long.
use rand::Rng;
use vstd::prelude::*;
use vstd::utf8::encode_utf8;

use crate::append_entries::{AppendEntriesRequest, AppendEntriesResponse};
use crate::decimal::decimal;
use crate::log::{entries_after, last_idx, last_term, outcome_of, AppendError};
use crate::message::{
    frame_msg, framed, is_client_cmd, is_cmd_from_client, is_stop, is_stop_msg,
    law_framed_has_its_form, law_stop_is_no_client_cmd, law_stop_text,
};
use crate::peer::{
    get_peer_idx, law_addr_has_its_form, law_peer_index, peer_index, Peer, PeerView,
};
use crate::server::{Event, Server, State, UNKNOWN_LDR};

verus! {

/// What a follower waits for.
pub enum FollowerEvent {
    /// Nothing was heard for too long.
    Timeout,
    Message(Event),
}

/// What is to be done about an event.
pub enum FollowerAction {
    /// Follow no longer.
    Leave,
    /// Send this to whom the message came from.
    Reply(String),
    /// Decode the message as a request of the leader, and answer that.
    Decode(String),
}

/// The message that sends a client to `p`.
pub open spec fn redirect_of(p: PeerView) -> Seq<char> {
    framed("Redirect: "@ + p.addr() + "\n"@)
}

/// The state of a follower after an event.
pub open spec fn follower_state_after(state: State, ev: FollowerEvent) -> State {
    match ev {
        FollowerEvent::Timeout => State::Candidate,
        FollowerEvent::Message(e) => if is_stop(e.msg@) {
            State::Stopped
        } else {
            state
        },
    }
}

/// The commit index after the request `req`: it moves, no further than the log reaches, only if
/// the request was taken and the leader is ahead.
pub open spec fn commit_after(
    commit_idx: u64,
    log_idx: u64,
    req: AppendEntriesRequest,
    taken: bool,
) -> u64 {
    if taken && req.commit_idx > commit_idx {
        if req.commit_idx <= log_idx {
            req.commit_idx
        } else {
            log_idx
        }
    } else {
        commit_idx
    }
}

/// Calls `rand::Rng::gen_range` on the generator that `rand::thread_rng` gives, for the numbers
/// from `low` up to, and without, `high`. It is taken to give one of them; which one is chance.
#[verifier::external_body]
fn random_in_range(low: usize, high: usize) -> (r: usize)
    requires
        low < high,
    ensures
        low <= r < high,
{
    rand::thread_rng().gen_range(low..high)
}

/// Finds the leader that sent a request among the peers: its index, or `UNKNOWN_LDR`.
pub fn get_leader_ptr(aereq: &AppendEntriesRequest, peers: &Vec<Peer>) -> (r: isize)
    requires
        peers@.len() <= isize::MAX,
    ensures
        r == peer_index(peers@, aereq.leader_id),
        r < 0 ==> r == UNKNOWN_LDR,
{
    proof {
        law_peer_index(peers@, aereq.leader_id);
    }
    get_peer_idx(peers, aereq.leader_id)
}

impl Server {
    /// Whether `msg` may be sent to a client: it names the leader or, while the leader is not
    /// known, any of the peers.
    pub open spec fn is_redirect(self, msg: Seq<char>) -> bool {
        if self.leader == UNKNOWN_LDR {
            exists|i: int|
                0 <= i < self.peers@.len() && msg == redirect_of((#[trigger] self.peers@[i])@)
        } else {
            msg == redirect_of(self.peers@[self.leader as int]@)
        }
    }

    /// Whether the server can send a client elsewhere.
    pub open spec fn can_redirect(self) -> bool {
        self.leader != UNKNOWN_LDR || self.peers@.len() > 0
    }

    /// The server after an event while following.
    pub open spec fn after_follower_event(self, ev: FollowerEvent) -> Server {
        Server { state: follower_state_after(self.state, ev), ..self }
    }

    /// Whether `after` is the server after the request `req` of a leader. `stored` says whether the
    /// store of the log has done what was asked of it.
    pub open spec fn is_after_request(
        self,
        req: AppendEntriesRequest,
        stored: bool,
        after: Server,
    ) -> bool {
        &&& after == (Server {
            leader: after.leader,
            log: after.log,
            commit_idx: after.commit_idx,
            ..self
        })
        &&& after.leader == peer_index(self.peers@, req.leader_id)
        &&& after.log.wf()
        &&& after.log.entries@ == entries_after(self.log.entries@, req, stored)
        &&& after.commit_idx == commit_after(
            self.commit_idx,
            last_idx(after.log.entries@),
            req,
            outcome_of(self.log.entries@, req, stored) is Ok,
        )
    }

    /// Whether `action` is what this follower does about the event `ev`.
    pub open spec fn is_follower_action(self, ev: FollowerEvent, action: FollowerAction) -> bool {
        match ev {
            FollowerEvent::Timeout => action is Leave,
            FollowerEvent::Message(e) => {
                if is_stop(e.msg@) {
                    action is Leave
                } else if is_client_cmd(e.msg@) {
                    action matches FollowerAction::Reply(reply) && self.is_redirect(reply@)
                } else {
                    action matches FollowerAction::Decode(msg) && msg@ == e.msg@
                }
            },
        }
    }

    /// Whether `res` is the answer of this server, which has just taken, or refused, a request.
    pub open spec fn is_response(self, taken: bool, res: AppendEntriesResponse) -> bool {
        &&& res.success == taken
        &&& res.term == self.log.term
        &&& res.idx == self.log.idx
        &&& res.commit_idx == self.commit_idx
    }

    /// The message that sends a client to the peer with the index `ldx`.
    pub fn redirect_msg_to(&self, ldx: usize) -> (r: String)
        requires
            ldx < self.peers@.len(),
        ensures
            r@ == redirect_of(self.peers@[ldx as int]@),
    {
        let ldr: &Peer = &self.peers[ldx];
        let redir_msg: String = "Redirect: ".to_owned().concat(ldr.addr().as_str()).concat("\n");
        frame_msg(redir_msg.as_str())
    }

    /// The message that sends a client to the leader: `Length: n`, where `n` counts the bytes after
    /// this line, and `Redirect: ip:port`. While the leader is not known, it names a peer picked at
    /// random, which may know.
    pub fn redirect_msg(&self) -> (r: String)
        requires
            self.wf(),
            self.can_redirect(),
        ensures
            self.is_redirect(r@),
    {
        let ldx: usize = if self.leader == UNKNOWN_LDR {
            random_in_range(0, self.peers.len())
        } else {
            self.leader as usize
        };
        self.redirect_msg_to(ldx)
    }

    /// Decides about an event while following.
    pub fn follower_step(&mut self, ev: FollowerEvent) -> (r: FollowerAction)
        requires
            old(self).wf(),
            ev matches FollowerEvent::Message(e) ==> is_client_cmd(e.msg@) ==> old(
                self,
            ).can_redirect(),
        ensures
            final(self).wf(),
            *final(self) == old(self).after_follower_event(ev),
            old(self).is_follower_action(ev, r),
            match ev {
                FollowerEvent::Timeout => r is Leave,
                FollowerEvent::Message(e) => {
                    if is_stop(e.msg@) {
                        r is Leave
                    } else if is_client_cmd(e.msg@) {
                        r matches FollowerAction::Reply(reply) && old(self).is_redirect(reply@)
                    } else {
                        r matches FollowerAction::Decode(msg) && msg@ == e.msg@
                    }
                },
            },
    {
        match ev {
            FollowerEvent::Timeout => {
                self.state = State::Candidate;
                FollowerAction::Leave
            },
            FollowerEvent::Message(e) => {
                if is_stop_msg(e.msg.as_str()) {
                    self.state = State::Stopped;
                    FollowerAction::Leave
                } else if is_cmd_from_client(e.msg.as_str()) {
                    FollowerAction::Reply(self.redirect_msg())
                } else {
                    FollowerAction::Decode(e.msg)
                }
            },
        }
    }

    /// Answers a request of the leader, once the log has taken or refused it.
    pub fn respond(&mut self, aereq: &AppendEntriesRequest, outcome: Result<(), AppendError>) -> (r:
        AppendEntriesResponse)
        ensures
            old(self).wf() ==> final(self).wf(),
            *final(self) == (Server {
                commit_idx: commit_after(
                    old(self).commit_idx,
                    old(self).log.idx,
                    *aereq,
                    outcome is Ok,
                ),
                ..*old(self)
            }),
            final(self).is_response(outcome is Ok, r),
            r == (AppendEntriesResponse {
                success: outcome is Ok,
                term: old(self).log.term,
                idx: old(self).log.idx,
                commit_idx: final(self).commit_idx,
            }),
    {
        let success: bool = match outcome {
            Ok(()) => {
                if aereq.commit_idx > self.commit_idx {
                    self.commit_idx = if aereq.commit_idx <= self.log.idx {
                        aereq.commit_idx
                    } else {
                        self.log.idx
                    };
                }
                true
            },
            Err(_e) => false,
        };
        AppendEntriesResponse {
            success,
            term: self.log.term,
            idx: self.log.idx,
            commit_idx: self.commit_idx,
        }
    }

    /// Carries out a request of the leader and answers it. `stored` says whether the store of the
    /// log has done what `Log::pending_write` said of the request.
    pub fn handle_append_request(&mut self, aereq: &AppendEntriesRequest, stored: bool) -> (r:
        AppendEntriesResponse)
        requires
            old(self).wf(),
        ensures
            final(self).wf(),
            old(self).is_after_request(*aereq, stored, *final(self)),
            final(self).is_response(outcome_of(old(self).log.entries@, *aereq, stored) is Ok, r),
            r == (AppendEntriesResponse {
                success: outcome_of(old(self).log.entries@, *aereq, stored) is Ok,
                term: last_term(final(self).log.entries@),
                idx: last_idx(final(self).log.entries@),
                commit_idx: final(self).commit_idx,
            }),
    {
        proof {
            law_peer_index(self.peers@, aereq.leader_id);
        }
        self.leader = get_leader_ptr(aereq, &self.peers);
        let outcome: Result<(), AppendError> = self.log.append_entries(aereq, stored);
        self.respond(aereq, outcome)
    }
}

/// The message that sends a client to a peer is the number of bytes that follow in its first line,
/// and in its second line the address of the peer.
pub proof fn law_redirect_has_its_form(p: PeerView)
    ensures
        ({
            let body = seq!['R', 'e', 'd', 'i', 'r', 'e', 'c', 't', ':', ' '] + (p.ip + seq![':']
                + decimal(p.tcpport)) + seq!['\n'];
            redirect_of(p) == seq!['L', 'e', 'n', 'g', 't', 'h', ':', ' '] + decimal(
                encode_utf8(body).len(),
            ) + seq!['\n'] + body
        }),
{
    reveal_strlit("Redirect: ");
    reveal_strlit("\n");
    assert("Redirect: "@ =~= seq!['R', 'e', 'd', 'i', 'r', 'e', 'c', 't', ':', ' ']);
    assert("\n"@ =~= seq!['\n']);
    law_addr_has_its_form(p);
    law_framed_has_its_form("Redirect: "@ + p.addr() + "\n"@);
}

/// While the leader is not known each peer, and nothing else, may be named to a client, and once
/// it is known the leader alone. There is one to name exactly if there are peers.
pub proof fn law_redirect_names_whom_it_may(s: Server, msg: Seq<char>)
    requires
        -1 <= s.leader < s.peers@.len(),
    ensures
        s.leader >= 0 ==> (s.is_redirect(msg) <==> msg == redirect_of(
            s.peers@[s.leader as int]@,
        )),
        s.leader < 0 ==> forall|i: int|
            0 <= i < s.peers@.len() ==> s.is_redirect(redirect_of((#[trigger] s.peers@[i])@)),
        s.is_redirect(msg) ==> exists|i: int|
            0 <= i < s.peers@.len() && msg == redirect_of((#[trigger] s.peers@[i])@),
        s.can_redirect() <==> s.peers@.len() > 0,
{
}

/// A follower that hears nothing for too long becomes a candidate. The letters S, T, O and P stop
/// it, and no other message changes its state. Nothing else of it changes.
pub proof fn law_follower_state(s: Server, e: Event)
    ensures
        s.after_follower_event(FollowerEvent::Timeout) == (Server { state: State::Candidate, ..s }),
        e.msg@ == seq!['S', 'T', 'O', 'P'] ==> s.after_follower_event(FollowerEvent::Message(e))
            == (Server { state: State::Stopped, ..s }),
        e.msg@ != seq!['S', 'T', 'O', 'P'] ==> s.after_follower_event(FollowerEvent::Message(e))
            == s,
{
    law_stop_text(e.msg@);
}

/// A follower goes on exactly if its state stays as it is: it leaves when it hears nothing or is
/// told to stop. It sends on the client of every command, and decodes every other message.
pub proof fn law_follower_leaves_to_change(s: Server, ev: FollowerEvent, action: FollowerAction)
    requires
        s.is_follower_action(ev, action),
        s.state == State::Follower,
    ensures
        action is Leave <==> s.after_follower_event(ev).state != State::Follower,
        match action {
            FollowerAction::Leave => ev matches FollowerEvent::Message(e) ==> e.msg@ == seq![
                'S',
                'T',
                'O',
                'P',
            ],
            FollowerAction::Reply(reply) => ev matches FollowerEvent::Message(e) && is_client_cmd(
                e.msg@,
            ) && s.is_redirect(reply@),
            FollowerAction::Decode(msg) => ev matches FollowerEvent::Message(e) && !is_client_cmd(
                e.msg@,
            ) && msg@ == e.msg@,
        },
{
    if let FollowerEvent::Message(e) = ev {
        law_stop_text(e.msg@);
        if is_stop(e.msg@) {
            law_stop_is_no_client_cmd(e.msg@);
        }
    }
}

/// A request that was taken, from a leader that is ahead, moves the commit index to that of the
/// leader, or to the end of the log where that comes first. Nothing else moves it.
pub proof fn law_commit_index_moves_to_the_leaders(
    commit_idx: u64,
    log_idx: u64,
    req: AppendEntriesRequest,
)
    ensures
        commit_after(commit_idx, log_idx, req, false) == commit_idx,
        req.commit_idx <= commit_idx ==> commit_after(commit_idx, log_idx, req, true) == commit_idx,
        commit_idx < req.commit_idx <= log_idx ==> commit_after(commit_idx, log_idx, req, true)
            == req.commit_idx,
        commit_idx < req.commit_idx && log_idx < req.commit_idx ==> commit_after(
            commit_idx,
            log_idx,
            req,
            true,
        ) == log_idx,
{
}

/// Whatever becomes of a request, taken or refused, stored or not, the follower then holds the peer
/// that sent it for the leader. A request of a stranger leaves it without a leader.
pub proof fn law_request_makes_its_sender_leader(
    s: Server,
    req: AppendEntriesRequest,
    stored: bool,
    after: Server,
)
    requires
        s.is_after_request(req, stored, after),
    ensures
        (exists|i: int| 0 <= i < s.peers@.len() && (#[trigger] s.peers@[i]).id == req.leader_id)
            ==> 0 <= after.leader < after.peers@.len() && after.peers@[after.leader as int].id
            == req.leader_id,
        (forall|i: int| 0 <= i < s.peers@.len() ==> (#[trigger] s.peers@[i]).id != req.leader_id)
            ==> after.leader == -1,
{
    law_peer_index(s.peers@, req.leader_id);
}

/// After any request of a peer, taken or refused, clients are sent to that peer.
pub proof fn law_clients_follow_the_last_request(
    s: Server,
    req: AppendEntriesRequest,
    stored: bool,
    after: Server,
    msg: Seq<char>,
)
    requires
        s.is_after_request(req, stored, after),
        exists|i: int| 0 <= i < s.peers@.len() && (#[trigger] s.peers@[i]).id == req.leader_id,
        after.is_redirect(msg),
    ensures
        exists|i: int|
            0 <= i < s.peers@.len() && (#[trigger] s.peers@[i]).id == req.leader_id && msg
                == redirect_of(s.peers@[i]@),
{
    law_request_makes_its_sender_leader(s, req, stored, after);
    assert(s.peers@[after.leader as int].id == req.leader_id);
}

/// A request changes nothing of a follower but its log, its leader and its commit index.
pub proof fn law_request_keeps_the_rest(
    s: Server,
    req: AppendEntriesRequest,
    stored: bool,
    after: Server,
)
    requires
        s.is_after_request(req, stored, after),
    ensures
        after.id == s.id,
        after.ip == s.ip,
        after.tcpport == s.tcpport,
        after.state == s.state,
        after.peers == s.peers,
        after.last_applied_commit == s.last_applied_commit,
        after.log.wf(),
        after.log.entries@ == entries_after(s.log.entries@, req, stored),
{
}

/// The commit index of a follower that has taken a request is that of the leader, if the leader is
/// ahead, as far as the log of the follower now reaches. A request that was refused leaves it.
pub proof fn law_request_moves_commit_index(
    s: Server,
    req: AppendEntriesRequest,
    stored: bool,
    after: Server,
)
    requires
        s.is_after_request(req, stored, after),
    ensures
        outcome_of(s.log.entries@, req, stored) is Err ==> after.commit_idx == s.commit_idx,
        outcome_of(s.log.entries@, req, stored) is Ok && s.commit_idx < req.commit_idx
            <= after.log.idx ==> after.commit_idx == req.commit_idx,
        outcome_of(s.log.entries@, req, stored) is Ok && s.commit_idx < req.commit_idx
            && after.log.idx < req.commit_idx ==> after.commit_idx == after.log.idx,
        outcome_of(s.log.entries@, req, stored) is Ok && req.commit_idx <= s.commit_idx
            ==> after.commit_idx == s.commit_idx,
{
}

/// The answer to a request says where to go on: the follower takes whatever request next follows
/// the entry that the answer names, and is of no earlier term.
pub proof fn law_answer_says_where_to_go_on(
    s: Server,
    taken: bool,
    res: AppendEntriesResponse,
    next: AppendEntriesRequest,
)
    requires
        s.log.wf(),
        s.is_response(taken, res),
    ensures
        res.success <==> taken,
        res.commit_idx == s.commit_idx,
        outcome_of(s.log.entries@, next, true) is Ok <==> next.prev_log_idx == res.idx
            && next.prev_log_term == res.term && next.term >= res.term,
{
}

} // verus!
