//! A server as the leader: it turns the commands of clients into requests to all peers.
use vstd::prelude::*;

use crate::append_entries::AppendEntriesRequest;
use crate::decimal::decimal;
use crate::log_entry::LogEntry;
use crate::message::{
    client_msg_of, create_client_msg, is_client_cmd, is_cmd_from_client, is_stop, is_stop_msg,
    law_client_msg_is_split_once, law_stop_is_no_client_cmd, law_stop_text, ClientMsg,
    ClientMsgView, STOP_MSG,
};
use crate::peer::{law_addr_has_its_form, Peer, PeerView};
use crate::server::{Event, Server, State};
use crate::text::trim_of;

verus! {

/// What is to be done about a message.
pub enum LeaderAction {
    /// Send `msg` to the handlers of the peers `to`, and lead no longer.
    Stop { msg: String, to: Vec<usize> },
    /// Send `request` to the handlers of the peers `to`, and `reply` to the client.
    Replicate { request: AppendEntriesRequest, to: Vec<usize>, reply: String },
    /// Send this to the client.
    Reply(String),
    /// Do nothing.
    Ignore,
}

/// What the handler of a peer does about a message.
pub enum HandlerAction {
    /// Stop.
    Stop,
    /// Send the message to this address.
    Send { addr: String },
}

/// The ids of the peers, in their order.
pub open spec fn ids_of(peers: Seq<Peer>) -> Seq<usize> {
    peers.map_values(|p: Peer| p.id)
}

/// The state of the leader after a message.
pub open spec fn leader_state_after(state: State, msg: Seq<char>) -> State {
    if is_stop(msg) {
        State::Stopped
    } else {
        state
    }
}

impl Server {
    /// The server after a message while leading.
    pub open spec fn after_leader_message(self, msg: Seq<char>) -> Server {
        Server { state: leader_state_after(self.state, msg), ..self }
    }

    /// Whether `action` is what this leader does about the message `msg`.
    pub open spec fn is_leader_action(self, msg: Seq<char>, action: LeaderAction) -> bool {
        if is_stop(msg) {
            action matches LeaderAction::Stop { msg: text, to } && {
                &&& text@ == "STOP"@
                &&& to@ == ids_of(self.peers@)
            }
        } else if !is_client_cmd(msg) {
            action is Ignore
        } else {
            match client_msg_of(msg) {
                Some(m) => {
                    action matches LeaderAction::Replicate { request, to, reply } && {
                        &&& self.is_request_with(request, m)
                        &&& to@ == ids_of(self.peers@)
                        &&& reply@ == "200 OK"@
                    }
                },
                None => {
                    action matches LeaderAction::Reply(reply) && reply@ == "400 Bad Request"@
                },
            }
        }
    }

    /// The entry that the leader makes of a client's command.
    pub open spec fn entry_of(self, m: ClientMsg) -> LogEntry {
        LogEntry { idx: self.log.idx, term: self.log.term, data: m.cmd, uuid: m.uuid }
    }

    /// Whether `req` is a request of this leader, for followers whose logs end where its own does.
    pub open spec fn is_request(self, req: AppendEntriesRequest) -> bool {
        &&& req.term == self.log.term
        &&& req.prev_log_idx == self.log.idx
        &&& req.prev_log_term == self.log.term
        &&& req.commit_idx == self.commit_idx
        &&& req.leader_id == self.id
    }

    /// Whether `req` is the request of this leader that carries the command `m` and no other.
    pub open spec fn is_request_with(self, req: AppendEntriesRequest, m: ClientMsgView) -> bool {
        &&& self.is_request(req)
        &&& req.entries@.len() == 1
        &&& req.entries@[0].idx == self.log.idx
        &&& req.entries@[0].term == self.log.term
        &&& req.entries@[0].data@ == m.cmd
        &&& req.entries@[0].uuid@ == m.uuid
    }

    /// Makes the request that carries the commands `entry_msgs` to the followers. Without commands
    /// it is a heartbeat.
    pub fn make_aereq(&self, entry_msgs: Vec<ClientMsg>) -> (r: AppendEntriesRequest)
        ensures
            self.is_request(r),
            r.entries@.len() == entry_msgs@.len(),
            forall|i: int|
                0 <= i < entry_msgs@.len() ==> {
                    let e = #[trigger] r.entries@[i];
                    &&& e.data == entry_msgs@[i].cmd
                    &&& e.uuid == entry_msgs@[i].uuid
                    &&& e.idx == self.log.idx
                    &&& e.term == self.log.term
                },
            r.entries@ == entry_msgs@.map_values(|m: ClientMsg| self.entry_of(m)),
    {
        let mut entries: Vec<LogEntry> = Vec::with_capacity(entry_msgs.len());
        let mut i: usize = 0;
        while i < entry_msgs.len()
            invariant
                i <= entry_msgs@.len(),
                entries@ == entry_msgs@.take(i as int).map_values(
                    |m: ClientMsg| self.entry_of(m),
                ),
            decreases entry_msgs.len() - i,
        {
            let cmsg: &ClientMsg = &entry_msgs[i];
            entries.push(
                LogEntry {
                    idx: self.log.idx,
                    term: self.log.term,
                    data: cmsg.cmd.clone(),
                    uuid: cmsg.uuid.clone(),
                },
            );
            i = i + 1;
            assert(entries@ =~= entry_msgs@.take(i as int).map_values(
                |m: ClientMsg| self.entry_of(m),
            ));
        }
        assert(entry_msgs@.take(entry_msgs@.len() as int) =~= entry_msgs@);
        AppendEntriesRequest {
            term: self.log.term,
            prev_log_idx: self.log.idx,
            prev_log_term: self.log.term,
            commit_idx: self.commit_idx,
            leader_id: self.id,
            entries,
        }
    }

    /// The ids of the peers, in their order.
    pub fn peer_ids(&self) -> (r: Vec<usize>)
        ensures
            r@ == ids_of(self.peers@),
    {
        let mut r: Vec<usize> = Vec::with_capacity(self.peers.len());
        let mut i: usize = 0;
        while i < self.peers.len()
            invariant
                i <= self.peers@.len(),
                r@ == ids_of(self.peers@.take(i as int)),
            decreases self.peers.len() - i,
        {
            r.push(self.peers[i].id);
            i = i + 1;
            assert(r@ =~= ids_of(self.peers@.take(i as int)));
        }
        assert(self.peers@.take(self.peers@.len() as int) =~= self.peers@);
        r
    }

    /// Decides about a message while leading.
    pub fn leader_step(&mut self, ev: &Event) -> (r: LeaderAction)
        ensures
            old(self).wf() ==> final(self).wf(),
            *final(self) == old(self).after_leader_message(ev.msg@),
            old(self).is_leader_action(ev.msg@, r),
    {
        if is_stop_msg(ev.msg.as_str()) {
            self.state = State::Stopped;
            LeaderAction::Stop { msg: STOP_MSG.to_owned(), to: self.peer_ids() }
        } else if is_cmd_from_client(ev.msg.as_str()) {
            match create_client_msg(ev.msg.as_str()) {
                Some(client_msg) => {
                    let mut msgs: Vec<ClientMsg> = Vec::new();
                    msgs.push(client_msg);
                    let request: AppendEntriesRequest = self.make_aereq(msgs);
                    LeaderAction::Replicate {
                        request,
                        to: self.peer_ids(),
                        reply: "200 OK".to_owned(),
                    }
                },
                None => LeaderAction::Reply("400 Bad Request".to_owned()),
            }
        } else {
            LeaderAction::Ignore
        }
    }
}

/// Whether `action` is what the handler of `peer` does about the message `msg`.
pub open spec fn is_handler_action(peer: PeerView, msg: Seq<char>, action: HandlerAction) -> bool {
    if is_stop(msg) {
        action is Stop
    } else {
        action matches HandlerAction::Send { addr } && addr@ == peer.addr()
    }
}

/// Decides, in the handler of `peer`, about a message from the leader.
pub fn peer_handler_step(peer: &Peer, msg: &str) -> (r: HandlerAction)
    ensures
        is_handler_action(peer@, msg@, r),
        if is_stop(msg@) {
            r is Stop
        } else {
            r matches HandlerAction::Send { addr } && addr@ == peer@.addr()
        },
{
    if is_stop_msg(msg) {
        HandlerAction::Stop
    } else {
        HandlerAction::Send { addr: peer.addr() }
    }
}

/// The ids of the peers are theirs, one for each and in their order.
pub proof fn law_ids_of(peers: Seq<Peer>)
    ensures
        ids_of(peers).len() == peers.len(),
        forall|i: int| 0 <= i < peers.len() ==> #[trigger] ids_of(peers)[i] == peers[i].id,
{
}

/// The leader stops for the letters S, T, O and P and for nothing else, and otherwise stays as it
/// is.
pub proof fn law_leader_stops_for_stop_only(s: Server, msg: Seq<char>)
    ensures
        msg == seq!['S', 'T', 'O', 'P'] ==> s.after_leader_message(msg).state == State::Stopped,
        msg != seq!['S', 'T', 'O', 'P'] ==> s.after_leader_message(msg) == s,
        s.after_leader_message(msg) == (Server {
            state: s.after_leader_message(msg).state,
            ..s
        }),
{
    law_stop_text(msg);
}

/// A request names the leader that makes it, its last entry twice, as the one to follow and by its
/// term, and what it knows to be committed.
pub proof fn law_request_is_the_leaders(s: Server, req: AppendEntriesRequest)
    ensures
        s.is_request(req) <==> req.leader_id == s.id && req.term == s.log.term && req.prev_log_idx
            == s.log.idx && req.prev_log_term == s.log.term && req.commit_idx == s.commit_idx,
{
}

/// The request for one command holds one entry, and in it the command and its name.
pub proof fn law_request_holds_its_command(
    s: Server,
    req: AppendEntriesRequest,
    m: ClientMsgView,
    c: ClientMsg,
)
    ensures
        s.is_request_with(req, m) <==> s.is_request(req) && req.entries@.len() == 1
            && req.entries@[0].data@ == m.cmd && req.entries@[0].uuid@ == m.uuid
            && req.entries@[0].idx == s.log.idx && req.entries@[0].term == s.log.term,
        s.entry_of(c).data == c.cmd,
        s.entry_of(c).uuid == c.uuid,
        s.entry_of(c).idx == s.log.idx,
        s.entry_of(c).term == s.log.term,
{
}

/// A leader that is told to stop passes that on to each of its peers.
pub proof fn law_stop_goes_to_every_peer(s: Server, msg: Seq<char>, action: LeaderAction)
    requires
        msg == seq!['S', 'T', 'O', 'P'],
        s.is_leader_action(msg, action),
    ensures
        action matches LeaderAction::Stop { msg: text, to } && {
            &&& text@ == msg
            &&& to@.len() == s.peers@.len()
            &&& forall|i: int| 0 <= i < s.peers@.len() ==> #[trigger] to@[i] == s.peers@[i].id
        },
{
    law_stop_text(msg);
}

/// A client command that is not to stop, and has a newline in it, goes to each of the peers, as an
/// entry of one request, and the client is told `200 OK`.
pub proof fn law_command_goes_to_every_peer(
    s: Server,
    first: Seq<char>,
    rest: Seq<char>,
    action: LeaderAction,
)
    requires
        forall|i: int| 0 <= i < first.len() ==> #[trigger] first[i] != '\n',
        is_client_cmd(first + seq!['\n'] + rest),
        s.is_leader_action(first + seq!['\n'] + rest, action),
    ensures
        action matches LeaderAction::Replicate { request, to, reply } && {
            &&& reply@ == "200 OK"@
            &&& to@.len() == s.peers@.len()
            &&& forall|i: int| 0 <= i < s.peers@.len() ==> #[trigger] to@[i] == s.peers@[i].id
            &&& request.leader_id == s.id
            &&& request.entries@.len() == 1
            &&& request.entries@[0].data@ == trim_of(rest)
            &&& request.entries@[0].uuid@ == trim_of(first)
        },
{
    let msg = first + seq!['\n'] + rest;
    law_client_msg_is_split_once(first, rest);
    if is_stop(msg) {
        law_stop_is_no_client_cmd(msg);
    }
}

/// A client command of one line is a bad request.
pub proof fn law_command_of_one_line_is_bad(s: Server, msg: Seq<char>, action: LeaderAction)
    requires
        forall|i: int| 0 <= i < msg.len() ==> #[trigger] msg[i] != '\n',
        is_client_cmd(msg),
        s.is_leader_action(msg, action),
    ensures
        action matches LeaderAction::Reply(reply) && reply@ == "400 Bad Request"@,
{
    law_client_msg_is_split_once(msg, Seq::empty());
    if is_stop(msg) {
        law_stop_is_no_client_cmd(msg);
    }
}

/// About any other message a leader does nothing.
pub proof fn law_leader_ignores_the_rest(s: Server, msg: Seq<char>, action: LeaderAction)
    requires
        msg != seq!['S', 'T', 'O', 'P'],
        !is_client_cmd(msg),
        s.is_leader_action(msg, action),
    ensures
        action is Ignore,
{
    law_stop_text(msg);
}

/// The handler of a peer sends all messages to the ip and the port of that peer, but for the
/// letters S, T, O and P, which stop the handler itself.
pub proof fn law_handler_sends_to_its_peer(
    peer: PeerView,
    msg: Seq<char>,
    action: HandlerAction,
)
    requires
        is_handler_action(peer, msg, action),
    ensures
        action is Stop <==> msg == seq!['S', 'T', 'O', 'P'],
        action matches HandlerAction::Send { addr } ==> addr@ == peer.ip + seq![':'] + decimal(
            peer.tcpport,
        ),
{
    law_stop_text(msg);
    law_addr_has_its_form(peer);
}

} // verus!
