//! The leader over all the messages that it takes: what the handlers of its peers are given.
use vstd::prelude::*;

use crate::append_entries::AppendEntriesRequest;
use crate::leader::{ids_of, LeaderAction};
use crate::message::{client_msg_of, is_client_cmd, is_stop, ClientMsgView};
use crate::peer::Peer;
use crate::server::{Event, Server, State};

verus! {

/// What the handler of a peer is given.
pub enum HandlerMsg {
    /// A request for the peer.
    Request(AppendEntriesRequest),
    /// A text for the handler itself.
    Text(String),
}

/// Whether the server `servers[i]` leads, takes `events[i]`, does `actions[i]` about it, as the
/// contract of `leader_step` says, and becomes `servers[i + 1]`.
pub open spec fn leads_at(
    servers: Seq<Server>,
    events: Seq<Event>,
    actions: Seq<LeaderAction>,
    i: int,
) -> bool {
    &&& servers[i].state == State::Leader
    &&& servers[i + 1] == servers[i].after_leader_message(events[i].msg@)
    &&& servers[i].is_leader_action(events[i].msg@, actions[i])
}

/// Whether the server `servers[0]` leads through `events`: it takes one after the other, does
/// `actions` about them and becomes `servers[1]` and so on. It takes no event once it leads no
/// longer.
pub open spec fn leads(
    servers: Seq<Server>,
    events: Seq<Event>,
    actions: Seq<LeaderAction>,
) -> bool {
    &&& servers.len() == events.len() + 1
    &&& actions.len() == events.len()
    &&& forall|i: int|
        0 <= i < events.len() ==> #[trigger] leads_at(servers, events, actions, i)
}

/// How many times `id` stands in `to`.
pub open spec fn times(to: Seq<usize>, id: usize) -> nat {
    to.filter(|x: usize| x == id).len()
}

/// What one action gives the handlers it is addressed to.
pub open spec fn handed_on(action: LeaderAction) -> Option<HandlerMsg> {
    match action {
        LeaderAction::Stop { msg, to } => Some(HandlerMsg::Text(msg)),
        LeaderAction::Replicate { request, to, reply } => Some(HandlerMsg::Request(request)),
        _ => None,
    }
}

/// To which peers one action is addressed.
pub open spec fn addressees(action: LeaderAction) -> Seq<usize> {
    match action {
        LeaderAction::Stop { msg, to } => to@,
        LeaderAction::Replicate { request, to, reply } => to@,
        _ => seq![],
    }
}

/// What one action gives the handler of the peer with the id `id`: what it hands on, once for each
/// time that it is addressed to that peer.
pub open spec fn handed_to(action: LeaderAction, id: usize) -> Seq<HandlerMsg> {
    match handed_on(action) {
        Some(m) => Seq::new(times(addressees(action), id), |k: int| m),
        None => seq![],
    }
}

/// What `actions`, one after the other, give the handler of the peer with the id `id`.
pub open spec fn given_to(actions: Seq<LeaderAction>, id: usize) -> Seq<HandlerMsg>
    decreases actions.len(),
{
    if actions.len() == 0 {
        seq![]
    } else {
        given_to(actions.drop_last(), id) + handed_to(actions.last(), id)
    }
}

/// The command in a message, if a leader accepts one.
pub open spec fn command_in(msg: Seq<char>) -> Option<ClientMsgView> {
    if is_client_cmd(msg) && !is_stop(msg) {
        client_msg_of(msg)
    } else {
        None
    }
}

/// The commands among `events` that a leader accepts, in their order.
pub open spec fn commands_of(events: Seq<Event>) -> Seq<ClientMsgView>
    decreases events.len(),
{
    if events.len() == 0 {
        seq![]
    } else {
        match command_in(events.last().msg@) {
            Some(m) => commands_of(events.drop_last()).push(m),
            None => commands_of(events.drop_last()),
        }
    }
}

/// Whether `sent` holds, for this leader, one request for each of `commands` and in their order,
/// and then, if `stopped`, the message to stop, once and last.
pub open spec fn are_requests_for(
    leader: Server,
    sent: Seq<HandlerMsg>,
    commands: Seq<ClientMsgView>,
    stopped: bool,
) -> bool {
    &&& sent.len() == commands.len() + if stopped {
        1nat
    } else {
        0nat
    }
    &&& forall|i: int|
        0 <= i < commands.len() ==> (#[trigger] sent[i] matches HandlerMsg::Request(req)
            && leader.is_request_with(req, commands[i]))
    &&& stopped ==> (sent.last() matches HandlerMsg::Text(text) && is_stop(text@))
}

/// Whether one peer and no other of `peers` has the id `id`.
pub open spec fn is_one_of(peers: Seq<Peer>, id: usize) -> bool {
    exists|k: int|
        0 <= k < peers.len() && (#[trigger] peers[k]).id == id && forall|j: int|
            0 <= j < peers.len() && j != k ==> (#[trigger] peers[j]).id != id
}

/// The handler of a peer is given one request for each command of a client that the leader has
/// accepted, in the order of the commands, and then, once the leader is told to stop, the message
/// to stop, once and last. The requests are those of the leader as it was at first.
pub proof fn law_peer_is_given_all_commands(
    servers: Seq<Server>,
    events: Seq<Event>,
    actions: Seq<LeaderAction>,
    id: usize,
)
    requires
        leads(servers, events, actions),
        is_one_of(servers[0].peers@, id),
    ensures
        are_requests_for(
            servers[0],
            given_to(actions, id),
            commands_of(events),
            events.len() > 0 && is_stop(events.last().msg@),
        ),
        events.len() > 0 ==> (servers.last().state == State::Stopped <==> is_stop(
            events.last().msg@,
        )),
        forall|i: int| 0 <= i < events.len() - 1 ==> !is_stop((#[trigger] events[i]).msg@),
    decreases events.len(),
{
    if events.len() > 0 {
        let n = events.len() - 1;
        lemma_leads_prefix(servers, events, actions);
        law_peer_is_given_all_commands(
            servers.drop_last(),
            events.drop_last(),
            actions.drop_last(),
            id,
        );
        assert(servers.drop_last()[0] == servers[0]);
        lemma_leader_stays(servers, events, actions, n);
        let now = servers[n];
        assert(leads_at(servers, events, actions, n));
        assert(servers.last() == servers[n + 1]);
        if n > 0 {
            assert(servers.drop_last().last() == servers[n]);
            assert(events.drop_last().last() == events[n - 1]);
        }
        assert forall|i: int| 0 <= i < n implies !is_stop((#[trigger] events[i]).msg@) by {
            if i < n - 1 {
                assert(events.drop_last()[i] == events[i]);
            }
        }
        lemma_addressed_once(now.peers@, id);
        lemma_given_one_more(servers[0], now, events, actions, id);
    }
}

/// All peers are given the same.
pub proof fn law_all_peers_are_given_the_same(
    servers: Seq<Server>,
    events: Seq<Event>,
    actions: Seq<LeaderAction>,
    id: usize,
    other: usize,
)
    requires
        leads(servers, events, actions),
        is_one_of(servers[0].peers@, id),
        is_one_of(servers[0].peers@, other),
    ensures
        given_to(actions, id) == given_to(actions, other),
    decreases events.len(),
{
    if events.len() > 0 {
        let n = events.len() - 1;
        lemma_leads_prefix(servers, events, actions);
        assert(servers.drop_last()[0] == servers[0]);
        law_all_peers_are_given_the_same(
            servers.drop_last(),
            events.drop_last(),
            actions.drop_last(),
            id,
            other,
        );
        lemma_leader_stays(servers, events, actions, n);
        assert(leads_at(servers, events, actions, n));
        lemma_addressed_once(servers[n].peers@, id);
        lemma_addressed_once(servers[n].peers@, other);
        assert(handed_to(actions.last(), id) =~= handed_to(actions.last(), other));
    }
}

/// A leader that leads through some events leads through all but the last.
proof fn lemma_leads_prefix(servers: Seq<Server>, events: Seq<Event>, actions: Seq<LeaderAction>)
    requires
        leads(servers, events, actions),
        events.len() > 0,
    ensures
        leads(servers.drop_last(), events.drop_last(), actions.drop_last()),
{
    assert forall|i: int| 0 <= i < events.drop_last().len() implies #[trigger] leads_at(
        servers.drop_last(),
        events.drop_last(),
        actions.drop_last(),
        i,
    ) by {
        assert(leads_at(servers, events, actions, i));
    }
}

/// As long as it leads, a leader changes nothing of itself.
proof fn lemma_leader_stays(
    servers: Seq<Server>,
    events: Seq<Event>,
    actions: Seq<LeaderAction>,
    i: int,
)
    requires
        leads(servers, events, actions),
        0 <= i < events.len(),
    ensures
        servers[i] == servers[0],
    decreases i,
{
    if i > 0 {
        lemma_leader_stays(servers, events, actions, i - 1);
        assert(leads_at(servers, events, actions, i - 1));
        assert(leads_at(servers, events, actions, i));
    }
}

/// A message to all peers is addressed once to a peer whose id no other has.
proof fn lemma_addressed_once(peers: Seq<Peer>, id: usize)
    requires
        is_one_of(peers, id),
    ensures
        times(ids_of(peers), id) == 1,
{
    let k = choose|k: int|
        0 <= k < peers.len() && (#[trigger] peers[k]).id == id && forall|j: int|
            0 <= j < peers.len() && j != k ==> (#[trigger] peers[j]).id != id;
    let ids = ids_of(peers);
    assert forall|j: int| 0 <= j < ids.len() && j != k implies #[trigger] ids[j] != id by {
        assert(ids[j] == peers[j].id);
    }
    assert(ids[k] == id);
    lemma_times_one(ids, id, k);
}

/// What stands at one place only stands there once.
proof fn lemma_times_one(to: Seq<usize>, id: usize, k: int)
    requires
        0 <= k < to.len(),
        to[k] == id,
        forall|j: int| 0 <= j < to.len() && j != k ==> #[trigger] to[j] != id,
    ensures
        times(to, id) == 1,
    decreases to.len(),
{
    reveal(Seq::filter);
    let front = to.drop_last();
    assert forall|j: int| 0 <= j < front.len() implies #[trigger] front[j] == to[j] by {}
    if k == to.len() - 1 {
        lemma_times_none(front, id);
    } else {
        lemma_times_one(front, id, k);
        assert(to[to.len() - 1] != id);
    }
}

/// What stands nowhere stands there no time.
proof fn lemma_times_none(to: Seq<usize>, id: usize)
    requires
        forall|j: int| 0 <= j < to.len() ==> #[trigger] to[j] != id,
    ensures
        times(to, id) == 0,
    decreases to.len(),
{
    reveal(Seq::filter);
    if to.len() > 0 {
        let front = to.drop_last();
        assert forall|j: int| 0 <= j < front.len() implies #[trigger] front[j] != id by {
            assert(front[j] == to[j]);
        }
        lemma_times_none(front, id);
        assert(to[to.len() - 1] != id);
    }
}

/// One more event gives the handler one more message, if the leader does something about it for
/// all peers.
proof fn lemma_given_one_more(
    leader: Server,
    now: Server,
    events: Seq<Event>,
    actions: Seq<LeaderAction>,
    id: usize,
)
    requires
        events.len() > 0,
        actions.len() == events.len(),
        now == leader,
        now.is_leader_action(events.last().msg@, actions.last()),
        times(ids_of(now.peers@), id) == 1,
        are_requests_for(
            leader,
            given_to(actions.drop_last(), id),
            commands_of(events.drop_last()),
            false,
        ),
    ensures
        are_requests_for(
            leader,
            given_to(actions, id),
            commands_of(events),
            is_stop(events.last().msg@),
        ),
{
    let before = given_to(actions.drop_last(), id);
    let more = handed_to(actions.last(), id);
    let sent = given_to(actions, id);
    let msg = events.last().msg@;
    assert(sent == before + more);
    assert forall|i: int| 0 <= i < before.len() implies #[trigger] sent[i] == before[i] by {}
    if is_stop(msg) || command_in(msg) is Some {
        assert(more.len() == 1);
        assert(Some(more[0]) == handed_on(actions.last()));
        assert(sent.last() == more[0]);
        assert(sent[before.len() as int] == more[0]);
    } else {
        assert(more.len() == 0);
        assert(sent =~= before);
    }
}

} // verus!
