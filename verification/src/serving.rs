//! The serving loop as a whole: what it makes of the messages that arrive, from its first look at
//! the state to its end.
use vstd::prelude::*;

use crate::append_entries::AppendEntriesRequest;
use crate::follower::{follower_state_after, FollowerEvent};
use crate::leader::leader_state_after;
use crate::message::{is_client_cmd, is_stop};
use crate::peer::law_peer_index;
use crate::server::{state_after_look, Event, Server, State, UNKNOWN_LDR};

verus! {

/// A server that serves, the messages that have arrived and wait, and those that it has taken, in
/// the order in which they came.
pub struct Serving {
    pub server: Server,
    pub queue: Seq<Event>,
    pub taken: Seq<Event>,
}

/// One move of the serving loop, or of the world around it.
pub enum Move {
    /// A message arrives. It waits, whatever the server does.
    Arrive(Event),
    /// The serving loop looks at the state.
    Look,
    /// A follower has waited for too long.
    Timeout,
    /// A follower takes the request to stop, or the command of a client, that waits longest; a
    /// leader takes any message that waits longest.
    Take,
    /// A follower takes any other message, which is the request `req` of a leader. `stored` says
    /// whether the store of the log has done what was asked of it.
    Answer { req: AppendEntriesRequest, stored: bool },
}

/// Whether a message is the one that stops a server.
pub open spec fn stops(e: Event) -> bool {
    is_stop(e.msg@)
}

/// Whether any of `events` stops a server.
pub open spec fn any_stops(events: Seq<Event>) -> bool {
    exists|i: int| 0 <= i < events.len() && stops(#[trigger] events[i])
}

/// Whether the first `n` of `events` have no message among them that stops a server.
pub open spec fn none_stops_before(events: Seq<Event>, n: int) -> bool {
    forall|i: int| 0 <= i < n ==> !stops(#[trigger] events[i])
}

impl Serving {
    /// All messages that have come, in their order.
    pub open spec fn arrived(self) -> Seq<Event> {
        self.taken + self.queue
    }

    /// Whether the move `m` leads from here to `after`. What it does to the server is what the
    /// contracts of `serve_step`, `follower_step`, `handle_append_request` and `leader_step` say.
    pub open spec fn moves(self, m: Move, after: Serving) -> bool {
        match m {
            Move::Arrive(e) => {
                &&& after.server == self.server
                &&& after.queue == self.queue.push(e)
                &&& after.taken == self.taken
            },
            Move::Look => {
                &&& after.server == self.server.after_look()
                &&& after.queue == self.queue
                &&& after.taken == self.taken
            },
            Move::Timeout => {
                &&& self.server.state == State::Follower
                &&& after.server == self.server.after_follower_event(FollowerEvent::Timeout)
                &&& after.queue == self.queue
                &&& after.taken == self.taken
            },
            Move::Take => {
                let e = self.queue.first();
                &&& self.takes_first(after)
                &&& match self.server.state {
                    State::Follower => {
                        &&& stops(e) || is_client_cmd(e.msg@)
                        &&& after.server == self.server.after_follower_event(
                            FollowerEvent::Message(e),
                        )
                    },
                    State::Leader => after.server == self.server.after_leader_message(e.msg@),
                    _ => false,
                }
            },
            Move::Answer { req, stored } => {
                let e = self.queue.first();
                &&& self.takes_first(after)
                &&& self.server.state == State::Follower
                &&& !stops(e) && !is_client_cmd(e.msg@)
                &&& self.server.is_after_request(req, stored, after.server)
            },
        }
    }

    /// Whether the message that waited longest is taken from the queue.
    pub open spec fn takes_first(self, after: Serving) -> bool {
        &&& self.queue.len() > 0
        &&& after.queue == self.queue.drop_first()
        &&& after.taken == self.taken.push(self.queue.first())
    }
}

/// Whether `moves[i]` leads from `run[i]` to `run[i + 1]`.
pub open spec fn moves_at(run: Seq<Serving>, moves: Seq<Move>, i: int) -> bool {
    run[i].moves(moves[i], run[i + 1])
}

/// Whether `run` is a run of the serving loop: each of the `moves` leads on to the next.
pub open spec fn is_run(run: Seq<Serving>, moves: Seq<Move>) -> bool {
    &&& run.len() == moves.len() + 1
    &&& forall|i: int| 0 <= i < moves.len() ==> #[trigger] moves_at(run, moves, i)
}

/// Throughout a run the server stays well formed, and with it its leader pointer stays in range.
/// Its id, its address, its peers and `last_applied_commit` never change.
pub proof fn law_run_keeps_server(run: Seq<Serving>, moves: Seq<Move>, i: int)
    requires
        is_run(run, moves),
        run[0].server.wf(),
        0 <= i < run.len(),
    ensures
        ({
            let first = run[0].server;
            let s = run[i].server;
            &&& s.wf()
            &&& UNKNOWN_LDR <= s.leader < s.peers@.len()
            &&& s.id == first.id
            &&& s.ip == first.ip
            &&& s.tcpport == first.tcpport
            &&& s.peers == first.peers
            &&& s.last_applied_commit == first.last_applied_commit
        }),
    decreases i,
{
    if i > 0 {
        law_run_keeps_server(run, moves, i - 1);
        let before = run[i - 1];
        assert(moves_at(run, moves, i - 1));
        if let Move::Answer { req, stored } = moves[i - 1] {
            law_peer_index(before.server.peers@, req.leader_id);
        }
    }
}

/// No message is lost: what has come stays in its order, taken or waiting, and what comes later
/// stands behind it. A message once taken stays taken.
pub proof fn law_run_loses_no_message(run: Seq<Serving>, moves: Seq<Move>, i: int)
    requires
        is_run(run, moves),
        0 <= i < run.len(),
    ensures
        run[0].arrived().is_prefix_of(run[i].arrived()),
        run[0].taken.is_prefix_of(run[i].taken),
    decreases i,
{
    if i == 0 {
        assert(run[0].arrived() =~= run[0].arrived().take(run[0].arrived().len() as int));
        assert(run[0].taken =~= run[0].taken.take(run[0].taken.len() as int));
    } else {
        law_run_loses_no_message(run, moves, i - 1);
        let before = run[i - 1];
        let after = run[i];
        assert(moves_at(run, moves, i - 1));
        assert(before.arrived().is_prefix_of(after.arrived())) by {
            let n = before.arrived().len() as int;
            match moves[i - 1] {
                Move::Arrive(e) => {
                    assert(after.arrived() =~= before.arrived().push(e));
                },
                Move::Take => {
                    assert(after.arrived() =~= before.arrived());
                },
                Move::Answer { req, stored } => {
                    assert(after.arrived() =~= before.arrived());
                },
                _ => {},
            }
            assert(before.arrived() =~= after.arrived().take(n));
        }
        assert(before.taken =~= after.taken.take(before.taken.len() as int));
        lemma_prefix_chain(run[0].arrived(), before.arrived(), after.arrived());
        lemma_prefix_chain(run[0].taken, before.taken, after.taken);
    }
}

/// A prefix of a prefix is a prefix.
proof fn lemma_prefix_chain(a: Seq<Event>, b: Seq<Event>, c: Seq<Event>)
    requires
        a.is_prefix_of(b),
        b.is_prefix_of(c),
    ensures
        a.is_prefix_of(c),
{
    assert forall|k: int| 0 <= k < a.len() implies a[k] == c[k] by {
        assert(a[k] == b.subrange(0, a.len() as int)[k]);
        assert(b[k] == c.subrange(0, b.len() as int)[k]);
    }
    assert(a =~= c.subrange(0, a.len() as int));
}

/// A server that runs serves until it takes the message that stops it, and no longer: it is
/// stopped exactly if it has taken such a message, that message is then the last that it has
/// taken, and the only such.
pub proof fn law_run_ends_with_stop(run: Seq<Serving>, moves: Seq<Move>, i: int)
    requires
        is_run(run, moves),
        run[0].server.state != State::Stopped,
        !any_stops(run[0].taken),
        0 <= i < run.len(),
    ensures
        ({
            let taken = run[i].taken;
            &&& run[i].server.state == State::Stopped <==> any_stops(taken)
            &&& run[i].server.state == State::Stopped ==> {
                &&& taken.len() > 0
                &&& stops(taken.last())
                &&& none_stops_before(taken, taken.len() - 1)
            }
        }),
    decreases i,
{
    if i > 0 {
        law_run_ends_with_stop(run, moves, i - 1);
        let before = run[i - 1];
        let after = run[i];
        assert(moves_at(run, moves, i - 1));
        if after.taken != before.taken {
            let e = before.queue.first();
            assert(before.takes_first(after));
            assert(before.server.state != State::Stopped);
            assert(after.taken.last() == e);
            assert forall|k: int| 0 <= k < after.taken.len() - 1 implies !stops(
                #[trigger] after.taken[k],
            ) by {
                assert(after.taken[k] == before.taken[k]);
            }
            if stops(e) {
                assert(stops(after.taken[after.taken.len() - 1]));
            }
        }
    }
}

/// A server that is stopped takes nothing and stays as it is, whatever arrives.
pub proof fn law_stopped_server_takes_nothing(run: Seq<Serving>, moves: Seq<Move>, i: int)
    requires
        is_run(run, moves),
        run[0].server.state == State::Stopped,
        0 <= i < run.len(),
    ensures
        run[i].server == run[0].server,
        run[i].taken == run[0].taken,
    decreases i,
{
    if i > 0 {
        law_stopped_server_takes_nothing(run, moves, i - 1);
        assert(moves_at(run, moves, i - 1));
    }
}

/// A message that stops a server stops it in whatever running state it arrives: it is not lost
/// while it waits, and once it and the messages before it have been taken the server is stopped.
pub proof fn law_arrived_stop_stops(run: Seq<Serving>, moves: Seq<Move>, k: int, i: int)
    requires
        is_run(run, moves),
        run[0].server.state != State::Stopped,
        !any_stops(run[0].taken),
        0 <= k < run[0].queue.len(),
        stops(run[0].queue[k]),
        0 <= i < run.len(),
    ensures
        run[i].server.state == State::Stopped || any_stops(run[i].queue),
        run[i].taken.len() > run[0].taken.len() + k ==> run[i].server.state == State::Stopped,
{
    law_run_loses_no_message(run, moves, i);
    law_run_ends_with_stop(run, moves, i);
    let e = run[0].queue[k];
    let now = run[i];
    let place = run[0].taken.len() + k;
    assert(run[0].arrived()[place] == e);
    assert(now.arrived().subrange(0, run[0].arrived().len() as int)[place] == e);
    assert(now.arrived()[place] == e);
    if place < now.taken.len() {
        assert(now.taken[place] == e);
        assert(any_stops(now.taken));
    } else {
        assert(now.queue[place - now.taken.len()] == e);
        assert(any_stops(now.queue));
    }
}

/// The state after the serving loop has looked, taken the message that waits longest, looked and so
/// on, until it is stopped or none waits.
pub open spec fn state_after_serving(state: State, queue: Seq<Event>) -> State
    decreases queue.len(),
{
    let looked = state_after_look(state);
    if queue.len() == 0 {
        looked
    } else {
        match looked {
            State::Follower => state_after_serving(
                follower_state_after(looked, FollowerEvent::Message(queue.first())),
                queue.drop_first(),
            ),
            State::Leader => state_after_serving(
                leader_state_after(looked, queue.first().msg@),
                queue.drop_first(),
            ),
            _ => looked,
        }
    }
}

/// The serving loop comes to every message that waits: from any state in which a server runs it
/// ends stopped if a message that stops it waits, and only then.
pub proof fn law_serving_comes_to_stop(state: State, queue: Seq<Event>)
    requires
        state != State::Stopped,
    ensures
        state_after_serving(state, queue) == State::Stopped <==> any_stops(queue),
    decreases queue.len(),
{
    if queue.len() > 0 {
        let e = queue.first();
        let rest = queue.drop_first();
        if stops(e) {
            assert(stops(queue[0]));
            assert(state_after_serving(State::Stopped, rest) == State::Stopped);
        } else {
            law_serving_comes_to_stop(state_after_look(state), rest);
            if any_stops(rest) {
                let i = choose|i: int| 0 <= i < rest.len() && stops(#[trigger] rest[i]);
                assert(stops(queue[i + 1]));
            }
            if any_stops(queue) {
                let i = choose|i: int| 0 <= i < queue.len() && stops(#[trigger] queue[i]);
                assert(stops(rest[i - 1]));
            }
        }
    }
}

/// A follower that has waited for too long takes the lead when the serving loop looks next,
/// whatever arrives in between.
pub proof fn law_lost_leader_is_replaced(run: Seq<Serving>, moves: Seq<Move>)
    requires
        is_run(run, moves),
        moves.len() >= 2,
        moves[0] is Timeout,
        moves.last() is Look,
        forall|i: int| 0 < i < moves.len() - 1 ==> !(#[trigger] moves[i] is Look),
    ensures
        run.last().server.state == State::Leader,
{
    let n = moves.len() - 1;
    lemma_candidate_waits(run, moves, n);
    assert(moves_at(run, moves, n));
}

/// A candidate stays one until the serving loop looks.
proof fn lemma_candidate_waits(run: Seq<Serving>, moves: Seq<Move>, i: int)
    requires
        is_run(run, moves),
        1 <= i < moves.len(),
        moves[0] is Timeout,
        forall|k: int| 0 < k < i ==> !(#[trigger] moves[k] is Look),
    ensures
        run[i].server.state == State::Candidate,
    decreases i,
{
    assert(moves_at(run, moves, i - 1));
    if i > 1 {
        lemma_candidate_waits(run, moves, i - 1);
        assert(!(moves[i - 1] is Look));
    }
}

} // verus!
