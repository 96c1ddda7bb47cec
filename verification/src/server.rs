//! A server of the cluster: what it knows, how it starts, and which of its roles comes next.
use vstd::prelude::*;

use crate::log::Log;
use crate::peer::{
    get_peer_idx, law_one_peer_has_id, law_other_peers_are_all_others, law_peer_index,
    law_peers_but, other_peers, peer_index, peers_but, Peer, PeerView,
};

verus! {

/// The value of a commit index that is not known.
pub const UNKNOWN: u64 = 0;

/// The value of `Server::leader` while the leader is not known.
pub const UNKNOWN_LDR: isize = -1;

/// The role that a server plays.
#[derive(Clone, Copy, Debug, PartialEq, Eq, Structural)]
pub enum State {
    Stopped,
    Follower,
    Candidate,
    Leader,
    Snapshotting,
}

/// A server: its own id and address, its role, its log, and the other servers.
pub struct Server {
    pub ip: String,
    pub tcpport: usize,
    pub id: usize,
    pub state: State,
    /// Holds the place and the term of the last entry.
    pub log: Log,
    /// The highest place known to be committed across servers.
    pub commit_idx: u64,
    /// The highest place applied here.
    pub last_applied_commit: u64,
    /// The other servers.
    pub peers: Vec<Peer>,
    /// The index in `peers` of the leader, or `UNKNOWN_LDR`.
    pub leader: isize,
}

/// A message that has arrived for a server.
pub struct Event {
    pub msg: String,
}

/// Options for the start of a server.
pub struct CfgOptions {
    pub init_state: State,
}

/// What a server refuses.
pub enum SError {
    InvalidState(String),
}

/// What the serving loop does next.
#[derive(Clone, Copy, Debug, PartialEq, Eq, Structural)]
pub enum Phase {
    /// Wait as a follower for a message, or for too long.
    Follow,
    /// Serve clients as the leader.
    Lead,
    /// Look at the state again.
    Again,
    /// Serve no more.
    End,
}

/// The state in which a server starts.
pub open spec fn initial_state(opt: Option<CfgOptions>) -> State {
    match opt {
        Some(cfg) => cfg.init_state,
        None => State::Follower,
    }
}

/// What the serving loop does next in `state`.
pub open spec fn phase_of(state: State) -> Phase {
    match state {
        State::Follower => Phase::Follow,
        State::Candidate => Phase::Again,
        State::Leader => Phase::Lead,
        State::Snapshotting => Phase::Again,
        State::Stopped => Phase::End,
    }
}

/// The state after the serving loop has looked at `state`: no one contests an election, and a
/// snapshot takes no time.
pub open spec fn state_after_look(state: State) -> State {
    match state {
        State::Candidate => State::Leader,
        State::Snapshotting => State::Follower,
        _ => state,
    }
}

/// How long the serving loop pauses after each phase, in milliseconds.
pub const PAUSE_MS: u64 = 1;

/// How long a phase waits, in milliseconds.
pub open spec fn wait_ms(phase: Phase) -> u64 {
    match phase {
        Phase::Follow => 2200,
        Phase::Lead => 100,
        Phase::Again => 0,
        Phase::End => 0,
    }
}

/// How long a phase waits, in milliseconds: a follower for a message, before it counts the leader
/// as lost, and a leader before it begins to serve.
pub fn wait_of(phase: Phase) -> (r: u64)
    ensures
        r == wait_ms(phase),
        r == match phase {
            Phase::Follow => 2200u64,
            Phase::Lead => 100u64,
            Phase::Again => 0u64,
            Phase::End => 0u64,
        },
{
    match phase {
        Phase::Follow => 2200,
        Phase::Lead => 100,
        Phase::Again | Phase::End => 0,
    }
}

impl Server {
    /// The log is well formed, the server is not among its peers, and the leader, where it is
    /// known, is one of them.
    pub open spec fn wf(self) -> bool {
        &&& self.log.wf()
        &&& self.peers@.len() <= isize::MAX
        &&& UNKNOWN_LDR <= self.leader < self.peers@.len()
        &&& forall|i: int| 0 <= i < self.peers@.len() ==> (#[trigger] self.peers@[i]).id != self.id
    }

    /// The server itself, as its peers see it.
    pub open spec fn own_view(self) -> PeerView {
        PeerView { id: self.id as nat, ip: self.ip@, tcpport: self.tcpport as nat }
    }

    /// The server after the serving loop has looked at it.
    pub open spec fn after_look(self) -> Server {
        Server { state: state_after_look(self.state), ..self }
    }

    /// Whether this is the server with the id `id` as it is set up, one of the servers `peers`,
    /// with the log `log`.
    pub open spec fn is_set_up(self, id: usize, peers: Seq<Peer>, log: Log) -> bool {
        &&& self.own_view() == peers[peer_index(peers, id)]@
        &&& self.state == State::Stopped
        &&& self.log == log
        &&& self.commit_idx == UNKNOWN
        &&& self.last_applied_commit == UNKNOWN
        &&& self.peers@ == peers_but(peers, id)
        &&& self.leader == UNKNOWN_LDR
    }

    /// Whether a call of `run` with the options `opt` leads from this server to `after`, and starts
    /// it exactly if `started`.
    pub open spec fn is_run_to(
        self,
        opt: Option<CfgOptions>,
        started: bool,
        after: Server,
    ) -> bool {
        if self.state == State::Stopped {
            started && after == (Server { state: initial_state(opt), ..self })
        } else {
            !started && after == self
        }
    }

    /// Sets up the server with the id `id`, one of the servers `peers`, with the log `log`. One
    /// server and no more has that id.
    pub fn new(id: usize, peers: &Vec<Peer>, log: Log) -> (r: Server)
        requires
            log.wf(),
            peers@.len() <= isize::MAX,
            peer_index(peers@, id) >= 0,
            peers@.len() == peers_but(peers@, id).len() + 1,
        ensures
            r.wf(),
            r.is_set_up(id, peers@, log),
            r.own_view() == peers@[peer_index(peers@, id)]@,
            r.id == id,
            r.state == State::Stopped,
            r.log == log,
            r.commit_idx == UNKNOWN,
            r.last_applied_commit == UNKNOWN,
            r.peers@ == peers_but(peers@, id),
            r.leader == UNKNOWN_LDR,
            forall|i: int|
                0 <= i < peers@.len() && (#[trigger] peers@[i]).id == id ==> r.ip@ == peers@[i].ip@
                    && r.tcpport == peers@[i].tcpport,
            forall|i: int|
                0 <= i < peers@.len() && (#[trigger] peers@[i]).id != id ==> r.peers@.contains(
                    peers@[i],
                ),
    {
        let myidx: usize = get_peer_idx(peers, id) as usize;
        proof {
            law_peer_index(peers@, id);
            law_peers_but(peers@, id);
            law_other_peers_are_all_others(peers@, id);
            assert forall|i: int| 0 <= i < peers@.len() && (#[trigger] peers@[i]).id == id implies i
                == myidx by {
                law_one_peer_has_id(peers@, id, i, myidx as int);
            }
        }
        let me: &Peer = &peers[myidx];
        Server {
            id: me.id,
            ip: me.ip.clone(),
            tcpport: me.tcpport,
            state: State::Stopped,
            log,
            commit_idx: UNKNOWN,
            last_applied_commit: UNKNOWN,
            peers: other_peers(peers, me.id),
            leader: UNKNOWN_LDR,
        }
    }

    /// The address at which the server listens.
    pub fn addr(&self) -> (r: String)
        ensures
            r@ == self.own_view().addr(),
    {
        Peer { id: self.id, ip: self.ip.clone(), tcpport: self.tcpport }.addr()
    }

    /// Starts a server that is stopped: gives it its first state, and returns. To serve is up to
    /// the caller, who calls `serve_step` and, as the phase says, `follower_step` or `leader_step`,
    /// until the phase is `End`.
    pub fn run(&mut self, opt: Option<CfgOptions>) -> (r: Result<(), SError>)
        ensures
            old(self).wf() ==> final(self).wf(),
            old(self).is_run_to(opt, r is Ok, *final(self)),
            match r {
                Ok(()) => {
                    &&& old(self).state == State::Stopped
                    &&& *final(self) == (Server { state: initial_state(opt), ..*old(self) })
                },
                Err(SError::InvalidState(why)) => {
                    &&& old(self).state != State::Stopped
                    &&& *final(self) == *old(self)
                    &&& why@ == "schooner.Server: Server already running"@
                },
            },
    {
        if self.state != State::Stopped {
            return Err(
                SError::InvalidState("schooner.Server: Server already running".to_owned()),
            );
        }
        match opt {
            Some(cfg) => self.state = cfg.init_state,
            None => self.state = State::Follower,
        }
        Ok(())
    }

    /// Goes from one phase to the next.
    pub fn serve_step(&mut self) -> (r: Phase)
        ensures
            old(self).wf() ==> final(self).wf(),
            r == phase_of(old(self).state),
            *final(self) == old(self).after_look(),
    {
        match self.state {
            State::Follower => Phase::Follow,
            State::Candidate => {
                self.candidate_loop();
                Phase::Again
            },
            State::Leader => Phase::Lead,
            State::Snapshotting => {
                self.snapshotting_loop();
                Phase::Again
            },
            State::Stopped => Phase::End,
        }
    }

    /// Takes the lead.
    pub fn candidate_loop(&mut self)
        ensures
            old(self).wf() ==> final(self).wf(),
            *final(self) == (Server { state: State::Leader, ..*old(self) }),
    {
        self.state = State::Leader;
    }

    /// Goes back to following.
    pub fn snapshotting_loop(&mut self)
        ensures
            old(self).wf() ==> final(self).wf(),
            *final(self) == (Server { state: State::Follower, ..*old(self) }),
    {
        self.state = State::Follower;
    }
}

/// What is not known is written as 0, a leader that is not known as -1.
pub proof fn law_unknown()
    ensures
        UNKNOWN == 0,
        UNKNOWN_LDR == -1,
{
}

/// A server starts in the state that the options give, and without options as a follower.
pub proof fn law_initial_state(cfg: CfgOptions)
    ensures
        initial_state(Some(cfg)) == cfg.init_state,
        initial_state(None) == State::Follower,
{
}

/// The serving loop ends exactly when the server is stopped, follows with a follower and leads with
/// a leader. It looks again exactly where its look has changed the state.
pub proof fn law_phases(state: State)
    ensures
        phase_of(state) == Phase::End <==> state == State::Stopped,
        phase_of(state) == Phase::Follow <==> state == State::Follower,
        phase_of(state) == Phase::Lead <==> state == State::Leader,
        phase_of(state) == Phase::Again <==> state_after_look(state) != state,
{
}

/// A candidate leads after the look of the serving loop, and a server that takes a snapshot
/// follows. A look changes no other state, and a second look changes nothing.
pub proof fn law_look(state: State)
    ensures
        state == State::Candidate ==> state_after_look(state) == State::Leader,
        state == State::Snapshotting ==> state_after_look(state) == State::Follower,
        state != State::Candidate && state != State::Snapshotting ==> state_after_look(state)
            == state,
        state_after_look(state_after_look(state)) == state_after_look(state),
        state_after_look(state) == State::Stopped <==> state == State::Stopped,
{
}

/// A look changes nothing of a server but its state.
pub proof fn law_look_keeps_the_rest(s: Server)
    ensures
        s.after_look().state == state_after_look(s.state),
        s.after_look().id == s.id,
        s.after_look().ip == s.ip,
        s.after_look().tcpport == s.tcpport,
        s.after_look().log == s.log,
        s.after_look().commit_idx == s.commit_idx,
        s.after_look().last_applied_commit == s.last_applied_commit,
        s.after_look().peers == s.peers,
        s.after_look().leader == s.leader,
{
}

/// A server is well formed exactly if its log is, it is not among its peers, and its leader is -1
/// or the index of a peer.
pub proof fn law_server_wf(s: Server)
    ensures
        s.wf() <==> s.log.wf() && s.peers@.len() <= isize::MAX && -1 <= s.leader < s.peers@.len()
            && (forall|i: int| 0 <= i < s.peers@.len() ==> (#[trigger] s.peers@[i]).id != s.id),
        s.own_view().id == s.id,
        s.own_view().ip == s.ip@,
        s.own_view().tcpport == s.tcpport,
{
}

/// A follower waits longer for its leader than a new leader waits before it serves, so that no
/// follower counts a leader as lost that has only just begun. No other phase waits.
pub proof fn law_follower_waits_out_a_new_leader(phase: Phase)
    ensures
        phase_of(State::Leader) == Phase::Lead,
        phase_of(State::Follower) == Phase::Follow,
        wait_ms(Phase::Lead) == 100,
        wait_ms(Phase::Follow) == 2200,
        wait_ms(phase) > 0 <==> phase == Phase::Follow || phase == Phase::Lead,
        PAUSE_MS == 1,
{
}

/// A server that is set up has the id that it was given, listens where the first server with that
/// id is listed, holds all others and no more for its peers, is stopped, and knows of no leader and
/// of nothing that is committed.
pub proof fn law_set_up_from_the_list(s: Server, id: usize, peers: Seq<Peer>, log: Log)
    requires
        s.is_set_up(id, peers, log),
        exists|i: int| 0 <= i < peers.len() && (#[trigger] peers[i]).id == id,
    ensures
        s.id == id,
        exists|i: int|
            0 <= i < peers.len() && (#[trigger] peers[i]).id == id && s.ip@ == peers[i].ip@
                && s.tcpport == peers[i].tcpport && forall|j: int|
                0 <= j < i ==> (#[trigger] peers[j]).id != id,
        forall|i: int|
            0 <= i < peers.len() && (#[trigger] peers[i]).id != id ==> s.peers@.contains(peers[i]),
        forall|j: int|
            0 <= j < s.peers@.len() ==> (#[trigger] s.peers@[j]).id != s.id && peers.contains(
                s.peers@[j],
            ),
        s.state == State::Stopped,
        s.log == log,
        s.commit_idx == 0,
        s.last_applied_commit == 0,
        s.leader == -1,
{
    law_peer_index(peers, id);
    law_other_peers_are_all_others(peers, id);
    let k = peer_index(peers, id);
    assert(peers[k].id == id);
    assert(peers[k]@.id == s.own_view().id);
}

/// A server is started once: a call on one that runs is refused and leaves it as it is. A call on
/// one that is stopped changes its state alone, to that of the options, or else to following.
pub proof fn law_started_once(
    s: Server,
    opt: Option<CfgOptions>,
    started: bool,
    after: Server,
    again: Option<CfgOptions>,
    restarted: bool,
    last: Server,
)
    requires
        s.is_run_to(opt, started, after),
        after.is_run_to(again, restarted, last),
    ensures
        started <==> s.state == State::Stopped,
        !started ==> after == s,
        started ==> after == (Server { state: after.state, ..s }),
        started && opt is None ==> after.state == State::Follower,
        started ==> (opt matches Some(cfg) ==> after.state == cfg.init_state),
        after.state != State::Stopped ==> !restarted && last == after,
{
}

} // verus!
