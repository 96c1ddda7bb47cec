//! Servers of a cluster, from their configuration to their end.

use schooner::append_entries::{AppendEntriesRequest, AppendEntriesResponse};
use schooner::follower::{FollowerAction, FollowerEvent};
use schooner::leader::{peer_handler_step, HandlerAction, LeaderAction};
use schooner::listener::{listener_step, ListenerAction};
use schooner::log::Log;
use schooner::log_entry::LogEntry;
use schooner::message::{frame_msg, read_network_msg, ClientMsg};
use schooner::peer::{parse_config, Peer};
use schooner::server::{
    wait_of, CfgOptions, Event, Phase, SError, Server, State, PAUSE_MS, UNKNOWN, UNKNOWN_LDR,
};
use uuid::Uuid;

const S1TEST_PORT: usize = 23158;
const LEADER_ID: usize = 1;

fn config(num_svrs: usize) -> Vec<Peer> {
    let mut lines: Vec<String> = Vec::new();
    for i in 0..num_svrs {
        lines.push(format!("peer.{}.addr = 127.0.0.1:{}", i + 1, S1TEST_PORT + i));
    }
    match parse_config(&lines) {
        Ok(peers) => peers,
        Err(k) => panic!("line {}", k),
    }
}

fn create_server(id: usize, num_svrs: usize) -> Server {
    Server::new(id, &config(num_svrs), Log::new(Vec::new()))
}

fn start_server(id: usize, num_svrs: usize, opt: Option<CfgOptions>) -> Server {
    let mut server = create_server(id, num_svrs);
    assert!(server.run(opt).is_ok());
    server
}

/// What the serving loop gets of a message that a client sends.
fn deliver(msg: &str) -> Event {
    let sent = frame_msg(msg);
    let end = sent.find('\n').unwrap() + 1;
    match listener_step(read_network_msg(&sent[..end], &sent.as_bytes()[end..])) {
        ListenerAction::ForwardAndReply(ev) => {
            assert_ne!(msg, "STOP");
            ev
        }
        ListenerAction::ForwardAndStop(ev) => {
            assert_eq!(msg, "STOP");
            ev
        }
        ListenerAction::Report(e) => panic!("{}", e.desc()),
    }
}

fn client_cmd(cmd: &str) -> String {
    format!("Uuid: {}\n{}", Uuid::new_v4().to_string(), cmd)
}

fn entry(idx: u64, term: u64) -> LogEntry {
    LogEntry {
        idx,
        term,
        data: format!("inventory.widget.count = {}", 100 - idx),
        uuid: format!("uuid-{}", Uuid::new_v4().to_string()),
    }
}

fn aereq(
    idx_vec: Vec<u64>,
    term_vec: Vec<u64>,
    prev_log_idx: u64,
    prev_log_term: u64,
    commit_idx: u64,
) -> AppendEntriesRequest {
    let mut entries: Vec<LogEntry> = Vec::new();
    for (idx, term) in idx_vec.iter().zip(term_vec.iter()) {
        entries.push(entry(*idx, *term));
    }
    AppendEntriesRequest {
        term: term_vec[term_vec.len() - 1],
        prev_log_idx,
        prev_log_term,
        commit_idx,
        leader_id: LEADER_ID,
        entries,
    }
}

fn aereq1() -> AppendEntriesRequest {
    AppendEntriesRequest {
        term: 1,
        prev_log_idx: 0,
        prev_log_term: 0,
        commit_idx: 0,
        leader_id: LEADER_ID,
        entries: vec![LogEntry {
            idx: 1,
            term: 1,
            data: "inventory.widget.count = 100".to_string(),
            uuid: "uuid-999".to_string(),
        }],
    }
}

fn answer(success: bool, term: u64, idx: u64, commit_idx: u64) -> AppendEntriesResponse {
    AppendEntriesResponse { success, term, idx, commit_idx }
}

fn stop(server: &mut Server) {
    let ev = deliver("STOP");
    match server.state {
        State::Leader => assert!(matches!(server.leader_step(&ev), LeaderAction::Stop { .. })),
        _ => assert!(matches!(
            server.follower_step(FollowerEvent::Message(ev)),
            FollowerAction::Leave
        )),
    }
    assert_eq!(State::Stopped, server.state);
    assert_eq!(Phase::End, server.serve_step());
}

#[test]
fn test_leader_with_followers() {
    let mut leader = start_server(1, 3, Some(CfgOptions { init_state: State::Leader }));
    let mut follower = start_server(2, 3, None);
    assert_eq!(Phase::Lead, leader.serve_step());
    assert_eq!(Phase::Follow, follower.serve_step());

    let msg = client_cmd("PUT x=1");
    let first_line = msg.split('\n').next().unwrap().to_string();
    let result1 = match leader.leader_step(&deliver(&msg)) {
        LeaderAction::Replicate { request, to, reply } => {
            assert_eq!(vec![2, 3], to);
            assert_eq!(1, request.entries.len());
            assert_eq!("PUT x=1", request.entries[0].data);
            assert_eq!(first_line, request.entries[0].uuid);
            assert!(follower.handle_append_request(&request, true).success);
            assert_eq!(1, follower.log.entries.len());
            assert_eq!(0, follower.leader);
            assert_eq!(1, follower.peers[0].id);
            Some(reply)
        }
        _ => None,
    };

    stop(&mut follower);
    stop(&mut leader);

    assert!(result1.is_some());
    assert_eq!("200 OK", result1.unwrap());
}

#[test]
fn test_leader_simple() {
    let mut leader = start_server(1, 1, Some(CfgOptions { init_state: State::Leader }));
    for cmd in ["PUT x=1", "PUT x=2"] {
        match leader.leader_step(&deliver(&client_cmd(cmd))) {
            LeaderAction::Replicate { request, to, reply } => {
                assert_eq!("200 OK", reply);
                assert_eq!(cmd, request.entries[0].data);
                assert!(to.is_empty());
            }
            _ => panic!("not replicated"),
        }
    }
    stop(&mut leader);
}

#[test]
fn test_follower_to_send_client_redirect_when_leader_is_unknown() {
    let mut server = start_server(1, 3, None);
    for _ in 0..50 {
        let ev = deliver(&client_cmd("PUT x=1"));
        match server.follower_step(FollowerEvent::Message(ev)) {
            FollowerAction::Reply(resp) => {
                assert!(resp.contains("Redirect: 127.0.0.1:231"));
                assert!(!resp.contains("Redirect: 127.0.0.1:23158"));
            }
            _ => panic!("no reply"),
        }
    }
    assert_eq!(State::Follower, server.state);
    stop(&mut server);
}

#[test]
fn unknown_leader_redirects_at_random() {
    let server = start_server(1, 5, None);
    let mut seen: Vec<String> = Vec::new();
    for _ in 0..200 {
        let resp = server.redirect_msg();
        if !seen.contains(&resp) {
            seen.push(resp);
        }
    }
    assert!(seen.len() > 1);
    assert!(seen.len() <= 4);
    for resp in seen {
        assert_ne!(resp, "Length: 26\nRedirect: 127.0.0.1:23158\n");
    }
}

#[test]
fn redirect_has_exact_form() {
    let server = start_server(2, 3, None);
    assert_eq!("Length: 26\nRedirect: 127.0.0.1:23158\n", server.redirect_msg_to(0));
    assert_eq!("Length: 26\nRedirect: 127.0.0.1:23160\n", server.redirect_msg_to(1));
}

#[test]
fn redirect_is_read_back() {
    let server = start_server(2, 3, None);
    let sent = server.redirect_msg_to(0);
    let end = sent.find('\n').unwrap() + 1;
    let read = read_network_msg(&sent[..end], &sent.as_bytes()[end..]).ok();
    assert_eq!(Some("Redirect: 127.0.0.1:23158\n".to_string()), read);
}

#[test]
fn test_follower_to_send_client_redirect_when_leader_is_known() {
    let mut server = start_server(2, 3, None);
    assert_eq!(UNKNOWN_LDR, server.leader);
    assert!(server.handle_append_request(&aereq1(), true).success);
    let ev = deliver(&client_cmd("PUT x=1"));
    match server.follower_step(FollowerEvent::Message(ev)) {
        FollowerAction::Reply(resp) => {
            assert!(resp.contains(&format!("Redirect: 127.0.0.1:{}", S1TEST_PORT)));
        }
        _ => panic!("no reply"),
    }
    stop(&mut server);
}

#[test]
fn leader_that_is_no_peer_is_not_known() {
    let mut server = start_server(2, 3, None);
    assert!(server.handle_append_request(&aereq1(), true).success);
    assert_eq!(0, server.leader);
    let mut other = aereq(vec![], vec![1], 1, 1, 0);
    other.leader_id = 9;
    assert!(server.handle_append_request(&other, true).success);
    assert_eq!(UNKNOWN_LDR, server.leader);
}

#[test]
#[allow(non_snake_case)]
fn test_follower_with_single_AppendEntryRequest() {
    let mut server = start_server(1, 1, None);
    let resp = server.handle_append_request(&aereq1(), true);
    assert_eq!(1, resp.term);
    assert_eq!(1, resp.idx);
    assert_eq!(true, resp.success);
    assert_eq!(1, server.log.entries.len());
    assert_eq!("inventory.widget.count = 100", server.log.entries[0].data);
    assert_eq!("uuid-999", server.log.entries[0].uuid);
    stop(&mut server);
}

#[test]
#[allow(non_snake_case)]
fn test_follower_with_same_AppendEntryRequest_twice_should_return_false_2nd_time() {
    let mut server = start_server(1, 1, None);
    assert_eq!(answer(true, 1, 1, 0), server.handle_append_request(&aereq1(), true));
    assert_eq!(answer(false, 1, 1, 0), server.handle_append_request(&aereq1(), true));
    assert_eq!(1, server.log.entries.len());
    assert_eq!("uuid-999", server.log.entries[0].uuid);
    stop(&mut server);
}

#[test]
#[allow(non_snake_case)]
fn test_follower_with_multiple_valid_AppendEntryRequests() {
    let mut server = start_server(1, 1, None);
    let req = aereq(vec![1, 2, 3, 4], vec![1, 1, 1, 1], 0, 0, 1);
    let resp = server.handle_append_request(&req, true);
    assert_eq!(4, req.entries.len());
    assert_eq!(1, resp.term);
    assert_eq!(4, resp.idx);
    assert_eq!(true, resp.success);
    stop(&mut server);
}

#[test]
#[allow(non_snake_case)]
fn test_follower_with_AppendEntryRequests_with_invalid_term() {
    let mut server = start_server(1, 1, None);
    let r1 = server.handle_append_request(&aereq(vec![1], vec![1], 0, 0, 1), true);
    let r2 = server.handle_append_request(&aereq(vec![2, 3], vec![2, 2], 1, 1, 2), true);
    let r3 = server.handle_append_request(&aereq(vec![4], vec![1], 3, 2, 4), true);
    assert_eq!(answer(true, 1, 1, 1), r1);
    assert_eq!(answer(true, 2, 3, 2), r2);
    assert_eq!(answer(false, 2, 3, 2), r3);
    assert_eq!(3, server.log.entries.len());
    stop(&mut server);
}

#[test]
#[allow(non_snake_case)]
fn test_follower_with_AppendEntryRequests_with_invalid_prevLogTerm() {
    let mut server = start_server(1, 1, None);

    let r1 = server.handle_append_request(&aereq(vec![1, 2], vec![1, 1], 0, 0, 1), true);
    assert_eq!(2, server.log.entries.len());
    let r2 = server.handle_append_request(&aereq(vec![2, 3], vec![2, 2], 2, 2, 2), true);
    assert_eq!(1, server.log.entries.len());
    let r3 = server.handle_append_request(&aereq(vec![2, 3], vec![2, 2], 1, 1, 2), true);
    assert_eq!(3, server.log.entries.len());

    assert_eq!((true, 1, 2), (r1.success, r1.term, r1.idx));
    assert_eq!((false, 1, 1), (r2.success, r2.term, r2.idx));
    assert_eq!((true, 2, 3), (r3.success, r3.term, r3.idx));
    stop(&mut server);
}

#[test]
#[allow(non_snake_case)]
fn test_follower_with_AppendEntryRequests_with_changing_commit_idx() {
    let mut server = start_server(1, 1, None);

    let r1 = server.handle_append_request(&aereq(vec![1, 2], vec![1, 1], 0, 0, UNKNOWN), true);
    assert_eq!(2, server.log.entries.len());
    let r2 = server.handle_append_request(&aereq(vec![3], vec![2], 2, 1, 2), true);
    assert_eq!(3, server.log.entries.len());
    let r3 = server
        .handle_append_request(&aereq(vec![4, 5, 6, 7], vec![2, 2, 2, 2], 3, 2, 2), true);
    assert_eq!(7, server.log.entries.len());
    let r4 = server.handle_append_request(&aereq(vec![], vec![2], 7, 2, 6), true);
    assert_eq!(7, server.log.entries.len());
    let r5 = server.handle_append_request(&aereq(vec![8, 9], vec![2, 2], 7, 2, 10), true);
    assert_eq!(9, server.log.entries.len());

    assert_eq!(answer(true, 1, 2, UNKNOWN), r1);
    assert_eq!(answer(true, 2, 3, 2), r2);
    assert_eq!(answer(true, 2, 7, 2), r3);
    assert_eq!(answer(true, 2, 7, 6), r4);
    assert_eq!(answer(true, 2, 9, 9), r5);
    stop(&mut server);
}

#[test]
fn refused_request_moves_no_commit_index() {
    let mut server = start_server(1, 1, None);
    server.handle_append_request(&aereq(vec![1, 2, 3], vec![1, 1, 1], 0, 0, 1), true);
    assert_eq!(answer(false, 1, 3, 1), {
        server.handle_append_request(&aereq(vec![4], vec![1], 2, 1, 3), true)
    });
    assert_eq!(1, server.commit_idx);
}

#[test]
fn commit_index_stays_in_the_log() {
    let mut server = start_server(1, 1, None);
    server.handle_append_request(&aereq(vec![1, 2], vec![1, 1], 0, 0, 9), true);
    assert_eq!(2, server.commit_idx);
    server.handle_append_request(&aereq(vec![], vec![1], 2, 1, 1), true);
    assert_eq!(2, server.commit_idx);
    server.handle_append_request(&aereq(vec![3], vec![1], 2, 1, 3), false);
    assert_eq!((2, 2), (server.log.idx, server.commit_idx));
}

#[test]
fn commit_index_can_outlast_a_removed_entry() {
    let mut server = start_server(1, 1, None);
    server.handle_append_request(&aereq(vec![1, 2], vec![1, 1], 0, 0, 2), true);
    let resp = server.handle_append_request(&aereq(vec![3], vec![2], 2, 2, 2), true);
    assert_eq!(answer(false, 1, 1, 2), resp);
}

#[test]
fn response_follows_the_outcome() {
    let mut server = start_server(1, 1, None);
    server.handle_append_request(&aereq(vec![1, 2, 3], vec![1, 1, 1], 0, 0, 1), true);
    let req = aereq(vec![], vec![1], 3, 1, 2);
    let refused = server.respond(&req, Err(schooner::log::AppendError::NotStored));
    assert_eq!(answer(false, 1, 3, 1), refused);
    assert_eq!(answer(true, 1, 3, 2), server.respond(&req, Ok(())));
}

#[test]
fn server_knows_itself_and_the_others() {
    let server = create_server(2, 3);
    assert_eq!(2, server.id);
    assert_eq!("127.0.0.1", server.ip);
    assert_eq!(23159, server.tcpport);
    assert_eq!("127.0.0.1:23159", server.addr());
    assert_eq!(State::Stopped, server.state);
    assert_eq!((0, 0), (server.commit_idx, server.last_applied_commit));
    assert_eq!(UNKNOWN_LDR, server.leader);
    assert_eq!(vec![1, 3], server.peer_ids());
}

#[test]
fn running_server_is_not_started_again() {
    let mut server = create_server(1, 3);
    assert!(server.run(None).is_ok());
    assert_eq!(State::Follower, server.state);
    match server.run(Some(CfgOptions { init_state: State::Leader })) {
        Ok(()) => panic!("started twice"),
        Err(SError::InvalidState(why)) => {
            assert_eq!("schooner.Server: Server already running", why)
        }
    }
    assert_eq!(State::Follower, server.state);
}

#[test]
fn lost_leader_is_replaced() {
    let mut server = start_server(1, 3, None);
    assert_eq!(Phase::Follow, server.serve_step());
    assert!(matches!(server.follower_step(FollowerEvent::Timeout), FollowerAction::Leave));
    assert_eq!(State::Candidate, server.state);
    assert_eq!(Phase::Again, server.serve_step());
    assert_eq!(State::Leader, server.state);
    assert_eq!(Phase::Lead, server.serve_step());
}

#[test]
fn stop_that_waits_stops_in_every_running_state() {
    for state in [State::Follower, State::Candidate, State::Leader, State::Snapshotting] {
        let mut server = start_server(1, 3, Some(CfgOptions { init_state: state }));
        let waiting = vec![deliver("Uuid: 1\nPUT x=1"), deliver("STOP"), deliver("STOP")];
        let mut taken = 0;
        for ev in waiting {
            let phase = server.serve_step();
            let phase = if phase == Phase::Again { server.serve_step() } else { phase };
            match phase {
                Phase::Follow => {
                    server.follower_step(FollowerEvent::Message(ev));
                }
                Phase::Lead => {
                    server.leader_step(&ev);
                }
                _ => break,
            }
            taken += 1;
        }
        assert_eq!(State::Stopped, server.state);
        assert_eq!(2, taken);
    }
}

#[test]
fn stop_between_timeout_and_look_is_not_lost() {
    let mut server = start_server(1, 3, None);
    server.follower_step(FollowerEvent::Timeout);
    let waiting = deliver("STOP");
    assert_eq!(Phase::Again, server.serve_step());
    assert_eq!(Phase::Lead, server.serve_step());
    assert!(matches!(server.leader_step(&waiting), LeaderAction::Stop { .. }));
    assert_eq!(Phase::End, server.serve_step());
}

#[test]
fn run_keeps_who_the_server_is() {
    let mut server = start_server(2, 3, None);
    server.serve_step();
    server.follower_step(FollowerEvent::Message(deliver("Uuid: 1\nPUT x=1")));
    server.handle_append_request(&aereq1(), true);
    server.handle_append_request(&aereq(vec![2], vec![2], 1, 9, 1), true);
    server.follower_step(FollowerEvent::Timeout);
    server.serve_step();
    server.leader_step(&deliver("Uuid: 2\nPUT x=2"));
    server.leader_step(&deliver("STOP"));
    assert_eq!(State::Stopped, server.state);
    assert_eq!((2, "127.0.0.1:23159".to_string()), (server.id, server.addr()));
    assert_eq!(vec![1, 3], server.peer_ids());
    assert_eq!((0, 0), (server.leader, server.last_applied_commit));
}

#[test]
fn phases_have_their_waits() {
    assert_eq!(2200, wait_of(Phase::Follow));
    assert_eq!(100, wait_of(Phase::Lead));
    assert_eq!(0, wait_of(Phase::Again));
    assert_eq!(0, wait_of(Phase::End));
    assert_eq!(1, PAUSE_MS);
}

#[test]
fn snapshot_ends_in_following() {
    let mut server = start_server(1, 3, Some(CfgOptions { init_state: State::Snapshotting }));
    assert_eq!(Phase::Again, server.serve_step());
    assert_eq!(State::Follower, server.state);
}

#[test]
fn follower_decodes_other_messages() {
    let mut server = start_server(1, 3, None);
    let ev = deliver("{\"term\":1}");
    match server.follower_step(FollowerEvent::Message(ev)) {
        FollowerAction::Decode(msg) => assert_eq!("{\"term\":1}", msg),
        _ => panic!("not decoded"),
    }
}

#[test]
fn leader_refuses_a_command_of_one_line() {
    let mut leader = start_server(1, 3, Some(CfgOptions { init_state: State::Leader }));
    match leader.leader_step(&deliver("Uuid: 1234")) {
        LeaderAction::Reply(reply) => assert_eq!("400 Bad Request", reply),
        _ => panic!("no reply"),
    }
    assert!(matches!(leader.leader_step(&deliver("{}")), LeaderAction::Ignore));
    assert_eq!(State::Leader, leader.state);
}

#[test]
fn leader_stops_all_handlers() {
    let mut leader = start_server(2, 4, Some(CfgOptions { init_state: State::Leader }));
    match leader.leader_step(&deliver("STOP")) {
        LeaderAction::Stop { msg, to } => {
            assert_eq!("STOP", msg);
            assert_eq!(vec![1, 3, 4], to);
        }
        _ => panic!("not stopped"),
    }
}

#[test]
fn listener_forwards_messages_up_to_stop() {
    let received = [
        ("Length: 3\n", "abc"), ("Size: 3\n", ""), ("Length: 9\n", "abc"), ("Length: 1\n", "d"),
        ("Length: 4\n", "STOP"), ("Length: 1\n", "e"), ("Length: 4\n", "STOP"),
    ];
    let mut forwarded: Vec<String> = Vec::new();
    let mut reported = 0;
    for (line, bytes) in received {
        match listener_step(read_network_msg(line, bytes.as_bytes())) {
            ListenerAction::ForwardAndReply(ev) => forwarded.push(ev.msg),
            ListenerAction::ForwardAndStop(ev) => {
                forwarded.push(ev.msg);
                break;
            }
            ListenerAction::Report(_) => reported += 1,
        }
    }
    assert_eq!(vec!["abc", "d", "STOP"], forwarded);
    assert_eq!(2, reported);
}

#[test]
fn all_peers_are_given_all_commands_and_stop() {
    let mut leader = start_server(2, 4, Some(CfgOptions { init_state: State::Leader }));
    let msgs = ["Uuid: a\nPUT x=1", "Uuid: b", "{}", "Uuid: c\nPUT x=2", "STOP"];
    let mut given: Vec<(usize, String)> = Vec::new();
    for msg in msgs {
        assert_eq!(State::Leader, leader.state);
        match leader.leader_step(&deliver(msg)) {
            LeaderAction::Stop { msg, to } => {
                for id in to {
                    given.push((id, msg.clone()));
                }
            }
            LeaderAction::Replicate { request, to, .. } => {
                for id in to {
                    given.push((id, request.entries[0].data.clone()));
                }
            }
            _ => (),
        }
    }
    for id in [1, 3, 4] {
        let of_peer: Vec<&str> =
            given.iter().filter(|g| g.0 == id).map(|g| g.1.as_str()).collect();
        assert_eq!(vec!["PUT x=1", "PUT x=2", "STOP"], of_peer);
    }
    assert_eq!(9, given.len());
}

#[test]
fn handler_sends_to_its_peer_until_stopped() {
    let peers = config(2);
    match peer_handler_step(&peers[1], "{}") {
        HandlerAction::Send { addr } => assert_eq!("127.0.0.1:23159", addr),
        HandlerAction::Stop => panic!("stopped"),
    }
    assert!(matches!(peer_handler_step(&peers[1], "STOP"), HandlerAction::Stop));
}

#[test]
fn request_carries_the_place_of_the_leader() {
    let mut leader = start_server(1, 3, Some(CfgOptions { init_state: State::Leader }));
    leader.log = Log::new(vec![entry(1, 1), entry(2, 3)]);
    leader.commit_idx = 1;
    let msgs = vec![
        ClientMsg { uuid: "Uuid: a".to_string(), cmd: "PUT x=1".to_string() },
        ClientMsg { uuid: "Uuid: b".to_string(), cmd: "PUT x=2".to_string() },
    ];
    let req = leader.make_aereq(msgs);
    assert_eq!((3, 2, 3, 1, 1), {
        (req.term, req.prev_log_idx, req.prev_log_term, req.commit_idx, req.leader_id)
    });
    assert_eq!(2, req.entries.len());
    for (i, e) in req.entries.iter().enumerate() {
        assert_eq!((2, 3), (e.idx, e.term));
        assert_eq!(format!("PUT x={}", i + 1), e.data);
    }
    assert_eq!("Uuid: b", req.entries[1].uuid);

    let mut follower = start_server(2, 3, None);
    follower.log = Log::new(vec![entry(1, 1), entry(2, 3)]);
    let heartbeat = leader.make_aereq(Vec::new());
    assert_eq!(0, heartbeat.entries.len());
    assert_eq!(answer(true, 3, 2, 1), follower.handle_append_request(&heartbeat, true));
    assert_eq!(2, follower.log.entries.len());
}
