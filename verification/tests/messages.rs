//! Messages, numbers and configuration lines as text.

use schooner::decimal::{parse_number, to_decimal};
use schooner::events::{RaftEventMsg, StopReq};
use schooner::message::{
    create_client_msg, frame_msg, is_cmd_from_client, is_stop_msg, parse_content_length,
    read_network_msg, NetworkMsgError, NetworkMsgErrorKind,
};
use schooner::peer::{get_peer_idx, other_peers, parse_config, parse_peer, Peer};
use schooner::text::{find_char, starts_with, trim};

#[test]
fn stop_is_one_word() {
    assert!(is_stop_msg("STOP"));
    for other in ["", "stop", "STOP\n", " STOP", "STOPS", "STO"] {
        assert!(!is_stop_msg(other));
    }
    assert!(!is_cmd_from_client("STOP"));
    assert!(!is_stop_msg("{\"term\":1}"));
}

#[test]
fn client_commands_are_told_apart() {
    assert!(is_cmd_from_client("Uuid: 12\nPUT x=1"));
    assert!(is_cmd_from_client("\n  Uuid: 12\nPUT x=1\n"));
    assert!(is_cmd_from_client("Uuid: 12"));
    for other in ["", "Uuid:", "Uuid: ", "uuid: 12", "{\"term\":1}", "x Uuid: 12"] {
        assert!(!is_cmd_from_client(other));
    }
}

#[test]
fn client_command_is_taken_apart() {
    let m = create_client_msg("Uuid: 12 \n PUT x=1\nPUT y=2\n").unwrap();
    assert_eq!("Uuid: 12", m.uuid);
    assert_eq!("PUT x=1\nPUT y=2", m.cmd);
    let m = create_client_msg("\n").unwrap();
    assert_eq!(("", ""), (m.uuid.as_str(), m.cmd.as_str()));
    assert!(create_client_msg("Uuid: 12").is_none());
    assert!(create_client_msg("").is_none());
}

#[test]
fn content_length_is_read() {
    assert_eq!(Some(4), parse_content_length("Length: 4"));
    assert_eq!(Some(4), parse_content_length("Length: 4\n"));
    assert_eq!(Some(0), parse_content_length("Length:0\r\n"));
    assert_eq!(Some(17), parse_content_length("Length:\u{a0}+017\u{3000}"));
    let none = [
        "", "Length", "Length:", "Length: \n", "length: 4", " Length: 4", "Length: 4: 5",
        "Length: -4", "Length: 4x", "Length: 4 5", "Length: +", "Length: 99999999999999999999",
    ];
    for line in none {
        assert_eq!(None, parse_content_length(line));
    }
}

#[test]
fn numbers_are_read_back() {
    for n in [0, 7, 10, 23158, usize::MAX - 1, usize::MAX] {
        assert_eq!(format!("{}", n), to_decimal(n));
        assert_eq!(Some(n), parse_number(&to_decimal(n)));
        assert_eq!(Some(n), parse_content_length(&format!("Length: {}\n", n)));
    }
    assert_eq!(None, parse_number("18446744073709551616"));
    assert_eq!(None, parse_number("1_000"));
    assert_eq!(None, parse_number("++1"));
}

#[test]
fn message_is_read_back() {
    for body in ["", "STOP", "Uuid: 12\nPUT x=1", "caf\u{e9} \u{1f980}\n"] {
        let sent = frame_msg(body);
        assert_eq!(format!("Length: {}\n{}", body.len(), body), sent);
        let end = sent.find('\n').unwrap() + 1;
        let read = read_network_msg(&sent[..end], &sent.as_bytes()[end..]);
        assert_eq!(Some(body.to_string()), read.ok());
    }
}

#[test]
fn length_must_be_parsable() {
    match read_network_msg("Size: 4\n", "STOP".as_bytes()) {
        Err(e) => {
            assert_eq!(NetworkMsgErrorKind::InvalidInput, e.kind());
            assert!(matches!(e, NetworkMsgError::LengthNotParsable { .. }));
            assert_eq!("Length not parsable in network message", e.desc());
            assert_eq!(Some("length line parsed: Size: 4\n".to_string()), e.detail());
        }
        Ok(_) => panic!("read"),
    }
}

#[test]
fn all_bytes_must_be_read() {
    match read_network_msg("Length: 10\n", "STOP".as_bytes()) {
        Err(e) => {
            assert_eq!(NetworkMsgErrorKind::InvalidInput, e.kind());
            assert!(matches!(e, NetworkMsgError::WrongByteCount { expected: 10, read: 4 }));
            assert_eq!("Network message read of specified bytes failed", e.desc());
            assert_eq!(Some("Expected 10 bytes, but read 4 bytes".to_string()), e.detail());
        }
        Ok(_) => panic!("read"),
    }
}

#[test]
fn bytes_must_be_utf8() {
    for bytes in [vec![0xffu8, 0x41], vec![0xc3u8, 0x28], vec![0xedu8, 0xa0, 0x80]] {
        match read_network_msg(&format!("Length: {}\n", bytes.len()), &bytes) {
            Err(e) => {
                assert_eq!(NetworkMsgErrorKind::InvalidInput, e.kind());
                assert!(matches!(e, NetworkMsgError::NotUtf8));
                assert_eq!("Conversion of Network message from bytes to str failed", e.desc());
                assert_eq!(None, e.detail());
            }
            Ok(_) => panic!("read"),
        }
    }
}

#[test]
fn text_is_trimmed_as_std_does() {
    let texts = [
        "", " ", " a b ", "\u{a0}x\u{3000}", "\t\r\n", "\u{200b}x\u{200b}", "a", "\u{85}\u{2003}y",
    ];
    for s in texts {
        assert_eq!(s.trim(), trim(s));
    }
    for u in 0u32..0x11_0000 {
        if let Some(c) = char::from_u32(u) {
            assert_eq!(c.is_whitespace(), schooner::text::is_whitespace(c));
        }
    }
}

#[test]
fn text_is_searched() {
    assert!(starts_with("Length: 4", "Length:"));
    assert!(!starts_with("Len", "Length:"));
    assert_eq!(Some(1), find_char("\u{e9}:x:", ':'));
    assert_eq!(None, find_char("abc", ':'));
}

#[test]
fn peers_are_listed_line_by_line() {
    let p = parse_peer("peer.3.addr = 127.0.0.1:23160\n").unwrap();
    assert_eq!((3, "127.0.0.1", 23160), (p.id, p.ip.as_str(), p.tcpport));
    let none = [
        "", "peer.3", "peer.x.addr = 127.0.0.1:1", "peer.3.addr=127.0.0.1:1",
        "peer.3.addr = 127.0.0.1", "peer.3.addr = 127.0.0.1:", "node.3.addr = 127.0.0.1:1",
    ];
    for line in none {
        assert!(parse_peer(line).is_none());
    }
    let lines = vec!["peer.1.addr = a:1".to_string(), "what".to_string(), "".to_string()];
    assert_eq!(Some(1), parse_config(&lines).err());
}

#[test]
fn peers_are_found_by_id() {
    let mut peers: Vec<Peer> = Vec::new();
    for id in [5, 7, 9, 7] {
        peers.push(Peer { id, ip: "127.0.0.1".to_string(), tcpport: 1000 + id });
    }
    assert_eq!(0, get_peer_idx(&peers, 5));
    assert_eq!(1, get_peer_idx(&peers, 7));
    assert_eq!(-1, get_peer_idx(&peers, 8));
    assert_eq!(-1, get_peer_idx(&Vec::new(), 8));
    let others = other_peers(&peers, 7);
    assert_eq!(vec![5, 9], others.iter().map(|p| p.id).collect::<Vec<usize>>());
    assert_eq!("127.0.0.1:1009", others[1].addr());
}

#[test]
fn one_channel_carries_all_events() {
    let events = vec![
        RaftEventMsg::SRQ(StopReq),
        RaftEventMsg::APRQ(create_client_msg("Uuid: 1\nPUT x=1").unwrap()),
    ];
    assert!(matches!(events[0], RaftEventMsg::SRQ(_)));
    assert!(matches!(&events[1], RaftEventMsg::APRQ(m) if m.cmd == "PUT x=1"));
}
