//! The relay's connection start (client detection and the SOCKS5 handshake) and its bridge decisions.

use et_services::relay::{
    client_kind, escape_default, offers_binary, preview, reply_bytes, socks5_method_step, socks5_request_step, BridgeStep,
    BridgeTally, ClientFrame, ClientKind, MethodStep, RelayAction, RelayPhase, RelayStart, RequestStep,
    Socks5Reply,
};

/// Drive a connection start over the whole client stream, collecting the replies sent.
fn run_start(stream: &[u8]) -> (Vec<Vec<u8>>, RelayAction, Vec<u8>) {
    let mut start = RelayStart::new();
    let mut fed = 0;
    let mut replies = Vec::new();
    loop {
        match start.advance() {
            RelayAction::ReadAtLeast(n) => {
                if fed >= stream.len() {
                    start.client_ended();
                    continue;
                }
                let until = (fed + n.max(1)).min(stream.len());
                start.push(&stream[fed..until]);
                fed = until;
            }
            RelayAction::Reply(r) => replies.push(reply_bytes(r)),
            action => {
                let mut rest = start.buf.clone();
                rest.extend_from_slice(&stream[fed..]);
                return (replies, action, rest);
            }
        }
    }
}

#[test]
fn relay_socks5_connect_to_loopback_bridges() {
    let mut stream = vec![5, 1, 0, 5, 1, 0, 1, 127, 0, 0, 1, 0x1f, 0x90];
    stream.extend_from_slice(b"socks-hi");
    let (replies, action, rest) = run_start(&stream);
    assert_eq!(replies, vec![vec![5, 0], vec![5, 0, 0, 1, 0, 0, 0, 0, 0, 0]]);
    assert_eq!(action, RelayAction::Connect);
    assert_eq!(rest, b"socks-hi".to_vec());
}

#[test]
fn relay_socks5_refuses_non_loopback_ipv4() {
    let stream = [5, 1, 0, 5, 1, 0, 1, 10, 0, 0, 1, 0, 80];
    let (replies, action, _) = run_start(&stream);
    assert_eq!(replies.last().unwrap()[1], 2);
    assert_eq!(action, RelayAction::Close);
}

#[test]
fn relay_socks5_refuses_external_domain() {
    let name = b"get-ws-proxy.r-universe.dev";
    let mut stream = vec![5, 1, 0, 5, 1, 0, 3, name.len() as u8];
    stream.extend_from_slice(name);
    stream.extend_from_slice(&[1, 187]);
    let (replies, action, _) = run_start(&stream);
    assert_eq!(replies.last().unwrap(), &vec![5, 2, 0, 1, 0, 0, 0, 0, 0, 0]);
    assert_eq!(action, RelayAction::Close);
}

#[test]
fn loopback_names_and_ipv6_are_accepted() {
    for name in [&b"localhost"[..], b"127.0.0.1", b"::1"] {
        let mut req = vec![5, 1, 0, 3, name.len() as u8];
        req.extend_from_slice(name);
        req.extend_from_slice(&[0, 80]);
        assert_eq!(socks5_request_step(&req), RequestStep::Accept(req.len()));
    }
    let mut v6 = vec![5, 1, 0, 4];
    v6.extend_from_slice(&[0; 15]);
    v6.extend_from_slice(&[1, 0, 80]);
    assert_eq!(socks5_request_step(&v6), RequestStep::Accept(22));
    v6[5] = 1;
    assert_eq!(socks5_request_step(&v6), RequestStep::Refuse);
}

#[test]
fn only_connect_is_accepted_and_unknown_address_types_are_refused() {
    assert_eq!(socks5_request_step(&[5, 2, 0, 1, 127, 0, 0, 1, 0, 80]), RequestStep::Refuse);
    assert_eq!(socks5_request_step(&[5, 1, 0, 9]), RequestStep::Refuse);
}

#[test]
fn incomplete_messages_ask_for_more_bytes() {
    assert_eq!(socks5_method_step(&[5]), MethodStep::NeedBytes(2));
    assert_eq!(socks5_method_step(&[5, 2, 0]), MethodStep::NeedBytes(4));
    assert_eq!(socks5_method_step(&[5, 2, 0, 1, 9]), MethodStep::Selected(4));
    assert_eq!(socks5_request_step(&[5, 1]), RequestStep::NeedBytes(4));
    assert_eq!(socks5_request_step(&[5, 1, 0, 1, 127]), RequestStep::NeedBytes(10));
    assert_eq!(socks5_request_step(&[5, 1, 0, 3]), RequestStep::NeedBytes(5));
    assert_eq!(socks5_request_step(&[5, 1, 0, 3, 9, b'l']), RequestStep::NeedBytes(16));
    assert_eq!(socks5_request_step(&[5, 1, 0, 4, 0]), RequestStep::NeedBytes(22));
}

#[test]
fn a_direct_client_is_bridged_with_its_first_bytes() {
    let (replies, action, rest) = run_start(b"GET / HTTP/1.1\r\n\r\n");
    assert!(replies.is_empty());
    assert_eq!(action, RelayAction::Connect);
    assert_eq!(rest, b"GET / HTTP/1.1\r\n\r\n".to_vec());
    assert_eq!(client_kind(b'G'), ClientKind::Direct);
    assert_eq!(client_kind(5), ClientKind::Socks5);
}

#[test]
fn a_client_that_leaves_mid_handshake_is_closed() {
    let (replies, action, _) = run_start(&[5, 1]);
    assert!(replies.is_empty());
    assert_eq!(action, RelayAction::Close);
    let mut start = RelayStart::new();
    start.client_ended();
    assert_eq!(start.phase, RelayPhase::Closed);
}

#[test]
fn relay_echoes_the_binary_subprotocol() {
    assert!(offers_binary(Some("binary")));
    assert!(offers_binary(Some("base64, binary")));
    assert!(offers_binary(Some(" binary ,x")));
    assert!(!offers_binary(Some("binaryx, base64")));
    assert!(!offers_binary(Some("")));
    assert!(!offers_binary(None));
}

#[test]
fn the_bridge_counts_bytes_each_way() {
    let mut tally = BridgeTally::new(48);
    assert_eq!(tally.client_frame(ClientFrame::Data(10)), BridgeStep::ForwardToTarget);
    assert_eq!(tally.to_target, 58);
    assert_eq!(tally.client_frame(ClientFrame::Ping), BridgeStep::Pong);
    assert_eq!(tally.client_frame(ClientFrame::Pong), BridgeStep::Continue);
    assert_eq!(tally.target_read(Some(5)), BridgeStep::ForwardToClient { first: true });
    assert_eq!(tally.target_read(Some(5)), BridgeStep::ForwardToClient { first: false });
    assert_eq!(tally.to_client, 10);
    assert_eq!(tally.target_read(Some(0)), BridgeStep::Stop);
    assert_eq!(tally.target_read(None), BridgeStep::Stop);
    assert_eq!(tally.client_frame(ClientFrame::Ended), BridgeStep::Stop);
    let mut full = BridgeTally::new(usize::MAX);
    assert_eq!(full.client_frame(ClientFrame::Data(1)), BridgeStep::ForwardToTarget);
    assert_eq!(full.to_target, usize::MAX);
}

#[test]
fn previews_escape_and_truncate() {
    assert_eq!(preview(b"GET /\r\n"), "GET /\\r\\n");
    assert_eq!(preview(&[b'a'; 300]).len(), 256);
    assert_eq!(preview(&[0xff]), "\\u{fffd}");
}

#[test]
fn replies_are_the_rfc_1928_frames() {
    assert_eq!(reply_bytes(Socks5Reply::NoAuth), vec![5, 0]);
    assert_eq!(reply_bytes(Socks5Reply::Refused)[1], 2);
}

#[test]
fn escaping_matches_the_standard_library() {
    let text = "a\tb'\"\\\u{7f}\u{e9}\u{1F600} ~";
    assert_eq!(escape_default(text), text.escape_default().to_string());
    assert_eq!(escape_default("x\r\n"), "x\\r\\n");
    assert_eq!(escape_default("\u{0}"), "\\u{0}");
}
