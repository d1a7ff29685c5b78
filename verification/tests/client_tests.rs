use zeta9::addr::NetAddr;
use zeta9::client::{
    be_new_relay_message, classic_message, input_command, renew_message, route, ConnectAction, ConnectEvent,
    ConnectFailure, ConnectState, InputCommand, RelayConnector, Route,
};
use zeta9::counter::MsgIdCounter;
use zeta9::node::new_message;
use zeta9::types::{
    client_role, nat_type_from_mappings, packet_size_ok, ClientRole, Message, NatType, Payload, PeerInfo, MAX_PACKET_SIZE,
};

fn addr(last: u8) -> NetAddr {
    NetAddr::V4 { ip: 0x5000_0000 | last as u32, port: 7000 + last as u16 }
}

fn hub_reply(payload: Payload) -> Message {
    new_message(1, addr(100), "hub".to_string(), addr(1), "me".to_string(), 0, payload)
}

fn connector() -> RelayConnector {
    RelayConnector::new(addr(1), "me".to_string(), addr(100), [3u8; 32])
}

fn offer(a: NetAddr, name: &str) -> Message {
    hub_reply(Payload::PeerInfo {
        peer_info: PeerInfo {
            id: "r".to_string(),
            addr: a,
            username: name.to_string(),
            last_seen: 0,
            is_relay: true,
            verifying_key: [0u8; 32],
        },
    })
}

#[test]
fn routes_of_received_messages() {
    assert_eq!(route(&Payload::Ack { reply_to: 4 }), Route::Ack { reply_to: 4 });
    assert_eq!(route(&Payload::NoRelayAvailable), Route::Hub);
    assert_eq!(route(&offer(addr(2), "r").payload), Route::Hub);
    assert_eq!(route(&Payload::Connect), Route::General);
    assert_eq!(route(&Payload::Classic { txt: "x".to_string() }), Route::General);
    assert_eq!(route(&Payload::NeedRelay), Route::General);
}

#[test]
fn typed_lines() {
    assert!(matches!(input_command("/q"), InputCommand::Quit));
    assert!(matches!(input_command("  /q \n"), InputCommand::Quit));
    assert!(matches!(input_command(" \t\n"), InputCommand::Skip));
    assert!(matches!(input_command(""), InputCommand::Skip));
    match input_command("  hello world \n") {
        InputCommand::Send { text } => assert_eq!(text, "hello world"),
        other => panic!("{:?}", other),
    }
    match input_command("/quit") {
        InputCommand::Send { text } => assert_eq!(text, "/quit"),
        other => panic!("{:?}", other),
    }
}

#[test]
fn client_messages() {
    let mut ids = MsgIdCounter::new();
    let m = classic_message(&mut ids, 50, addr(1), "me", "hi");
    assert_eq!(m.headers.msg_id, 1);
    assert_eq!(m.headers.dst_addr, NetAddr::unspecified());
    assert_eq!(m.headers.dst_username, "all");
    assert!(matches!(&m.payload, Payload::Classic { txt } if txt == "hi"));
    let b = be_new_relay_message(&mut ids, 60, addr(1), "me", addr(100), [9u8; 32]);
    assert_eq!(b.headers.msg_id, 2);
    assert_eq!(b.headers.dst_username, "hub");
    assert_eq!(b.headers.dst_addr, addr(100));
    assert!(matches!(b.payload, Payload::BeNewRelay { verifying_key } if verifying_key == [9u8; 32]));
    let mut again = b;
    again.headers.signature = vec![1, 2, 3];
    renew_message(&mut again, &mut ids, 70);
    assert_eq!(again.headers.msg_id, 3);
    assert_eq!(again.headers.time, 70);
    assert_eq!(again.headers.signature, vec![1, 2, 3]);
    assert_eq!(ids.peek(), 4);
}

#[test]
fn connector_finds_a_relay() {
    let mut c = connector();
    let mut ids = MsgIdCounter::new();
    match c.step(&mut ids, ConnectEvent::Begin { now: 10 }) {
        ConnectAction::AskHub { msg } => {
            assert!(matches!(msg.payload, Payload::NeedRelay));
            assert_eq!(msg.headers.dst_addr, addr(100));
            assert_eq!(msg.headers.dst_username, "hub");
            assert_eq!(msg.headers.time, 10);
            assert_eq!(msg.headers.msg_id, 1);
        }
        other => panic!("{:?}", other),
    }
    assert!(matches!(c.state, ConnectState::AwaitingHub));
    let a = c.step(&mut ids, ConnectEvent::HubReply { reply: Some(offer(addr(2), "relay2")) });
    assert!(matches!(a, ConnectAction::Sleep { millis: 2000 }));
    match c.step(&mut ids, ConnectEvent::Resume { now: 12 }) {
        ConnectAction::Register { msg, to } => {
            assert_eq!(to, addr(2));
            assert!(matches!(msg.payload, Payload::Register { verifying_key } if verifying_key == [3u8; 32]));
            assert_eq!(msg.headers.dst_username, "relay2");
            assert_eq!(msg.headers.msg_id, 2);
        }
        other => panic!("{:?}", other),
    }
    match c.step(&mut ids, ConnectEvent::AckResult { acked: true }) {
        ConnectAction::Connected { relay_addr, relay_name } => {
            assert_eq!(relay_addr, addr(2));
            assert_eq!(relay_name, "relay2");
        }
        other => panic!("{:?}", other),
    }
    assert!(matches!(c.state, ConnectState::Done));
}

#[test]
fn connector_retries_after_a_refusal() {
    let mut c = connector();
    let mut ids = MsgIdCounter::new();
    c.step(&mut ids, ConnectEvent::Begin { now: 1 });
    let a = c.step(&mut ids, ConnectEvent::HubReply { reply: Some(hub_reply(Payload::NoRelayAvailable)) });
    assert!(matches!(a, ConnectAction::Sleep { millis: 10000 }));
    match c.step(&mut ids, ConnectEvent::Resume { now: 11 }) {
        ConnectAction::AskHub { msg } => assert_eq!(msg.headers.msg_id, 2),
        other => panic!("{:?}", other),
    }
}

#[test]
fn connector_failures() {
    let mut ids = MsgIdCounter::new();
    let mut c = connector();
    c.step(&mut ids, ConnectEvent::Begin { now: 1 });
    let a = c.step(&mut ids, ConnectEvent::HubReply { reply: Some(hub_reply(Payload::Connect)) });
    assert!(matches!(a, ConnectAction::Failed { why: ConnectFailure::UnexpectedReply }));
    let mut c = connector();
    c.step(&mut ids, ConnectEvent::Begin { now: 1 });
    let a = c.step(&mut ids, ConnectEvent::HubReply { reply: None });
    assert!(matches!(a, ConnectAction::Failed { why: ConnectFailure::HubClosed }));
    let mut c = connector();
    c.step(&mut ids, ConnectEvent::Begin { now: 1 });
    c.step(&mut ids, ConnectEvent::HubReply { reply: Some(offer(addr(4), "r4")) });
    c.step(&mut ids, ConnectEvent::Resume { now: 3 });
    let a = c.step(&mut ids, ConnectEvent::AckResult { acked: false });
    assert!(matches!(a, ConnectAction::Failed { why: ConnectFailure::NoAck }));
}

#[test]
fn connector_ignores_events_out_of_turn() {
    let mut ids = MsgIdCounter::new();
    let mut c = connector();
    assert!(matches!(c.step(&mut ids, ConnectEvent::AckResult { acked: true }), ConnectAction::Ignore));
    assert!(matches!(c.state, ConnectState::Idle));
    assert_eq!(ids.peek(), 1);
    c.step(&mut ids, ConnectEvent::Begin { now: 1 });
    assert!(matches!(c.step(&mut ids, ConnectEvent::Begin { now: 2 }), ConnectAction::Ignore));
    assert!(matches!(c.state, ConnectState::AwaitingHub));
}

#[test]
fn roles_by_nat_type() {
    assert_eq!(client_role(NatType::Unknown), ClientRole::NoNetwork);
    assert_eq!(client_role(NatType::UdpBlocked), ClientRole::NoNetwork);
    for k in [NatType::OpenInternet, NatType::FullCone, NatType::RestrictedCone, NatType::PortRestrictedCone] {
        assert_eq!(client_role(k), ClientRole::UserAndRelay);
    }
    assert_eq!(client_role(NatType::Symmetric), ClientRole::UserOnly);
    assert_eq!(client_role(NatType::SymmetricUdpFirewall), ClientRole::UserOnly);
}

#[test]
fn packet_sizes() {
    assert!(!packet_size_ok(0));
    assert!(packet_size_ok(1));
    assert!(packet_size_ok(MAX_PACKET_SIZE));
    assert!(!packet_size_ok(MAX_PACKET_SIZE + 1));
    assert_eq!(MAX_PACKET_SIZE, 65536);
}

#[test]
fn nat_type_from_two_stun_answers() {
    assert_eq!(nat_type_from_mappings(None, None), NatType::UdpBlocked);
    assert_eq!(nat_type_from_mappings(None, Some(addr(1))), NatType::UdpBlocked);
    assert_eq!(nat_type_from_mappings(Some(addr(1)), Some(addr(1))), NatType::PortRestrictedCone);
    assert_eq!(nat_type_from_mappings(Some(addr(1)), None), NatType::PortRestrictedCone);
    assert_eq!(nat_type_from_mappings(Some(addr(1)), Some(addr(2))), NatType::Symmetric);
    assert_eq!(client_role(nat_type_from_mappings(Some(addr(1)), Some(addr(2)))), ClientRole::UserOnly);
}
