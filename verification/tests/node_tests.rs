use zeta9::addr::NetAddr;
use zeta9::counter::MsgIdCounter;
use zeta9::crypto::peer_id_from_verifying_key;
use zeta9::node::{new_message, relay_message, HubNode, NodeAction, RelayNode};
use zeta9::peers::PeerTable;
use zeta9::types::{Message, Payload, PeerInfo};

fn addr(last: u8) -> NetAddr {
    NetAddr::V4 { ip: 0xc0a8_0000 | last as u32, port: 4000 + last as u16 }
}

fn msg(id: u64, src: NetAddr, src_name: &str, dst: NetAddr, dst_name: &str, time: u64, payload: Payload) -> Message {
    new_message(id, src, src_name.to_string(), dst, dst_name.to_string(), time, payload)
}

fn relay() -> RelayNode {
    RelayNode { public_addr: addr(1), name: "relay".to_string(), peers: PeerTable::new(), ids: MsgIdCounter::new() }
}

fn hub() -> HubNode {
    HubNode { public_addr: addr(100), name: "hub".to_string(), relays: PeerTable::new(), ids: MsgIdCounter::new() }
}

fn key(b: u8) -> [u8; 32] {
    ed25519_dalek::SigningKey::from_bytes(&[b; 32]).verifying_key().to_bytes()
}

fn peer(id: &str, name: &str, a: NetAddr) -> PeerInfo {
    PeerInfo { id: id.to_string(), addr: a, username: name.to_string(), last_seen: 0, is_relay: false, verifying_key: key(1) }
}

#[test]
fn new_message_fills_headers() {
    let m = msg(7, addr(2), "alice", addr(3), "bob", 99, Payload::Connect);
    assert_eq!(m.headers.msg_id, 7);
    assert_eq!(m.headers.src_addr, addr(2));
    assert_eq!(m.headers.src_username, "alice");
    assert_eq!(m.headers.dst_addr, addr(3));
    assert_eq!(m.headers.dst_username, "bob");
    assert_eq!(m.headers.time, 99);
    assert!(m.headers.signature.is_empty());
    assert_eq!(m.last_hop, addr(2));
}

#[test]
fn relay_registers_a_client_and_acknowledges() {
    let mut r = relay();
    let k = key(4);
    let m = msg(55, addr(2), "alice", addr(1), "relay", 10, Payload::Register { verifying_key: k });
    let actions = r.handle_message(&m, 1000);
    assert_eq!(r.peers.len(), 1);
    let p = r.peers.get(0);
    assert_eq!(p.id, peer_id_from_verifying_key(&k));
    assert_eq!(p.addr, addr(2));
    assert_eq!(p.username, "alice");
    assert_eq!(p.last_seen, 1000);
    assert!(!p.is_relay);
    assert_eq!(actions.len(), 1);
    match &actions[0] {
        NodeAction::Send { msg, to, sign } => {
            assert!(*sign);
            assert_eq!(*to, addr(2));
            assert!(matches!(msg.payload, Payload::Ack { reply_to: 55 }));
            assert_eq!(msg.headers.msg_id, 1);
            assert_eq!(msg.headers.src_username, "relay");
            assert_eq!(msg.headers.dst_username, "alice");
            assert_eq!(msg.headers.time, 1000);
        }
        other => panic!("{:?}", other),
    }
    assert_eq!(r.ids.peek(), 2);
    let again = msg(56, addr(2), "alice", addr(1), "relay", 11, Payload::Register { verifying_key: k });
    r.handle_message(&again, 2000);
    assert_eq!(r.peers.len(), 1);
    assert_eq!(r.peers.get(0).last_seen, 2000);
}

#[test]
fn relay_forwards_text_to_every_other_peer() {
    let mut r = relay();
    r.peers.store(peer("a", "alice", addr(2)));
    r.peers.store(peer("b", "bob", addr(3)));
    r.peers.store(peer("c", "carol", addr(4)));
    let m = msg(9, addr(3), "bob", NetAddr::unspecified(), "all", 5, Payload::Classic { txt: "hey".to_string() });
    let actions = r.handle_message(&m, 6);
    let targets: Vec<NetAddr> = actions
        .iter()
        .map(|a| match a {
            NodeAction::Relay { msg, to } => {
                assert_eq!(msg.last_hop, addr(1));
                assert_eq!(msg.headers.src_addr, addr(3));
                assert_eq!(msg.headers.msg_id, 9);
                *to
            }
            other => panic!("{:?}", other),
        })
        .collect();
    assert_eq!(targets, vec![addr(2), addr(4)]);
    assert_eq!(r.ids.peek(), 1);
}

#[test]
fn relay_keeps_text_addressed_to_itself() {
    let mut r = relay();
    r.peers.store(peer("a", "alice", addr(2)));
    let m = msg(9, addr(3), "bob", addr(1), "relay", 5, Payload::Classic { txt: "hey".to_string() });
    assert!(r.handle_message(&m, 6).is_empty());
}

#[test]
fn relay_bridges_known_peers_only() {
    let mut r = relay();
    r.peers.store(peer("a", "alice", addr(2)));
    let known = msg(3, addr(5), "eve", addr(2), "alice", 1, Payload::Connect);
    let actions = r.handle_message(&known, 2);
    assert!(matches!(&actions[..], [NodeAction::Forward { to, .. }] if *to == addr(2)));
    let unknown = msg(4, addr(5), "eve", addr(7), "zed", 1, Payload::Connect);
    let actions = r.handle_message(&unknown, 2);
    match &actions[..] {
        [NodeAction::PeerUnknown { addr: a, username }] => {
            assert_eq!(*a, addr(7));
            assert_eq!(username, "zed");
        }
        other => panic!("{:?}", other),
    }
}

#[test]
fn relay_punches_for_a_new_client() {
    let mut r = relay();
    let m = msg(3, addr(100), "hub", addr(1), "relay", 1, Payload::RelayHasNewClient { peer_addr: addr(8), peer_id: "frank".to_string() });
    let actions = r.handle_message(&m, 2);
    match &actions[..] {
        [NodeAction::Send { msg, to, sign: true }] => {
            assert_eq!(*to, addr(8));
            assert!(matches!(msg.payload, Payload::PunchTheHole));
            assert_eq!(msg.headers.dst_username, "frank");
        }
        other => panic!("{:?}", other),
    }
}

#[test]
fn relay_answers_address_requests() {
    let mut r = relay();
    r.peers.store(peer("a", "alice", addr(2)));
    let ask = msg(3, addr(6), "gina", addr(1), "relay", 1, Payload::AskForAddr { username: "alice".to_string() });
    match &r.handle_message(&ask, 2)[..] {
        [NodeAction::Send { msg, to, sign: true }] => {
            assert_eq!(*to, addr(6));
            match &msg.payload {
                Payload::PeerInfo { peer_info } => assert_eq!(peer_info.addr, addr(2)),
                other => panic!("{:?}", other),
            }
        }
        other => panic!("{:?}", other),
    }
    let missing = msg(4, addr(6), "gina", addr(1), "relay", 1, Payload::AskForAddr { username: "nobody".to_string() });
    assert!(matches!(&r.handle_message(&missing, 2)[..], [NodeAction::PeerNotFound { username }] if username == "nobody"));
    let other = msg(5, addr(6), "gina", addr(1), "relay", 1, Payload::PunchTheHole);
    assert!(r.handle_message(&other, 2).is_empty());
}

#[test]
fn hub_records_relays_and_acknowledges_unsigned() {
    let mut h = hub();
    let k = key(6);
    let m = msg(12, addr(2), "alice", addr(100), "hub", 77, Payload::BeNewRelay { verifying_key: k });
    let actions = h.handle_message(&m, 80);
    assert_eq!(h.relays.len(), 1);
    let p = h.relays.get(0);
    assert!(p.is_relay);
    assert_eq!(p.last_seen, 77);
    assert_eq!(p.id, peer_id_from_verifying_key(&k));
    match &actions[..] {
        [NodeAction::Send { msg, to, sign: false }] => {
            assert_eq!(*to, addr(2));
            assert!(matches!(msg.payload, Payload::Ack { reply_to: 12 }));
            assert_eq!(msg.headers.src_username, "hub");
            assert_eq!(msg.headers.time, 80);
        }
        other => panic!("{:?}", other),
    }
}

#[test]
fn hub_hands_out_another_relay() {
    let mut h = hub();
    h.relays.store(peer("r1", "relay1", addr(2)));
    h.relays.store(peer("r2", "relay2", addr(3)));
    let need = msg(20, addr(2), "relay1", addr(100), "hub", 1, Payload::NeedRelay);
    let actions = h.handle_message(&need, 5);
    match &actions[..] {
        [NodeAction::Send { msg: offer, to: t1, sign: false }, NodeAction::Send { msg: notice, to: t2, sign: false }] => {
            assert_eq!(*t1, addr(2));
            assert_eq!(*t2, addr(3));
            match &offer.payload {
                Payload::PeerInfo { peer_info } => assert_eq!(peer_info.username, "relay2"),
                other => panic!("{:?}", other),
            }
            match &notice.payload {
                Payload::RelayHasNewClient { peer_addr, peer_id } => {
                    assert_eq!(*peer_addr, addr(2));
                    assert_eq!(peer_id, "relay1");
                }
                other => panic!("{:?}", other),
            }
            assert_eq!(offer.headers.msg_id + 1, notice.headers.msg_id);
            assert_eq!(notice.headers.dst_username, "relay2");
        }
        other => panic!("{:?}", other),
    }
}

#[test]
fn hub_without_other_relay_refuses() {
    let mut h = hub();
    h.relays.store(peer("r1", "relay1", addr(2)));
    let need = msg(20, addr(2), "relay1", addr(100), "hub", 1, Payload::NeedRelay);
    match &h.handle_message(&need, 5)[..] {
        [NodeAction::Send { msg, to, sign: false }] => {
            assert_eq!(*to, addr(2));
            assert!(matches!(msg.payload, Payload::NoRelayAvailable));
        }
        other => panic!("{:?}", other),
    }
    let stray = msg(21, addr(2), "relay1", addr(100), "hub", 1, Payload::Classic { txt: "?".to_string() });
    assert!(matches!(&h.handle_message(&stray, 5)[..], [NodeAction::Unexpected]));
}

#[test]
fn relay_message_skips_the_source() {
    let mut peers = PeerTable::new();
    peers.store(peer("a", "alice", addr(2)));
    peers.store(peer("b", "bob", addr(3)));
    let m = msg(1, addr(2), "alice", NetAddr::unspecified(), "all", 0, Payload::Classic { txt: "x".to_string() });
    let actions = relay_message(&peers, addr(9), &m);
    match &actions[..] {
        [NodeAction::Relay { msg, to }] => {
            assert_eq!(*to, addr(3));
            assert_eq!(msg.last_hop, addr(9));
            assert!(matches!(&msg.payload, Payload::Classic { txt } if txt == "x"));
        }
        other => panic!("{:?}", other),
    }
    assert!(relay_message(&PeerTable::new(), addr(9), &m).is_empty());
}
