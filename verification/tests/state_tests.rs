use zeta9::ack::AckWaiter;
use zeta9::addr::NetAddr;
use zeta9::counter::{init_msg_id, new_msg_id, now_secs, MsgIdCounter};
use lightning::sign::KeysManager;
use std::sync::Arc;
use zeta9::keys::{seed_from_text, LdkKeysManager, SeedError};
use zeta9::node::new_message;
use zeta9::types::{Headers, Payload, PeerInfo};

#[test]
fn ids_count_up_from_one() {
    let mut c = MsgIdCounter::new();
    assert_eq!(new_msg_id(&mut c), 1);
    assert_eq!(new_msg_id(&mut c), 2);
    assert_eq!(new_msg_id(&mut c), 3);
    assert_eq!(c.peek(), 4);
}

#[test]
fn ids_after_a_restart() {
    let mut c = MsgIdCounter::new();
    assert_eq!(init_msg_id(&mut c, Some(41)), 42);
    assert_eq!(new_msg_id(&mut c), 42);
    assert_eq!(init_msg_id(&mut c, Some(0)), 1);
    assert_eq!(init_msg_id(&mut c, None), 1);
    assert_eq!(new_msg_id(&mut c), 1);
}

#[test]
fn ids_wrap_at_the_top() {
    let mut c = MsgIdCounter::new();
    init_msg_id(&mut c, Some(u64::MAX - 2));
    assert_eq!(new_msg_id(&mut c), u64::MAX - 1);
    assert_eq!(new_msg_id(&mut c), u64::MAX);
    assert_eq!(new_msg_id(&mut c), 0);
}

#[test]
fn clock_reads_after_2020() {
    let t = now_secs().unwrap();
    assert!(t > 1_577_836_800);
}

#[test]
fn an_ack_wakes_its_waiter_once() {
    let mut w = AckWaiter::new();
    assert!(!w.is_pending(7));
    let mut rx = w.register(7).0.receiver();
    assert!(w.is_pending(7));
    assert!(rx.try_recv().is_err());
    assert!(w.resolve(7).is_some());
    assert_eq!(rx.try_recv(), Ok(()));
    assert!(!w.is_pending(7));
    assert!(w.resolve(7).is_none());
}

#[test]
fn an_unexpected_ack_changes_nothing() {
    let mut w = AckWaiter::new();
    let mut rx1 = w.register(1).0.receiver();
    assert!(w.resolve(2).is_none());
    assert!(w.is_pending(1));
    let mut rx2 = w.register(2).0.receiver();
    assert!(w.resolve(2).is_some());
    assert_eq!(rx2.try_recv(), Ok(()));
    assert!(rx1.try_recv().is_err());
    assert!(w.is_pending(1));
}

#[test]
fn registering_again_replaces_the_waiter() {
    let mut w = AckWaiter::new();
    let (first, replaced) = w.register(3);
    assert!(replaced.is_none());
    let mut first = first.receiver();
    let (second, replaced) = w.register(3);
    assert!(replaced.is_some());
    let mut second = second.receiver();
    assert_eq!(first.try_recv(), Err(tokio::sync::oneshot::error::TryRecvError::Closed));
    assert!(w.resolve(3).is_some());
    assert_eq!(second.try_recv(), Ok(()));
}

#[test]
fn resolving_after_the_waiter_gave_up() {
    let mut w = AckWaiter::new();
    let rx = w.register(9);
    drop(rx);
    assert!(w.resolve(9).is_some());
    assert!(!w.is_pending(9));
}

fn manager(seed: [u8; 32], secs: u64, nanos: u32) -> LdkKeysManager {
    LdkKeysManager { inner: Arc::new(KeysManager::new(&seed, secs, nanos, false)) }
}

#[test]
fn seed_text_errors() {
    assert_eq!(seed_from_text("not hex"), Err(SeedError::NotHex));
    assert_eq!(seed_from_text("abc"), Err(SeedError::NotHex));
    assert_eq!(seed_from_text("abcd"), Err(SeedError::NotThirtyTwoBytes));
    let long = "00".repeat(33);
    assert_eq!(seed_from_text(&long), Err(SeedError::NotThirtyTwoBytes));
}

#[test]
fn seed_text_is_trimmed_hex() {
    let text = format!("  {}\n", "1A".repeat(32));
    assert_eq!(seed_from_text(&text), Ok([0x1au8; 32]));
}

#[test]
fn node_id_depends_on_the_seed_only() {
    let seed = seed_from_text(&format!("  {}\n", "11".repeat(32))).unwrap();
    let a = manager(seed, 1, 2);
    let b = manager([0x11u8; 32], 1000, 7);
    assert_eq!(a.node_id(), b.node_id());
    let hex_id = a.node_id_hex();
    assert_eq!(hex_id.len(), 66);
    assert_eq!(hex_id, hex::encode(a.node_id()));
    assert!(hex_id.starts_with("02") || hex_id.starts_with("03"));
    let c = manager([0x22u8; 32], 1, 2);
    assert_ne!(a.node_id(), c.node_id());
}

#[test]
fn headers_and_message_text() {
    let m = new_message(
        12,
        NetAddr::V4 { ip: 0x0102_0304, port: 5 },
        "alice".to_string(),
        NetAddr::V4 { ip: 0x0a00_0001, port: 6 },
        "bob".to_string(),
        3661,
        Payload::Classic { txt: "hi".to_string() },
    );
    assert_eq!(m.headers.to_text(), "1.2.3.4:5 (alice) -> 10.0.0.1:6 (bob) (#12 - 01:01:01)");
    assert_eq!(m.to_text(), "[Classic] [1.2.3.4:5 (alice) -> 10.0.0.1:6 (bob) (#12 - 01:01:01)] \"hi\"");
}

fn headers() -> Headers {
    Headers {
        msg_id: 1,
        src_addr: NetAddr::V4 { ip: 0x7f00_0001, port: 1 },
        src_username: "a".to_string(),
        dst_addr: NetAddr::V6 { ip: 1, port: 2, flowinfo: 0, scope_id: 0 },
        dst_username: "b".to_string(),
        time: 0,
        signature: vec![],
    }
}

fn text_of(p: Payload) -> String {
    let m = zeta9::types::Message { headers: headers(), payload: p, last_hop: NetAddr::unspecified() };
    m.to_text()
}

#[test]
fn message_text_per_kind() {
    let h = "127.0.0.1:1 (a) -> [::1]:2 (b) (#1 - 00:00:00)";
    assert_eq!(text_of(Payload::Register { verifying_key: [0; 32] }), format!("[Register] [{}]", h));
    assert_eq!(text_of(Payload::Connect), format!("[Connect] [{}]", h));
    assert_eq!(text_of(Payload::AskForAddr { username: "z".to_string() }), format!("[AskForAddr] [{}] He asks for z's addr", h));
    let p = PeerInfo { id: "i".to_string(), addr: NetAddr::V4 { ip: 0x0808_0808, port: 53 }, username: "dns".to_string(), last_seen: 0, is_relay: false, verifying_key: [0; 32] };
    assert_eq!(text_of(Payload::PeerInfo { peer_info: p }), format!("[PeerInfo] [{}] 8.8.8.8:53 (dns)", h));
    assert_eq!(text_of(Payload::BeNewRelay { verifying_key: [0; 32] }), format!("[BeNewRelay] [{}]", h));
    assert_eq!(text_of(Payload::NeedRelay), format!("[NeedRelay] [{}]", h));
    assert_eq!(text_of(Payload::Ack { reply_to: 77 }), format!("[Ack] [{}] reply_to=#77", h));
    assert_eq!(
        text_of(Payload::RelayHasNewClient { peer_addr: NetAddr::V4 { ip: 1, port: 2 }, peer_id: "q".to_string() }),
        format!("[RelayHasNewClient] [{}] 0.0.0.1:2 (q) wants to connect to you as relay", h)
    );
    assert_eq!(text_of(Payload::NoRelayAvailable), format!("[NoRelayAvailable] [{}]", h));
    assert_eq!(text_of(Payload::PunchTheHole), format!("[PunchTheHole] [{}]", h));
}

#[test]
fn successive_ids_are_all_different() {
    let mut c = MsgIdCounter::new();
    init_msg_id(&mut c, Some(u64::MAX - 500));
    let ids: Vec<u64> = (0..1000).map(|_| new_msg_id(&mut c)).collect();
    let mut sorted = ids.clone();
    sorted.sort();
    sorted.dedup();
    assert_eq!(sorted.len(), 1000);
}

#[test]
fn a_signal_reaches_the_registered_receiver_only() {
    let mut w = AckWaiter::new();
    let mut a = w.register(10).0.receiver();
    let mut b = w.register(11).0.receiver();
    assert!(w.resolve(11).is_some());
    assert_eq!(b.try_recv(), Ok(()));
    assert!(a.try_recv().is_err());
    assert!(w.is_pending(10));
}
