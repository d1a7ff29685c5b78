use zeta9::addr::NetAddr;
use zeta9::peers::{get_verifying_key, PeerTable};
use zeta9::types::PeerInfo;

fn addr(last: u8, port: u16) -> NetAddr {
    NetAddr::V4 { ip: 0x0a00_0000 | last as u32, port }
}

fn peer(id: &str, username: &str, a: NetAddr, last_seen: u64) -> PeerInfo {
    PeerInfo {
        id: id.to_string(),
        addr: a,
        username: username.to_string(),
        last_seen,
        is_relay: false,
        verifying_key: [id.len() as u8; 32],
    }
}

#[test]
fn store_inserts_then_replaces_by_id() {
    let mut t = PeerTable::new();
    assert_eq!(t.len(), 0);
    t.store(peer("a", "alice", addr(1, 1), 10));
    t.store(peer("b", "bob", addr(2, 2), 20));
    assert_eq!(t.len(), 2);
    t.store(peer("a", "alice2", addr(3, 3), 30));
    assert_eq!(t.len(), 2);
    let first = t.get(0);
    assert_eq!(first.username, "alice2");
    assert_eq!(first.addr, addr(3, 3));
    assert_eq!(t.position_of("b"), Some(1));
    assert_eq!(t.position_of("c"), None);
}

#[test]
fn register_refreshes_or_adds() {
    let mut t = PeerTable::new();
    t.register("a", 5, peer("a", "alice", addr(1, 1), 5));
    assert_eq!(t.len(), 1);
    t.register("a", 50, peer("a", "other", addr(9, 9), 50));
    assert_eq!(t.len(), 1);
    let p = t.get(0);
    assert_eq!(p.last_seen, 50);
    assert_eq!(p.username, "alice");
    assert_eq!(p.addr, addr(1, 1));
}

#[test]
fn disconnected_peers_are_dropped_after_120_seconds() {
    let mut t = PeerTable::new();
    t.store(peer("a", "alice", addr(1, 1), 1000));
    t.store(peer("b", "bob", addr(2, 2), 881));
    t.store(peer("c", "carol", addr(3, 3), 880));
    t.store(peer("d", "dan", addr(4, 4), 0));
    let lost = t.delete_disconnected_peers(1000);
    assert_eq!(lost, vec![addr(3, 3), addr(4, 4)]);
    assert_eq!(t.len(), 2);
    assert_eq!(t.get(0).username, "alice");
    assert_eq!(t.get(1).username, "bob");
    let lost = t.delete_disconnected_peers(1000);
    assert!(lost.is_empty());
}

#[test]
fn a_peer_seen_in_the_future_counts_as_lost() {
    let mut t = PeerTable::new();
    t.store(peer("a", "alice", addr(1, 1), 2000));
    let lost = t.delete_disconnected_peers(1000);
    assert_eq!(lost, vec![addr(1, 1)]);
    assert_eq!(t.len(), 0);
}

#[test]
fn lookups() {
    let mut t = PeerTable::new();
    t.store(peer("a", "alice", addr(1, 1), 1));
    t.store(peer("b", "bob", addr(2, 2), 2));
    t.store(peer("c", "bob", addr(3, 3), 3));
    assert_eq!(t.find_by_username("bob").unwrap().id, "b");
    assert!(t.find_by_username("zed").is_none());
    assert_eq!(t.find_elsewhere(&addr(1, 1)).unwrap().id, "b");
    assert_eq!(t.find_elsewhere(&addr(2, 2)).unwrap().id, "a");
    assert!(t.has_addr(&addr(3, 3)));
    assert!(!t.has_addr(&addr(3, 4)));
    assert_eq!(t.addrs_except(&addr(2, 2)), vec![addr(1, 1), addr(3, 3)]);
    let all = t.records();
    assert_eq!(all.iter().map(|p| p.id.as_str()).collect::<Vec<_>>(), vec!["a", "b", "c"]);
    assert_eq!(get_verifying_key(&t, "alice"), Some([1u8; 32]));
    assert_eq!(get_verifying_key(&t, "nobody"), None);
}

#[test]
fn find_elsewhere_when_only_the_asker_is_known() {
    let mut t = PeerTable::new();
    t.store(peer("a", "alice", addr(1, 1), 1));
    assert!(t.find_elsewhere(&addr(1, 1)).is_none());
    assert!(PeerTable::new().find_elsewhere(&addr(1, 1)).is_none());
}
