use zeta9::addr::NetAddr;
use zeta9::records::{
    payload_from_record, payload_record, peer_from_row, peer_info_from_text, peer_info_text_of, splitn,
    stale_peers_query, RecordError,
};
use zeta9::text::{chars_of, string_of};
use zeta9::types::{Payload, PeerInfo};

fn valid_key(seed: u8) -> [u8; 32] {
    ed25519_dalek::SigningKey::from_bytes(&[seed; 32]).verifying_key().to_bytes()
}

/// 32 bytes that do not decompress to a curve point.
fn not_a_point() -> [u8; 32] {
    for b in 0u8..=255 {
        let mut k = [0u8; 32];
        k[0] = b;
        k[1] = 0x55;
        if ed25519_dalek::VerifyingKey::from_bytes(&k).is_err() {
            return k;
        }
    }
    panic!("no invalid point found")
}

fn show<T: std::fmt::Debug>(t: &T) -> String {
    format!("{:?}", t)
}

fn peer(id: &str, username: &str, key: [u8; 32]) -> PeerInfo {
    PeerInfo {
        id: id.to_string(),
        addr: NetAddr::V4 { ip: 0x0102_0304, port: 80 },
        username: username.to_string(),
        last_seen: 100,
        is_relay: true,
        verifying_key: key,
    }
}

fn read_back(p: &Payload) -> Result<Option<Payload>, RecordError> {
    let (kind, text) = payload_record(p);
    payload_from_record(&kind, text.as_deref())
}

#[test]
fn records_of_simple_payloads() {
    let (k, t) = payload_record(&Payload::Classic { txt: "hi there".to_string() });
    assert_eq!((k.as_str(), t.as_deref()), ("Classic", Some("hi there")));
    let (k, t) = payload_record(&Payload::Ack { reply_to: 42 });
    assert_eq!((k.as_str(), t.as_deref()), ("Ack", Some("42")));
    let (k, t) = payload_record(&Payload::Connect);
    assert_eq!((k.as_str(), t), ("Connect", None));
    let (k, t) = payload_record(&Payload::PunchTheHole);
    assert_eq!((k.as_str(), t), ("PunchTheHole", None));
    let (k, t) = payload_record(&Payload::AskForAddr { username: "bob".to_string() });
    assert_eq!((k.as_str(), t.as_deref()), ("AskForAddr", Some("bob")));
}

#[test]
fn record_of_keys_is_hex() {
    let key = valid_key(3);
    let (k, t) = payload_record(&Payload::Register { verifying_key: key });
    assert_eq!(k, "Register");
    assert_eq!(t.unwrap(), hex::encode(key));
    let (k, t) = payload_record(&Payload::BeNewRelay { verifying_key: key });
    assert_eq!(k, "BeNewRelay");
    assert_eq!(t.unwrap(), hex::encode(key));
}

#[test]
fn record_of_new_client_and_peer_info() {
    let (k, t) = payload_record(&Payload::RelayHasNewClient {
        peer_addr: NetAddr::V4 { ip: 0x0a00_0001, port: 9 },
        peer_id: "carol".to_string(),
    });
    assert_eq!(k, "RelayHasNewClient");
    assert_eq!(t.unwrap(), "10.0.0.1:9|carol");
    let key = valid_key(5);
    let p = peer("abc", "alice", key);
    let expected = format!("616263|1.2.3.4:80|alice|100|true|{}", hex::encode(key));
    assert_eq!(peer_info_text_of(&p), expected);
    let (k, t) = payload_record(&Payload::PeerInfo { peer_info: peer("abc", "alice", key) });
    assert_eq!(k, "PeerInfo");
    assert_eq!(t.unwrap(), expected);
}

#[test]
fn payloads_read_back_as_stored() {
    let key = valid_key(9);
    let samples = vec![
        Payload::Classic { txt: "hello | world".to_string() },
        Payload::Ack { reply_to: u64::MAX },
        Payload::AskForAddr { username: "dave".to_string() },
        Payload::Register { verifying_key: key },
        Payload::BeNewRelay { verifying_key: key },
        Payload::Connect,
        Payload::NeedRelay,
        Payload::NoRelayAvailable,
        Payload::PunchTheHole,
        Payload::RelayHasNewClient { peer_addr: NetAddr::V4 { ip: 0x7f00_0001, port: 1234 }, peer_id: "x|y".to_string() },
        Payload::RelayHasNewClient { peer_addr: NetAddr::V6 { ip: 1, port: 80, flowinfo: 0, scope_id: 3 }, peer_id: "v6".to_string() },
        Payload::RelayHasNewClient {
            peer_addr: NetAddr::V6 { ip: 0xffff_0a00_0001, port: 9, flowinfo: 0, scope_id: 0 },
            peer_id: "mapped".to_string(),
        },
    ];
    for p in samples {
        let back = read_back(&p).unwrap().unwrap();
        assert_eq!(show(&back), show(&p));
    }
}

#[test]
fn peer_info_reads_back_with_hex_id() {
    let key = valid_key(11);
    let p = Payload::PeerInfo { peer_info: peer("abc", "alice", key) };
    let back = read_back(&p).unwrap().unwrap();
    let expected = Payload::PeerInfo { peer_info: peer("616263", "alice", key) };
    assert_eq!(show(&back), show(&expected));
}

#[test]
fn unknown_or_empty_kinds_are_skipped() {
    assert!(matches!(payload_from_record("Classic", None), Ok(None)));
    assert!(matches!(payload_from_record("Ack", None), Ok(None)));
    assert!(matches!(payload_from_record("Whatever", Some("x")), Ok(None)));
    assert!(matches!(payload_from_record("", None), Ok(None)));
    assert!(matches!(payload_from_record("Connect", Some("ignored")), Ok(Some(Payload::Connect))));
    assert!(matches!(payload_from_record("NeedRelay", None), Ok(Some(Payload::NeedRelay))));
}

#[test]
fn unreadable_ack_reads_as_zero() {
    assert!(matches!(payload_from_record("Ack", Some("abc")), Ok(Some(Payload::Ack { reply_to: 0 }))));
    assert!(matches!(payload_from_record("Ack", Some("+7")), Ok(Some(Payload::Ack { reply_to: 7 }))));
    assert!(matches!(payload_from_record("Ack", Some("18446744073709551616")), Ok(Some(Payload::Ack { reply_to: 0 }))));
}

#[test]
fn key_errors() {
    assert_eq!(payload_from_record("Register", Some("zz")).unwrap_err(), RecordError::KeyNotHex);
    assert_eq!(payload_from_record("Register", Some("abc")).unwrap_err(), RecordError::KeyNotHex);
    assert_eq!(payload_from_record("BeNewRelay", Some("abcd")).unwrap_err(), RecordError::KeyNotThirtyTwoBytes);
    let bad = hex::encode(not_a_point());
    assert_eq!(payload_from_record("Register", Some(&bad)).unwrap_err(), RecordError::KeyNotPoint);
    assert_eq!(payload_from_record("BeNewRelay", Some(&bad)).unwrap_err(), RecordError::KeyNotPoint);
    let upper = hex::encode_upper(valid_key(1));
    assert!(matches!(payload_from_record("Register", Some(&upper)), Ok(Some(Payload::Register { .. }))));
}

#[test]
fn corrupt_records() {
    assert_eq!(payload_from_record("RelayHasNewClient", Some("nowhere|x")).unwrap_err(), RecordError::Corrupt);
    assert_eq!(payload_from_record("PeerInfo", Some("a|1.2.3.4:80|b|1|true")).unwrap_err(), RecordError::Corrupt);
    let key = hex::encode(valid_key(2));
    let bad_bool = format!("a|1.2.3.4:80|b|1|yes|{}", key);
    assert_eq!(payload_from_record("PeerInfo", Some(&bad_bool)).unwrap_err(), RecordError::Corrupt);
    let bad_time = format!("a|1.2.3.4:80|b|-1|true|{}", key);
    assert_eq!(payload_from_record("PeerInfo", Some(&bad_time)).unwrap_err(), RecordError::Corrupt);
}

#[test]
fn new_client_without_id_reads_empty_id() {
    match payload_from_record("RelayHasNewClient", Some("1.2.3.4:5")) {
        Ok(Some(Payload::RelayHasNewClient { peer_addr, peer_id })) => {
            assert_eq!(peer_addr, NetAddr::V4 { ip: 0x0102_0304, port: 5 });
            assert_eq!(peer_id, "");
        }
        other => panic!("{:?}", other),
    }
}

#[test]
fn peer_info_text_with_bar_in_last_field() {
    let key = hex::encode(valid_key(4));
    let text = format!("id|[::1]:7|name|12|false|{}", key);
    let p = peer_info_from_text(&chars_of(&text)).unwrap();
    assert_eq!(p.id, "id");
    assert_eq!(p.addr, NetAddr::V6 { ip: 1, port: 7, flowinfo: 0, scope_id: 0 });
    assert_eq!(p.username, "name");
    assert_eq!(p.last_seen, 12);
    assert!(!p.is_relay);
    let extra = format!("id|1.2.3.4:7|name|12|false|{}|more", key);
    assert!(peer_info_from_text(&chars_of(&extra)).is_none());
}

#[test]
fn splitn_like_str_splitn() {
    for (s, n) in [("a|b|c", 2usize), ("a|b|c", 5), ("", 3), ("|", 2), ("abc", 1), ("a||b", 3), ("x", 0)] {
        let ours: Vec<String> = splitn(&chars_of(s), n, '|').iter().map(|p| string_of(p)).collect();
        let std: Vec<String> = s.splitn(n, '|').map(|p| p.to_string()).collect();
        assert_eq!(ours, std, "{} {}", s, n);
    }
}

#[test]
fn peer_rows() {
    let key = valid_key(7);
    let p = peer_from_row("id1", "9.8.7.6:5", "erin", 77, false, &key).unwrap();
    assert_eq!(p.id, "id1");
    assert_eq!(p.addr, NetAddr::V4 { ip: 0x0908_0706, port: 5 });
    assert_eq!(p.username, "erin");
    assert_eq!(p.last_seen, 77);
    assert!(!p.is_relay);
    assert_eq!(p.verifying_key, key);
    assert_eq!(peer_from_row("id1", "nowhere", "erin", 77, false, &key).unwrap_err(), RecordError::Corrupt);
    assert_eq!(peer_from_row("id1", "9.8.7.6:5", "erin", 77, false, &key[..31]).unwrap_err(), RecordError::Corrupt);
    assert_eq!(peer_from_row("id1", "9.8.7.6:5", "erin", 77, false, &not_a_point()).unwrap_err(), RecordError::Corrupt);
}

#[test]
fn stale_peer_queries() {
    assert_eq!(stale_peers_query(0), "DELETE FROM peers WHERE addr NOT IN ()");
    assert_eq!(stale_peers_query(1), "DELETE FROM peers WHERE addr NOT IN (?1)");
    assert_eq!(stale_peers_query(3), "DELETE FROM peers WHERE addr NOT IN (?1, ?2, ?3)");
    let q = stale_peers_query(11);
    assert!(q.ends_with("?9, ?10, ?11)"));
}

#[test]
fn v6_peer_info_reads_back() {
    let key = valid_key(12);
    let mut p = peer("id", "zoe", key);
    p.addr = NetAddr::V6 { ip: 0x2001_0db8_0000_0000_0000_0000_0000_0001, port: 443, flowinfo: 0, scope_id: 0 };
    let text = peer_info_text_of(&p);
    assert!(text.starts_with("6964|[2001:db8::1]:443|zoe|100|true|"));
    let back = read_back(&Payload::PeerInfo { peer_info: p }).unwrap().unwrap();
    match back {
        Payload::PeerInfo { peer_info } => {
            assert_eq!(peer_info.addr, NetAddr::V6 { ip: 0x2001_0db8_0000_0000_0000_0000_0000_0001, port: 443, flowinfo: 0, scope_id: 0 });
            assert_eq!(peer_info.id, "6964");
        }
        other => panic!("{:?}", other),
    }
}

#[test]
fn flow_label_is_not_stored() {
    let a = NetAddr::V6 { ip: 1, port: 80, flowinfo: 5, scope_id: 0 };
    let back = read_back(&Payload::RelayHasNewClient { peer_addr: a, peer_id: "f".to_string() }).unwrap().unwrap();
    match back {
        Payload::RelayHasNewClient { peer_addr, .. } => {
            assert_eq!(peer_addr, NetAddr::V6 { ip: 1, port: 80, flowinfo: 0, scope_id: 0 });
        }
        other => panic!("{:?}", other),
    }
}

#[test]
fn peer_rows_round_trip() {
    let key = valid_key(13);
    for a in [NetAddr::V4 { ip: 0x0a0b_0c0d, port: 1 }, NetAddr::V6 { ip: 0xfe80 << 112 | 7, port: 2, flowinfo: 0, scope_id: 4 }] {
        let text = zeta9::addr::addr_to_string(&a);
        let p = peer_from_row("pid", &text, "u", 3, true, &key).unwrap();
        assert_eq!(p.addr, a);
    }
}
