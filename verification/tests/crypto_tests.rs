use sha2::Digest;
use zeta9::addr::NetAddr;
use zeta9::crypto::{peer_id_from_verifying_key, AuthKeys};
use zeta9::records::{payload_from_record, payload_record};
use zeta9::node::new_message;
use zeta9::types::{Message, Payload};

fn sample_message() -> Message {
    new_message(
        5,
        NetAddr::V4 { ip: 0x0102_0304, port: 1 },
        "alice".to_string(),
        NetAddr::V4 { ip: 0x0506_0708, port: 2 },
        "bob".to_string(),
        99,
        Payload::Classic { txt: "hello".to_string() },
    )
}

#[test]
fn peer_id_is_hex_of_sha256() {
    let key = ed25519_dalek::SigningKey::from_bytes(&[7u8; 32]).verifying_key().to_bytes();
    let expected = hex::encode(sha2::Sha256::digest(key));
    let id = peer_id_from_verifying_key(&key);
    assert_eq!(id, expected);
    assert_eq!(id.len(), 64);
    let zero = peer_id_from_verifying_key(&[0u8; 32]);
    assert_eq!(zero, "66687aadf862bd776c8fc18b8e9f8e20089714856ee233b3902a591d0d5f2925");
}

#[test]
fn keys_are_stored_as_lower_case_hex() {
    let key = AuthKeys::from_signing_key([8u8; 32]).verifying_key;
    let (_, text) = payload_record(&Payload::Register { verifying_key: key });
    let text = text.unwrap();
    assert_eq!(text, hex::encode(key));
    assert_eq!(text.len(), 64);
    assert!(text.chars().all(|c| c.is_ascii_digit() || ('a'..='f').contains(&c)));
}

#[test]
fn stored_keys_read_back_in_either_case() {
    let key = AuthKeys::from_signing_key([9u8; 32]).verifying_key;
    let upper = hex::encode_upper(key);
    match payload_from_record("BeNewRelay", Some(&upper)) {
        Ok(Some(Payload::BeNewRelay { verifying_key })) => assert_eq!(verifying_key, key),
        other => panic!("{:?}", other),
    }
}

#[test]
fn key_pairs() {
    let keys = AuthKeys::from_signing_key([1u8; 32]);
    let expected = ed25519_dalek::SigningKey::from_bytes(&[1u8; 32]).verifying_key().to_bytes();
    assert_eq!(keys.verifying_key, expected);
    assert_eq!(keys.signing_key, [1u8; 32]);
    let fresh = AuthKeys::generate();
    let expected_fresh = ed25519_dalek::SigningKey::from_bytes(&fresh.signing_key).verifying_key().to_bytes();
    assert_eq!(fresh.verifying_key, expected_fresh);
    assert_eq!(AuthKeys::from_signing_key(fresh.signing_key).verifying_key, fresh.verifying_key);
    let other = AuthKeys::generate();
    assert_ne!(fresh.signing_key, other.signing_key);
    let copy = fresh.duplicate();
    assert_eq!(copy.signing_key, fresh.signing_key);
    assert_eq!(copy.verifying_key, fresh.verifying_key);
}

#[test]
fn a_signed_message_verifies() {
    let keys = AuthKeys::from_signing_key([2u8; 32]);
    let mut m = sample_message();
    let headers = b"encoded headers".to_vec();
    let payload = b"encoded payload".to_vec();
    m.sign(&keys.signing_key, &headers, &payload);
    assert_eq!(m.headers.signature.len(), 64);
    let mut whole = headers.clone();
    whole.extend_from_slice(&payload);
    let expected = ed25519_dalek::Signer::sign(&ed25519_dalek::SigningKey::from_bytes(&[2u8; 32]), &whole);
    assert_eq!(m.headers.signature, expected.to_bytes().to_vec());
    assert!(m.verify(&keys.verifying_key, &headers, &payload));
    assert_eq!(m.headers.msg_id, 5);
    assert!(matches!(&m.payload, Payload::Classic { txt } if txt == "hello"));
}

#[test]
fn tampering_breaks_the_signature() {
    let keys = AuthKeys::from_signing_key([3u8; 32]);
    let other = AuthKeys::from_signing_key([4u8; 32]);
    let mut m = sample_message();
    m.sign(&keys.signing_key, b"head", b"body");
    assert!(!m.verify(&keys.verifying_key, b"head", b"bodY"));
    assert!(m.verify(&keys.verifying_key, b"hea", b"dbody"));
    assert!(!m.verify(&other.verifying_key, b"head", b"body"));
    let mut cut = sample_message();
    cut.headers.signature = m.headers.signature[..63].to_vec();
    assert!(!cut.verify(&keys.verifying_key, b"head", b"body"));
    let unsigned = sample_message();
    assert!(!unsigned.verify(&keys.verifying_key, b"head", b"body"));
}
