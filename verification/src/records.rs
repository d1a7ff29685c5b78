//! The text form in which a node stores message payloads and peers in its
//! database, and how they are read back.

use vstd::prelude::*;
use crate::addr::{NetAddr, addr_text, addr_to_string};
use crate::addr_parse::{parse_addr, parse_addr_spec, lemma_addr_text_no_bar, lemma_parse_addr_text, text_keeps};
use crate::crypto::{ed25519_key_valid, hex_decode, hex_decode_spec, hex_encode, hex_lower, key_is_valid, lemma_hex_round_trip};
use crate::text::{
    chars_of, decimal, decimal_string, lemma_decimal, lemma_parse_bool_text, lemma_parse_decimal, parse_bool, parse_bool_spec, parse_u64, parse_u64_spec,
    push_char, push_chars, push_decimal, push_str, str_eq, string_of,
};
use crate::types::{Payload, PayloadView, PeerInfo, PeerInfoView};

verus! {

/// Why a stored payload or peer cannot be read back.
#[derive(Clone, Copy, PartialEq, Eq, Structural, Debug)]
pub enum RecordError {
    /// A stored verifying key is not hex text.
    KeyNotHex,
    /// A stored verifying key is not 32 bytes long.
    KeyNotThirtyTwoBytes,
    /// A stored verifying key is no curve point.
    KeyNotPoint,
    /// A stored peer record or address does not have the expected form.
    Corrupt,
}

/// `true` or `false`, as `bool` is written.
pub open spec fn bool_text(b: bool) -> Seq<char> {
    if b {
        seq!['t', 'r', 'u', 'e']
    } else {
        seq!['f', 'a', 'l', 's', 'e']
    }
}

/// The text of a peer record: hex of the identifier's bytes, address,
/// name, last seen, relay flag and hex of the verifying key, joined by `|`.
pub open spec fn peer_info_text(p: PeerInfoView) -> Seq<char> {
    hex_lower(vstd::utf8::encode_utf8(p.id)) + seq!['|'] + addr_text(p.addr) + seq!['|'] + p.username
        + seq!['|'] + decimal(p.last_seen as nat) + seq!['|'] + bool_text(p.is_relay) + seq!['|']
        + hex_lower(p.verifying_key)
}

/// The stored form of a payload: its kind, and its contents as text when
/// it has any.
pub open spec fn payload_record_spec(p: PayloadView) -> (Seq<char>, Option<Seq<char>>) {
    match p {
        PayloadView::Classic { txt } => ("Classic"@, Some(txt)),
        PayloadView::Ack { reply_to } => ("Ack"@, Some(decimal(reply_to as nat))),
        PayloadView::PeerInfo { peer_info } => ("PeerInfo"@, Some(peer_info_text(peer_info))),
        PayloadView::RelayHasNewClient { peer_addr, peer_id } => (
            "RelayHasNewClient"@,
            Some(addr_text(peer_addr) + seq!['|'] + peer_id),
        ),
        PayloadView::AskForAddr { username } => ("AskForAddr"@, Some(username)),
        PayloadView::Register { verifying_key } => ("Register"@, Some(hex_lower(verifying_key))),
        PayloadView::Connect => ("Connect"@, None),
        PayloadView::BeNewRelay { verifying_key } => ("BeNewRelay"@, Some(hex_lower(verifying_key))),
        PayloadView::NeedRelay => ("NeedRelay"@, None),
        PayloadView::NoRelayAvailable => ("NoRelayAvailable"@, None),
        PayloadView::PunchTheHole => ("PunchTheHole"@, None),
    }
}

/// The index of the first `c` in `s` at or after `i`.
pub open spec fn index_from(s: Seq<char>, c: char, i: int) -> Option<int>
    decreases s.len() - i,
{
    if i < 0 || i >= s.len() {
        None
    } else if s[i] == c {
        Some(i)
    } else {
        index_from(s, c, i + 1)
    }
}

/// `s` cut at its first `c`: the text before, and the text after if
/// there is a `c`.
pub open spec fn split_at_first(s: Seq<char>, c: char) -> (Seq<char>, Option<Seq<char>>) {
    match index_from(s, c, 0) {
        Some(i) => (s.subrange(0, i), Some(s.subrange(i + 1, s.len() as int))),
        None => (s, None),
    }
}

/// The pieces that `str::splitn(n, c)` gives: at most `n`, the last
/// holding the rest of the text.
pub open spec fn splitn_spec(s: Seq<char>, n: nat, c: char) -> Seq<Seq<char>>
    decreases n,
{
    if n == 0 {
        seq![]
    } else if n == 1 {
        seq![s]
    } else {
        match split_at_first(s, c) {
            (a, Some(rest)) => seq![a] + splitn_spec(rest, (n - 1) as nat, c),
            (a, None) => seq![a],
        }
    }
}

/// A verifying key read from hex text, or why it cannot be.
pub open spec fn key_from_hex_spec(t: Seq<char>) -> Result<Seq<u8>, RecordError> {
    match hex_decode_spec(t) {
        None => Err(RecordError::KeyNotHex),
        Some(b) => if b.len() != 32 {
            Err(RecordError::KeyNotThirtyTwoBytes)
        } else if !ed25519_key_valid(b) {
            Err(RecordError::KeyNotPoint)
        } else {
            Ok(b)
        },
    }
}

/// A peer record read back from its text. The identifier is the first
/// field as it stands (the hex text), while the other fields are read back
/// as what they denote; any piece missing or unreadable makes the record
/// corrupt.
pub open spec fn peer_info_from_text_spec(s: Seq<char>) -> Option<PeerInfoView> {
    let parts = splitn_spec(s, 6, '|');
    if parts.len() < 6 {
        None
    } else {
        match (parse_addr_spec(parts[1]), parse_u64_spec(parts[3]), parse_bool_spec(parts[4]), key_from_hex_spec(parts[5])) {
            (Some(addr), Some(last_seen), Some(is_relay), Ok(key)) => Some(
                PeerInfoView {
                    id: parts[0],
                    addr,
                    username: parts[2],
                    last_seen,
                    is_relay,
                    verifying_key: key,
                },
            ),
            _ => None,
        }
    }
}

/// A payload read back from its stored form. An unknown kind, or a kind
/// that needs contents stored without them, gives nothing (the record is
/// skipped); an unreadable number of an acknowledgement reads as 0.
pub open spec fn payload_from_record_spec(kind: Seq<char>, text: Option<Seq<char>>) -> Result<Option<PayloadView>, RecordError> {
    if kind == "Classic"@ && text is Some {
        Ok(Some(PayloadView::Classic { txt: text.unwrap() }))
    } else if kind == "AskForAddr"@ && text is Some {
        Ok(Some(PayloadView::AskForAddr { username: text.unwrap() }))
    } else if kind == "Ack"@ && text is Some {
        Ok(Some(PayloadView::Ack { reply_to: match parse_u64_spec(text.unwrap()) {
            Some(v) => v,
            None => 0,
        } }))
    } else if kind == "PeerInfo"@ && text is Some {
        match peer_info_from_text_spec(text.unwrap()) {
            Some(p) => Ok(Some(PayloadView::PeerInfo { peer_info: p })),
            None => Err(RecordError::Corrupt),
        }
    } else if kind == "RelayHasNewClient"@ && text is Some {
        let parts = splitn_spec(text.unwrap(), 2, '|');
        match parse_addr_spec(parts[0]) {
            Some(a) => Ok(Some(PayloadView::RelayHasNewClient {
                peer_addr: a,
                peer_id: if parts.len() > 1 { parts[1] } else { seq![] },
            })),
            None => Err(RecordError::Corrupt),
        }
    } else if kind == "BeNewRelay"@ && text is Some {
        match key_from_hex_spec(text.unwrap()) {
            Ok(k) => Ok(Some(PayloadView::BeNewRelay { verifying_key: k })),
            Err(e) => Err(e),
        }
    } else if kind == "Register"@ && text is Some {
        match key_from_hex_spec(text.unwrap()) {
            Ok(k) => Ok(Some(PayloadView::Register { verifying_key: k })),
            Err(e) => Err(e),
        }
    } else if kind == "Connect"@ {
        Ok(Some(PayloadView::Connect))
    } else if kind == "NeedRelay"@ {
        Ok(Some(PayloadView::NeedRelay))
    } else if kind == "NoRelayAvailable"@ {
        Ok(Some(PayloadView::NoRelayAvailable))
    } else if kind == "PunchTheHole"@ {
        Ok(Some(PayloadView::PunchTheHole))
    } else {
        Ok(None)
    }
}

/// A `String` with the text of a string slice.
pub fn owned(s: &str) -> (r: String)
    ensures
        r@ == s@,
{
    string_of(&chars_of(s))
}

fn push_bool(s: &mut String, b: bool)
    ensures
        final(s)@ == old(s)@ + bool_text(b),
{
    if b {
        push_char(s, 't');
        push_char(s, 'r');
        push_char(s, 'u');
        push_char(s, 'e');
    } else {
        push_char(s, 'f');
        push_char(s, 'a');
        push_char(s, 'l');
        push_char(s, 's');
        push_char(s, 'e');
    }
    assert(final(s)@ =~= old(s)@ + bool_text(b));
}

/// The text of a peer record.
pub fn peer_info_text_of(p: &PeerInfo) -> (t: String)
    ensures
        t@ == peer_info_text(p@),
{
    let id_hex = hex_encode(p.id.as_str().as_bytes());
    let mut t = String::new();
    push_str(&mut t, id_hex.as_str());
    push_char(&mut t, '|');
    let addr = addr_to_string(&p.addr);
    push_str(&mut t, addr.as_str());
    push_char(&mut t, '|');
    push_str(&mut t, p.username.as_str());
    push_char(&mut t, '|');
    push_decimal(&mut t, p.last_seen);
    push_char(&mut t, '|');
    push_bool(&mut t, p.is_relay);
    push_char(&mut t, '|');
    let key_hex = hex_encode(&p.verifying_key);
    push_str(&mut t, key_hex.as_str());
    assert(t@ =~= peer_info_text(p@));
    t
}

/// The stored form of a payload: its kind, and its contents as text when
/// it has any.
pub fn payload_record(p: &Payload) -> (r: (String, Option<String>))
    ensures
        r.0@ == payload_record_spec(p@).0,
        match payload_record_spec(p@).1 {
            Some(t) => r.1 matches Some(u) && u@ == t,
            None => r.1 is None,
        },
{
    match p {
        Payload::Classic { txt } => (owned("Classic"), Some(txt.clone())),
        Payload::Ack { reply_to } => (owned("Ack"), Some(decimal_string(*reply_to))),
        Payload::PeerInfo { peer_info } => (owned("PeerInfo"), Some(peer_info_text_of(peer_info))),
        Payload::RelayHasNewClient { peer_addr, peer_id } => {
            let mut t = addr_to_string(peer_addr);
            push_char(&mut t, '|');
            push_str(&mut t, peer_id.as_str());
            (owned("RelayHasNewClient"), Some(t))
        },
        Payload::AskForAddr { username } => (owned("AskForAddr"), Some(username.clone())),
        Payload::Register { verifying_key } => (owned("Register"), Some(hex_encode(verifying_key))),
        Payload::Connect => (owned("Connect"), None),
        Payload::BeNewRelay { verifying_key } => (owned("BeNewRelay"), Some(hex_encode(verifying_key))),
        Payload::NeedRelay => (owned("NeedRelay"), None),
        Payload::NoRelayAvailable => (owned("NoRelayAvailable"), None),
        Payload::PunchTheHole => (owned("PunchTheHole"), None),
    }
}

fn index_from_exec(s: &Vec<char>, c: char, i: usize) -> (r: Option<usize>)
    requires
        i <= s.len(),
    ensures
        match index_from(s@, c, i as int) {
            Some(k) => r == Some(k as usize) && i <= k < s.len(),
            None => r is None,
        },
{
    let mut j = i;
    while j < s.len()
        invariant
            i <= j <= s.len(),
            index_from(s@, c, i as int) == index_from(s@, c, j as int),
        decreases s.len() - j,
    {
        if s[j] == c {
            return Some(j);
        }
        j = j + 1;
    }
    None
}

fn sub_chars(s: &Vec<char>, from: usize, to: usize) -> (r: Vec<char>)
    requires
        from <= to <= s.len(),
    ensures
        r@ == s@.subrange(from as int, to as int),
{
    let mut r: Vec<char> = Vec::new();
    let mut i = from;
    while i < to
        invariant
            from <= i <= to <= s.len(),
            r@ == s@.subrange(from as int, i as int),
        decreases to - i,
    {
        r.push(s[i]);
        i = i + 1;
    }
    r
}

fn split_first_exec(s: &Vec<char>, c: char) -> (r: (Vec<char>, Option<Vec<char>>))
    ensures
        r.0@ == split_at_first(s@, c).0,
        match split_at_first(s@, c).1 {
            Some(t) => r.1 matches Some(u) && u@ == t,
            None => r.1 is None,
        },
{
    match index_from_exec(s, c, 0) {
        Some(i) => (sub_chars(s, 0, i), Some(sub_chars(s, i + 1, s.len()))),
        None => {
            let all = sub_chars(s, 0, s.len());
            assert(s@.subrange(0, s.len() as int) =~= s@);
            (all, None)
        },
    }
}

pub open spec fn pieces_view(v: Seq<Vec<char>>) -> Seq<Seq<char>> {
    v.map_values(|p: Vec<char>| p@)
}

/// The pieces of `s` that `str::splitn(n, c)` gives.
pub fn splitn(s: &Vec<char>, n: usize, c: char) -> (r: Vec<Vec<char>>)
    ensures
        pieces_view(r@) == splitn_spec(s@, n as nat, c),
    decreases n,
{
    if n == 0 {
        let r: Vec<Vec<char>> = Vec::new();
        assert(pieces_view(r@) =~= seq![]);
        r
    } else if n == 1 {
        let mut r: Vec<Vec<char>> = Vec::new();
        r.push(sub_chars(s, 0, s.len()));
        assert(s@.subrange(0, s.len() as int) =~= s@);
        assert(pieces_view(r@) =~= seq![s@]);
        r
    } else {
        let (a, rest) = split_first_exec(s, c);
        match rest {
            Some(t) => {
                let tail = splitn(&t, n - 1, c);
                let mut r: Vec<Vec<char>> = Vec::new();
                r.push(a);
                let mut i: usize = 0;
                while i < tail.len()
                    invariant
                        i <= tail@.len(),
                        pieces_view(tail@) == splitn_spec(t@, (n - 1) as nat, c),
                        pieces_view(r@) == seq![a@] + pieces_view(tail@).subrange(0, i as int),
                    decreases tail.len() - i,
                {
                    let ghost before = r@;
                    r.push(sub_chars(&tail[i], 0, tail[i].len()));
                    assert(tail@[i as int]@.subrange(0, tail@[i as int]@.len() as int) =~= tail@[i as int]@);
                    assert(pieces_view(r@) =~= pieces_view(before).push(tail@[i as int]@));
                    assert(pieces_view(tail@).subrange(0, i + 1) =~= pieces_view(tail@).subrange(0, i as int).push(tail@[i as int]@));
                    i = i + 1;
                }
                assert(pieces_view(tail@).subrange(0, tail@.len() as int) =~= pieces_view(tail@));
                r
            },
            None => {
                let mut r: Vec<Vec<char>> = Vec::new();
                r.push(a);
                assert(pieces_view(r@) =~= seq![a@]);
                r
            },
        }
    }
}

fn key_from_hex(t: &Vec<char>) -> (r: Result<[u8; 32], RecordError>)
    ensures
        match key_from_hex_spec(t@) {
            Ok(k) => r matches Ok(a) && a@ == k,
            Err(e) => r == Err::<[u8; 32], RecordError>(e),
        },
{
    let text = string_of(t);
    match hex_decode(text.as_str()) {
        None => Err(RecordError::KeyNotHex),
        Some(b) => {
            if b.len() != 32 {
                return Err(RecordError::KeyNotThirtyTwoBytes);
            }
            let mut key: [u8; 32] = [0u8; 32];
            let mut i: usize = 0;
            while i < 32
                invariant
                    i <= 32,
                    b@.len() == 32,
                    forall|j: int| 0 <= j < i ==> key@[j] == b@[j],
                decreases 32 - i,
            {
                key[i] = b[i];
                i = i + 1;
            }
            assert(key@ =~= b@);
            if !key_is_valid(&key) {
                return Err(RecordError::KeyNotPoint);
            }
            Ok(key)
        },
    }
}

/// Reads a peer record back from its text.
pub fn peer_info_from_text(s: &Vec<char>) -> (r: Option<PeerInfo>)
    ensures
        match peer_info_from_text_spec(s@) {
            Some(p) => r matches Some(q) && q@ == p,
            None => r is None,
        },
{
    let parts = splitn(s, 6, '|');
    if parts.len() < 6 {
        return None;
    }
    assert(parts@[1]@ == pieces_view(parts@)[1]);
    assert(parts@[3]@ == pieces_view(parts@)[3]);
    assert(parts@[4]@ == pieces_view(parts@)[4]);
    assert(parts@[5]@ == pieces_view(parts@)[5]);
    assert(parts@[0]@ == pieces_view(parts@)[0]);
    assert(parts@[2]@ == pieces_view(parts@)[2]);
    let addr = parse_addr(&parts[1]);
    let last_seen = parse_u64(&parts[3]);
    let is_relay = parse_bool(&parts[4]);
    let key = key_from_hex(&parts[5]);
    match (addr, last_seen, is_relay, key) {
        (Some(addr), Some(last_seen), Some(is_relay), Ok(verifying_key)) => Some(
            PeerInfo {
                id: string_of(&parts[0]),
                addr,
                username: string_of(&parts[2]),
                last_seen,
                is_relay,
                verifying_key,
            },
        ),
        _ => None,
    }
}

/// Reads a payload back from its stored form (`Ok(None)`: the record is
/// skipped).
pub fn payload_from_record(kind: &str, text: Option<&str>) -> (r: Result<Option<Payload>, RecordError>)
    ensures
        match payload_from_record_spec(kind@, match text { Some(t) => Some(t@), None => None }) {
            Ok(Some(p)) => r matches Ok(Some(q)) && q@ == p,
            Ok(None) => r matches Ok(None),
            Err(e) => r == Err::<Option<Payload>, RecordError>(e),
        },
{
    let has = text.is_some();
    if str_eq(kind, "Classic") && has {
        Ok(Some(Payload::Classic { txt: owned(text.unwrap()) }))
    } else if str_eq(kind, "AskForAddr") && has {
        Ok(Some(Payload::AskForAddr { username: owned(text.unwrap()) }))
    } else if str_eq(kind, "Ack") && has {
        let reply_to = match parse_u64(&chars_of(text.unwrap())) {
            Some(v) => v,
            None => 0,
        };
        Ok(Some(Payload::Ack { reply_to }))
    } else if str_eq(kind, "PeerInfo") && has {
        match peer_info_from_text(&chars_of(text.unwrap())) {
            Some(p) => Ok(Some(Payload::PeerInfo { peer_info: p })),
            None => Err(RecordError::Corrupt),
        }
    } else if str_eq(kind, "RelayHasNewClient") && has {
        let parts = splitn(&chars_of(text.unwrap()), 2, '|');
        let ghost tv = text.unwrap()@;
        assert(splitn_spec(tv, 2, '|').len() >= 1);
        assert(parts@[0]@ == pieces_view(parts@)[0]);
        match parse_addr(&parts[0]) {
            Some(a) => {
                let peer_id = if parts.len() > 1 {
                    assert(parts@[1]@ == pieces_view(parts@)[1]);
                    string_of(&parts[1])
                } else {
                    String::new()
                };
                Ok(Some(Payload::RelayHasNewClient { peer_addr: a, peer_id }))
            },
            None => Err(RecordError::Corrupt),
        }
    } else if str_eq(kind, "BeNewRelay") && has {
        match key_from_hex(&chars_of(text.unwrap())) {
            Ok(k) => Ok(Some(Payload::BeNewRelay { verifying_key: k })),
            Err(e) => Err(e),
        }
    } else if str_eq(kind, "Register") && has {
        match key_from_hex(&chars_of(text.unwrap())) {
            Ok(k) => Ok(Some(Payload::Register { verifying_key: k })),
            Err(e) => Err(e),
        }
    } else if str_eq(kind, "Connect") {
        Ok(Some(Payload::Connect))
    } else if str_eq(kind, "NeedRelay") {
        Ok(Some(Payload::NeedRelay))
    } else if str_eq(kind, "NoRelayAvailable") {
        Ok(Some(Payload::NoRelayAvailable))
    } else if str_eq(kind, "PunchTheHole") {
        Ok(Some(Payload::PunchTheHole))
    } else {
        Ok(None)
    }
}

/// A peer read back from a row of the peers table: its address must read
/// as a socket address and its key must be 32 bytes forming a verifying
/// key; otherwise the row is corrupt.
pub open spec fn peer_from_row_spec(
    id: Seq<char>,
    addr: Seq<char>,
    username: Seq<char>,
    last_seen: u64,
    is_relay: bool,
    key: Seq<u8>,
) -> Option<PeerInfoView> {
    match parse_addr_spec(addr) {
        Some(a) => if key.len() == 32 && ed25519_key_valid(key) {
            Some(PeerInfoView { id, addr: a, username, last_seen, is_relay, verifying_key: key })
        } else {
            None
        },
        None => None,
    }
}

/// Reads a peer back from a row of the peers table.
pub fn peer_from_row(
    id: &str,
    addr: &str,
    username: &str,
    last_seen: u64,
    is_relay: bool,
    key: &[u8],
) -> (r: Result<PeerInfo, RecordError>)
    ensures
        match peer_from_row_spec(id@, addr@, username@, last_seen, is_relay, key@) {
            Some(p) => r matches Ok(q) && q@ == p,
            None => r == Err::<PeerInfo, RecordError>(RecordError::Corrupt),
        },
{
    let a = match parse_addr(&chars_of(addr)) {
        Some(a) => a,
        None => return Err(RecordError::Corrupt),
    };
    if key.len() != 32 {
        return Err(RecordError::Corrupt);
    }
    let mut k: [u8; 32] = [0u8; 32];
    let mut i: usize = 0;
    while i < 32
        invariant
            i <= 32,
            key@.len() == 32,
            forall|j: int| 0 <= j < i ==> k@[j] == key@[j],
        decreases 32 - i,
    {
        k[i] = key[i];
        i = i + 1;
    }
    assert(k@ =~= key@);
    if !key_is_valid(&k) {
        return Err(RecordError::Corrupt);
    }
    Ok(PeerInfo { id: owned(id), addr: a, username: owned(username), last_seen, is_relay, verifying_key: k })
}

/// `?1, ?2, ..., ?n`: the placeholders of an SQL list of `n` values.
pub open spec fn placeholders(n: nat) -> Seq<char>
    decreases n,
{
    if n == 0 {
        seq![]
    } else if n == 1 {
        seq!['?', '1']
    } else {
        placeholders((n - 1) as nat) + seq![',', ' ', '?'] + decimal(n)
    }
}

/// The statement that drops from the peers table every peer whose
/// address is not among the `n` addresses bound to it.
pub open spec fn stale_peers_query_spec(n: nat) -> Seq<char> {
    "DELETE FROM peers WHERE addr NOT IN ("@ + placeholders(n) + ")"@
}

/// The statement that drops from the peers table every peer whose address
/// is not among the `n` addresses bound to it.
pub fn stale_peers_query(n: u64) -> (q: String)
    ensures
        q@ == stale_peers_query_spec(n as nat),
{
    let mut q = owned("DELETE FROM peers WHERE addr NOT IN (");
    let ghost start = q@;
    let mut i: u64 = 0;
    while i < n
        invariant
            i <= n,
            q@ == start + placeholders(i as nat),
        decreases n - i,
    {
        if i > 0 {
            push_char(&mut q, ',');
            push_char(&mut q, ' ');
        }
        push_char(&mut q, '?');
        push_decimal(&mut q, i + 1);
        proof {
            if i == 0 {
                reveal_with_fuel(crate::text::decimal, 2);
                assert(decimal(1) == seq!['1']);
                assert(q@ =~= start + placeholders(1));
            } else {
                assert(q@ =~= start + placeholders((i + 1) as nat));
            }
        }
        i = i + 1;
    }
    push_str(&mut q, ")");
    assert(q@ =~= stale_peers_query_spec(n as nat));
    q
}

proof fn lemma_index_from_bar(x: Seq<char>, y: Seq<char>, j: int)
    requires
        0 <= j <= x.len(),
        !x.contains('|'),
    ensures
        index_from(x + seq!['|'] + y, '|', j) == Some(x.len() as int),
    decreases x.len() - j,
{
    let s = x + seq!['|'] + y;
    if j < x.len() {
        assert(s[j] == x[j]);
        if x[j] == '|' {
            assert(x.contains('|'));
        }
        lemma_index_from_bar(x, y, j + 1);
    }
}

/// Text with no `|` before a `|` is cut there.
proof fn lemma_split_at_bar(x: Seq<char>, y: Seq<char>)
    requires
        !x.contains('|'),
    ensures
        split_at_first(x + seq!['|'] + y, '|') == (x, Some(y)),
{
    lemma_index_from_bar(x, y, 0);
    let s = x + seq!['|'] + y;
    assert(s.subrange(0, x.len() as int) =~= x);
    assert(s.subrange(x.len() as int + 1, s.len() as int) =~= y);
}

proof fn lemma_digits_no_bar(s: Seq<char>)
    requires
        crate::text::all_digits(s),
    ensures
        !s.contains('|'),
{
    if s.contains('|') {
        let i = choose|i: int| 0 <= i < s.len() && s[i] == '|';
        assert(crate::text::is_digit(s[i]));
    }
}

proof fn lemma_decimal_no_bar(n: nat)
    ensures
        !decimal(n).contains('|'),
{
    lemma_decimal(n);
    lemma_digits_no_bar(decimal(n));
}

/// How a payload reads back from its stored form: as itself, except that
/// a peer record's identifier reads back as the hex text it was stored as.
pub open spec fn stored_view(p: PayloadView) -> PayloadView {
    match p {
        PayloadView::PeerInfo { peer_info } => PayloadView::PeerInfo {
            peer_info: PeerInfoView { id: hex_lower(vstd::utf8::encode_utf8(peer_info.id)), ..peer_info },
        },
        _ => p,
    }
}

/// The payloads whose stored form reads back: keys must be 32-byte curve
/// points, addresses must carry no IPv6 flow label (their text leaves it
/// out), and a peer's name must hold no `|`.
pub open spec fn storable(p: PayloadView) -> bool {
    match p {
        PayloadView::Register { verifying_key } => verifying_key.len() == 32 && ed25519_key_valid(verifying_key),
        PayloadView::BeNewRelay { verifying_key } => verifying_key.len() == 32 && ed25519_key_valid(verifying_key),
        PayloadView::RelayHasNewClient { peer_addr, .. } => text_keeps(peer_addr),
        PayloadView::PeerInfo { peer_info } => {
            &&& text_keeps(peer_info.addr)
            &&& !peer_info.username.contains('|')
            &&& peer_info.verifying_key.len() == 32
            &&& ed25519_key_valid(peer_info.verifying_key)
        },
        _ => true,
    }
}

proof fn lemma_kinds()
    ensures
        "Classic"@.len() == 7 && "Classic"@[0] == 'C' && "Classic"@[1] == 'l',
        "AskForAddr"@.len() == 10 && "AskForAddr"@[0] == 'A',
        "Ack"@.len() == 3,
        "PeerInfo"@.len() == 8 && "PeerInfo"@[0] == 'P',
        "RelayHasNewClient"@.len() == 17,
        "BeNewRelay"@.len() == 10 && "BeNewRelay"@[0] == 'B',
        "Register"@.len() == 8 && "Register"@[0] == 'R',
        "Connect"@.len() == 7 && "Connect"@[0] == 'C' && "Connect"@[1] == 'o',
        "NeedRelay"@.len() == 9,
        "NoRelayAvailable"@.len() == 16,
        "PunchTheHole"@.len() == 12,
{
    reveal_strlit("Classic");
    reveal_strlit("AskForAddr");
    reveal_strlit("Ack");
    reveal_strlit("PeerInfo");
    reveal_strlit("RelayHasNewClient");
    reveal_strlit("BeNewRelay");
    reveal_strlit("Register");
    reveal_strlit("Connect");
    reveal_strlit("NeedRelay");
    reveal_strlit("NoRelayAvailable");
    reveal_strlit("PunchTheHole");
}

proof fn lemma_splitn_cons(a: Seq<char>, rest: Seq<char>, n: nat)
    requires
        !a.contains('|'),
        n >= 2,
    ensures
        splitn_spec(a + seq!['|'] + rest, n, '|') == seq![a] + splitn_spec(rest, (n - 1) as nat, '|'),
{
    lemma_split_at_bar(a, rest);
}

proof fn lemma_six_pieces(a0: Seq<char>, a1: Seq<char>, a2: Seq<char>, a3: Seq<char>, a4: Seq<char>, a5: Seq<char>)
    requires
        !a0.contains('|'),
        !a1.contains('|'),
        !a2.contains('|'),
        !a3.contains('|'),
        !a4.contains('|'),
    ensures
        splitn_spec(a0 + seq!['|'] + a1 + seq!['|'] + a2 + seq!['|'] + a3 + seq!['|'] + a4 + seq!['|'] + a5, 6, '|') == seq![a0, a1, a2, a3, a4, a5],
{
    let r4 = a4 + seq!['|'] + a5;
    let r3 = a3 + seq!['|'] + r4;
    let r2 = a2 + seq!['|'] + r3;
    let r1 = a1 + seq!['|'] + r2;
    let r0 = a0 + seq!['|'] + r1;
    assert(a0 + seq!['|'] + a1 + seq!['|'] + a2 + seq!['|'] + a3 + seq!['|'] + a4 + seq!['|'] + a5 =~= r0);
    lemma_splitn_cons(a4, a5, 2);
    lemma_splitn_cons(a3, r4, 3);
    lemma_splitn_cons(a2, r3, 4);
    lemma_splitn_cons(a1, r2, 5);
    lemma_splitn_cons(a0, r1, 6);
    assert(splitn_spec(a5, 1, '|') == seq![a5]);
    assert(splitn_spec(r4, 2, '|') =~= seq![a4, a5]);
    assert(splitn_spec(r3, 3, '|') =~= seq![a3, a4, a5]);
    assert(splitn_spec(r2, 4, '|') =~= seq![a2, a3, a4, a5]);
    assert(splitn_spec(r1, 5, '|') =~= seq![a1, a2, a3, a4, a5]);
    assert(splitn_spec(r0, 6, '|') =~= seq![a0, a1, a2, a3, a4, a5]);
}

proof fn lemma_peer_info_round_trip(p: PeerInfoView)
    requires
        text_keeps(p.addr),
        !p.username.contains('|'),
        p.verifying_key.len() == 32,
        ed25519_key_valid(p.verifying_key),
    ensures
        peer_info_from_text_spec(peer_info_text(p)) == Some(PeerInfoView { id: hex_lower(vstd::utf8::encode_utf8(p.id)), ..p }),
{
    let a0 = hex_lower(vstd::utf8::encode_utf8(p.id));
    let a1 = addr_text(p.addr);
    let a2 = p.username;
    let a3 = decimal(p.last_seen as nat);
    let a4 = bool_text(p.is_relay);
    let a5 = hex_lower(p.verifying_key);
    lemma_hex_round_trip(vstd::utf8::encode_utf8(p.id));
    lemma_hex_round_trip(p.verifying_key);
    lemma_decimal_no_bar(p.last_seen as nat);
    lemma_parse_decimal(p.last_seen);
    lemma_parse_bool_text(p.is_relay);
    lemma_addr_text_no_bar(p.addr);
    lemma_parse_addr_text(p.addr);
    assert(!a4.contains('|')) by {
        if a4.contains('|') {
            let i = choose|i: int| 0 <= i < a4.len() && a4[i] == '|';
        }
    }
    lemma_six_pieces(a0, a1, a2, a3, a4, a5);
    assert(peer_info_text(p) == a0 + seq!['|'] + a1 + seq!['|'] + a2 + seq!['|'] + a3 + seq!['|'] + a4 + seq!['|'] + a5);
}

proof fn lemma_round_trip_peer_info(p: PayloadView)
    requires
        storable(p),
        p is PeerInfo,
    ensures
        payload_from_record_spec(payload_record_spec(p).0, payload_record_spec(p).1) == Ok::<Option<PayloadView>, RecordError>(Some(stored_view(p))),
{
    lemma_kinds();
    match p {
        PayloadView::PeerInfo { peer_info } => {
            lemma_peer_info_round_trip(peer_info);
        },
        _ => {},
    }
}

proof fn lemma_round_trip_new_client(p: PayloadView)
    requires
        storable(p),
        p is RelayHasNewClient,
    ensures
        payload_from_record_spec(payload_record_spec(p).0, payload_record_spec(p).1) == Ok::<Option<PayloadView>, RecordError>(Some(stored_view(p))),
{
    lemma_kinds();
    match p {
        PayloadView::RelayHasNewClient { peer_addr, peer_id } => {
            lemma_addr_text_no_bar(peer_addr);
            lemma_parse_addr_text(peer_addr);
            lemma_splitn_cons(addr_text(peer_addr), peer_id, 2);
            assert(splitn_spec(peer_id, 1, '|') == seq![peer_id]);
            assert(splitn_spec(addr_text(peer_addr) + seq!['|'] + peer_id, 2, '|') =~= seq![addr_text(peer_addr), peer_id]);
        },
        _ => {},
    }
}

proof fn lemma_round_trip_others(p: PayloadView)
    requires
        storable(p),
        !(p is PeerInfo),
        !(p is RelayHasNewClient),
    ensures
        payload_from_record_spec(payload_record_spec(p).0, payload_record_spec(p).1) == Ok::<Option<PayloadView>, RecordError>(Some(stored_view(p))),
{
    lemma_kinds();
    match p {
        PayloadView::Ack { reply_to } => {
            lemma_parse_decimal(reply_to);
        },
        PayloadView::Register { verifying_key } => {
            lemma_hex_round_trip(verifying_key);
        },
        PayloadView::BeNewRelay { verifying_key } => {
            lemma_hex_round_trip(verifying_key);
        },
        _ => {},
    }
}

/// What is stored of a payload reads back as that payload (a peer
/// record's identifier as the hex text it was stored as), for every
/// payload whose keys are curve points, whose addresses carry no IPv6 flow
/// label and whose peer name holds no `|`.
pub proof fn lemma_payload_record_round_trip(p: PayloadView)
    requires
        storable(p),
    ensures
        payload_from_record_spec(payload_record_spec(p).0, payload_record_spec(p).1) == Ok::<Option<PayloadView>, RecordError>(Some(stored_view(p))),
{
    if p is PeerInfo {
        lemma_round_trip_peer_info(p);
    } else if p is RelayHasNewClient {
        lemma_round_trip_new_client(p);
    } else {
        lemma_round_trip_others(p);
    }
}

/// A peer stored as a row of the peers table (its address as text, its
/// key as bytes) reads back as itself, whenever its key is a curve point
/// and its address carries no IPv6 flow label.
pub proof fn lemma_peer_row_round_trip(p: PeerInfoView)
    requires
        text_keeps(p.addr),
        p.verifying_key.len() == 32,
        ed25519_key_valid(p.verifying_key),
    ensures
        peer_from_row_spec(p.id, addr_text(p.addr), p.username, p.last_seen, p.is_relay, p.verifying_key) == Some(p),
{
    lemma_parse_addr_text(p.addr);
}

} // verus!
