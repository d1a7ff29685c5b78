//! Keys, signatures and identifiers: Ed25519 through `ed25519_dalek`,
//! SHA-256 through `sha2`, hexadecimal text through `hex`.

use vstd::prelude::*;
use crate::addr::hex_digit_char;
use crate::addr_parse::radix_digit;
use crate::types::{Message, MessageView, HeadersView};

use ed25519_dalek::{Signer, Verifier};
use sha2::Digest;

verus! {

/// The verifying key (compressed point) of an Ed25519 secret key.
pub uninterp spec fn ed25519_public_key(secret: Seq<u8>) -> Seq<u8>;

/// The Ed25519 signature of `msg` under `secret` (signing is deterministic).
pub uninterp spec fn ed25519_signature(secret: Seq<u8>, msg: Seq<u8>) -> Seq<u8>;

/// Whether Ed25519 verification accepts `sig` on `msg` for the key `public`.
pub uninterp spec fn ed25519_accepts(public: Seq<u8>, msg: Seq<u8>, sig: Seq<u8>) -> bool;

/// Whether 32 bytes decompress to a point, i.e. form a verifying key.
pub uninterp spec fn ed25519_key_valid(public: Seq<u8>) -> bool;

/// The SHA-256 digest of `data`.
pub uninterp spec fn sha256(data: Seq<u8>) -> Seq<u8>;

/// Whether `sig` was made on `msg` by the secret key of `public`.
pub open spec fn honestly_signed(public: Seq<u8>, msg: Seq<u8>, sig: Seq<u8>) -> bool {
    exists|secret: Seq<u8>|
        secret.len() == 32 && public == ed25519_public_key(secret) && sig == ed25519_signature(
            secret,
            msg,
        )
}

/// Lower-case hexadecimal text of bytes, two digits per byte.
pub open spec fn hex_lower(bytes: Seq<u8>) -> Seq<char>
    decreases bytes.len(),
{
    if bytes.len() == 0 {
        seq![]
    } else {
        hex_lower(bytes.drop_last()) + seq![
            hex_digit_char((bytes.last() / 16) as nat),
            hex_digit_char((bytes.last() % 16) as nat),
        ]
    }
}

/// What `hex::decode` gives: the bytes when the text is an even number
/// of hex digits (either case), nothing otherwise.
pub open spec fn hex_decode_spec(s: Seq<char>) -> Option<Seq<u8>> {
    if s.len() % 2 == 0 && forall|i: int| 0 <= i < s.len() ==> (radix_digit(#[trigger] s[i], 16) is Some) {
        Some(
            Seq::new(
                (s.len() / 2) as nat,
                |i: int|
                    (radix_digit(s[2 * i], 16).unwrap() * 16 + radix_digit(s[2 * i + 1], 16).unwrap()) as u8,
            ),
        )
    } else {
        None
    }
}

/// A fresh random Ed25519 secret key, drawn by
/// `ed25519_dalek::SigningKey::generate` from the operating system's
/// generator (`rand::rngs::OsRng`). Nothing is stated of the bytes.
#[verifier::external_body]
fn random_secret_key() -> (secret: [u8; 32]) {
    ed25519_dalek::SigningKey::generate(&mut rand::rngs::OsRng).to_bytes()
}

/// The verifying key of a secret key
/// (`ed25519_dalek::SigningKey::verifying_key`), which is always a valid
/// point.
#[verifier::external_body]
pub(crate) fn public_key_of(secret: &[u8; 32]) -> (public: [u8; 32])
    ensures
        public@ == ed25519_public_key(secret@),
        ed25519_key_valid(public@),
{
    ed25519_dalek::SigningKey::from_bytes(secret).verifying_key().to_bytes()
}

/// Signs bytes with a secret key (`ed25519_dalek::Signer::sign`): the
/// signature is a function of the key and the bytes.
#[verifier::external_body]
fn sign_bytes(secret: &[u8; 32], msg: &[u8]) -> (sig: [u8; 64])
    ensures
        sig@ == ed25519_signature(secret@, msg@),
{
    ed25519_dalek::SigningKey::from_bytes(secret).sign(msg).to_bytes()
}

/// Checks a signature (`ed25519_dalek::Verifier::verify` on the key that
/// `VerifyingKey::from_bytes` reads). It refuses when the key bytes are
/// no point, and it accepts every signature that the secret key of the
/// verifying key made on the same bytes.
#[verifier::external_body]
fn verify_bytes(public: &[u8; 32], msg: &[u8], sig: &[u8; 64]) -> (ok: bool)
    ensures
        ok == (ed25519_key_valid(public@) && ed25519_accepts(public@, msg@, sig@)),
        honestly_signed(public@, msg@, sig@) ==> ok,
{
    match ed25519_dalek::VerifyingKey::from_bytes(public) {
        Ok(key) => key.verify(msg, &ed25519_dalek::Signature::from_bytes(sig)).is_ok(),
        Err(_) => false,
    }
}

/// Whether 32 bytes form a verifying key
/// (`ed25519_dalek::VerifyingKey::from_bytes` succeeds).
#[verifier::external_body]
pub(crate) fn key_is_valid(public: &[u8; 32]) -> (ok: bool)
    ensures
        ok == ed25519_key_valid(public@),
{
    ed25519_dalek::VerifyingKey::from_bytes(public).is_ok()
}

/// The SHA-256 digest of bytes (`sha2::Sha256::digest`), 32 bytes long.
#[verifier::external_body]
fn sha256_digest(data: &[u8]) -> (digest: Vec<u8>)
    ensures
        digest@ == sha256(data@),
        digest@.len() == 32,
{
    sha2::Sha256::digest(data).to_vec()
}

/// Lower-case hex text of bytes (`hex::encode`).
#[verifier::external_body]
pub(crate) fn hex_encode(data: &[u8]) -> (text: String)
    ensures
        text@ == hex_lower(data@),
{
    hex::encode(data)
}

/// Bytes from hex text (`hex::decode`), or nothing when the text has an
/// odd length or a character that is no hex digit.
#[verifier::external_body]
pub(crate) fn hex_decode(text: &str) -> (bytes: Option<Vec<u8>>)
    ensures
        match hex_decode_spec(text@) {
            Some(b) => bytes matches Some(v) && v@ == b,
            None => bytes is None,
        },
{
    match hex::decode(text) {
        Ok(v) => Some(v),
        Err(_) => None,
    }
}

/// The identifier of a peer: the hex text of the SHA-256 digest of its
/// verifying key.
pub open spec fn peer_id_spec(verifying_key: Seq<u8>) -> Seq<char> {
    hex_lower(sha256(verifying_key))
}

/// The identifier of the peer that holds `verifying_key`.
pub fn peer_id_from_verifying_key(verifying_key: &[u8; 32]) -> (id: String)
    ensures
        id@ == peer_id_spec(verifying_key@),
        id@.len() == 64,
{
    let digest = sha256_digest(verifying_key);
    proof {
        lemma_hex_lower_chars(digest@);
    }
    hex_encode(digest.as_slice())
}

/// A node's signing key and the verifying key that goes with it.
#[derive(Debug)]
pub struct AuthKeys {
    pub signing_key: [u8; 32],
    pub verifying_key: [u8; 32],
}

impl AuthKeys {
    /// The verifying key belongs to the signing key.
    pub open spec fn wf(&self) -> bool {
        self.verifying_key@ == ed25519_public_key(self.signing_key@)
    }

    /// A fresh key pair: a random signing key and its verifying key.
    pub fn generate() -> (keys: AuthKeys)
        ensures
            keys.wf(),
    {
        let signing_key = random_secret_key();
        let verifying_key = public_key_of(&signing_key);
        AuthKeys { signing_key, verifying_key }
    }

    /// The key pair of a given signing key.
    pub fn from_signing_key(signing_key: [u8; 32]) -> (keys: AuthKeys)
        ensures
            keys.wf(),
            keys.signing_key == signing_key,
    {
        let verifying_key = public_key_of(&signing_key);
        AuthKeys { signing_key, verifying_key }
    }

    /// A copy of the pair.
    pub fn duplicate(&self) -> (r: AuthKeys)
        ensures
            r.signing_key == self.signing_key,
            r.verifying_key == self.verifying_key,
    {
        AuthKeys { signing_key: self.signing_key, verifying_key: self.verifying_key }
    }
}

/// The bytes that a message's signature covers: the encoding of its
/// headers with an empty signature, followed by that of its payload.
pub open spec fn signed_bytes(headers_bytes: Seq<u8>, payload_bytes: Seq<u8>) -> Seq<u8> {
    headers_bytes + payload_bytes
}

/// `m` with `sig` in place of its signature.
pub open spec fn with_signature(m: MessageView, sig: Seq<u8>) -> MessageView {
    MessageView { headers: HeadersView { signature: sig, ..m.headers }, ..m }
}

fn concat_bytes(a: &[u8], b: &[u8]) -> (r: Vec<u8>)
    ensures
        r@ == a@ + b@,
{
    let mut r: Vec<u8> = Vec::new();
    let mut i: usize = 0;
    while i < a.len()
        invariant
            i <= a.len(),
            r@ == a@.subrange(0, i as int),
        decreases a.len() - i,
    {
        r.push(a[i]);
        i = i + 1;
    }
    let mut j: usize = 0;
    while j < b.len()
        invariant
            j <= b.len(),
            r@ == a@ + b@.subrange(0, j as int),
        decreases b.len() - j,
    {
        r.push(b[j]);
        j = j + 1;
    }
    assert(a@.subrange(0, a.len() as int) =~= a@);
    assert(b@.subrange(0, b.len() as int) =~= b@);
    r
}

impl Message {
    /// Signs the message: its signature becomes the Ed25519 signature,
    /// under `signing_key`, of `headers_bytes` followed by
    /// `payload_bytes`, the wire encodings of its headers with an empty
    /// signature and of its payload. Nothing else changes.
    pub fn sign(&mut self, signing_key: &[u8; 32], headers_bytes: &[u8], payload_bytes: &[u8])
        ensures
            final(self)@ == with_signature(
                old(self)@,
                ed25519_signature(signing_key@, signed_bytes(headers_bytes@, payload_bytes@)),
            ),
            final(self).headers.signature@.len() == 64,
    {
        let to_sign = concat_bytes(headers_bytes, payload_bytes);
        let sig = sign_bytes(signing_key, to_sign.as_slice());
        let mut v: Vec<u8> = Vec::new();
        let mut i: usize = 0;
        while i < 64
            invariant
                i <= 64,
                v@ == sig@.subrange(0, i as int),
            decreases 64 - i,
        {
            v.push(sig[i]);
            i = i + 1;
        }
        assert(sig@.subrange(0, 64) =~= sig@);
        self.headers.signature = v;
    }

    /// Checks the signature: it must be 64 bytes long and be accepted for
    /// `headers_bytes` followed by `payload_bytes` (the encodings of the
    /// headers with an empty signature and of the payload) under
    /// `verifying_key`.
    pub fn verify(&self, verifying_key: &[u8; 32], headers_bytes: &[u8], payload_bytes: &[u8]) -> (ok: bool)
        ensures
            ok == (self.headers.signature@.len() == 64 && ed25519_key_valid(verifying_key@)
                && ed25519_accepts(
                verifying_key@,
                signed_bytes(headers_bytes@, payload_bytes@),
                self.headers.signature@,
            )),
            honestly_signed(
                verifying_key@,
                signed_bytes(headers_bytes@, payload_bytes@),
                self.headers.signature@,
            ) && self.headers.signature@.len() == 64 ==> ok,
    {
        if self.headers.signature.len() != 64 {
            return false;
        }
        let mut sig: [u8; 64] = [0u8; 64];
        let mut i: usize = 0;
        while i < 64
            invariant
                i <= 64,
                self.headers.signature@.len() == 64,
                forall|j: int| 0 <= j < i ==> sig@[j] == self.headers.signature@[j],
            decreases 64 - i,
        {
            sig[i] = self.headers.signature[i];
            i = i + 1;
        }
        assert(sig@ =~= self.headers.signature@);
        let to_verify = concat_bytes(headers_bytes, payload_bytes);
        verify_bytes(verifying_key, to_verify.as_slice(), &sig)
    }
}

/// A message signed with a key pair's signing key passes the check under
/// its verifying key, for the same encodings of headers and payload.
pub proof fn lemma_signed_message_verifies(
    keys: AuthKeys,
    signed: MessageView,
    headers_bytes: Seq<u8>,
    payload_bytes: Seq<u8>,
)
    requires
        keys.wf(),
        signed.headers.signature == ed25519_signature(
            keys.signing_key@,
            signed_bytes(headers_bytes, payload_bytes),
        ),
    ensures
        honestly_signed(
            keys.verifying_key@,
            signed_bytes(headers_bytes, payload_bytes),
            signed.headers.signature,
        ),
{
    assert(keys.signing_key@.len() == 32);
}

proof fn lemma_hex_digit(d: nat)
    requires
        d < 16,
    ensures
        radix_digit(hex_digit_char(d), 16) == Some(d),
        hex_digit_char(d) != '|',
{
}

/// The characters of the hex text of `b`: two per byte, high nibble first.
pub proof fn lemma_hex_lower_chars(b: Seq<u8>)
    ensures
        hex_lower(b).len() == 2 * b.len(),
        forall|i: int| 0 <= i < b.len() ==> #[trigger] hex_lower(b)[2 * i] == hex_digit_char((b[i] / 16) as nat) && hex_lower(b)[2 * i + 1] == hex_digit_char((b[i] % 16) as nat),
    decreases b.len(),
{
    if b.len() > 0 {
        let p = b.drop_last();
        lemma_hex_lower_chars(p);
        assert forall|i: int| 0 <= i < b.len() implies #[trigger] hex_lower(b)[2 * i] == hex_digit_char((b[i] / 16) as nat) && hex_lower(b)[2 * i + 1] == hex_digit_char((b[i] % 16) as nat) by {
            if i < p.len() {
                assert(hex_lower(p)[2 * i] == hex_digit_char((p[i] / 16) as nat));
                assert(b[i] == p[i]);
            }
        }
    }
}

/// Hex text reads back as the bytes it was written from, and holds no `|`.
pub proof fn lemma_hex_round_trip(b: Seq<u8>)
    ensures
        hex_decode_spec(hex_lower(b)) == Some(b),
        !hex_lower(b).contains('|'),
{
    lemma_hex_lower_chars(b);
    let h = hex_lower(b);
    assert forall|i: int| 0 <= i < h.len() implies (radix_digit(#[trigger] h[i], 16) is Some) && h[i] != '|' by {
        let k = i / 2;
        assert(h[2 * k] == hex_digit_char((b[k] / 16) as nat));
        if i % 2 == 0 {
            assert(i == 2 * k);
            lemma_hex_digit((b[k] / 16) as nat);
        } else {
            assert(i == 2 * k + 1);
            lemma_hex_digit((b[k] % 16) as nat);
        }
    }
    let decoded = Seq::new(
        (h.len() / 2) as nat,
        |i: int| (radix_digit(h[2 * i], 16).unwrap() * 16 + radix_digit(h[2 * i + 1], 16).unwrap()) as u8,
    );
    assert forall|i: int| 0 <= i < b.len() implies decoded[i] == b[i] by {
        lemma_hex_digit((b[i] / 16) as nat);
        lemma_hex_digit((b[i] % 16) as nat);
        assert(h[2 * i] == hex_digit_char((b[i] / 16) as nat));
    }
    assert(decoded =~= b);
}

} // verus!
