//! The node's Lightning identity: the 32-byte seed of its LDK key manager,
//! read from a seed file, and the public key that names the node on the
//! Lightning network.

use vstd::prelude::*;
use std::sync::Arc;
use lightning::sign::{KeysManager, NodeSigner};
use crate::addr::hex_digit_char;
use crate::crypto::{hex_decode, hex_decode_spec, hex_encode, hex_lower, lemma_hex_lower_chars};
use crate::text::{chars_of, string_of, trim_chars, trim_spec};

verus! {

#[verifier::external_type_specification]
#[verifier::external_body]
pub struct ExKeysManager(KeysManager);

/// The seed an LDK key manager was made with.
pub uninterp spec fn keys_manager_seed(km: KeysManager) -> Seq<u8>;

/// The node id (compressed secp256k1 public key, 33 bytes) that LDK
/// derives from a seed: the public key of the seed's hardened child 0.
pub uninterp spec fn ldk_node_id(seed: Seq<u8>) -> Seq<u8>;

/// The node id of a key manager
/// (`NodeSigner::get_node_id(Recipient::Node)`, which never fails for
/// `Node`), serialised in compressed form (`PublicKey::serialize`): a
/// prefix byte 2 or 3 for the parity of y, then x.
#[verifier::external_body]
fn keys_manager_node_id(km: &KeysManager) -> (id: [u8; 33])
    ensures
        id@ == ldk_node_id(keys_manager_seed(*km)),
        id@[0] == 2 || id@[0] == 3,
{
    km.get_node_id(lightning::sign::Recipient::Node).unwrap().serialize()
}

/// Why a seed file cannot be used.
#[derive(Clone, Copy, PartialEq, Eq, Structural, Debug)]
pub enum SeedError {
    /// The text (without surrounding white space) is not hex.
    NotHex,
    /// The decoded seed is not exactly 32 bytes long.
    NotThirtyTwoBytes,
}

/// The seed that the text of a seed file holds: hex digits, without the
/// white space around them, for exactly 32 bytes.
pub open spec fn seed_of_text(text: Seq<char>) -> Result<Seq<u8>, SeedError> {
    match hex_decode_spec(trim_spec(text)) {
        None => Err(SeedError::NotHex),
        Some(b) => if b.len() == 32 {
            Ok(b)
        } else {
            Err(SeedError::NotThirtyTwoBytes)
        },
    }
}

/// Reads the seed that the text of a seed file holds: hex digits, without
/// the white space around them, for exactly 32 bytes.
pub fn seed_from_text(text: &str) -> (r: Result<[u8; 32], SeedError>)
    ensures
        match seed_of_text(text@) {
            Ok(seed) => r matches Ok(s) && s@ == seed,
            Err(e) => r == Err::<[u8; 32], SeedError>(e),
        },
{
    let trimmed = string_of(&trim_chars(&chars_of(text)));
    match hex_decode(trimmed.as_str()) {
        None => Err(SeedError::NotHex),
        Some(b) => {
            if b.len() != 32 {
                return Err(SeedError::NotThirtyTwoBytes);
            }
            let mut seed: [u8; 32] = [0u8; 32];
            let mut i: usize = 0;
            while i < 32
                invariant
                    i <= 32,
                    b@.len() == 32,
                    forall|j: int| 0 <= j < i ==> seed@[j] == b@[j],
                decreases 32 - i,
            {
                seed[i] = b[i];
                i = i + 1;
            }
            assert(seed@ =~= b@);
            Ok(seed)
        },
    }
}

/// A Lightning key manager shared between tasks. The program makes the
/// manager itself (`KeysManager::new`): LDK's constructor panics on the
/// rare seeds whose derived keys are not valid secret keys, which nothing
/// short of that derivation can tell apart.
pub struct LdkKeysManager {
    pub inner: Arc<KeysManager>,
}

impl LdkKeysManager {
    /// The seed the key manager was made with.
    pub open spec fn seed(&self) -> Seq<u8> {
        keys_manager_seed(*self.inner)
    }

    /// The node id: the compressed public key that names this node on the
    /// Lightning network.
    pub fn node_id(&self) -> (id: [u8; 33])
        ensures
            id@ == ldk_node_id(self.seed()),
            id@[0] == 2 || id@[0] == 3,
    {
        keys_manager_node_id(&*self.inner)
    }

    /// The node id as hex text, the usual way to write it.
    pub fn node_id_hex(&self) -> (text: String)
        ensures
            text@ == hex_lower(ldk_node_id(self.seed())),
            text@.len() == 66,
            text@[0] == '0',
            text@[1] == '2' || text@[1] == '3',
    {
        let id = self.node_id();
        proof {
            lemma_hex_lower_chars(id@);
            assert(hex_lower(id@)[2 * 0int] == hex_digit_char((id@[0] / 16) as nat));
        }
        hex_encode(&id)
    }
}

} // verus!
