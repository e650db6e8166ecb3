//! Identity: BIP-39 mnemonics and the Ed25519 keypair they derive.
//!
//! The private key is the first half of the mnemonic's PBKDF2 seed; the
//! public key is the peer identity. Both travel as 64-character hex strings.

use vstd::prelude::*;

use vstd::slice::slice_subrange;

use crate::bytesfmt::{hex_chars_of, hex_string};
use crate::extcrypto::{
    bip39_seed_of, ed25519_pk_of, ed25519_public, generate_mnemonic_phrase, mnemonic_to_seed,
};
use crate::phrase::{join_spaces, join_words, single_spaced, space_count};

verus! {

/// Errors of keypair derivation.
#[derive(Debug)]
pub enum KeyError {
    /// The phrase is not a valid mnemonic; carries a short description.
    InvalidMnemonic(String),
    /// A private key is not 32 bytes of hex.
    InvalidPrivateKey,
}

/// A keypair handed to callers as plain strings.
pub struct KeyPair {
    /// Hex Ed25519 private key: 32 bytes, 64 digits. Never logged.
    pub private_key_hex: String,
    /// Hex Ed25519 public key: the peer identity.
    pub public_key_hex: String,
    /// The 24-word mnemonic that regenerates both.
    pub mnemonic: String,
}

impl KeyPair {
    /// The fields a valid phrase determines: private key from the seed's
    /// first half, public key derived from it, and the phrase itself.
    pub open spec fn derived_from(&self, phrase: Seq<char>) -> bool {
        &&& bip39_seed_of(phrase) is Some
        &&& self.private_key_hex@ == hex_chars_of(bip39_seed_of(phrase)->0.take(32))
        &&& self.public_key_hex@ == hex_chars_of(
            ed25519_pk_of(bip39_seed_of(phrase)->0.take(32)),
        )
        &&& self.mnemonic@ == phrase
    }
}

/// Derive the keypair of a mnemonic phrase; `None` exactly on invalid phrases.
fn keypair_from_phrase(phrase: String) -> (r: Option<KeyPair>)
    ensures
        r is Some <==> bip39_seed_of(phrase@) is Some,
        r is Some ==> r->0.derived_from(phrase@),
{
    let Some(seed) = mnemonic_to_seed(phrase.as_str()) else {
        return None;
    };
    let private = slice_subrange(seed.as_slice(), 0, 32);
    let private_key_hex = hex_string(private);
    let public = ed25519_public(private);
    let public_key_hex = hex_string(public.as_slice());
    Some(KeyPair { private_key_hex, public_key_hex, mnemonic: phrase })
}

/// Generate a fresh 24-word mnemonic and its keypair.
pub fn generate_keypair() -> (r: KeyPair)
    ensures
        r.derived_from(r.mnemonic@),
        single_spaced(r.mnemonic@),
        space_count(r.mnemonic@) == 23,
{
    let phrase = generate_mnemonic_phrase();
    match keypair_from_phrase(phrase) {
        Some(kp) => kp,
        None => {
            proof {
                assert(false);
            }
            unreached()
        },
    }
}

/// Derive the keypair of an existing mnemonic, given as its words. Succeeds
/// exactly when the words joined by single spaces form a valid mnemonic.
pub fn import_from_mnemonic(words: Vec<String>) -> (r: Result<KeyPair, KeyError>)
    ensures
        r is Ok <==> bip39_seed_of(join_spaces(words.deep_view())) is Some,
        r is Ok ==> r->Ok_0.derived_from(join_spaces(words.deep_view())),
{
    let phrase = join_words(&words);
    match keypair_from_phrase(phrase) {
        Some(kp) => Ok(kp),
        None => Err(KeyError::InvalidMnemonic("not a valid mnemonic phrase".to_owned())),
    }
}

} // verus!
