//! Trusted wrappers around the cryptographic primitives of outside crates.
//!
//! Each wrapper names what the call returns with an uninterpreted spec
//! function and states only what the crate's source or documentation shows.
//! Everything that can be computed and checked in plain code (framing,
//! clamping, key derivation order) lives in the verified modules instead.

use vstd::prelude::*;

use base64::Engine;
use chacha20poly1305::aead::Aead;
use chacha20poly1305::{KeyInit, XChaCha20Poly1305, XNonce};
use rand::RngCore;
use sha2::Digest;

verus! {

/// BLAKE3 digest (32 bytes) of a byte sequence.
pub uninterp spec fn blake3_of(bytes: Seq<u8>) -> Seq<u8>;

/// Ed25519 public key derived from a 32-byte seed.
pub uninterp spec fn ed25519_pk_of(seed: Seq<u8>) -> Seq<u8>;

/// Ed25519 signature of a message under the key derived from a seed.
pub uninterp spec fn ed25519_sig_of(seed: Seq<u8>, msg: Seq<u8>) -> Seq<u8>;

/// Whether 32 bytes parse as an Ed25519 public key and strictly verify the
/// signature bytes over the message.
pub uninterp spec fn ed25519_verifies(pk: Seq<u8>, msg: Seq<u8>, sig: Seq<u8>) -> bool;

/// Whether 32 bytes decompress to a valid Ed25519 point.
pub uninterp spec fn ed25519_pk_valid(pk: Seq<u8>) -> bool;

/// SHA-512 digest (64 bytes).
pub uninterp spec fn sha512_of(bytes: Seq<u8>) -> Seq<u8>;

/// 32-byte HKDF-SHA256 output for the given salt, input key material and info.
pub uninterp spec fn hkdf_sha256_of(salt: Seq<u8>, ikm: Seq<u8>, info: Seq<u8>) -> Seq<u8>;

/// XChaCha20-Poly1305 ciphertext (with tag) of a plaintext under key and nonce.
pub uninterp spec fn xchacha_seal(key: Seq<u8>, nonce: Seq<u8>, pt: Seq<u8>) -> Seq<u8>;

/// X25519 shared secret of a (clamped) secret scalar and a peer public key.
pub uninterp spec fn x25519_shared(sk: Seq<u8>, pk: Seq<u8>) -> Seq<u8>;

/// X25519 public key of a secret scalar: clamped base-point multiplication.
pub uninterp spec fn x25519_base(sk: Seq<u8>) -> Seq<u8>;

/// Montgomery form of a compressed Edwards point (an Ed25519 public key).
pub uninterp spec fn ed_to_montgomery(pk: Seq<u8>) -> Seq<u8>;

/// z-base-32 spelling of an Ed25519 public key.
pub uninterp spec fn z32_of(pk: Seq<u8>) -> Seq<char>;

/// Standard base64 (with padding) spelling of a byte sequence.
pub uninterp spec fn b64_of(bytes: Seq<u8>) -> Seq<char>;

/// The 64-byte BIP-39 PBKDF2 seed of a mnemonic phrase with an empty
/// passphrase, or `None` when the phrase is not a valid mnemonic.
pub uninterp spec fn bip39_seed_of(phrase: Seq<char>) -> Option<Seq<u8>>;

/// The RFC 7748 clamping of a 32-byte scalar.
pub open spec fn x25519_clamp(s: Seq<u8>) -> Seq<u8>
    recommends
        s.len() == 32,
{
    s.update(0, s[0] & 248).update(31, ((s[31] & 127) | 64) as u8)
}

/// Relies on p2panda-core's `Hash::digest` (BLAKE3): a 32-byte digest that
/// depends on the input bytes alone.
#[verifier::external_body]
pub fn blake3_hash(bytes: &[u8]) -> (r: Vec<u8>)
    ensures
        r@ == blake3_of(bytes@),
        r@.len() == 32,
{
    p2panda_core::Hash::digest(bytes).as_bytes().to_vec()
}

/// Relies on p2panda-core's `SigningKey::verifying_key`: the public key is a
/// function of the 32-byte seed, and always parses back as a valid point.
#[verifier::external_body]
pub fn ed25519_public(seed: &[u8]) -> (r: Vec<u8>)
    requires
        seed@.len() == 32,
    ensures
        r@ == ed25519_pk_of(seed@),
        r@.len() == 32,
        ed25519_pk_valid(r@),
{
    let arr: [u8; 32] = seed.try_into().unwrap();
    let sk = p2panda_core::identity::SigningKey::from_bytes(&arr);
    sk.verifying_key().as_bytes().to_vec()
}

/// Relies on p2panda-core's `SigningKey::sign`: Ed25519 signing is
/// deterministic, yields 64 bytes, and the signature verifies under the
/// signer's public key.
#[verifier::external_body]
pub fn ed25519_sign(seed: &[u8], msg: &[u8]) -> (r: Vec<u8>)
    requires
        seed@.len() == 32,
    ensures
        r@ == ed25519_sig_of(seed@, msg@),
        r@.len() == 64,
        ed25519_verifies(ed25519_pk_of(seed@), msg@, r@),
{
    let arr: [u8; 32] = seed.try_into().unwrap();
    let sk = p2panda_core::identity::SigningKey::from_bytes(&arr);
    sk.sign(msg).to_bytes().to_vec()
}

/// Relies on p2panda-core's `VerifyingKey::from_bytes` and `verify`
/// (ed25519-dalek `verify_strict`): the outcome depends only on the three
/// byte strings; malformed keys or signatures never verify.
#[verifier::external_body]
pub fn ed25519_verify(pk: &[u8], msg: &[u8], sig: &[u8]) -> (r: bool)
    ensures
        r == ed25519_verifies(pk@, msg@, sig@),
        r ==> ed25519_pk_valid(pk@),
{
    let Ok(arr) = <[u8; 32]>::try_from(pk) else {
        return false;
    };
    let Ok(key) = p2panda_core::identity::VerifyingKey::from_bytes(&arr) else {
        return false;
    };
    let Ok(signature) = p2panda_core::identity::Signature::try_from(sig) else {
        return false;
    };
    key.verify(msg, &signature)
}

/// Relies on sha2's `Sha512::digest`: a 64-byte digest of the input alone.
#[verifier::external_body]
pub fn sha512(bytes: &[u8]) -> (r: Vec<u8>)
    ensures
        r@ == sha512_of(bytes@),
        r@.len() == 64,
{
    sha2::Sha512::digest(bytes).to_vec()
}

/// Relies on hkdf's `Hkdf::<Sha256>`: expansion to 32 bytes never fails and
/// depends only on salt, input key material and info.
#[verifier::external_body]
pub fn hkdf_sha256(salt: &[u8], ikm: &[u8], info: &[u8]) -> (r: Vec<u8>)
    ensures
        r@ == hkdf_sha256_of(salt@, ikm@, info@),
        r@.len() == 32,
{
    let hk = hkdf::Hkdf::<sha2::Sha256>::new(Some(salt), ikm);
    let mut key = [0u8; 32];
    hk.expand(info, &mut key).expect("32 bytes is a valid HKDF output length");
    key.to_vec()
}

/// Relies on chacha20poly1305's XChaCha20-Poly1305 `encrypt`: deterministic
/// in key, nonce and plaintext, appending a 16-byte tag. It refuses only
/// buffers of 2^32 or more cipher blocks, so every plaintext under 256 MiB
/// is encrypted.
#[verifier::external_body]
pub fn xchacha_encrypt(key: &[u8], nonce: &[u8], pt: &[u8]) -> (r: Option<Vec<u8>>)
    requires
        key@.len() == 32,
        nonce@.len() == 24,
    ensures
        r is Some ==> r->0@ == xchacha_seal(key@, nonce@, pt@),
        r is Some ==> r->0@.len() == pt@.len() + 16,
        pt@.len() < 0x1000_0000 ==> r is Some,
{
    let cipher = XChaCha20Poly1305::new_from_slice(key).ok()?;
    let ciphertext = cipher.encrypt(XNonce::from_slice(nonce), pt).ok()?;
    Some(ciphertext)
}

/// Relies on chacha20poly1305's XChaCha20-Poly1305 `decrypt`: a ciphertext
/// produced under the same key and nonce decrypts back to its plaintext.
#[verifier::external_body]
pub fn xchacha_decrypt(key: &[u8], nonce: &[u8], ct: &[u8]) -> (r: Option<Vec<u8>>)
    requires
        key@.len() == 32,
        nonce@.len() == 24,
    ensures
        forall|pt: Seq<u8>| ct@ == xchacha_seal(key@, nonce@, pt) ==> r is Some && r->0@ == pt,
        r is Some ==> r->0@.len() + 16 == ct@.len(),
{
    let cipher = XChaCha20Poly1305::new_from_slice(key).ok()?;
    let plaintext = cipher.decrypt(XNonce::from_slice(nonce), ct).ok()?;
    Some(plaintext)
}

/// Relies on x25519-dalek's `StaticSecret` / `diffie_hellman`
/// (`mul_clamped`): the shared secret is a function of the two inputs, and
/// agrees for both sides of an exchange over matching public keys.
#[verifier::external_body]
pub fn x25519_diffie_hellman(sk: &[u8], pk: &[u8]) -> (r: Vec<u8>)
    requires
        sk@.len() == 32,
        pk@.len() == 32,
    ensures
        r@ == x25519_shared(sk@, pk@),
        r@.len() == 32,
        forall|other: Seq<u8>|
            other.len() == 32 && pk@ == x25519_base(other) ==> r@ == x25519_shared(
                other,
                x25519_base(sk@),
            ),
{
    let sk_arr: [u8; 32] = sk.try_into().unwrap();
    let pk_arr: [u8; 32] = pk.try_into().unwrap();
    let secret = x25519_dalek::StaticSecret::from(sk_arr);
    let public = x25519_dalek::PublicKey::from(pk_arr);
    secret.diffie_hellman(&public).as_bytes().to_vec()
}

/// Relies on x25519-dalek's `PublicKey::from(&StaticSecret)`
/// (`mul_base_clamped`): the public key of a scalar.
#[verifier::external_body]
pub fn x25519_basepoint(sk: &[u8]) -> (r: Vec<u8>)
    requires
        sk@.len() == 32,
    ensures
        r@ == x25519_base(sk@),
        r@.len() == 32,
{
    let sk_arr: [u8; 32] = sk.try_into().unwrap();
    let secret = x25519_dalek::StaticSecret::from(sk_arr);
    x25519_dalek::PublicKey::from(&secret).as_bytes().to_vec()
}

/// Relies on curve25519-dalek's `CompressedEdwardsY::decompress` and
/// `to_montgomery` (RFC 7748 birational map): for the public key of an
/// Ed25519 seed this equals the X25519 public key of the clamped first half
/// of the seed's SHA-512 digest (RFC 8032 key generation).
#[verifier::external_body]
pub fn ed25519_pk_to_x25519(pk: &[u8]) -> (r: Vec<u8>)
    requires
        pk@.len() == 32,
    ensures
        r@ == ed_to_montgomery(pk@),
        r@.len() == 32,
        forall|seed: Seq<u8>|
            seed.len() == 32 && pk@ == ed25519_pk_of(seed) ==> r@ == x25519_base(
                x25519_clamp(sha512_of(seed).take(32)),
            ),
{
    let pk_arr: [u8; 32] = pk.try_into().unwrap();
    let compressed = curve25519_dalek::edwards::CompressedEdwardsY(pk_arr);
    let point = compressed.decompress().unwrap_or(curve25519_dalek::EdwardsPoint::default());
    point.to_montgomery().to_bytes().to_vec()
}

/// Relies on rand's `OsRng::fill_bytes`: nothing is assumed of the output.
#[verifier::external_body]
pub fn random_bytes_32() -> (r: Vec<u8>)
    ensures
        r@.len() == 32,
{
    let mut buf = [0u8; 32];
    rand::rngs::OsRng.fill_bytes(&mut buf);
    buf.to_vec()
}

/// Relies on rand's `OsRng::fill_bytes`: nothing is assumed of the output.
#[verifier::external_body]
pub fn random_bytes_24() -> (r: Vec<u8>)
    ensures
        r@.len() == 24,
{
    let mut buf = [0u8; 24];
    rand::rngs::OsRng.fill_bytes(&mut buf);
    buf.to_vec()
}

/// Relies on pkarr's `PublicKey::try_from` and `to_z32`: parsing succeeds
/// exactly for valid Ed25519 points, and the z-base-32 form depends on the
/// key bytes alone.
#[verifier::external_body]
pub fn z32_string(pk: &[u8]) -> (r: Option<String>)
    requires
        pk@.len() == 32,
    ensures
        r is Some <==> ed25519_pk_valid(pk@),
        r is Some ==> r->0@ == z32_of(pk@),
{
    let arr: [u8; 32] = pk.try_into().unwrap();
    match pkarr::PublicKey::try_from(&arr) {
        Ok(key) => Some(key.to_z32()),
        Err(_) => None,
    }
}

/// Relies on base64's `STANDARD` engine `encode`: the spelling depends on
/// the input bytes alone.
#[verifier::external_body]
pub fn base64_encode(bytes: &[u8]) -> (r: String)
    ensures
        r@ == b64_of(bytes@),
{
    base64::engine::general_purpose::STANDARD.encode(bytes)
}

/// Relies on base64's `STANDARD` engine `decode`: decoding inverts encoding.
#[verifier::external_body]
pub fn base64_decode(s: &str) -> (r: Option<Vec<u8>>)
    ensures
        forall|b: Seq<u8>| s@ == b64_of(b) ==> r is Some && r->0@ == b,
{
    base64::engine::general_purpose::STANDARD.decode(s).ok()
}

/// Relies on bip39's `Mnemonic::parse` and `to_seed`: a valid phrase yields
/// the 64-byte PBKDF2 seed, a function of the phrase alone.
#[verifier::external_body]
pub fn mnemonic_to_seed(phrase: &str) -> (r: Option<Vec<u8>>)
    ensures
        r is Some <==> bip39_seed_of(phrase@) is Some,
        r is Some ==> Some(r->0@) == bip39_seed_of(phrase@),
        r is Some ==> r->0@.len() == 64,
{
    let mnemonic = phrase.parse::<bip39::Mnemonic>().ok()?;
    Some(mnemonic.to_seed("").to_vec())
}

/// Relies on bip39's `Mnemonic::generate(24)` and its `Display` form: the
/// phrase has 24 words joined by single spaces and parses back as a valid
/// mnemonic.
#[verifier::external_body]
pub fn generate_mnemonic_phrase() -> (r: String)
    ensures
        bip39_seed_of(r@) is Some,
        crate::phrase::single_spaced(r@),
        crate::phrase::space_count(r@) == 23,
{
    let mnemonic = bip39::Mnemonic::generate(24).expect("24 words is a supported length");
    mnemonic.to_string()
}

} // verus!
