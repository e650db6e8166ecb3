//! The shared single-layer envelope of the two privacy codecs.
//!
//! A layer is `version(1) | ephemeral_x25519_pub(32) | nonce(24) | ciphertext`.
//! The AEAD key is HKDF-SHA256 over the X25519 shared secret, salted with the
//! ephemeral public key and domain-separated by an info string. The recipient
//! is addressed by an Ed25519 key; its X25519 counterpart is the Montgomery
//! form of the Edwards point, and the matching secret is the clamped first
//! half of the SHA-512 of the Ed25519 seed.

use vstd::prelude::*;

use vstd::slice::{slice_subrange, slice_to_vec};

use crate::extcrypto::{
    ed25519_pk_of, ed25519_pk_to_x25519, ed25519_public, ed_to_montgomery, hkdf_sha256,
    hkdf_sha256_of, random_bytes_24, random_bytes_32, sha512, sha512_of, x25519_base, x25519_clamp,
    x25519_diffie_hellman, x25519_shared, xchacha_decrypt, xchacha_encrypt, xchacha_seal,
};
use crate::topics::append_bytes;

verus! {

/// Shortest well-formed layer: version, ephemeral key, nonce and AEAD tag.
pub const LAYER_MIN_LEN: usize = 73;

/// The AEAD key of a layer, derived from the sender's side.
pub open spec fn layer_key(info: Seq<u8>, esk: Seq<u8>, recipient_ed_pk: Seq<u8>) -> Seq<u8> {
    hkdf_sha256_of(x25519_base(esk), x25519_shared(esk, ed_to_montgomery(recipient_ed_pk)), info)
}

/// A whole layer as the sender builds it.
pub open spec fn layer_env(
    version: u8,
    info: Seq<u8>,
    esk: Seq<u8>,
    nonce: Seq<u8>,
    recipient_ed_pk: Seq<u8>,
    pt: Seq<u8>,
) -> Seq<u8> {
    seq![version] + x25519_base(esk) + nonce + xchacha_seal(
        layer_key(info, esk, recipient_ed_pk),
        nonce,
        pt,
    )
}

/// Why a layer failed to open.
#[derive(Debug)]
pub enum LayerError {
    /// Shorter than any well-formed layer.
    TooShort,
    /// The leading byte is not the expected version; carries what was found.
    WrongVersion(u8),
    /// The AEAD refused the ciphertext: wrong recipient or tampering.
    DecryptFailed,
}

/// The X25519 secret belonging to an Ed25519 seed: the clamped first half of
/// the seed's SHA-512 digest.
pub fn x25519_secret_of_seed(seed: &[u8]) -> (r: Vec<u8>)
    requires
        seed@.len() == 32,
    ensures
        r@ == x25519_clamp(sha512_of(seed@).take(32)),
        r@.len() == 32,
{
    let h = sha512(seed);
    let head = slice_subrange(h.as_slice(), 0, 32);
    let mut out: Vec<u8> = Vec::new();
    let mut i: usize = 0;
    while i < 32
        invariant
            i <= 32,
            head@.len() == 32,
            head@ == sha512_of(seed@).take(32),
            out@.len() == i,
            forall|j: int| 0 <= j < i ==> out@[j] == x25519_clamp(head@)[j],
        decreases 32 - i,
    {
        let b = head[i];
        let c: u8 = if i == 0 {
            b & 248
        } else if i == 31 {
            (b & 127) | 64
        } else {
            b
        };
        out.push(c);
        i = i + 1;
    }
    proof {
        assert(out@ =~= x25519_clamp(sha512_of(seed@).take(32)));
    }
    out
}

/// Seal one layer toward an Ed25519 recipient key, under a fresh ephemeral
/// key and nonce.
pub fn seal_layer(version: u8, info: &[u8], recipient_ed_pk: &[u8], pt: &[u8]) -> (r: Result<
    Vec<u8>,
    LayerError,
>)
    requires
        recipient_ed_pk@.len() == 32,
    ensures
        r is Ok ==> exists|esk: Seq<u8>, nonce: Seq<u8>|
            esk.len() == 32 && nonce.len() == 24 && x25519_base(esk).len() == 32 && r->Ok_0@
                == #[trigger] layer_env(version, info@, esk, nonce, recipient_ed_pk@, pt@),
        r is Ok ==> r->Ok_0@.len() == pt@.len() + 73,
        pt@.len() < 0x1000_0000 ==> r is Ok,
{
    let esk = random_bytes_32();
    let epk = crate::extcrypto::x25519_basepoint(esk.as_slice());
    let recipient_x = ed25519_pk_to_x25519(recipient_ed_pk);
    let shared = x25519_diffie_hellman(esk.as_slice(), recipient_x.as_slice());
    let key = hkdf_sha256(epk.as_slice(), shared.as_slice(), info);
    let nonce = random_bytes_24();
    let Some(ct) = xchacha_encrypt(key.as_slice(), nonce.as_slice(), pt) else {
        return Err(LayerError::DecryptFailed);
    };
    let mut out: Vec<u8> = Vec::new();
    out.push(version);
    append_bytes(&mut out, &epk);
    append_bytes(&mut out, &nonce);
    append_bytes(&mut out, &ct);
    proof {
        assert(out@ =~= layer_env(version, info@, esk@, nonce@, recipient_ed_pk@, pt@));
    }
    Ok(out)
}

/// Open one layer with the recipient's Ed25519 seed. A layer sealed under
/// this seed's public key yields its plaintext; too-short input and a wrong
/// version byte are told apart from an AEAD refusal.
pub fn open_layer(version: u8, info: &[u8], envelope: &[u8], seed: &[u8]) -> (r: Result<
    Vec<u8>,
    LayerError,
>)
    requires
        seed@.len() == 32,
    ensures
        (r matches Err(LayerError::TooShort)) <==> envelope@.len() < 73,
        envelope@.len() >= 73 ==> ((r matches Err(LayerError::WrongVersion(v)) ==> (v
            == envelope@[0] && envelope@[0] != version)) && (envelope@[0] != version ==> (r matches
        Err(LayerError::WrongVersion(v)) && v == envelope@[0]))),
        forall|esk: Seq<u8>, pt: Seq<u8>|
            esk.len() == 32 && x25519_base(esk).len() == 32 && pt.len() + 73 == envelope@.len()
                && envelope@ == #[trigger] layer_env(
                version,
                info@,
                esk,
                envelope@.subrange(33, 57),
                ed25519_pk_of(seed@),
                pt,
            ) ==> r is Ok && r->Ok_0@ == pt,
        r is Ok ==> r->Ok_0@.len() + 73 == envelope@.len(),
        (r matches Err(LayerError::DecryptFailed)) ==> envelope@.len() >= 73 && envelope@[0]
            == version,
{
    if envelope.len() < LAYER_MIN_LEN {
        return Err(LayerError::TooShort);
    }
    let v0 = envelope[0];
    if v0 != version {
        return Err(LayerError::WrongVersion(v0));
    }
    let epk = slice_subrange(envelope, 1, 33);
    let nonce = slice_subrange(envelope, 33, 57);
    let ct = slice_subrange(envelope, 57, envelope.len());
    let my_secret = x25519_secret_of_seed(seed);
    let shared = x25519_diffie_hellman(my_secret.as_slice(), epk);
    // The key the sender derived: our Ed25519 public key's Montgomery form is
    // the X25519 public key of our clamped secret, so both shared secrets and
    // hence both HKDF keys agree.
    let my_ed_pk = ed25519_public(seed);
    let ghost my_mont = ed_to_montgomery(ed25519_pk_of(seed@));
    let my_x_pk = ed25519_pk_to_x25519(my_ed_pk.as_slice());
    let key = hkdf_sha256(epk, shared.as_slice(), info);
    match xchacha_decrypt(key.as_slice(), nonce, ct) {
        Some(pt) => {
            proof {
                lemma_open_matches(version, info@, envelope@, seed@, shared@, key@);
            }
            Ok(pt)
        },
        None => {
            proof {
                lemma_open_matches(version, info@, envelope@, seed@, shared@, key@);
            }
            Err(LayerError::DecryptFailed)
        },
    }
}

/// For every sealed shape the envelope might carry, the key derived by the
/// recipient equals the key the sender used, so the ciphertext decrypts.
proof fn lemma_open_matches(
    version: u8,
    info: Seq<u8>,
    envelope: Seq<u8>,
    seed: Seq<u8>,
    shared: Seq<u8>,
    key: Seq<u8>,
)
    requires
        seed.len() == 32,
        envelope.len() >= 73,
        shared == x25519_shared(
            x25519_clamp(sha512_of(seed).take(32)),
            envelope.subrange(1, 33),
        ),
        forall|other: Seq<u8>|
            other.len() == 32 && envelope.subrange(1, 33) == x25519_base(other) ==> shared
                == x25519_shared(other, x25519_base(x25519_clamp(sha512_of(seed).take(32)))),
        ed_to_montgomery(ed25519_pk_of(seed)) == x25519_base(
            x25519_clamp(sha512_of(seed).take(32)),
        ),
        key == hkdf_sha256_of(envelope.subrange(1, 33), shared, info),
    ensures
        forall|esk: Seq<u8>, pt: Seq<u8>|
            esk.len() == 32 && x25519_base(esk).len() == 32 && pt.len() + 73 == envelope.len()
                && envelope == #[trigger] layer_env(
                version,
                info,
                esk,
                envelope.subrange(33, 57),
                ed25519_pk_of(seed),
                pt,
            ) ==> envelope.skip(57) == xchacha_seal(key, envelope.subrange(33, 57), pt),
{
    assert forall|esk: Seq<u8>, pt: Seq<u8>|
        esk.len() == 32 && x25519_base(esk).len() == 32 && pt.len() + 73 == envelope.len()
            && envelope == #[trigger] layer_env(
            version,
            info,
            esk,
            envelope.subrange(33, 57),
            ed25519_pk_of(seed),
            pt,
        ) implies envelope.skip(57) == xchacha_seal(key, envelope.subrange(33, 57), pt) by {
        let nonce = envelope.subrange(33, 57);
        let sender_key = layer_key(info, esk, ed25519_pk_of(seed));
        assert(envelope.subrange(1, 33) =~= x25519_base(esk));
        assert(shared == x25519_shared(esk, x25519_base(x25519_clamp(sha512_of(seed).take(32)))));
        assert(shared == x25519_shared(esk, ed_to_montgomery(ed25519_pk_of(seed))));
        assert(key == sender_key);
        assert(envelope.skip(57) =~= xchacha_seal(sender_key, nonce, pt));
    }
}

/// True when the bytes could be a layer of the given version: long enough
/// and opening with its version byte.
pub fn looks_like_layer(bytes: &[u8], version: u8) -> (r: bool)
    ensures
        r == (bytes@.len() >= 73 && bytes@[0] == version),
{
    bytes.len() >= LAYER_MIN_LEN && bytes[0] == version
}

} // verus!
