//! Sealed-sender envelopes for direct-message gossip: the recipient learns
//! and authenticates the sender, while relays see only ciphertext.
//!
//! The plaintext inside the layer is `sender_ed25519_pub(32) || op_bytes`.

use vstd::prelude::*;

use vstd::slice::{slice_subrange, slice_to_vec};

use crate::bytesfmt::bytes32;
use crate::envelope::{layer_env, looks_like_layer, open_layer, seal_layer, LayerError};
use crate::extcrypto::{ed25519_pk_of, x25519_base};
use crate::topics::append_bytes;

verus! {

/// Version byte of sealed-sender envelopes.
pub const SEALED_VERSION: u8 = 0x01;

/// Bytes of the HKDF info string `delta:sealed-sender:v1`.
pub open spec fn sealed_info() -> Seq<u8> {
    seq![
        0x64u8,
        0x65,
        0x6c,
        0x74,
        0x61,
        0x3a,
        0x73,
        0x65,
        0x61,
        0x6c,
        0x65,
        0x64,
        0x2d,
        0x73,
        0x65,
        0x6e,
        0x64,
        0x65,
        0x72,
        0x3a,
        0x76,
        0x31,
    ]
}

fn sealed_info_bytes() -> (r: Vec<u8>)
    ensures
        r@ == sealed_info(),
{
    let mut v: Vec<u8> = Vec::new();
    v.push(0x64);
    v.push(0x65);
    v.push(0x6c);
    v.push(0x74);
    v.push(0x61);
    v.push(0x3a);
    v.push(0x73);
    v.push(0x65);
    v.push(0x61);
    v.push(0x6c);
    v.push(0x65);
    v.push(0x64);
    v.push(0x2d);
    v.push(0x73);
    v.push(0x65);
    v.push(0x6e);
    v.push(0x64);
    v.push(0x65);
    v.push(0x72);
    v.push(0x3a);
    v.push(0x76);
    v.push(0x31);
    proof {
        assert(v@ =~= sealed_info());
    }
    v
}

/// Errors of the sealed-sender codec.
#[derive(Debug)]
pub enum SealedSenderError {
    /// Too short, or the decrypted plaintext cannot hold a sender identity.
    InvalidEnvelope,
    /// Another version byte; carries what was found.
    UnsupportedVersion(u8),
    /// Encryption failed.
    Encrypt,
    /// Decryption failed: wrong recipient key or tampered ciphertext.
    Decrypt,
}

/// Seal `op_bytes` so only the holder of `recipient_pk`'s seed can read it,
/// while authenticating `sender_pk` to that recipient alone.
pub fn seal(op_bytes: &[u8], sender_pk: &[u8; 32], recipient_pk: &[u8; 32]) -> (r: Result<
    Vec<u8>,
    SealedSenderError,
>)
    ensures
        r is Ok ==> exists|esk: Seq<u8>, nonce: Seq<u8>|
            esk.len() == 32 && nonce.len() == 24 && x25519_base(esk).len() == 32 && r->Ok_0@
                == #[trigger] layer_env(
                SEALED_VERSION,
                sealed_info(),
                esk,
                nonce,
                recipient_pk@,
                sender_pk@ + op_bytes@,
            ),
        r is Ok ==> r->Ok_0@.len() == op_bytes@.len() + 105,
        op_bytes@.len() + 32 < 0x1000_0000 ==> r is Ok,
{
    let mut pt: Vec<u8> = Vec::new();
    let sender_v = slice_to_vec(sender_pk.as_slice());
    append_bytes(&mut pt, &sender_v);
    let op_v = slice_to_vec(op_bytes);
    append_bytes(&mut pt, &op_v);
    proof {
        assert(pt@ =~= sender_pk@ + op_bytes@);
    }
    let info = sealed_info_bytes();
    match seal_layer(SEALED_VERSION, info.as_slice(), recipient_pk.as_slice(), pt.as_slice()) {
        Ok(envelope) => Ok(envelope),
        Err(_) => Err(SealedSenderError::Encrypt),
    }
}

/// Open a sealed envelope with the recipient's Ed25519 seed. An envelope
/// sealed to this seed's public key yields exactly the sender identity and
/// payload it was built from.
pub fn open(envelope: &[u8], recipient_seed: &[u8; 32]) -> (r: Result<
    ([u8; 32], Vec<u8>),
    SealedSenderError,
>)
    ensures
        forall|esk: Seq<u8>, spk: Seq<u8>, op: Seq<u8>|
            esk.len() == 32 && x25519_base(esk).len() == 32 && spk.len() == 32 && spk.len()
                + op.len() + 73 == envelope@.len() && envelope@ == #[trigger] layer_env(
                SEALED_VERSION,
                sealed_info(),
                esk,
                envelope@.subrange(33, 57),
                ed25519_pk_of(recipient_seed@),
                spk + op,
            ) ==> r is Ok && r->Ok_0.0@ == spk && r->Ok_0.1@ == op,
        envelope@.len() < 73 ==> (r matches Err(SealedSenderError::InvalidEnvelope)),
        envelope@.len() >= 73 && envelope@[0] != SEALED_VERSION ==> (r matches Err(
            SealedSenderError::UnsupportedVersion(v),
        ) && v == envelope@[0]),
        (r matches Err(SealedSenderError::Decrypt)) ==> envelope@.len() >= 73 && envelope@[0]
            == SEALED_VERSION,
{
    let info = sealed_info_bytes();
    let pt = match open_layer(SEALED_VERSION, info.as_slice(), envelope, recipient_seed.as_slice(),
    ) {
        Ok(pt) => pt,
        Err(LayerError::TooShort) => {
            return Err(SealedSenderError::InvalidEnvelope);
        },
        Err(LayerError::WrongVersion(v)) => {
            return Err(SealedSenderError::UnsupportedVersion(v));
        },
        Err(LayerError::DecryptFailed) => {
            return Err(SealedSenderError::Decrypt);
        },
    };
    if pt.len() < 32 {
        proof {
            assert forall|esk: Seq<u8>, spk: Seq<u8>, op: Seq<u8>|
                !(esk.len() == 32 && x25519_base(esk).len() == 32 && spk.len() == 32 && spk.len()
                    + op.len() + 73 == envelope@.len() && envelope@ == #[trigger] layer_env(
                    SEALED_VERSION,
                    sealed_info(),
                    esk,
                    envelope@.subrange(33, 57),
                    ed25519_pk_of(recipient_seed@),
                    spk + op,
                )) by {
                if esk.len() == 32 && x25519_base(esk).len() == 32 && spk.len() == 32 && spk.len()
                    + op.len() + 73 == envelope@.len() && envelope@ == layer_env(
                    SEALED_VERSION,
                    sealed_info(),
                    esk,
                    envelope@.subrange(33, 57),
                    ed25519_pk_of(recipient_seed@),
                    spk + op,
                ) {
                    assert(pt@ == spk + op);
                }
            }
        }
        return Err(SealedSenderError::InvalidEnvelope);
    }
    let sender = slice_subrange(pt.as_slice(), 0, 32);
    let sender_arr = bytes32(sender);
    let op = slice_subrange(pt.as_slice(), 32, pt.len());
    let op_v = slice_to_vec(op);
    proof {
        assert forall|esk: Seq<u8>, spk: Seq<u8>, op0: Seq<u8>|
            esk.len() == 32 && x25519_base(esk).len() == 32 && spk.len() == 32 && spk.len()
                + op0.len() + 73 == envelope@.len() && envelope@ == #[trigger] layer_env(
                SEALED_VERSION,
                sealed_info(),
                esk,
                envelope@.subrange(33, 57),
                ed25519_pk_of(recipient_seed@),
                spk + op0,
            ) implies sender_arr@ == spk && op_v@ == op0 by {
            assert(pt@ == spk + op0);
            assert(sender_arr@ =~= spk);
            assert(op_v@ =~= op0);
        }
    }
    Ok((sender_arr, op_v))
}

/// True when the bytes could be a sealed-sender envelope: version byte and
/// minimum length only; `open` alone decides.
pub fn is_sealed(bytes: &[u8]) -> (r: bool)
    ensures
        r == (bytes@.len() >= 73 && bytes@[0] == SEALED_VERSION),
{
    looks_like_layer(bytes, SEALED_VERSION)
}

} // verus!
