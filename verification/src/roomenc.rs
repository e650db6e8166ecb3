//! The room-encryption envelope and checkpoint plumbing of the group layer.
//!
//! An encrypted application message travels as a CBOR map
//! `{secret_id, nonce, ciphertext, sender_key}`; it becomes the body of a
//! message op for rooms or of a directed op for direct messages. The group
//! key agreement itself runs in the outside crate against the membership and
//! orderer state modelled in this library; each call hands back new group,
//! key-manager and key-registry state, and all three must be persisted
//! together — a partial write would desynchronize the peer, so the artifacts
//! travel as one value that the caller persists in one transaction.

use vstd::prelude::*;

use vstd::string::{StringSliceAdditionalSpecFns, StrSliceExecFns};

use crate::cbor::{cbor_bytes, cbor_hdr, cbor_text, parse_cbor_bytes_at, push_cbor_bytes,
    push_cbor_hdr, push_cbor_text};
use crate::token::expect_at;

verus! {

/// The wire bytes of an encrypted application message.
pub open spec fn encrypted_body_of(
    secret_id: Seq<u8>,
    nonce: Seq<u8>,
    ciphertext: Seq<u8>,
    sender_key: Seq<u8>,
) -> Seq<u8> {
    cbor_hdr(5, 4) + cbor_text("secret_id"@) + cbor_bytes(secret_id) + cbor_text("nonce"@)
        + cbor_bytes(nonce) + cbor_text("ciphertext"@) + cbor_bytes(ciphertext) + cbor_text(
        "sender_key"@,
    ) + cbor_bytes(sender_key)
}

/// Encode an encrypted application message for the wire.
pub fn encode_encrypted_body(
    secret_id: &[u8],
    nonce: &[u8],
    ciphertext: &Vec<u8>,
    sender_key: &[u8],
) -> (r: Vec<u8>)
    ensures
        r@ == encrypted_body_of(secret_id@, nonce@, ciphertext@, sender_key@),
{
    let mut out: Vec<u8> = Vec::new();
    push_cbor_hdr(&mut out, 5, 4);
    push_cbor_text(&mut out, "secret_id");
    let sid = vstd::slice::slice_to_vec(secret_id);
    push_cbor_bytes(&mut out, &sid);
    push_cbor_text(&mut out, "nonce");
    let nv = vstd::slice::slice_to_vec(nonce);
    push_cbor_bytes(&mut out, &nv);
    push_cbor_text(&mut out, "ciphertext");
    push_cbor_bytes(&mut out, ciphertext);
    push_cbor_text(&mut out, "sender_key");
    let skv = vstd::slice::slice_to_vec(sender_key);
    push_cbor_bytes(&mut out, &skv);
    proof {
        assert(out@ =~= encrypted_body_of(secret_id@, nonce@, ciphertext@, sender_key@));
    }
    out
}

/// The decoded fields of an encrypted application message.
pub struct EncryptedBody {
    pub secret_id: Vec<u8>,
    pub nonce: Vec<u8>,
    pub ciphertext: Vec<u8>,
    pub sender_key: Vec<u8>,
}

/// The map header and first key of the envelope.
pub open spec fn eb_k0() -> Seq<u8> {
    cbor_hdr(5, 4) + cbor_text("secret_id"@)
}

/// The second key.
pub open spec fn eb_k1() -> Seq<u8> {
    cbor_text("nonce"@)
}

/// The third key.
pub open spec fn eb_k2() -> Seq<u8> {
    cbor_text("ciphertext"@)
}

/// The fourth key.
pub open spec fn eb_k3() -> Seq<u8> {
    cbor_text("sender_key"@)
}

/// The envelope from the fourth key on.
pub open spec fn eb_t3(snd: Seq<u8>) -> Seq<u8> {
    eb_k3() + (cbor_bytes(snd) + Seq::<u8>::empty())
}

/// The envelope from the third key on.
pub open spec fn eb_t2(ct: Seq<u8>, snd: Seq<u8>) -> Seq<u8> {
    eb_k2() + (cbor_bytes(ct) + eb_t3(snd))
}

/// The envelope from the second key on.
pub open spec fn eb_t1(non: Seq<u8>, ct: Seq<u8>, snd: Seq<u8>) -> Seq<u8> {
    eb_k1() + (cbor_bytes(non) + eb_t2(ct, snd))
}

/// The whole envelope, nested so each parsing step peels one layer.
pub open spec fn eb_full(sid: Seq<u8>, non: Seq<u8>, ct: Seq<u8>, snd: Seq<u8>) -> Seq<u8> {
    eb_k0() + (cbor_bytes(sid) + eb_t1(non, ct, snd))
}

/// Concatenation reassociates.
proof fn lemma_add_assoc(a: Seq<u8>, b: Seq<u8>, c: Seq<u8>)
    ensures
        (a + b) + c =~= a + (b + c),
{
}

/// The flat and the nested spellings agree.
proof fn lemma_eb_assoc(sid: Seq<u8>, non: Seq<u8>, ct: Seq<u8>, snd: Seq<u8>)
    ensures
        encrypted_body_of(sid, non, ct, snd) == eb_full(sid, non, ct, snd),
{
    let k0a = cbor_hdr(5, 4);
    let k0b = cbor_text("secret_id"@);
    let s_ = cbor_bytes(sid);
    let n_ = cbor_bytes(non);
    let c_ = cbor_bytes(ct);
    let d_ = cbor_bytes(snd);
    let k1 = eb_k1();
    let k2 = eb_k2();
    let k3 = eb_k3();
    assert(d_ + Seq::<u8>::empty() =~= d_);
    lemma_add_assoc(k0a + k0b + s_ + k1 + n_ + k2 + c_, k3, d_);
    lemma_add_assoc(k0a + k0b + s_ + k1 + n_, k2, c_ + (k3 + d_));
    lemma_add_assoc(k0a + k0b + s_ + k1 + n_ + k2, c_, k3 + d_);
    lemma_add_assoc(k0a + k0b + s_ + k1, n_, k2 + (c_ + (k3 + d_)));
    lemma_add_assoc(k0a + k0b + s_, k1, n_ + (k2 + (c_ + (k3 + d_))));
    lemma_add_assoc(k0a + k0b, s_, k1 + (n_ + (k2 + (c_ + (k3 + d_)))));
}

/// Parse an encrypted application message: what comes back re-encodes to
/// exactly the input, and every canonically encoded message (fields under
/// four gigabytes) parses back to its fields.
#[verifier::spinoff_prover]
#[verifier::rlimit(100)]
pub fn parse_encrypted_body(u: &[u8]) -> (r: Option<EncryptedBody>)
    ensures
        r is Some ==> ({
            let q = r->0;
            u@ == encrypted_body_of(q.secret_id@, q.nonce@, q.ciphertext@, q.sender_key@)
        }),
        forall|sid: Seq<u8>, non: Seq<u8>, ct: Seq<u8>, snd: Seq<u8>|
            sid.len() < 0x1_0000_0000 && non.len() < 0x1_0000_0000 && ct.len() < 0x1_0000_0000
                && snd.len() < 0x1_0000_0000 && u@ == #[trigger] encrypted_body_of(
                sid,
                non,
                ct,
                snd,
            ) ==> r is Some && r->0.secret_id@ == sid && r->0.nonce@ == non && r->0.ciphertext@
                == ct && r->0.sender_key@ == snd,
{
    let mut k0: Vec<u8> = Vec::new();
    push_cbor_hdr(&mut k0, 5, 4);
    push_cbor_text(&mut k0, "secret_id");
    let mut k1: Vec<u8> = Vec::new();
    push_cbor_text(&mut k1, "nonce");
    let mut k2: Vec<u8> = Vec::new();
    push_cbor_text(&mut k2, "ciphertext");
    let mut k3: Vec<u8> = Vec::new();
    push_cbor_text(&mut k3, "sender_key");
    proof {
        assert(k0@ =~= eb_k0());
        assert(k1@ =~= eb_k1());
        assert(k2@ =~= eb_k2());
        assert(k3@ =~= eb_k3());
        assert(u@.skip(0) =~= u@);
    }
    let r0 = expect_at(u, 0, k0.as_slice());
    proof {
        assert forall|sid: Seq<u8>, non: Seq<u8>, ct: Seq<u8>, snd: Seq<u8>|
            #[trigger] encrypted_body_of(sid, non, ct, snd) == u@ implies r0 is Some && r0->0
            == eb_k0().len() && u@.skip(eb_k0().len() as int) == cbor_bytes(sid) + eb_t1(
            non,
            ct,
            snd,
        ) by {
            lemma_eb_assoc(sid, non, ct, snd);
            crate::token::lemma_strip_concat(eb_k0(), cbor_bytes(sid) + eb_t1(non, ct, snd));
        }
    }
    let Some(p0) = r0 else {
        return None;
    };
    let r1 = parse_cbor_bytes_at(u, p0);
    let Some((secret_id, p1)) = r1 else {
        return None;
    };
    proof {
        assert forall|sid: Seq<u8>, non: Seq<u8>, ct: Seq<u8>, snd: Seq<u8>|
            sid.len() < 0x1_0000_0000 && #[trigger] encrypted_body_of(sid, non, ct, snd)
                == u@ implies secret_id@ == sid && u@.skip(p1 as int) == eb_t1(non, ct, snd)
            && eb_t1(non, ct, snd) == eb_k1() + (cbor_bytes(non) + eb_t2(ct, snd)) by {
            assert(u@.skip(p0 as int) == cbor_bytes(sid) + eb_t1(non, ct, snd));
            assert(p1 == p0 + cbor_bytes(sid).len());
            assert(u@.skip(p1 as int) =~= u@.skip(p0 as int).skip(cbor_bytes(sid).len() as int));
            assert(u@.skip(p0 as int).skip(cbor_bytes(sid).len() as int) =~= eb_t1(non, ct, snd));
        }
    }
    let r2 = expect_at(u, p1, k1.as_slice());
    proof {
        assert forall|sid: Seq<u8>, non: Seq<u8>, ct: Seq<u8>, snd: Seq<u8>|
            sid.len() < 0x1_0000_0000 && #[trigger] encrypted_body_of(sid, non, ct, snd)
                == u@ implies r2 is Some && u@.skip(r2->0 as int) == cbor_bytes(non) + eb_t2(
            ct,
            snd,
        ) by {
            crate::token::lemma_strip_concat(eb_k1(), cbor_bytes(non) + eb_t2(ct, snd));
        }
    }
    let Some(p2) = r2 else {
        return None;
    };
    let r3 = parse_cbor_bytes_at(u, p2);
    let Some((nonce, p3)) = r3 else {
        return None;
    };
    proof {
        assert forall|sid: Seq<u8>, non: Seq<u8>, ct: Seq<u8>, snd: Seq<u8>|
            sid.len() < 0x1_0000_0000 && non.len() < 0x1_0000_0000 && #[trigger] encrypted_body_of(
                sid,
                non,
                ct,
                snd,
            ) == u@ implies nonce@ == non && u@.skip(p3 as int) == eb_t2(ct, snd) && eb_t2(ct, snd)
            == eb_k2() + (cbor_bytes(ct) + eb_t3(snd)) by {
            assert(p3 == p2 + cbor_bytes(non).len());
            assert(u@.skip(p3 as int) =~= u@.skip(p2 as int).skip(cbor_bytes(non).len() as int));
            assert(u@.skip(p2 as int).skip(cbor_bytes(non).len() as int) =~= eb_t2(ct, snd));
        }
    }
    let r4 = expect_at(u, p3, k2.as_slice());
    proof {
        assert forall|sid: Seq<u8>, non: Seq<u8>, ct: Seq<u8>, snd: Seq<u8>|
            sid.len() < 0x1_0000_0000 && non.len() < 0x1_0000_0000 && #[trigger] encrypted_body_of(
                sid,
                non,
                ct,
                snd,
            ) == u@ implies r4 is Some && u@.skip(r4->0 as int) == cbor_bytes(ct) + eb_t3(snd) by {
            crate::token::lemma_strip_concat(eb_k2(), cbor_bytes(ct) + eb_t3(snd));
        }
    }
    let Some(p4) = r4 else {
        return None;
    };
    let r5 = parse_cbor_bytes_at(u, p4);
    let Some((ciphertext, p5)) = r5 else {
        return None;
    };
    proof {
        assert forall|sid: Seq<u8>, non: Seq<u8>, ct: Seq<u8>, snd: Seq<u8>|
            sid.len() < 0x1_0000_0000 && non.len() < 0x1_0000_0000 && ct.len() < 0x1_0000_0000 && #[trigger] encrypted_body_of(
                sid,
                non,
                ct,
                snd,
            ) == u@ implies ciphertext@ == ct && u@.skip(p5 as int) == eb_t3(snd) && eb_t3(snd)
            == eb_k3() + (cbor_bytes(snd) + Seq::<u8>::empty()) by {
            assert(p5 == p4 + cbor_bytes(ct).len());
            assert(u@.skip(p5 as int) =~= u@.skip(p4 as int).skip(cbor_bytes(ct).len() as int));
            assert(u@.skip(p4 as int).skip(cbor_bytes(ct).len() as int) =~= eb_t3(snd));
        }
    }
    let r6 = expect_at(u, p5, k3.as_slice());
    proof {
        assert forall|sid: Seq<u8>, non: Seq<u8>, ct: Seq<u8>, snd: Seq<u8>|
            sid.len() < 0x1_0000_0000 && non.len() < 0x1_0000_0000 && ct.len()
                < 0x1_0000_0000 && #[trigger] encrypted_body_of(sid, non, ct, snd)
                == u@ implies r6 is Some && u@.skip(r6->0 as int) == cbor_bytes(snd)
            + Seq::<u8>::empty() by {
            crate::token::lemma_strip_concat(eb_k3(), cbor_bytes(snd) + Seq::<u8>::empty());
        }
    }
    let Some(p6) = r6 else {
        return None;
    };
    let r7 = parse_cbor_bytes_at(u, p6);
    let Some((sender_key, p7)) = r7 else {
        return None;
    };
    proof {
        assert forall|sid: Seq<u8>, non: Seq<u8>, ct: Seq<u8>, snd: Seq<u8>|
            sid.len() < 0x1_0000_0000 && non.len() < 0x1_0000_0000 && ct.len() < 0x1_0000_0000
                && snd.len() < 0x1_0000_0000 && #[trigger] encrypted_body_of(sid, non, ct, snd)
                == u@ implies sender_key@ == snd && p7 == u@.len() by {
            assert(p7 == p6 + cbor_bytes(snd).len());
            assert(u@.skip(p6 as int) =~= cbor_bytes(snd));
        }
    }
    if p7 != u.len() {
        return None;
    }
    proof {
        assert(u@ =~= u@.subrange(0, p0 as int) + u@.subrange(p0 as int, p1 as int) + u@.subrange(
            p1 as int,
            p2 as int,
        ) + u@.subrange(p2 as int, p3 as int) + u@.subrange(p3 as int, p4 as int) + u@.subrange(
            p4 as int,
            p5 as int,
        ) + u@.subrange(p5 as int, p6 as int) + u@.subrange(p6 as int, p7 as int));
        assert(u@.subrange(0, p0 as int) =~= eb_k0());
        assert(u@ =~= encrypted_body_of(secret_id@, nonce@, ciphertext@, sender_key@));
    }
    Some(EncryptedBody { secret_id, nonce, ciphertext, sender_key })
}


/// Errors of the group-encryption layer.
#[derive(Debug)]
pub enum EncryptionError {
    /// The encryption state was never initialised.
    NotInitialised,
    /// No group state exists for the named group.
    MissingGroup(String),
    /// The group key agreement refused the call; carries its report.
    Crypto(String),
    /// A state checkpoint or message failed to decode.
    Codec,
}

/// The three durable artifacts every successful group send or receive must
/// persist together, in one transaction: the group state snapshot, the key
/// manager (pre-keys are consumed here), and the key registry. Persisting
/// only some of them would desynchronize the peer — a consumed pre-key that
/// was not recorded would be reused.
pub struct GroupCheckpoints {
    pub group_state: Vec<u8>,
    pub key_manager: Vec<u8>,
    pub key_registry: Vec<u8>,
}

/// Package a successful group send: the wire body of the encrypted message,
/// and the three checkpoints as one value so the caller persists all of them
/// or none.
pub fn seal_room_message(
    secret_id: &[u8],
    nonce: &[u8],
    ciphertext: Vec<u8>,
    sender_key: &[u8],
    group_state: Vec<u8>,
    key_manager: Vec<u8>,
    key_registry: Vec<u8>,
) -> (r: (Vec<u8>, GroupCheckpoints))
    ensures
        r.0@ == encrypted_body_of(secret_id@, nonce@, ciphertext@, sender_key@),
        r.1.group_state@ == group_state@,
        r.1.key_manager@ == key_manager@,
        r.1.key_registry@ == key_registry@,
{
    let body = encode_encrypted_body(secret_id, nonce, &ciphertext, sender_key);
    (body, GroupCheckpoints { group_state, key_manager, key_registry })
}

/// Open a received encrypted message body: exactly the canonical envelopes
/// parse, and the fields come back as they were sealed. The sender identity
/// inside is an assertion the caller must still check against the group's
/// membership.
pub fn open_room_message(body: &[u8]) -> (r: Result<EncryptedBody, EncryptionError>)
    ensures
        r is Ok ==> body@ == encrypted_body_of(
            r->Ok_0.secret_id@,
            r->Ok_0.nonce@,
            r->Ok_0.ciphertext@,
            r->Ok_0.sender_key@,
        ),
        forall|sid: Seq<u8>, non: Seq<u8>, ct: Seq<u8>, snd: Seq<u8>|
            sid.len() < 0x1_0000_0000 && non.len() < 0x1_0000_0000 && ct.len() < 0x1_0000_0000
                && snd.len() < 0x1_0000_0000 && body@ == #[trigger] encrypted_body_of(
                sid,
                non,
                ct,
                snd,
            ) ==> r is Ok && r->Ok_0.secret_id@ == sid && r->Ok_0.nonce@ == non
                && r->Ok_0.ciphertext@ == ct && r->Ok_0.sender_key@ == snd,
{
    match parse_encrypted_body(body) {
        Some(parsed) => Ok(parsed),
        None => Err(EncryptionError::Codec),
    }
}

/// Fixed-size views of a received body's fields: exactly the frames whose
/// secret id, nonce and sender identity carry the wire sizes convert, and
/// they convert to themselves.
pub fn encrypted_body_arrays(body: &EncryptedBody) -> (r: Option<
    ([u8; 32], [u8; 24], [u8; 32]),
>)
    ensures
        r is Some <==> body.secret_id@.len() == 32 && body.nonce@.len() == 24
            && body.sender_key@.len() == 32,
        r is Some ==> ({
            let q = r->0;
            q.0@ == body.secret_id@ && q.1@ == body.nonce@ && q.2@ == body.sender_key@
        }),
{
    if body.secret_id.len() != 32 || body.nonce.len() != 24 || body.sender_key.len() != 32 {
        return None;
    }
    let sid = crate::bytesfmt::bytes32(body.secret_id.as_slice());
    let nonce = crate::bytesfmt::bytes24(body.nonce.as_slice());
    let sender = crate::bytesfmt::bytes32(body.sender_key.as_slice());
    Some((sid, nonce, sender))
}

/// The content hash a blob is stored under: the plaintext alone for plain
/// blobs, and the plaintext with the room id mixed in for room-bound blobs,
/// so two rooms' ciphertexts never collide on disk.
pub fn blob_content_hash(bytes: &[u8], room_id: Option<&str>) -> (r: String)
    ensures
        r@ == (match room_id {
            Some(rid) => crate::bytesfmt::hex_chars_of(
                crate::extcrypto::blake3_of(bytes@ + rid.spec_bytes()),
            ),
            None => crate::bytesfmt::hex_chars_of(crate::extcrypto::blake3_of(bytes@)),
        }),
{
    match room_id {
        Some(rid) => {
            let mut keyed = vstd::slice::slice_to_vec(bytes);
            let rid_bytes = rid.as_bytes_vec();
            crate::topics::append_bytes(&mut keyed, &rid_bytes);
            let h = crate::extcrypto::blake3_hash(keyed.as_slice());
            crate::bytesfmt::hex_string(h.as_slice())
        },
        None => {
            let h = crate::extcrypto::blake3_hash(bytes);
            crate::bytesfmt::hex_string(h.as_slice())
        },
    }
}

} // verus!
