//! Onion routing: nested encrypted layers, each peelable by one hop. A hop
//! learns only the next hop's URL; the last hop receives the topic and the
//! operation to deliver.

use vstd::prelude::*;

use vstd::slice::{slice_subrange, slice_to_vec};
use vstd::string::StringSliceAdditionalSpecFns;
use vstd::utf8::encode_utf8;

use crate::bytesfmt::{bytes32, string_from_utf8};
use crate::envelope::{layer_env, open_layer, seal_layer, LayerError};
use crate::extcrypto::{ed25519_pk_of, x25519_base};
use crate::topics::append_bytes;

verus! {

/// Version byte of onion layers.
pub const ONION_VERSION: u8 = 0x02;

/// Bytes of the HKDF info string `delta:onion:v1`.
pub open spec fn onion_info() -> Seq<u8> {
    seq![0x64u8, 0x65, 0x6c, 0x74, 0x61, 0x3a, 0x6f, 0x6e, 0x69, 0x6f, 0x6e, 0x3a, 0x76, 0x31]
}

fn onion_info_bytes() -> (r: Vec<u8>)
    ensures
        r@ == onion_info(),
{
    let mut v: Vec<u8> = Vec::new();
    v.push(0x64);
    v.push(0x65);
    v.push(0x6c);
    v.push(0x74);
    v.push(0x61);
    v.push(0x3a);
    v.push(0x6f);
    v.push(0x6e);
    v.push(0x69);
    v.push(0x6f);
    v.push(0x6e);
    v.push(0x3a);
    v.push(0x76);
    v.push(0x31);
    proof {
        assert(v@ =~= onion_info());
    }
    v
}

/// Errors of the onion codec.
#[derive(Debug)]
pub enum OnionError {
    /// The route has no hops.
    EmptyRoute,
    /// A layer is too short to be well-formed.
    InvalidEnvelope,
    /// A layer carries another version byte.
    UnsupportedVersion(u8),
    /// Encryption failed.
    Encrypt,
    /// Decryption failed: wrong key or tampering.
    Decrypt,
    /// The decrypted payload is not a valid instruction.
    InvalidPayload,
    /// A key or identifier has the wrong shape; carries the reason.
    InvalidKey(String),
}

/// The instruction one peeled layer reveals to its hop.
pub enum OnionPayload {
    /// Post `inner_packet` to `next_hop_url`.
    Forward { next_hop_url: String, inner_packet: Vec<u8> },
    /// Exit: publish `op` on the topic.
    Deliver { topic_id: [u8; 32], op: Vec<u8> },
}

/// One hop of a route: its Ed25519 key, and the URL where it accepts packets.
pub struct OnionHop {
    pub pubkey_bytes: [u8; 32],
    pub next_url: String,
}

/// Wire form of a forward instruction: tag, two-byte URL length, URL bytes,
/// then the inner packet.
pub open spec fn forward_enc(url: Seq<char>, inner: Seq<u8>) -> Seq<u8> {
    seq![0x01u8, (encode_utf8(url).len() / 256) as u8, (encode_utf8(url).len() % 256) as u8]
        + encode_utf8(url) + inner
}

/// Wire form of a deliver instruction: tag, 32-byte topic, then the op.
pub open spec fn deliver_enc(topic: Seq<u8>, op: Seq<u8>) -> Seq<u8> {
    seq![0x02u8] + topic + op
}

/// Wire form of either instruction.
pub open spec fn payload_enc(p: OnionPayload) -> Seq<u8> {
    match p {
        OnionPayload::Forward { next_hop_url, inner_packet } => forward_enc(
            next_hop_url@,
            inner_packet@,
        ),
        OnionPayload::Deliver { topic_id, op } => deliver_enc(topic_id@, op@),
    }
}

/// Encode an instruction for encryption. The URL must fit its two-byte
/// length field.
pub fn encode_payload(p: &OnionPayload) -> (r: Result<Vec<u8>, OnionError>)
    ensures
        r is Ok <==> match *p {
            OnionPayload::Forward { next_hop_url, .. } => encode_utf8(next_hop_url@).len()
                <= 0xffff,
            OnionPayload::Deliver { .. } => true,
        },
        r is Ok ==> r->Ok_0@ == payload_enc(*p),
{
    match p {
        OnionPayload::Forward { next_hop_url, inner_packet } => {
            let url_b = next_hop_url.as_str().as_bytes_vec();
            if url_b.len() > 0xffff {
                return Err(OnionError::InvalidPayload);
            }
            let len16: u16 = url_b.len() as u16;
            let mut out: Vec<u8> = Vec::new();
            out.push(0x01);
            out.push((len16 / 256) as u8);
            out.push((len16 % 256) as u8);
            append_bytes(&mut out, &url_b);
            append_bytes(&mut out, inner_packet);
            proof {
                assert(out@ =~= payload_enc(*p));
            }
            Ok(out)
        },
        OnionPayload::Deliver { topic_id, op } => {
            let mut out: Vec<u8> = Vec::new();
            out.push(0x02);
            let topic_v = slice_to_vec(topic_id.as_slice());
            append_bytes(&mut out, &topic_v);
            append_bytes(&mut out, op);
            proof {
                assert(out@ =~= payload_enc(*p));
            }
            Ok(out)
        },
    }
}

/// Decode an instruction. Anything some instruction encodes to is accepted,
/// and what is returned re-encodes to the input.
pub fn decode_payload(bytes: &[u8]) -> (r: Result<OnionPayload, OnionError>)
    ensures
        r is Ok ==> payload_enc(r->Ok_0) == bytes@ && payload_wf(r->Ok_0),
        forall|url: Seq<char>, inner: Seq<u8>|
            encode_utf8(url).len() <= 0xffff && bytes@ == #[trigger] forward_enc(url, inner) ==> r
                is Ok && (r->Ok_0 matches OnionPayload::Forward { next_hop_url, inner_packet }
                && next_hop_url@ == url && inner_packet@ == inner),
        forall|topic: Seq<u8>, op: Seq<u8>|
            topic.len() == 32 && bytes@ == #[trigger] deliver_enc(topic, op) ==> r is Ok && (
            r->Ok_0 matches OnionPayload::Deliver { topic_id, op: op_out } && topic_id@ == topic
                && op_out@ == op),
        r is Err ==> r->Err_0 is InvalidPayload,
{
    if bytes.len() == 0 {
        proof {
            lemma_enc_heads();
        }
        return Err(OnionError::InvalidPayload);
    }
    let tag = bytes[0];
    if tag == 0x01 {
        if bytes.len() < 3 {
            proof {
                assert forall|url: Seq<char>, inner: Seq<u8>|
                    bytes@ != #[trigger] forward_enc(url, inner) by {
                    if bytes@ == forward_enc(url, inner) {
                        assert(bytes@.len() >= 3);
                    }
                }
                assert forall|topic: Seq<u8>, op: Seq<u8>|
                    !(topic.len() == 32 && bytes@ == #[trigger] deliver_enc(topic, op)) by {
                    if topic.len() == 32 && bytes@ == deliver_enc(topic, op) {
                        assert(bytes@[0] == 0x02);
                    }
                }
            }
            return Err(OnionError::InvalidPayload);
        }
        let hi = bytes[1];
        let lo = bytes[2];
        let url_len: usize = (hi as usize) * 256 + (lo as usize);
        if bytes.len() - 3 < url_len {
            proof {
                assert forall|url: Seq<char>, inner: Seq<u8>|
                    !(encode_utf8(url).len() <= 0xffff && bytes@ == #[trigger] forward_enc(
                        url,
                        inner,
                    )) by {
                    if encode_utf8(url).len() <= 0xffff && bytes@ == forward_enc(url, inner) {
                        let ulen = encode_utf8(url).len();
                        assert(bytes@[1] == (ulen / 256) as u8);
                        assert(bytes@[2] == (ulen % 256) as u8);
                        assert(url_len == ulen);
                        assert(bytes@.len() >= 3 + ulen);
                    }
                }
                assert forall|topic: Seq<u8>, op: Seq<u8>|
                    !(topic.len() == 32 && bytes@ == #[trigger] deliver_enc(topic, op)) by {
                    if topic.len() == 32 && bytes@ == deliver_enc(topic, op) {
                        assert(bytes@[0] == 0x02);
                    }
                }
            }
            return Err(OnionError::InvalidPayload);
        }
        let url_bytes = slice_subrange(bytes, 3, 3 + url_len);
        let url_v = slice_to_vec(url_bytes);
        let Some(next_hop_url) = string_from_utf8(url_v) else {
            proof {
                assert forall|url: Seq<char>, inner: Seq<u8>|
                    !(encode_utf8(url).len() <= 0xffff && bytes@ == #[trigger] forward_enc(
                        url,
                        inner,
                    )) by {
                    if encode_utf8(url).len() <= 0xffff && bytes@ == forward_enc(url, inner) {
                        let ulen = encode_utf8(url).len();
                        assert(bytes@[1] == (ulen / 256) as u8);
                        assert(bytes@[2] == (ulen % 256) as u8);
                        assert(url_len == ulen);
                        assert(url_bytes@ =~= encode_utf8(url));
                        vstd::utf8::encode_utf8_valid_utf8(url);
                    }
                }
                assert forall|topic: Seq<u8>, op: Seq<u8>|
                    !(topic.len() == 32 && bytes@ == #[trigger] deliver_enc(topic, op)) by {
                    if topic.len() == 32 && bytes@ == deliver_enc(topic, op) {
                        assert(bytes@[0] == 0x02);
                    }
                }
            }
            return Err(OnionError::InvalidPayload);
        };
        let inner = slice_subrange(bytes, 3 + url_len, bytes.len());
        let inner_packet = slice_to_vec(inner);
        let out = OnionPayload::Forward { next_hop_url, inner_packet };
        proof {
            assert(encode_utf8(out->Forward_next_hop_url@) == url_bytes@);
            assert(encode_utf8(out->Forward_next_hop_url@).len() == url_len as int);
            assert(payload_enc(out) =~= bytes@);
            assert forall|url: Seq<char>, inner: Seq<u8>|
                encode_utf8(url).len() <= 0xffff && bytes@ == #[trigger] forward_enc(
                    url,
                    inner,
                ) implies (out matches OnionPayload::Forward { next_hop_url: nu, inner_packet: ip }
                && nu@ == url && ip@ == inner) by {
                let ulen = encode_utf8(url).len();
                assert(bytes@[1] == (ulen / 256) as u8);
                assert(bytes@[2] == (ulen % 256) as u8);
                assert(url_len == ulen);
                assert(url_bytes@ =~= encode_utf8(url));
                vstd::utf8::encode_utf8_decode_utf8(url);
                vstd::utf8::encode_utf8_decode_utf8(out->Forward_next_hop_url@);
                assert(out->Forward_inner_packet@ =~= inner);
            }
            assert forall|topic: Seq<u8>, op: Seq<u8>|
                !(topic.len() == 32 && bytes@ == #[trigger] deliver_enc(topic, op)) by {
                if topic.len() == 32 && bytes@ == deliver_enc(topic, op) {
                    assert(bytes@[0] == 0x02);
                }
            }
        }
        Ok(out)
    } else if tag == 0x02 {
        if bytes.len() < 33 {
            proof {
                assert forall|topic: Seq<u8>, op: Seq<u8>|
                    !(topic.len() == 32 && bytes@ == #[trigger] deliver_enc(topic, op)) by {
                    if topic.len() == 32 && bytes@ == deliver_enc(topic, op) {
                        assert(bytes@.len() >= 33);
                    }
                }
                lemma_enc_heads();
            }
            return Err(OnionError::InvalidPayload);
        }
        let topic = slice_subrange(bytes, 1, 33);
        let topic_id = bytes32(topic);
        let op_slice = slice_subrange(bytes, 33, bytes.len());
        let op = slice_to_vec(op_slice);
        let out = OnionPayload::Deliver { topic_id, op };
        proof {
            assert(payload_enc(out) =~= bytes@);
            assert forall|topic: Seq<u8>, op0: Seq<u8>|
                topic.len() == 32 && bytes@ == #[trigger] deliver_enc(topic, op0) implies (out
                matches OnionPayload::Deliver { topic_id: t, op: o } && t@ == topic && o@
                == op0) by {
                assert(out->Deliver_topic_id@ =~= topic);
                assert(out->Deliver_op@ =~= op0);
            }
            lemma_enc_heads();
        }
        Ok(out)
    } else {
        proof {
            lemma_enc_heads();
        }
        Err(OnionError::InvalidPayload)
    }
}

/// Every forward instruction opens with its tag and every delivery with its
/// own: used to tell the cases apart at each refusal.
pub proof fn lemma_enc_heads()
    ensures
        forall|url: Seq<char>, inner: Seq<u8>|
            (#[trigger] forward_enc(url, inner)).len() >= 3 && forward_enc(url, inner)[0] == 0x01,
        forall|topic: Seq<u8>, op: Seq<u8>|
            (#[trigger] deliver_enc(topic, op)).len() >= 1 + topic.len() && deliver_enc(
                topic,
                op,
            )[0] == 0x02,
{
}

/// An instruction whose URL fits its length field.
pub open spec fn payload_wf(p: OnionPayload) -> bool {
    match p {
        OnionPayload::Forward { next_hop_url, .. } => encode_utf8(next_hop_url@).len() <= 0xffff,
        OnionPayload::Deliver { .. } => true,
    }
}

/// Two well-formed instructions with the same wire form carry the same fields.
pub proof fn lemma_payload_enc_injective(a: OnionPayload, b: OnionPayload)
    requires
        payload_wf(a),
        payload_wf(b),
        payload_enc(a) == payload_enc(b),
    ensures
        match (a, b) {
            (
                OnionPayload::Forward { next_hop_url: u1, inner_packet: i1 },
                OnionPayload::Forward { next_hop_url: u2, inner_packet: i2 },
            ) => u1@ == u2@ && i1@ == i2@,
            (
                OnionPayload::Deliver { topic_id: t1, op: o1 },
                OnionPayload::Deliver { topic_id: t2, op: o2 },
            ) => t1@ == t2@ && o1@ == o2@,
            _ => false,
        },
{
    let ea = payload_enc(a);
    match (a, b) {
        (
            OnionPayload::Forward { next_hop_url: u1, inner_packet: i1 },
            OnionPayload::Forward { next_hop_url: u2, inner_packet: i2 },
        ) => {
            let l1 = encode_utf8(u1@).len();
            let l2 = encode_utf8(u2@).len();
            assert(ea[1] == (l1 / 256) as u8 && ea[2] == (l1 % 256) as u8);
            assert(ea[1] == (l2 / 256) as u8 && ea[2] == (l2 % 256) as u8);
            assert(l1 == l2) by {
                assert(l1 / 256 == l2 / 256 && l1 % 256 == l2 % 256);
            }
            assert(encode_utf8(u1@) =~= ea.subrange(3, 3 + l1 as int));
            assert(encode_utf8(u2@) =~= ea.subrange(3, 3 + l1 as int));
            vstd::utf8::encode_utf8_decode_utf8(u1@);
            vstd::utf8::encode_utf8_decode_utf8(u2@);
            assert(i1@ =~= ea.skip(3 + l1 as int));
            assert(i2@ =~= ea.skip(3 + l1 as int));
        },
        (
            OnionPayload::Deliver { topic_id: t1, op: o1 },
            OnionPayload::Deliver { topic_id: t2, op: o2 },
        ) => {
            assert(t1@.len() == 32 && t2@.len() == 32);
            assert(t1@ =~= ea.subrange(1, 33));
            assert(t2@ =~= ea.subrange(1, 33));
            assert(o1@ =~= ea.skip(33));
            assert(o2@ =~= ea.skip(33));
        },
        (OnionPayload::Forward { .. }, OnionPayload::Deliver { .. }) => {
            assert(ea[0] == 0x01 && ea[0] == 0x02);
        },
        (OnionPayload::Deliver { .. }, OnionPayload::Forward { .. }) => {
            assert(ea[0] == 0x01 && ea[0] == 0x02);
        },
    }
}


/// One encrypted onion layer toward a hop key, as built by the sender.
pub open spec fn onion_layer(esk: Seq<u8>, nonce: Seq<u8>, hop_pk: Seq<u8>, pt: Seq<u8>) -> Seq<
    u8,
> {
    layer_env(ONION_VERSION, onion_info(), esk, nonce, hop_pk, pt)
}

/// A packet routes `op` to `topic` along the hops: each layer is encrypted
/// to its hop and tells it the next hop's URL, and the innermost layer is
/// the delivery instruction for the last hop.
pub open spec fn onion_shape(
    packet: Seq<u8>,
    hops: Seq<OnionHop>,
    topic: Seq<u8>,
    op: Seq<u8>,
) -> bool
    decreases hops.len(),
{
    if hops.len() == 0 {
        false
    } else if hops.len() == 1 {
        &&& topic.len() == 32
        &&& exists|esk: Seq<u8>, nonce: Seq<u8>|
            esk.len() == 32 && nonce.len() == 24 && x25519_base(esk).len() == 32 && packet
                == #[trigger] onion_layer(esk, nonce, hops[0].pubkey_bytes@, deliver_enc(topic, op))
                && packet.len() == deliver_enc(topic, op).len() + 73
    } else {
        &&& encode_utf8(hops[1].next_url@).len() <= 0xffff
        &&& exists|esk: Seq<u8>, nonce: Seq<u8>, inner: Seq<u8>|
            esk.len() == 32 && nonce.len() == 24 && x25519_base(esk).len() == 32 && onion_shape(
                inner,
                hops.drop_first(),
                topic,
                op,
            ) && packet == #[trigger] onion_layer(
                esk,
                nonce,
                hops[0].pubkey_bytes@,
                forward_enc(hops[1].next_url@, inner),
            ) && packet.len() == forward_enc(hops[1].next_url@, inner).len() + 73
    }
}

/// Encrypt one instruction to a hop's Ed25519 key.
pub fn encrypt_layer(payload: &OnionPayload, hop_pubkey: &[u8; 32]) -> (r: Result<
    Vec<u8>,
    OnionError,
>)
    ensures
        r is Ok ==> exists|esk: Seq<u8>, nonce: Seq<u8>|
            esk.len() == 32 && nonce.len() == 24 && x25519_base(esk).len() == 32 && r->Ok_0@
                == #[trigger] onion_layer(esk, nonce, hop_pubkey@, payload_enc(*payload)),
        r is Ok ==> r->Ok_0@.len() == payload_enc(*payload).len() + 73,
        r is Ok ==> payload_wf(*payload),
        payload_wf(*payload) && payload_enc(*payload).len() < 0x1000_0000 ==> r is Ok,
{
    let pt = encode_payload(payload)?;
    let info = onion_info_bytes();
    match seal_layer(ONION_VERSION, info.as_slice(), hop_pubkey.as_slice(), pt.as_slice()) {
        Ok(envelope) => {
            proof {
                let (esk, nonce) = choose|esk: Seq<u8>, nonce: Seq<u8>|
                    esk.len() == 32 && nonce.len() == 24 && x25519_base(esk).len() == 32
                        && envelope@ == #[trigger] layer_env(
                        ONION_VERSION,
                        onion_info(),
                        esk,
                        nonce,
                        hop_pubkey@,
                        pt@,
                    );
                assert(envelope@ == onion_layer(esk, nonce, hop_pubkey@, payload_enc(*payload)));
            }
            Ok(envelope)
        },
        Err(_) => Err(OnionError::Encrypt),
    }
}

/// Peel one layer with a hop's Ed25519 seed. A layer encrypted to this
/// seed's public key yields the instruction it wraps.
pub fn decrypt_layer(envelope: &[u8], recipient_seed: &[u8; 32]) -> (r: Result<
    OnionPayload,
    OnionError,
>)
    ensures
        forall|esk: Seq<u8>, url: Seq<char>, inner: Seq<u8>|
            esk.len() == 32 && x25519_base(esk).len() == 32 && encode_utf8(url).len() <= 0xffff
                && forward_enc(url, inner).len() + 73 == envelope@.len() && envelope@
                == #[trigger] onion_layer(
                esk,
                envelope@.subrange(33, 57),
                ed25519_pk_of(recipient_seed@),
                forward_enc(url, inner),
            ) ==> r is Ok && (r->Ok_0 matches OnionPayload::Forward { next_hop_url, inner_packet }
                && next_hop_url@ == url && inner_packet@ == inner),
        forall|esk: Seq<u8>, topic: Seq<u8>, op: Seq<u8>|
            esk.len() == 32 && x25519_base(esk).len() == 32 && topic.len() == 32 && deliver_enc(
                topic,
                op,
            ).len() + 73 == envelope@.len() && envelope@ == #[trigger] onion_layer(
                esk,
                envelope@.subrange(33, 57),
                ed25519_pk_of(recipient_seed@),
                deliver_enc(topic, op),
            ) ==> r is Ok && (r->Ok_0 matches OnionPayload::Deliver { topic_id, op: op_out }
                && topic_id@ == topic && op_out@ == op),
        forall|hops: Seq<OnionHop>, topic: Seq<u8>, op: Seq<u8>|
            hops.len() >= 2 && #[trigger] onion_shape(envelope@, hops, topic, op)
                && hops[0].pubkey_bytes@ == ed25519_pk_of(recipient_seed@) ==> r is Ok && (r->Ok_0
                matches OnionPayload::Forward { next_hop_url, inner_packet } && next_hop_url@
                == hops[1].next_url@ && onion_shape(inner_packet@, hops.drop_first(), topic, op)),
        forall|hops: Seq<OnionHop>, topic: Seq<u8>, op: Seq<u8>|
            hops.len() == 1 && #[trigger] onion_shape(envelope@, hops, topic, op)
                && hops[0].pubkey_bytes@ == ed25519_pk_of(recipient_seed@) ==> r is Ok && (r->Ok_0
                matches OnionPayload::Deliver { topic_id, op: op_out } && topic_id@ == topic
                && op_out@ == op),
        envelope@.len() < 73 ==> (r matches Err(OnionError::InvalidEnvelope)),
        envelope@.len() >= 73 && envelope@[0] != ONION_VERSION ==> (r matches Err(
            OnionError::UnsupportedVersion(v),
        ) && v == envelope@[0]),
        r is Err ==> (r->Err_0 is InvalidEnvelope || r->Err_0 is UnsupportedVersion || r->Err_0
            is Decrypt || r->Err_0 is InvalidPayload),
{
    let info = onion_info_bytes();
    let pt = match open_layer(ONION_VERSION, info.as_slice(), envelope, recipient_seed.as_slice(),
    ) {
        Ok(pt) => pt,
        Err(LayerError::TooShort) => {
            proof {
                lemma_shape_lengths(envelope@, recipient_seed@);
            }
            return Err(OnionError::InvalidEnvelope);
        },
        Err(LayerError::WrongVersion(v)) => {
            proof {
                lemma_shape_lengths(envelope@, recipient_seed@);
            }
            return Err(OnionError::UnsupportedVersion(v));
        },
        Err(LayerError::DecryptFailed) => {
            proof {
                lemma_shape_lengths(envelope@, recipient_seed@);
                assert forall|hops: Seq<OnionHop>, topic: Seq<u8>, op: Seq<u8>|
                    !(hops.len() >= 1 && #[trigger] onion_shape(envelope@, hops, topic, op)
                        && hops[0].pubkey_bytes@ == ed25519_pk_of(recipient_seed@)) by {
                    if hops.len() == 1 && onion_shape(envelope@, hops, topic, op)
                        && hops[0].pubkey_bytes@ == ed25519_pk_of(recipient_seed@) {
                        let (esk, nonce) = choose|esk: Seq<u8>, nonce: Seq<u8>|
                            esk.len() == 32 && nonce.len() == 24 && x25519_base(esk).len() == 32
                                && envelope@ == #[trigger] onion_layer(
                                esk,
                                nonce,
                                hops[0].pubkey_bytes@,
                                deliver_enc(topic, op),
                            ) && envelope@.len() == deliver_enc(topic, op).len() + 73;
                        assert(envelope@.subrange(33, 57) =~= nonce);
                    }
                    if hops.len() >= 2 && onion_shape(envelope@, hops, topic, op)
                        && hops[0].pubkey_bytes@ == ed25519_pk_of(recipient_seed@) {
                        let (esk, nonce, inner) = choose|
                            esk: Seq<u8>,
                            nonce: Seq<u8>,
                            inner: Seq<u8>,
                        |
                            esk.len() == 32 && nonce.len() == 24 && x25519_base(esk).len() == 32
                                && onion_shape(inner, hops.drop_first(), topic, op) && envelope@
                                == #[trigger] onion_layer(
                                esk,
                                nonce,
                                hops[0].pubkey_bytes@,
                                forward_enc(hops[1].next_url@, inner),
                            ) && envelope@.len() == forward_enc(hops[1].next_url@, inner).len()
                                + 73;
                        assert(envelope@.subrange(33, 57) =~= nonce);
                    }
                }
            }
            return Err(OnionError::Decrypt);
        },
    };
    let r = decode_payload(pt.as_slice());
    proof {
        assert forall|hops: Seq<OnionHop>, topic: Seq<u8>, op: Seq<u8>|
            hops.len() >= 2 && #[trigger] onion_shape(envelope@, hops, topic, op)
                && hops[0].pubkey_bytes@ == ed25519_pk_of(recipient_seed@) implies r is Ok && (
        r->Ok_0 matches OnionPayload::Forward { next_hop_url, inner_packet } && next_hop_url@
            == hops[1].next_url@ && onion_shape(inner_packet@, hops.drop_first(), topic, op)) by {
            let (esk, nonce, inner) = choose|esk: Seq<u8>, nonce: Seq<u8>, inner: Seq<u8>|
                esk.len() == 32 && nonce.len() == 24 && x25519_base(esk).len() == 32 && onion_shape(
                    inner,
                    hops.drop_first(),
                    topic,
                    op,
                ) && envelope@ == #[trigger] onion_layer(
                    esk,
                    nonce,
                    hops[0].pubkey_bytes@,
                    forward_enc(hops[1].next_url@, inner),
                ) && envelope@.len() == forward_enc(hops[1].next_url@, inner).len() + 73;
            assert(envelope@.subrange(33, 57) =~= nonce);
            assert(pt@ == forward_enc(hops[1].next_url@, inner));
        }
        assert forall|hops: Seq<OnionHop>, topic: Seq<u8>, op: Seq<u8>|
            hops.len() == 1 && #[trigger] onion_shape(envelope@, hops, topic, op)
                && hops[0].pubkey_bytes@ == ed25519_pk_of(recipient_seed@) implies r is Ok && (
        r->Ok_0 matches OnionPayload::Deliver { topic_id, op: op_out } && topic_id@ == topic
            && op_out@ == op) by {
            let (esk, nonce) = choose|esk: Seq<u8>, nonce: Seq<u8>|
                esk.len() == 32 && nonce.len() == 24 && x25519_base(esk).len() == 32 && envelope@
                    == #[trigger] onion_layer(
                    esk,
                    nonce,
                    hops[0].pubkey_bytes@,
                    deliver_enc(topic, op),
                ) && envelope@.len() == deliver_enc(topic, op).len() + 73;
            assert(envelope@.subrange(33, 57) =~= nonce);
            assert(pt@ == deliver_enc(topic, op));
        }
    }
    r
}

/// A shaped packet is never shorter than a layer nor of another version, so
/// a layer-level refusal refutes every claimed shape.
proof fn lemma_shape_lengths(envelope: Seq<u8>, seed: Seq<u8>)
    ensures
        forall|hops: Seq<OnionHop>, topic: Seq<u8>, op: Seq<u8>|
            #[trigger] onion_shape(envelope, hops, topic, op) ==> envelope.len() >= 73
                && envelope[0] == ONION_VERSION,
{
    assert forall|hops: Seq<OnionHop>, topic: Seq<u8>, op: Seq<u8>|
        #[trigger] onion_shape(envelope, hops, topic, op) implies envelope.len() >= 73
        && envelope[0] == ONION_VERSION by {
        if hops.len() == 1 {
            let (esk, nonce) = choose|esk: Seq<u8>, nonce: Seq<u8>|
                esk.len() == 32 && nonce.len() == 24 && x25519_base(esk).len() == 32 && envelope
                    == #[trigger] onion_layer(
                    esk,
                    nonce,
                    hops[0].pubkey_bytes@,
                    deliver_enc(topic, op),
                ) && envelope.len() == deliver_enc(topic, op).len() + 73;
            assert(envelope[0] == ONION_VERSION);
        } else if hops.len() >= 2 {
            let (esk, nonce, inner) = choose|esk: Seq<u8>, nonce: Seq<u8>, inner: Seq<u8>|
                esk.len() == 32 && nonce.len() == 24 && x25519_base(esk).len() == 32 && onion_shape(
                    inner,
                    hops.drop_first(),
                    topic,
                    op,
                ) && envelope == #[trigger] onion_layer(
                    esk,
                    nonce,
                    hops[0].pubkey_bytes@,
                    forward_enc(hops[1].next_url@, inner),
                ) && envelope.len() == forward_enc(hops[1].next_url@, inner).len() + 73;
            assert(envelope[0] == ONION_VERSION);
        }
    }
}

/// Build a fully layered packet addressed to the first hop: the last hop
/// will see the delivery of `op` to `topic_id`, and every earlier hop a
/// forward instruction naming only the next hop's URL.
pub open spec fn onion_packet_len(hops: Seq<OnionHop>, op_len: int) -> int
    decreases hops.len(),
{
    if hops.len() <= 1 {
        33 + op_len + 73
    } else {
        3 + encode_utf8(hops[1].next_url@).len() + onion_packet_len(hops.drop_first(), op_len)
            + 73
    }
}

/// Dropping leading hops never lengthens the packet.
pub proof fn lemma_onion_packet_len_skip(hops: Seq<OnionHop>, i: int, op_len: int)
    requires
        0 <= i < hops.len(),
    ensures
        onion_packet_len(hops.skip(i), op_len) <= onion_packet_len(hops, op_len),
    decreases i,
{
    if i > 0 {
        lemma_onion_packet_len_skip(hops, i - 1, op_len);
        let tail = hops.skip(i - 1);
        assert(tail.drop_first() =~= hops.skip(i));
        if tail.len() >= 2 {
            assert(onion_packet_len(tail.drop_first(), op_len) <= onion_packet_len(tail, op_len));
        } else {
            assert(hops.skip(i).len() <= 1 && tail.len() <= 1);
        }
    } else {
        assert(hops.skip(0) =~= hops);
    }
}

pub fn build_onion_packet(hops: &[OnionHop], topic_id: &[u8; 32], op: &[u8]) -> (r: Result<
    Vec<u8>,
    OnionError,
>)
    ensures
        hops@.len() == 0 ==> (r matches Err(OnionError::EmptyRoute)),
        r is Ok ==> onion_shape(r->Ok_0@, hops@, topic_id@, op@),
        hops@.len() > 0 && (forall|j: int|
            1 <= j < hops@.len() ==> encode_utf8((#[trigger] hops@[j]).next_url@).len() <= 0xffff)
            && onion_packet_len(hops@, op@.len() as int) < 0x1000_0000 ==> r is Ok,
{
    if hops.len() == 0 {
        return Err(OnionError::EmptyRoute);
    }
    let topic_v = slice_to_vec(topic_id.as_slice());
    let topic_arr = bytes32(topic_v.as_slice());
    let op_v = slice_to_vec(op);
    let deliver = OnionPayload::Deliver { topic_id: topic_arr, op: op_v };
    let mut i: usize = hops.len() - 1;
    proof {
        assert(payload_enc(deliver) == deliver_enc(topic_id@, op@));
        if onion_packet_len(hops@, op@.len() as int) < 0x1000_0000 {
            lemma_onion_packet_len_skip(hops@, i as int, op@.len() as int);
            assert(onion_packet_len(hops@.skip(i as int), op@.len() as int) == 33 + op@.len()
                + 73);
            assert(payload_enc(deliver).len() < 0x1000_0000);
        }
    }
    let mut current = encrypt_layer(&deliver, &hops[i].pubkey_bytes)?;
    proof {
        assert(hops@.skip(i as int).len() == 1);
        assert(hops@.skip(i as int)[0] == hops@[i as int]);
        assert(onion_shape(current@, hops@.skip(i as int), topic_id@, op@));
        assert(current@.len() == onion_packet_len(hops@.skip(i as int), op@.len() as int));
    }
    while i > 0
        invariant
            i < hops@.len(),
            onion_shape(current@, hops@.skip(i as int), topic_id@, op@),
            current@.len() == onion_packet_len(hops@.skip(i as int), op@.len() as int),
        decreases i,
    {
        i = i - 1;
        let url = crate::topics::clone_string(&hops[i + 1].next_url);
        let ghost inner_pre = current@;
        let forward = OnionPayload::Forward { next_hop_url: url, inner_packet: current };
        proof {
            let tail = hops@.skip(i as int);
            assert(tail.len() >= 2);
            assert(tail[1] == hops@[i as int + 1]);
            assert(tail.drop_first() =~= hops@.skip(i as int + 1));
            assert(payload_enc(forward) == forward_enc(hops@[i as int + 1].next_url@, inner_pre));
            assert(onion_packet_len(tail, op@.len() as int) == 3 + encode_utf8(
                hops@[i as int + 1].next_url@,
            ).len() + onion_packet_len(tail.drop_first(), op@.len() as int) + 73);
            if (forall|j: int|
                1 <= j < hops@.len() ==> encode_utf8((#[trigger] hops@[j]).next_url@).len()
                    <= 0xffff) && onion_packet_len(hops@, op@.len() as int) < 0x1000_0000 {
                assert(encode_utf8(hops@[i as int + 1].next_url@).len() <= 0xffff);
                assert(payload_wf(forward));
                lemma_onion_packet_len_skip(hops@, i as int, op@.len() as int);
                assert(payload_enc(forward).len() < 0x1000_0000);
            }
        }
        let wrapped = encrypt_layer(&forward, &hops[i].pubkey_bytes)?;
        current = wrapped;
        proof {
            let tail = hops@.skip(i as int);
            assert(tail[0] == hops@[i as int]);
            assert(tail[1] == hops@[i as int + 1]);
            assert(tail.drop_first() =~= hops@.skip(i as int + 1));
            assert(onion_shape(current@, tail, topic_id@, op@));
            assert(current@.len() == onion_packet_len(tail, op@.len() as int));
        }
    }
    proof {
        assert(hops@.skip(0) =~= hops@);
    }
    Ok(current)
}

} // verus!
