//! The append-only operation log store: per (author, log) sequences of
//! signed headers with backlink chaining, plus a pending buffer for ops that
//! arrive before their predecessor.
//!
//! The store's well-formedness is the heart of the log model: every held op's
//! signature verifies against its author, sequence numbers run 0, 1, …, k,
//! and each backlink is the hash of the op before it.

use vstd::prelude::*;

use vstd::slice::{slice_subrange, slice_to_vec};
use vstd::string::StringSliceAdditionalSpecFns;

use crate::bytesfmt::{hex_chars_of, hex_string};
use crate::extcrypto::{
    blake3_hash, blake3_of, ed25519_pk_of, ed25519_public, ed25519_sig_of, ed25519_sign,
    ed25519_verifies, ed25519_verify,
};
use crate::topics::{append_bytes, bytes_eq, clone_string, str_eq};

verus! {

/// The logical streams every author writes, one append-only log each.
#[derive(Debug, Clone, Copy, PartialEq, Eq, Structural)]
pub enum LogId {
    Profile,
    Org,
    Room,
    Message,
    Reaction,
    DmThread,
    KeyBundle,
    EncCtrl,
    EncDirect,
    Membership,
}

impl LogId {
    /// The stable string tag of the log.
    pub open spec fn spec_name(self) -> Seq<char> {
        match self {
            LogId::Profile => "profile"@,
            LogId::Org => "org"@,
            LogId::Room => "room"@,
            LogId::Message => "message"@,
            LogId::Reaction => "reaction"@,
            LogId::DmThread => "dm_thread"@,
            LogId::KeyBundle => "key_bundle"@,
            LogId::EncCtrl => "enc_ctrl"@,
            LogId::EncDirect => "enc_direct"@,
            LogId::Membership => "membership"@,
        }
    }

    /// The stable string tag of the log.
    pub fn as_str(&self) -> (r: &'static str)
        ensures
            r@ == self.spec_name(),
    {
        match self {
            LogId::Profile => "profile",
            LogId::Org => "org",
            LogId::Room => "room",
            LogId::Message => "message",
            LogId::Reaction => "reaction",
            LogId::DmThread => "dm_thread",
            LogId::KeyBundle => "key_bundle",
            LogId::EncCtrl => "enc_ctrl",
            LogId::EncDirect => "enc_direct",
            LogId::Membership => "membership",
        }
    }

    /// Parse a log tag; `None` exactly on unknown tags.
    pub fn from_str(s: &str) -> (r: Option<LogId>)
        ensures
            r is Some ==> r->0.spec_name() == s@,
            r is None ==> forall|l: LogId| l.spec_name() != s@,
    {
        proof {
            reveal_strlit("profile");
            reveal_strlit("org");
            reveal_strlit("room");
            reveal_strlit("message");
            reveal_strlit("reaction");
            reveal_strlit("dm_thread");
            reveal_strlit("key_bundle");
            reveal_strlit("enc_ctrl");
            reveal_strlit("enc_direct");
            reveal_strlit("membership");
        }
        if str_eq(s, "profile") {
            Some(LogId::Profile)
        } else if str_eq(s, "org") {
            Some(LogId::Org)
        } else if str_eq(s, "room") {
            Some(LogId::Room)
        } else if str_eq(s, "message") {
            Some(LogId::Message)
        } else if str_eq(s, "reaction") {
            Some(LogId::Reaction)
        } else if str_eq(s, "dm_thread") {
            Some(LogId::DmThread)
        } else if str_eq(s, "key_bundle") {
            Some(LogId::KeyBundle)
        } else if str_eq(s, "enc_ctrl") {
            Some(LogId::EncCtrl)
        } else if str_eq(s, "enc_direct") {
            Some(LogId::EncDirect)
        } else if str_eq(s, "membership") {
            Some(LogId::Membership)
        } else {
            None
        }
    }
}

/// All ten log tags, in a stable order, for the projector's sweep.
pub fn all_log_ids() -> (r: Vec<LogId>)
    ensures
        r@.len() == 10,
{
    let mut v: Vec<LogId> = Vec::new();
    v.push(LogId::Profile);
    v.push(LogId::Org);
    v.push(LogId::Room);
    v.push(LogId::Message);
    v.push(LogId::Reaction);
    v.push(LogId::DmThread);
    v.push(LogId::KeyBundle);
    v.push(LogId::EncCtrl);
    v.push(LogId::EncDirect);
    v.push(LogId::Membership);
    v
}

/// A signed operation header.
pub struct OpHeader {
    /// The author identity: 32 bytes of Ed25519 public key.
    pub public_key: Vec<u8>,
    /// Ed25519 signature over the header's signing bytes: 64 bytes.
    pub signature: Vec<u8>,
    /// BLAKE3 hash of the body: 32 bytes.
    pub payload_hash: Vec<u8>,
    /// Length of the body.
    pub payload_size: u64,
    /// Author-asserted microseconds since the epoch; never trusted for order.
    pub timestamp: u64,
    /// Position in the author's log, starting at 0.
    pub seq_num: u64,
    /// Hash of the preceding op in this log; absent exactly at position 0.
    pub backlink: Option<Vec<u8>>,
}

/// Big-endian bytes of a `u64`.
pub open spec fn be64(n: u64) -> Seq<u8> {
    seq![
        (n / 0x100_0000_0000_0000) as u8,
        ((n / 0x1_0000_0000_0000) % 256) as u8,
        ((n / 0x100_0000_0000) % 256) as u8,
        ((n / 0x1_0000_0000) % 256) as u8,
        ((n / 0x100_0000) % 256) as u8,
        ((n / 0x1_0000) % 256) as u8,
        ((n / 0x100) % 256) as u8,
        (n % 256) as u8,
    ]
}

/// What the author signs: every header field but the signature, in the
/// canonical order, with a flag byte marking the backlink's presence.
pub open spec fn header_signing_bytes(
    public_key: Seq<u8>,
    payload_hash: Seq<u8>,
    payload_size: u64,
    timestamp: u64,
    seq_num: u64,
    backlink: Option<Seq<u8>>,
) -> Seq<u8> {
    seq![1u8] + public_key + be64(payload_size) + payload_hash + be64(timestamp) + be64(seq_num)
        + (match backlink {
        Some(b) => seq![1u8] + b,
        None => seq![0u8],
    })
}

impl OpHeader {
    /// The bytes this header signs.
    #[verifier::opaque]
    pub open spec fn spec_signing_bytes(&self) -> Seq<u8> {
        header_signing_bytes(
            self.public_key@,
            self.payload_hash@,
            self.payload_size,
            self.timestamp,
            self.seq_num,
            match self.backlink {
                Some(ref b) => Some(b@),
                None => None,
            },
        )
    }

    /// The canonical encoding: the signing bytes followed by the signature.
    #[verifier::opaque]
    pub open spec fn spec_bytes(&self) -> Seq<u8> {
        self.spec_signing_bytes() + self.signature@
    }

    /// The header's hash: BLAKE3 of its canonical encoding.
    pub open spec fn spec_hash(&self) -> Seq<u8> {
        blake3_of(self.spec_bytes())
    }

    /// Fields have their wire sizes and the signature verifies.
    #[verifier::opaque]
    pub open spec fn wf(&self) -> bool {
        &&& self.public_key@.len() == 32
        &&& self.signature@.len() == 64
        &&& self.payload_hash@.len() == 32
        &&& (match self.backlink {
            Some(ref b) => b@.len() == 32,
            None => true,
        })
        &&& ed25519_verifies(self.public_key@, self.spec_signing_bytes(), self.signature@)
    }

    /// Copy a header.
    pub fn clone_header(&self) -> (r: OpHeader)
        ensures
            r.public_key@ == self.public_key@,
            r.signature@ == self.signature@,
            r.payload_hash@ == self.payload_hash@,
            r.payload_size == self.payload_size,
            r.timestamp == self.timestamp,
            r.seq_num == self.seq_num,
            (match (r.backlink, self.backlink) {
                (Some(a), Some(b)) => a@ == b@,
                (None, None) => true,
                _ => false,
            }),
            r.spec_signing_bytes() == self.spec_signing_bytes(),
            r.spec_bytes() == self.spec_bytes(),
            r.wf() <==> self.wf(),
    {
        proof {
            reveal(OpHeader::wf);
            reveal(OpHeader::spec_signing_bytes);
            reveal(OpHeader::spec_bytes);
        }
        let backlink = match &self.backlink {
            Some(b) => Some(slice_to_vec(b.as_slice())),
            None => None,
        };
        OpHeader {
            public_key: slice_to_vec(self.public_key.as_slice()),
            signature: slice_to_vec(self.signature.as_slice()),
            payload_hash: slice_to_vec(self.payload_hash.as_slice()),
            payload_size: self.payload_size,
            timestamp: self.timestamp,
            seq_num: self.seq_num,
            backlink,
        }
    }
}

/// Append the big-endian bytes of a `u64`.
pub fn push_be64(out: &mut Vec<u8>, n: u64)
    ensures
        final(out)@ == old(out)@ + be64(n),
{
    out.push((n / 0x100_0000_0000_0000) as u8);
    out.push(((n / 0x1_0000_0000_0000) % 256) as u8);
    out.push(((n / 0x100_0000_0000) % 256) as u8);
    out.push(((n / 0x1_0000_0000) % 256) as u8);
    out.push(((n / 0x100_0000) % 256) as u8);
    out.push(((n / 0x1_0000) % 256) as u8);
    out.push(((n / 0x100) % 256) as u8);
    out.push((n % 256) as u8);
    proof {
        assert(out@ =~= old(out)@ + be64(n));
    }
}

/// Build the signing bytes of a header-to-be.
pub fn signing_bytes(
    public_key: &[u8],
    payload_hash: &[u8],
    payload_size: u64,
    timestamp: u64,
    seq_num: u64,
    backlink: &Option<Vec<u8>>,
) -> (r: Vec<u8>)
    ensures
        r@ == header_signing_bytes(
            public_key@,
            payload_hash@,
            payload_size,
            timestamp,
            seq_num,
            match backlink {
                Some(b) => Some(b@),
                None => None,
            },
        ),
{
    let mut out: Vec<u8> = Vec::new();
    out.push(1);
    let pk = slice_to_vec(public_key);
    append_bytes(&mut out, &pk);
    push_be64(&mut out, payload_size);
    let ph = slice_to_vec(payload_hash);
    append_bytes(&mut out, &ph);
    push_be64(&mut out, timestamp);
    push_be64(&mut out, seq_num);
    match backlink {
        Some(b) => {
            out.push(1);
            append_bytes(&mut out, b);
        },
        None => {
            out.push(0);
        },
    }
    proof {
        assert(out@ =~= header_signing_bytes(
            public_key@,
            payload_hash@,
            payload_size,
            timestamp,
            seq_num,
            match backlink {
                Some(b) => Some(b@),
                None => None,
            },
        ));
    }
    out
}


/// Two byte strings with the same hex spelling are equal.
pub proof fn lemma_hex_chars_injective(a: Seq<u8>, b: Seq<u8>)
    requires
        hex_chars_of(a) == hex_chars_of(b),
    ensures
        a == b,
{
    crate::bytesfmt::lemma_hex_bytes_ascii(a);
    crate::bytesfmt::lemma_hex_bytes_ascii(b);
    let ha = crate::bytesfmt::hex_bytes_of(a);
    let hb = crate::bytesfmt::hex_bytes_of(b);
    crate::bytesfmt::lemma_ascii_encode_utf8(ha);
    crate::bytesfmt::lemma_ascii_encode_utf8(hb);
    assert(ha =~= hb);
    crate::bytesfmt::lemma_hex_round_trip(a);
    crate::bytesfmt::lemma_hex_round_trip(b);
    assert(a =~= b);
}

/// One accepted operation: its hash, header, canonical header bytes, and body.
pub struct StoredOp {
    pub hash: Vec<u8>,
    pub header: OpHeader,
    pub header_bytes: Vec<u8>,
    pub body: Vec<u8>,
}

impl StoredOp {
    /// The op is internally consistent: a well-formed signed header whose
    /// bytes and hash are what they claim, over a body matching the payload
    /// hash and size.
    #[verifier::opaque]
    pub open spec fn wf(&self) -> bool {
        &&& self.header.wf()
        &&& self.hash@.len() == 32
        &&& self.header_bytes@ == self.header.spec_bytes()
        &&& self.hash@ == self.header.spec_hash()
        &&& self.header.payload_hash@ == blake3_of(self.body@)
        &&& self.header.payload_size == self.body@.len()
    }
}

/// One author's append-only log of one stream.
pub struct OpLog {
    pub author_hex: String,
    pub author_pk: Vec<u8>,
    pub log_id: LogId,
    pub entries: Vec<StoredOp>,
}

impl OpLog {
    /// The log invariant: entries are consecutive from 0, authored by this
    /// log's author (whose hex spelling names the log), each one well-formed,
    /// and backlinks chain each op to the hash of its predecessor (absent
    /// exactly at the head).
    pub open spec fn wf(&self) -> bool {
        &&& self.author_hex@ == hex_chars_of(self.author_pk@)
        &&& forall|i: int|
            0 <= i < self.entries@.len() ==> {
                &&& (#[trigger] self.entries@[i]).wf()
                &&& self.entries@[i].header.seq_num == i
                &&& self.entries@[i].header.public_key@ == self.author_pk@
                &&& (i == 0 ==> self.entries@[i].header.backlink is None)
                &&& (i > 0 ==> self.entries@[i].header.backlink is Some
                    && self.entries@[i].header.backlink->0@ == self.entries@[i - 1].hash@)
            }
    }
}

/// Every op a well-formed log holds carries a signature that verifies
/// against the author's public key.
pub proof fn lemma_log_signatures_verify(log: &OpLog)
    requires
        log.wf(),
    ensures
        forall|i: int|
            0 <= i < log.entries@.len() ==> ed25519_verifies(
                (#[trigger] log.entries@[i]).header.public_key@,
                log.entries@[i].header.spec_signing_bytes(),
                log.entries@[i].header.signature@,
            ),
{
    reveal(StoredOp::wf);
    reveal(OpHeader::wf);
}

/// In a well-formed log the accepted ops carry sequence numbers 0, 1, …, k,
/// and each op's backlink is the hash of the op before it.
pub proof fn lemma_log_chain(log: &OpLog)
    requires
        log.wf(),
    ensures
        forall|i: int|
            0 <= i < log.entries@.len() ==> (#[trigger] log.entries@[i]).header.seq_num == i,
        forall|i: int|
            0 < i < log.entries@.len() ==> (#[trigger] log.entries@[i]).header.backlink is Some
                && log.entries@[i].header.backlink->0@ == log.entries@[i - 1].hash@,
        log.entries@.len() > 0 ==> log.entries@[0].header.backlink is None,
{
}


/// Reassembling a `u64` from its big-endian bytes gives the value back.
proof fn lemma_be64_value(n: u64)
    ensures
        (n / 0x100_0000_0000_0000) as u64 * 0x100_0000_0000_0000 + ((n / 0x1_0000_0000_0000) % 256)
            as u64 * 0x1_0000_0000_0000 + ((n / 0x100_0000_0000) % 256) as u64 * 0x100_0000_0000 + (
        (n / 0x1_0000_0000) % 256) as u64 * 0x1_0000_0000 + ((n / 0x100_0000) % 256) as u64
            * 0x100_0000 + ((n / 0x1_0000) % 256) as u64 * 0x1_0000 + ((n / 0x100) % 256) as u64
            * 0x100 + (n % 256) as u64 == n,
{
    assert((n / 0x100_0000_0000_0000) * 0x100_0000_0000_0000 + ((n / 0x1_0000_0000_0000) % 256)
        * 0x1_0000_0000_0000 + ((n / 0x100_0000_0000) % 256) * 0x100_0000_0000 + ((n
        / 0x1_0000_0000) % 256) * 0x1_0000_0000 + ((n / 0x100_0000) % 256) * 0x100_0000 + ((n
        / 0x1_0000) % 256) * 0x1_0000 + ((n / 0x100) % 256) * 0x100 + (n % 256) == n)
        by (bit_vector);
}

/// Read a big-endian `u64` at `pos`.
fn read_be64(bytes: &[u8], pos: usize) -> (r: u64)
    requires
        pos + 8 <= bytes@.len(),
    ensures
        be64(r) == bytes@.subrange(pos as int, pos + 8) ==> true,
        bytes@.subrange(pos as int, pos + 8) == be64(r) || bytes@.subrange(pos as int, pos + 8)
            != be64(r),
        forall|n: u64|
            bytes@.subrange(pos as int, pos + 8) == be64(n) ==> r == n,
{
    let b0 = bytes[pos] as u64;
    let b1 = bytes[pos + 1] as u64;
    let b2 = bytes[pos + 2] as u64;
    let b3 = bytes[pos + 3] as u64;
    let b4 = bytes[pos + 4] as u64;
    let b5 = bytes[pos + 5] as u64;
    let b6 = bytes[pos + 6] as u64;
    let b7 = bytes[pos + 7] as u64;
    let r: u64 = b0 * 0x100_0000_0000_0000 + b1 * 0x1_0000_0000_0000 + b2 * 0x100_0000_0000 + b3
        * 0x1_0000_0000 + b4 * 0x100_0000 + b5 * 0x1_0000 + b6 * 0x100 + b7;
    proof {
        assert(b0 * 0x100_0000_0000_0000 + b1 * 0x1_0000_0000_0000 + b2 * 0x100_0000_0000 + b3
            * 0x1_0000_0000 + b4 * 0x100_0000 + b5 * 0x1_0000 + b6 * 0x100 + b7
            <= 0xffff_ffff_ffff_ffff) by (nonlinear_arith)
            requires
                b0 < 256 && b1 < 256 && b2 < 256 && b3 < 256 && b4 < 256 && b5 < 256 && b6 < 256
                    && b7 < 256,
        ;
        assert forall|n: u64| bytes@.subrange(pos as int, pos + 8) == be64(n) implies r == n by {
            let sub = bytes@.subrange(pos as int, pos + 8);
            assert(sub[0] == bytes@[pos as int]);
            assert(sub[1] == bytes@[pos + 1]);
            assert(sub[2] == bytes@[pos + 2]);
            assert(sub[3] == bytes@[pos + 3]);
            assert(sub[4] == bytes@[pos + 4]);
            assert(sub[5] == bytes@[pos + 5]);
            assert(sub[6] == bytes@[pos + 6]);
            assert(sub[7] == bytes@[pos + 7]);
            lemma_be64_value(n);
        }
    }
    r
}

/// Parse a canonical header encoding. What comes back re-encodes exactly to
/// the input, and every well-formed header's encoding parses.
pub fn decode_header(bytes: &[u8]) -> (r: Option<OpHeader>)
    ensures
        r is Some ==> r->0.spec_bytes() == bytes@,
        r is Some ==> r->0.public_key@.len() == 32 && r->0.signature@.len() == 64
            && r->0.payload_hash@.len() == 32 && (match r->0.backlink {
            Some(b) => b@.len() == 32,
            None => true,
        }),
        forall|h: OpHeader|
            h.public_key@.len() == 32 && h.signature@.len() == 64 && h.payload_hash@.len() == 32
                && (match h.backlink {
                Some(b) => b@.len() == 32,
                None => true,
            }) && bytes@ == #[trigger] h.spec_bytes() ==> r is Some,
{
    proof {
        reveal(OpHeader::spec_signing_bytes);
        reveal(OpHeader::spec_bytes);
    }
    // Fixed layout: version, key, size, payload hash, timestamp, seq, then a
    // backlink flag, the optional backlink, and the signature.
    if bytes.len() < 1 + 32 + 8 + 32 + 8 + 8 + 1 + 64 {
        proof {
            lemma_no_short_header(bytes@);
        }
        return None;
    }
    if bytes[0] != 1 {
        proof {
            assert forall|h: OpHeader| header_field_lens(h) && bytes@ == #[trigger] h.spec_bytes()
                implies false by {
                assert(bytes@[0] == 1);
            }
        }
        return None;
    }
    let public_key = slice_to_vec(slice_subrange(bytes, 1, 33));
    let payload_size = read_be64(bytes, 33);
    let payload_hash = slice_to_vec(slice_subrange(bytes, 41, 73));
    let timestamp = read_be64(bytes, 73);
    let seq_num = read_be64(bytes, 81);
    let flag = bytes[89];
    let expected_len: usize = if flag == 1 {
        1 + 32 + 8 + 32 + 8 + 8 + 1 + 32 + 64
    } else {
        1 + 32 + 8 + 32 + 8 + 8 + 1 + 64
    };
    if flag != 0 && flag != 1 {
        proof {
            assert forall|h: OpHeader| header_field_lens(h) && bytes@ == #[trigger] h.spec_bytes()
                implies false by {
                assert(bytes@[89] == 0 || bytes@[89] == 1);
            }
        }
        return None;
    }
    if bytes.len() != expected_len {
        proof {
            assert forall|h: OpHeader| header_field_lens(h) && bytes@ == #[trigger] h.spec_bytes()
                implies false by {
                match h.backlink {
                    Some(b) => {
                        assert(bytes@[89] == 1);
                        assert(bytes@.len() == 186);
                    },
                    None => {
                        assert(bytes@[89] == 0);
                        assert(bytes@.len() == 154);
                    },
                }
            }
        }
        return None;
    }
    let (backlink, sig_start): (Option<Vec<u8>>, usize) = if flag == 1 {
        (Some(slice_to_vec(slice_subrange(bytes, 90, 122))), 122)
    } else {
        (None, 90)
    };
    let signature = slice_to_vec(slice_subrange(bytes, sig_start, sig_start + 64));
    let h = OpHeader {
        public_key,
        signature,
        payload_hash,
        payload_size,
        timestamp,
        seq_num,
        backlink,
    };
    // The parse is sound exactly when the re-encoding matches; check it.
    let sb = signing_bytes(
        h.public_key.as_slice(),
        h.payload_hash.as_slice(),
        h.payload_size,
        h.timestamp,
        h.seq_num,
        &h.backlink,
    );
    let mut reencoded = sb;
    append_bytes(&mut reencoded, &h.signature);
    if !bytes_eq(reencoded.as_slice(), bytes) {
        proof {
            assert forall|h0: OpHeader| header_field_lens(h0) && bytes@ == #[trigger] h0.spec_bytes()
                implies false by {
                lemma_header_parse_complete(h0, bytes@);
                assert(h.public_key@ =~= h0.public_key@);
                assert(h.payload_hash@ =~= h0.payload_hash@);
                assert(h.signature@ =~= h0.signature@);
                assert(h.payload_size == h0.payload_size);
                assert(h.timestamp == h0.timestamp);
                assert(h.seq_num == h0.seq_num);
                assert(match (h.backlink, h0.backlink) {
                    (Some(a), Some(b)) => a@ =~= b@,
                    (None, None) => true,
                    _ => false,
                });
                assert(reencoded@ == h0.spec_bytes());
            }
        }
        return None;
    }
    Some(h)
}

/// A header's fields have their wire sizes.
pub open spec fn header_field_lens(h: OpHeader) -> bool {
    &&& h.public_key@.len() == 32
    &&& h.signature@.len() == 64
    &&& h.payload_hash@.len() == 32
    &&& (match h.backlink {
        Some(b) => b@.len() == 32,
        None => true,
    })
}

/// A sized header encodes to at most the full layout with a backlink.
pub proof fn lemma_header_bytes_len(h: OpHeader)
    requires
        header_field_lens(h),
    ensures
        h.spec_bytes().len() <= 186,
{
    reveal(OpHeader::spec_bytes);
    reveal(OpHeader::spec_signing_bytes);
    assert(h.spec_signing_bytes().len() <= 122);
    assert(h.spec_bytes().len() == h.spec_signing_bytes().len() + 64);
}

/// No encoding of a sized header is shorter than the minimum layout.
proof fn lemma_no_short_header(bytes: Seq<u8>)
    requires
        bytes.len() < 154,
    ensures
        forall|h: OpHeader| !(header_field_lens(h) && bytes == #[trigger] h.spec_bytes()),
{
    reveal(OpHeader::spec_signing_bytes);
    reveal(OpHeader::spec_bytes);
    assert forall|h: OpHeader| !(header_field_lens(h) && bytes == #[trigger] h.spec_bytes()) by {
        if header_field_lens(h) && bytes == h.spec_bytes() {
            match h.backlink {
                Some(b) => {
                    assert(bytes.len() == 186);
                },
                None => {
                    assert(bytes.len() == 154);
                },
            }
        }
    }
}

/// Where each field of a sized header sits in its encoding.
proof fn lemma_header_parse_complete(h: OpHeader, bytes: Seq<u8>)
    requires
        header_field_lens(h),
        bytes == h.spec_bytes(),
    ensures
        bytes.subrange(1, 33) == h.public_key@,
        bytes.subrange(33, 41) == be64(h.payload_size),
        bytes.subrange(41, 73) == h.payload_hash@,
        bytes.subrange(73, 81) == be64(h.timestamp),
        bytes.subrange(81, 89) == be64(h.seq_num),
        (match h.backlink {
            Some(b) => bytes[89] == 1 && bytes.subrange(90, 122) == b@ && bytes.subrange(122, 186)
                == h.signature@,
            None => bytes[89] == 0 && bytes.subrange(90, 154) == h.signature@,
        }),
{
    reveal(OpHeader::spec_signing_bytes);
    reveal(OpHeader::spec_bytes);
    assert(bytes.subrange(1, 33) =~= h.public_key@);
    assert(bytes.subrange(33, 41) =~= be64(h.payload_size));
    assert(bytes.subrange(41, 73) =~= h.payload_hash@);
    assert(bytes.subrange(73, 81) =~= be64(h.timestamp));
    assert(bytes.subrange(81, 89) =~= be64(h.seq_num));
    match h.backlink {
        Some(b) => {
            assert(bytes.subrange(90, 122) =~= b@);
            assert(bytes.subrange(122, 186) =~= h.signature@);
        },
        None => {
            assert(bytes.subrange(90, 154) =~= h.signature@);
        },
    }
}



/// Taking one log out preserves every other log's well-formedness and the
/// key uniqueness, and leaves no log with the removed log's key.
proof fn lemma_remove_log(logs: Seq<OpLog>, i: int, r: Seq<OpLog>)
    requires
        0 <= i < logs.len(),
        r == logs.remove(i),
        forall|j: int| 0 <= j < logs.len() ==> (#[trigger] logs[j]).wf(),
        forall|j: int, k: int|
            0 <= j < k < logs.len() ==> !((#[trigger] logs[j]).author_hex@
                == (#[trigger] logs[k]).author_hex@ && logs[j].log_id == logs[k].log_id),
    ensures
        forall|j: int| 0 <= j < r.len() ==> (#[trigger] r[j]).wf(),
        forall|j: int, k: int|
            0 <= j < k < r.len() ==> !((#[trigger] r[j]).author_hex@
                == (#[trigger] r[k]).author_hex@ && r[j].log_id == r[k].log_id),
        forall|j: int|
            0 <= j < r.len() ==> !((#[trigger] r[j]).author_hex@ == logs[i].author_hex@
                && r[j].log_id == logs[i].log_id),
{
    assert forall|j: int| 0 <= j < r.len() implies (#[trigger] r[j]).wf() by {
        if j < i {
            assert(r[j] == logs[j]);
        } else {
            assert(r[j] == logs[j + 1]);
        }
    }
    assert forall|j: int, k: int|
        0 <= j < k < r.len() implies !((#[trigger] r[j]).author_hex@ == (#[trigger] r[k]).author_hex@
        && r[j].log_id == r[k].log_id) by {
        let j0 = if j < i {
            j
        } else {
            j + 1
        };
        let k0 = if k < i {
            k
        } else {
            k + 1
        };
        assert(r[j] == logs[j0] && r[k] == logs[k0]);
    }
    assert forall|j: int|
        0 <= j < r.len() implies !((#[trigger] r[j]).author_hex@ == logs[i].author_hex@
        && r[j].log_id == logs[i].log_id) by {
        if j < i {
            assert(r[j] == logs[j]);
        } else {
            assert(r[j] == logs[j + 1]);
        }
    }
}


/// Some log of the stream carries exactly this author and count.
pub open spec fn height_of_some_log(logs: Seq<OpLog>, log_id: LogId, entry: (String, u64)) -> bool {
    exists|k: int|
        0 <= k < logs.len() && (#[trigger] logs[k]).log_id == log_id && entry.0@
            == logs[k].author_hex@ && entry.1 == logs[k].entries@.len()
}

/// The listing carries this author with this count.
pub open spec fn height_listed(out: Seq<(String, u64)>, author: Seq<char>, count: u64) -> bool {
    exists|j: int| 0 <= j < out.len() && (#[trigger] out[j]).0@ == author && out[j].1 == count
}


/// Some log holds this author's op with this hash and body at this position.
pub open spec fn op_in_store(
    logs: Seq<OpLog>,
    author_hex: Seq<char>,
    log_id: LogId,
    seq_num: int,
    hash: Seq<u8>,
    body: Seq<u8>,
) -> bool {
    exists|k: int|
        0 <= k < logs.len() && (#[trigger] logs[k]).author_hex@ == author_hex && logs[k].log_id
            == log_id && 0 <= seq_num < logs[k].entries@.len() && logs[k].entries@[seq_num].hash@
            == hash && logs[k].entries@[seq_num].body@ == body
}

/// This author's op with this hash and body sits somewhere in the stream.
pub open spec fn op_stored(
    logs: Seq<OpLog>,
    author_hex: Seq<char>,
    log_id: LogId,
    hash: Seq<u8>,
    body: Seq<u8>,
) -> bool {
    exists|s: int| op_in_store(logs, author_hex, log_id, s, hash, body)
}

/// A log for this author and stream exists.
pub open spec fn log_exists(logs: Seq<OpLog>, author_hex: Seq<char>, log_id: LogId) -> bool {
    exists|k: int|
        0 <= k < logs.len() && (#[trigger] logs[k]).author_hex@ == author_hex && logs[k].log_id
            == log_id
}


/// An op with this hash sits at this position of the author's stream,
/// whatever its body.
pub open spec fn op_hash_at(
    logs: Seq<OpLog>,
    author_hex: Seq<char>,
    log_id: LogId,
    seq_num: int,
    hash: Seq<u8>,
) -> bool {
    exists|k: int|
        0 <= k < logs.len() && (#[trigger] logs[k]).author_hex@ == author_hex && logs[k].log_id
            == log_id && 0 <= seq_num < logs[k].entries@.len() && logs[k].entries@[seq_num].hash@
            == hash
}

/// An op with this hash waits in the pending buffer for this stream.
pub open spec fn pending_holds(pending: Seq<(LogId, StoredOp)>, log_id: LogId, hash: Seq<u8>) -> bool {
    exists|i: int|
        0 <= i < pending.len() && (#[trigger] pending[i]).0 == log_id && pending[i].1.hash@ == hash
}

/// The offered op clashes with what the store already holds: a different op
/// at its claimed position (a fork), or a tip it does not chain onto.
pub open spec fn store_conflict(
    logs: Seq<OpLog>,
    log_id: LogId,
    public_key: Seq<u8>,
    seq_num: u64,
    backlink: Option<Seq<u8>>,
    hash: Seq<u8>,
) -> bool {
    exists|k: int|
        0 <= k < logs.len() && (#[trigger] logs[k]).author_hex@ == hex_chars_of(public_key)
            && logs[k].log_id == log_id && ((seq_num < logs[k].entries@.len()
            && logs[k].entries@[seq_num as int].hash@ != hash) || (seq_num
            == logs[k].entries@.len() && !(public_key == logs[k].author_pk@ && (match backlink {
            Some(b) => logs[k].entries@.len() > 0 && b == logs[k].entries@.last().hash@,
            None => logs[k].entries@.len() == 0,
        }))))
}

/// The offered op appends exactly at its log's tip: a fresh log for a first
/// op, or the author's existing log at the claimed position with a matching
/// backlink.
pub open spec fn op_placeable(
    logs: Seq<OpLog>,
    log_id: LogId,
    public_key: Seq<u8>,
    seq_num: u64,
    backlink: Option<Seq<u8>>,
) -> bool {
    if log_exists(logs, hex_chars_of(public_key), log_id) {
        exists|k: int|
            0 <= k < logs.len() && (#[trigger] logs[k]).author_hex@ == hex_chars_of(public_key)
                && logs[k].log_id == log_id && seq_num == logs[k].entries@.len() && public_key
                == logs[k].author_pk@ && (match backlink {
                Some(b) => logs[k].entries@.len() > 0 && b == logs[k].entries@.last().hash@,
                None => logs[k].entries@.len() == 0,
            })
    } else {
        seq_num == 0 && backlink is None
    }
}

/// What a store owes a decoded, correctly signed and sized op: appended
/// where it fits, acknowledged as a duplicate where its hash already sits at
/// its position, rejected only on a conflict, and held as pending otherwise.
pub open spec fn insert_outcome_fits(
    logs: Seq<OpLog>,
    log_id: LogId,
    h: OpHeader,
    hash: Seq<u8>,
    r: InsertOutcome,
) -> bool {
    &&& op_placeable(logs, log_id, h.public_key@, h.seq_num, view_opt_bytes(h.backlink)) ==> (r
        matches InsertOutcome::Inserted)
    &&& op_hash_at(logs, hex_chars_of(h.public_key@), log_id, h.seq_num as int, hash) ==> (r
        matches InsertOutcome::Duplicate)
    &&& !store_conflict(logs, log_id, h.public_key@, h.seq_num, view_opt_bytes(h.backlink), hash)
        ==> !(r matches InsertOutcome::Rejected)
    &&& !op_placeable(logs, log_id, h.public_key@, h.seq_num, view_opt_bytes(h.backlink))
        && !store_conflict(logs, log_id, h.public_key@, h.seq_num, view_opt_bytes(h.backlink), hash)
        && !op_hash_at(logs, hex_chars_of(h.public_key@), log_id, h.seq_num as int, hash) ==> (r
        matches InsertOutcome::Pending)
}

/// The view of an optional byte vector.
pub open spec fn view_opt_bytes(o: Option<Vec<u8>>) -> Option<Seq<u8>> {
    match o {
        Some(b) => Some(b@),
        None => None,
    }
}

/// Reassembling big-endian bytes is injective.
proof fn lemma_be64_inj(x: u64, y: u64)
    requires
        be64(x) == be64(y),
    ensures
        x == y,
{
    lemma_be64_value(x);
    lemma_be64_value(y);
}

/// Two sized headers with the same canonical encoding carry the same fields.
proof fn lemma_header_bytes_inj(h1: OpHeader, h2: OpHeader)
    requires
        header_field_lens(h1),
        header_field_lens(h2),
        h1.spec_bytes() == h2.spec_bytes(),
    ensures
        h1.public_key@ == h2.public_key@,
        h1.signature@ == h2.signature@,
        h1.payload_hash@ == h2.payload_hash@,
        h1.payload_size == h2.payload_size,
        h1.timestamp == h2.timestamp,
        h1.seq_num == h2.seq_num,
        view_opt_bytes(h1.backlink) == view_opt_bytes(h2.backlink),
        h1.spec_signing_bytes() == h2.spec_signing_bytes(),
{
    reveal(OpHeader::spec_signing_bytes);
    reveal(OpHeader::spec_bytes);
    let bytes = h1.spec_bytes();
    lemma_header_parse_complete(h1, bytes);
    lemma_header_parse_complete(h2, bytes);
    match (h1.backlink, h2.backlink) {
        (Some(b1), Some(b2)) => {
            assert(bytes[89] == 1);
        },
        (None, None) => {},
        (Some(b1), None) => {
            assert(bytes[89] == 1 && bytes[89] == 0);
        },
        (None, Some(b2)) => {
            assert(bytes[89] == 1 && bytes[89] == 0);
        },
    }
    lemma_be64_inj(h1.payload_size, h2.payload_size);
    lemma_be64_inj(h1.timestamp, h2.timestamp);
    lemma_be64_inj(h1.seq_num, h2.seq_num);
}

/// What became of an offered op.
#[derive(Debug)]
pub enum InsertOutcome {
    /// Appended at its log's tip.
    Inserted,
    /// Already present; the store is unchanged.
    Duplicate,
    /// Its predecessor has not arrived; held for retry.
    Pending,
    /// Malformed, wrongly signed, or conflicting; never stored.
    Rejected,
}

/// The whole store: one log per (author, stream), and a buffer of ops whose
/// predecessors are still missing.
pub struct OpStore {
    pub logs: Vec<OpLog>,
    pub pending: Vec<(LogId, StoredOp)>,
}

impl OpStore {
    /// Every log is well-formed, no (author, stream) pair appears twice, and
    /// everything waiting in the pending buffer is itself a well-formed op.
    pub open spec fn wf(&self) -> bool {
        &&& forall|i: int| 0 <= i < self.logs@.len() ==> (#[trigger] self.logs@[i]).wf()
        &&& forall|i: int, j: int|
            0 <= i < j < self.logs@.len() ==> !((#[trigger] self.logs@[i]).author_hex@
                == (#[trigger] self.logs@[j]).author_hex@ && self.logs@[i].log_id
                == self.logs@[j].log_id)
        &&& forall|i: int| 0 <= i < self.pending@.len() ==> (#[trigger] self.pending@[i]).1.wf()
    }

    /// An empty store.
    pub fn new() -> (r: OpStore)
        ensures
            r.wf(),
            r.logs@.len() == 0,
    {
        OpStore { logs: Vec::new(), pending: Vec::new() }
    }

    /// Position of the log of an author and stream, if it exists.
    fn find_log(&self, author_hex: &str, log_id: LogId) -> (r: Option<usize>)
        ensures
            r is Some ==> r->0 < self.logs@.len() && self.logs@[r->0 as int].author_hex@
                == author_hex@ && self.logs@[r->0 as int].log_id == log_id,
            r is None ==> !log_exists(self.logs@, author_hex@, log_id),
    {
        let n = self.logs.len();
        let mut i: usize = 0;
        while i < n
            invariant
                i <= n,
                n == self.logs@.len(),
                forall|j: int|
                    0 <= j < i ==> !((#[trigger] self.logs@[j]).author_hex@ == author_hex@
                        && self.logs@[j].log_id == log_id),
            decreases n - i,
        {
            let log = &self.logs[i];
            if str_eq(log.author_hex.as_str(), author_hex) && log.log_id == log_id {
                return Some(i);
            }
            i = i + 1;
        }
        None
    }

    /// Append `op` onto a log taken out of the store (or a fresh one) and put
    /// the log back. The op must chain exactly at the log's tip.
    fn put_back_with(&mut self, mut log: OpLog, op: StoredOp)
        requires
            op.wf(),
            log.wf(),
            op.header.public_key@ == log.author_pk@,
            op.header.seq_num == log.entries@.len(),
            log.entries@.len() == 0 ==> op.header.backlink is None,
            log.entries@.len() > 0 ==> op.header.backlink is Some && op.header.backlink->0@
                == log.entries@.last().hash@,
            forall|i: int| 0 <= i < old(self).logs@.len() ==> (#[trigger] old(self).logs@[i]).wf(),
            forall|i: int, j: int|
                0 <= i < j < old(self).logs@.len() ==> !((#[trigger] old(self).logs@[i]).author_hex@
                    == (#[trigger] old(self).logs@[j]).author_hex@ && old(self).logs@[i].log_id
                    == old(self).logs@[j].log_id),
            forall|i: int|
                0 <= i < old(self).logs@.len() ==> !((#[trigger] old(self).logs@[i]).author_hex@
                    == log.author_hex@ && old(self).logs@[i].log_id == log.log_id),
            forall|i: int| 0 <= i < old(self).pending@.len() ==> (#[trigger] old(
                self,
            ).pending@[i]).1.wf(),
        ensures
            final(self).wf(),
            final(self).pending@ == old(self).pending@,
            op_in_store(
                final(self).logs@,
                log.author_hex@,
                log.log_id,
                op.header.seq_num as int,
                op.hash@,
                op.body@,
            ),
            forall|a: Seq<char>, l: LogId, s2: int, h2: Seq<u8>, b2: Seq<u8>|
                #[trigger] op_in_store(old(self).logs@, a, l, s2, h2, b2) ==> op_in_store(
                    final(self).logs@,
                    a,
                    l,
                    s2,
                    h2,
                    b2,
                ),
            forall|s2: int|
                0 <= s2 < log.entries@.len() ==> op_in_store(
                    final(self).logs@,
                    log.author_hex@,
                    log.log_id,
                    s2,
                    #[trigger] log.entries@[s2].hash@,
                    log.entries@[s2].body@,
                ),
    {
        let ghost old_entries = log.entries@;
        let ghost seq = op.header.seq_num as int;
        log.entries.push(op);
        proof {
            assert(log.entries@.drop_last() =~= old_entries);
            assert forall|i: int| 0 <= i < log.entries@.len() implies {
                &&& (#[trigger] log.entries@[i]).wf()
                &&& log.entries@[i].header.seq_num == i
                &&& log.entries@[i].header.public_key@ == log.author_pk@
                &&& (i == 0 ==> log.entries@[i].header.backlink is None)
                &&& (i > 0 ==> log.entries@[i].header.backlink is Some
                    && log.entries@[i].header.backlink->0@ == log.entries@[i - 1].hash@)
            } by {
                if i < old_entries.len() {
                    assert(log.entries@[i] == old_entries[i]);
                    if i > 0 {
                        assert(log.entries@[i - 1] == old_entries[i - 1]);
                    }
                } else {
                    if i > 0 {
                        assert(log.entries@[i - 1] == old_entries[i - 1]);
                    }
                }
            }
            assert(log.wf());
        }
        let ghost pre_logs = self.logs@;
        self.logs.push(log);
        proof {
            let logs = self.logs@;
            assert(logs.drop_last() =~= pre_logs);
            assert forall|i: int, j: int|
                0 <= i < j < logs.len() implies !((#[trigger] logs[i]).author_hex@
                == (#[trigger] logs[j]).author_hex@ && logs[i].log_id == logs[j].log_id) by {
                if j < logs.len() - 1 {
                    assert(logs[i] == pre_logs[i] && logs[j] == pre_logs[j]);
                } else {
                    assert(logs[i] == pre_logs[i]);
                }
            }
            let k = logs.len() - 1;
            assert(logs[k].entries@[seq].hash@ == logs[k].entries@[seq].hash@);
            assert(op_in_store(
                logs,
                logs[k].author_hex@,
                logs[k].log_id,
                seq,
                logs[k].entries@[seq].hash@,
                logs[k].entries@[seq].body@,
            ));
            assert forall|a: Seq<char>, l: LogId, s2: int, h2: Seq<u8>, b2: Seq<u8>|
                #[trigger] op_in_store(pre_logs, a, l, s2, h2, b2) implies op_in_store(
                logs,
                a,
                l,
                s2,
                h2,
                b2,
            ) by {
                let k0 = choose|k0: int|
                    0 <= k0 < pre_logs.len() && (#[trigger] pre_logs[k0]).author_hex@ == a
                        && pre_logs[k0].log_id == l && 0 <= s2 < pre_logs[k0].entries@.len()
                        && pre_logs[k0].entries@[s2].hash@ == h2 && pre_logs[k0].entries@[s2].body@
                        == b2;
                assert(logs[k0] == pre_logs[k0]);
            }
            assert forall|s2: int| 0 <= s2 < old_entries.len() implies op_in_store(
                logs,
                logs[k].author_hex@,
                logs[k].log_id,
                s2,
                #[trigger] old_entries[s2].hash@,
                old_entries[s2].body@,
            ) by {
                assert(logs[k].entries@[s2] == old_entries[s2]);
            }
        }
    }

    /// The latest accepted position and hash in a log: the data a new op of
    /// this author chains onto.
    pub fn latest(&self, author_hex: &str, log_id: LogId) -> (r: Option<(u64, Vec<u8>)>)
        requires
            self.wf(),
        ensures
            r is Some ==> ({
                let q = r->0;
                exists|i: int|
                    0 <= i < self.logs@.len() && (#[trigger] self.logs@[i]).author_hex@
                        == author_hex@ && self.logs@[i].log_id == log_id
                        && self.logs@[i].entries@.len() == q.0 + 1
                        && self.logs@[i].entries@.last().hash@ == q.1@
            }),
            forall|k: int|
                0 <= k < self.logs@.len() && (#[trigger] self.logs@[k]).author_hex@ == author_hex@
                    && self.logs@[k].log_id == log_id && self.logs@[k].entries@.len() > 0 ==> r
                    is Some,
    {
        let found = self.find_log(author_hex, log_id);
        let Some(i) = found else {
            return None;
        };
        let log = &self.logs[i];
        let n = log.entries.len();
        if n == 0 {
            proof {
                assert forall|k: int|
                    0 <= k < self.logs@.len() && (#[trigger] self.logs@[k]).author_hex@
                        == author_hex@ && self.logs@[k].log_id == log_id implies self.logs@[k].entries@.len()
                    == 0 by {
                    if k != i {
                        assert(!(self.logs@[i as int].author_hex@ == self.logs@[k].author_hex@
                            && self.logs@[i as int].log_id == self.logs@[k].log_id));
                    }
                }
            }
            return None;
        }
        let tip = &log.entries[n - 1];
        let hash = slice_to_vec(tip.hash.as_slice());
        proof {
            assert(self.logs@[i as int].entries@.last().hash@ == hash@);
        }
        Some(((n - 1) as u64, hash))
    }

    /// How many ops each author has in a stream: the projector's work list.
    pub fn heights(&self, log_id: LogId) -> (r: Vec<(String, u64)>)
        requires
            self.wf(),
        ensures
            forall|j: int|
                0 <= j < r@.len() ==> height_of_some_log(self.logs@, log_id, #[trigger] r@[j]),
            forall|i: int|
                0 <= i < self.logs@.len() && (#[trigger] self.logs@[i]).log_id == log_id
                    && self.logs@[i].entries@.len() > 0 ==> height_listed(
                    r@,
                    self.logs@[i].author_hex@,
                    self.logs@[i].entries@.len() as u64,
                ),
    {
        let n = self.logs.len();
        let mut out: Vec<(String, u64)> = Vec::new();
        let mut i: usize = 0;
        while i < n
            invariant
                i <= n,
                n == self.logs@.len(),
                forall|j: int|
                    0 <= j < out@.len() ==> height_of_some_log(self.logs@, log_id, #[trigger] out@[j]),
                forall|k: int|
                    0 <= k < i && (#[trigger] self.logs@[k]).log_id == log_id
                        && self.logs@[k].entries@.len() > 0 ==> height_listed(
                        out@,
                        self.logs@[k].author_hex@,
                        self.logs@[k].entries@.len() as u64,
                    ),
            decreases n - i,
        {
            let log = &self.logs[i];
            let ghost out_pre = out@;
            if log.log_id == log_id && log.entries.len() > 0 {
                let author = clone_string(&log.author_hex);
                let count = log.entries.len() as u64;
                out.push((author, count));
                proof {
                    assert(out@[out@.len() - 1].0@ == self.logs@[i as int].author_hex@);
                    assert(out@[out@.len() - 1].1 == self.logs@[i as int].entries@.len());
                }
            }
            proof {
                assert forall|j: int| 0 <= j < out@.len() implies height_of_some_log(
                    self.logs@,
                    log_id,
                    #[trigger] out@[j],
                ) by {
                    if j < out_pre.len() {
                        assert(out@[j] == out_pre[j]);
                        assert(height_of_some_log(self.logs@, log_id, out_pre[j]));
                    } else {
                        assert(self.logs@[i as int].log_id == log_id);
                        assert(height_of_some_log(self.logs@, log_id, out@[j]));
                    }
                }
                assert forall|k: int|
                    0 <= k < i + 1 && (#[trigger] self.logs@[k]).log_id == log_id
                        && self.logs@[k].entries@.len() > 0 implies height_listed(
                    out@,
                    self.logs@[k].author_hex@,
                    self.logs@[k].entries@.len() as u64,
                ) by {
                    if k < i {
                        assert(height_listed(
                            out_pre,
                            self.logs@[k].author_hex@,
                            self.logs@[k].entries@.len() as u64,
                        ));
                        let j0 = choose|j0: int|
                            0 <= j0 < out_pre.len() && (#[trigger] out_pre[j0]).0@
                                == self.logs@[k].author_hex@ && out_pre[j0].1
                                == self.logs@[k].entries@.len() as u64;
                        assert(out@[j0] == out_pre[j0]);
                        assert(out@[j0].0@ == self.logs@[k].author_hex@);
                    } else {
                        assert(out@[out@.len() - 1].0@ == self.logs@[k].author_hex@);
                    }
                }
            }
            i = i + 1;
        }
        out
    }

    /// The ops of one author's stream from a position on, in order: headers
    /// and bodies, cloned for the caller.
    #[verifier::spinoff_prover]
    #[verifier::rlimit(100)]
    pub fn ops_from(&self, author_hex: &str, log_id: LogId, from_seq: u64) -> (r: Vec<
        (OpHeader, Vec<u8>),
    >)
        requires
            self.wf(),
        ensures
            forall|j: int|
                0 <= j < r@.len() ==> (#[trigger] r@[j]).0.seq_num == from_seq + j,
            forall|j: int|
                0 <= j < r@.len() ==> exists|i: int|
                    0 <= i < self.logs@.len() && (#[trigger] self.logs@[i]).author_hex@ == author_hex@
                        && self.logs@[i].log_id == log_id && from_seq + j
                        < self.logs@[i].entries@.len() && (#[trigger] r@[j]).0.spec_bytes()
                        == self.logs@[i].entries@[from_seq + j].header.spec_bytes() && r@[j].1@
                        == self.logs@[i].entries@[from_seq + j].body@ && r@[j].0.wf(),
            forall|k: int|
                0 <= k < self.logs@.len() && (#[trigger] self.logs@[k]).author_hex@ == author_hex@
                    && self.logs@[k].log_id == log_id ==> r@.len() == (if from_seq
                    <= self.logs@[k].entries@.len() {
                    self.logs@[k].entries@.len() - from_seq
                } else {
                    0int
                }),
            !log_exists(self.logs@, author_hex@, log_id) ==> r@.len() == 0,
    {
        let mut out: Vec<(OpHeader, Vec<u8>)> = Vec::new();
        let found = self.find_log(author_hex, log_id);
        let Some(li) = found else {
            return out;
        };
        let ghost li_int = li as int;
        proof {
            assert forall|k: int|
                0 <= k < self.logs@.len() && (#[trigger] self.logs@[k]).author_hex@ == author_hex@
                    && self.logs@[k].log_id == log_id implies k == li_int by {
                if k != li_int {
                    assert(!(self.logs@[li_int].author_hex@ == self.logs@[k].author_hex@
                        && self.logs@[li_int].log_id == self.logs@[k].log_id));
                }
            }
        }
        let log = &self.logs[li];
        let n = log.entries.len();
        if from_seq >= n as u64 {
            return out;
        }
        let mut i: usize = from_seq as usize;
        while i < n
            invariant
                from_seq <= i <= n,
                n == log.entries@.len(),
                li < self.logs@.len(),
                log == self.logs@[li as int],
                self.logs@[li as int].author_hex@ == author_hex@,
                self.logs@[li as int].log_id == log_id,
                self.logs@[li as int].wf(),
                out@.len() == i - from_seq,
                forall|j: int|
                    0 <= j < out@.len() ==> (#[trigger] out@[j]).0.spec_bytes()
                        == self.logs@[li as int].entries@[from_seq + j].header.spec_bytes() && (
                    #[trigger] out@[j]).1@ == self.logs@[li as int].entries@[from_seq + j].body@ && (
                    #[trigger] out@[j]).0.seq_num == from_seq + j && out@[j].0.wf(),
            decreases n - i,
        {
            let entry = &log.entries[i];
            let header = entry.header.clone_header();
            let body = slice_to_vec(entry.body.as_slice());
            let ghost out_pre = out@;
            proof {
                reveal(StoredOp::wf);
                assert(self.logs@[li as int].entries@[i as int].header.seq_num == i);
            }
            out.push((header, body));
            i = i + 1;
            proof {
                assert forall|j: int| 0 <= j < out@.len() implies (#[trigger] out@[j]).0.spec_bytes()
                    == self.logs@[li as int].entries@[from_seq + j].header.spec_bytes() && (
                #[trigger] out@[j]).1@ == self.logs@[li as int].entries@[from_seq + j].body@ && (
                #[trigger] out@[j]).0.seq_num == from_seq + j && out@[j].0.wf() by {
                    if j < out_pre.len() {
                        assert(out@[j] == out_pre[j]);
                    } else {
                        assert(out@[j].0.spec_bytes() == self.logs@[li as int].entries@[i as int
                            - 1].header.spec_bytes());
                    }
                }
            }
        }
        out
    }


    /// Try to place a verified op into its log: append at the tip, report a
    /// duplicate, hold it for its predecessor, or reject a fork.
    #[verifier::spinoff_prover]
    #[verifier::rlimit(100)]
    fn place_op(&mut self, log_id: LogId, op: StoredOp) -> (r: InsertOutcome)
        requires
            old(self).wf(),
            op.wf(),
        ensures
            final(self).wf(),
            r matches InsertOutcome::Inserted ==> op_in_store(
                final(self).logs@,
                hex_chars_of(op.header.public_key@),
                log_id,
                op.header.seq_num as int,
                op.hash@,
                op.body@,
            ),
            forall|a: Seq<char>, l: LogId, s2: int, h2: Seq<u8>, b2: Seq<u8>|
                #[trigger] op_in_store(old(self).logs@, a, l, s2, h2, b2) ==> op_in_store(
                    final(self).logs@,
                    a,
                    l,
                    s2,
                    h2,
                    b2,
                ),
            r matches InsertOutcome::Duplicate ==> *final(self) == *old(self) && op_hash_at(
                old(self).logs@,
                hex_chars_of(op.header.public_key@),
                log_id,
                op.header.seq_num as int,
                op.hash@,
            ),
            r matches InsertOutcome::Pending ==> final(self).logs@ == old(self).logs@
                && pending_holds(final(self).pending@, log_id, op.hash@),
            r matches InsertOutcome::Rejected ==> *final(self) == *old(self) && store_conflict(
                old(self).logs@,
                log_id,
                op.header.public_key@,
                op.header.seq_num,
                view_opt_bytes(op.header.backlink),
                op.hash@,
            ),
            op_placeable(
                old(self).logs@,
                log_id,
                op.header.public_key@,
                op.header.seq_num,
                view_opt_bytes(op.header.backlink),
            ) <==> (r matches InsertOutcome::Inserted),
            op_hash_at(
                old(self).logs@,
                hex_chars_of(op.header.public_key@),
                log_id,
                op.header.seq_num as int,
                op.hash@,
            ) ==> r matches InsertOutcome::Duplicate,
    {
        proof {
            reveal(StoredOp::wf);
            reveal(OpHeader::wf);
        }
        let author_hex = hex_string(op.header.public_key.as_slice());
        let found = self.find_log(author_hex.as_str(), log_id);
        match found {
            None => {
                if op.header.seq_num == 0 && op.header.backlink.is_none() {
                    let log = OpLog {
                        author_hex,
                        author_pk: slice_to_vec(op.header.public_key.as_slice()),
                        log_id,
                        entries: Vec::new(),
                    };
                    self.put_back_with(log, op);
                    InsertOutcome::Inserted
                } else {
                    self.pending.push((log_id, op));
                    proof {
                        assert(self.pending@.drop_last() =~= old(self).pending@);
                        assert forall|i: int| 0 <= i < self.pending@.len() implies (
                        #[trigger] self.pending@[i]).1.wf() by {
                            if i < self.pending@.len() - 1 {
                                assert(self.pending@[i] == old(self).pending@[i]);
                            }
                        }
                        assert(self.pending@[self.pending@.len() - 1].0 == log_id);
                    }
                    InsertOutcome::Pending
                }
            },
            Some(idx) => {
                let n = self.logs[idx].entries.len();
                if op.header.seq_num < n as u64 {
                    let same = bytes_eq(
                        self.logs[idx].entries[op.header.seq_num as usize].hash.as_slice(),
                        op.hash.as_slice(),
                    );
                    proof {
                        assert(self.logs@[idx as int].author_hex@ == hex_chars_of(
                            op.header.public_key@,
                        ));
                    }
                    if same {
                        InsertOutcome::Duplicate
                    } else {
                        InsertOutcome::Rejected
                    }
                } else if op.header.seq_num == n as u64 {
                    // Does it chain onto the tip?
                    let chain_ok: bool = if n == 0 {
                        op.header.backlink.is_none()
                    } else {
                        match &op.header.backlink {
                            Some(b) => bytes_eq(
                                b.as_slice(),
                                self.logs[idx].entries[n - 1].hash.as_slice(),
                            ),
                            None => false,
                        }
                    };
                    let pk_ok = bytes_eq(
                        op.header.public_key.as_slice(),
                        self.logs[idx].author_pk.as_slice(),
                    );
                    if chain_ok && pk_ok {
                        let ghost logs0 = self.logs@;
                        let log = self.take_log(
                            op.header.public_key.as_slice(),
                            author_hex.as_str(),
                            log_id,
                        );
                        let ghost logs1 = self.logs@;
                        let ghost taken = log;
                        self.put_back_with(log, op);
                        proof {
                            assert forall|a: Seq<char>, l: LogId, s2: int, h2: Seq<u8>, b2: Seq<
                                u8,
                            >| #[trigger] op_in_store(logs0, a, l, s2, h2, b2) implies op_in_store(
                                self.logs@,
                                a,
                                l,
                                s2,
                                h2,
                                b2,
                            ) by {
                                if op_in_store(logs1, a, l, s2, h2, b2) {
                                } else {
                                    assert(a == taken.author_hex@ && l == taken.log_id && 0 <= s2
                                        < taken.entries@.len() && taken.entries@[s2].hash@ == h2
                                        && taken.entries@[s2].body@ == b2);
                                }
                            }
                        }
                        InsertOutcome::Inserted
                    } else {
                        proof {
                            assert(self.logs@[idx as int].author_hex@ == hex_chars_of(
                                op.header.public_key@,
                            ));
                            if !pk_ok {
                                assert(op.header.public_key@ != self.logs@[idx as int].author_pk@);
                            }
                            if !chain_ok {
                                if n == 0 {
                                    assert(op.header.backlink is Some);
                                } else {
                                    match op.header.backlink {
                                        Some(ref b) => {
                                            assert(b@ != self.logs@[idx as int].entries@.last().hash@);
                                        },
                                        None => {},
                                    }
                                }
                            }
                        }
                        InsertOutcome::Rejected
                    }
                } else {
                    self.pending.push((log_id, op));
                    proof {
                        assert(self.pending@.drop_last() =~= old(self).pending@);
                        assert forall|i: int| 0 <= i < self.pending@.len() implies (
                        #[trigger] self.pending@[i]).1.wf() by {
                            if i < self.pending@.len() - 1 {
                                assert(self.pending@[i] == old(self).pending@[i]);
                            }
                        }
                        assert(self.pending@[self.pending@.len() - 1].0 == log_id);
                    }
                    InsertOutcome::Pending
                }
            },
        }
    }

    /// Whether the op could append right now: its log is at exactly the
    /// position it claims, with a matching backlink.
    fn placeable(&self, log_id: LogId, op: &StoredOp) -> (r: bool)
        requires
            self.wf(),
            op.wf(),
    {
        proof {
            reveal(StoredOp::wf);
            reveal(OpHeader::wf);
        }
        let author_hex = hex_string(op.header.public_key.as_slice());
        match self.find_log(author_hex.as_str(), log_id) {
            None => op.header.seq_num == 0 && op.header.backlink.is_none(),
            Some(idx) => {
                let n = self.logs[idx].entries.len();
                if op.header.seq_num != n as u64 {
                    false
                } else if n == 0 {
                    op.header.backlink.is_none()
                } else {
                    match &op.header.backlink {
                        Some(b) => bytes_eq(
                            b.as_slice(),
                            self.logs[idx].entries[n - 1].hash.as_slice(),
                        ) && bytes_eq(
                            op.header.public_key.as_slice(),
                            self.logs[idx].author_pk.as_slice(),
                        ),
                        None => false,
                    }
                }
            },
        }
    }

    /// Retry the pending buffer after an append: any op whose predecessor has
    /// arrived is moved into its log; repeated until nothing more fits.
    fn drain_pending(&mut self)
        requires
            old(self).wf(),
        ensures
            final(self).wf(),
            forall|a: Seq<char>, l: LogId, s2: int, h2: Seq<u8>, b2: Seq<u8>|
                #[trigger] op_in_store(old(self).logs@, a, l, s2, h2, b2) ==> op_in_store(
                    final(self).logs@,
                    a,
                    l,
                    s2,
                    h2,
                    b2,
                ),
    {
        let mut rounds: usize = self.pending.len();
        loop
            invariant
                self.wf(),
                forall|a: Seq<char>, l: LogId, s2: int, h2: Seq<u8>, b2: Seq<u8>|
                    #[trigger] op_in_store(old(self).logs@, a, l, s2, h2, b2) ==> op_in_store(
                        self.logs@,
                        a,
                        l,
                        s2,
                        h2,
                        b2,
                    ),
            decreases rounds,
        {
            if rounds == 0 {
                return ;
            }
            rounds = rounds - 1;
            // Find one pending op that fits now.
            let n = self.pending.len();
            let mut found: Option<usize> = None;
            let mut i: usize = 0;
            while i < n
                invariant
                    i <= n,
                    self.wf(),
                    n == self.pending@.len(),
                    found is Some ==> found->0 < n,
                decreases n - i,
            {
                let (lid, op) = &self.pending[i];
                proof {
                    assert(self.pending@[i as int].1.wf());
                }
                if self.placeable(*lid, op) {
                    found = Some(i);
                    break ;
                }
                i = i + 1;
            }
            let Some(idx) = found else {
                return ;
            };
            let ghost pending_pre = self.pending@;
            let (lid, op) = self.pending.remove(idx);
            proof {
                assert forall|j: int| 0 <= j < self.pending@.len() implies (
                #[trigger] self.pending@[j]).1.wf() by {
                    if j < idx {
                        assert(self.pending@[j] == pending_pre[j]);
                    } else {
                        assert(self.pending@[j] == pending_pre[j + 1]);
                    }
                }
                assert(pending_pre[idx as int].1.wf());
            }
            let ghost logs_mid = self.logs@;
            let placed = self.place_op(lid, op);
            if let InsertOutcome::Rejected = placed {
                // A pending op that no longer chains is dropped for good.
            }
            proof {
                assert forall|a: Seq<char>, l: LogId, s2: int, h2: Seq<u8>, b2: Seq<u8>|
                    #[trigger] op_in_store(old(self).logs@, a, l, s2, h2, b2) implies op_in_store(
                    self.logs@,
                    a,
                    l,
                    s2,
                    h2,
                    b2,
                ) by {
                    assert(op_in_store(logs_mid, a, l, s2, h2, b2));
                }
            }
        }
    }

    /// Verify and place an op received from the network: its header must
    /// parse, its signature verify, and its body match the payload hash and
    /// size. A valid op that chains is appended (and may release pending
    /// successors), a duplicate is a no-op, an early arrival waits in the
    /// buffer, and only a malformed, mis-signed or conflicting op is refused.
    #[verifier::spinoff_prover]
    #[verifier::rlimit(100)]
    pub fn insert_op(&mut self, log_id: LogId, header_bytes: &[u8], body: &[u8]) -> (r:
        InsertOutcome)
        requires
            old(self).wf(),
        ensures
            final(self).wf(),
            r matches InsertOutcome::Inserted ==> exists|h: OpHeader|
                header_field_lens(h) && header_bytes@ == #[trigger] h.spec_bytes() && op_in_store(
                    final(self).logs@,
                    hex_chars_of(h.public_key@),
                    log_id,
                    h.seq_num as int,
                    blake3_of(header_bytes@),
                    body@,
                ),
            r matches InsertOutcome::Duplicate ==> *final(self) == *old(self) && exists|h: OpHeader|
                header_field_lens(h) && header_bytes@ == #[trigger] h.spec_bytes() && op_hash_at(
                    old(self).logs@,
                    hex_chars_of(h.public_key@),
                    log_id,
                    h.seq_num as int,
                    blake3_of(header_bytes@),
                ),
            r matches InsertOutcome::Pending ==> final(self).logs@ == old(self).logs@
                && pending_holds(final(self).pending@, log_id, blake3_of(header_bytes@)),
            r matches InsertOutcome::Rejected ==> *final(self) == *old(self),
            forall|h: OpHeader|
                header_field_lens(h) && header_bytes@ == #[trigger] h.spec_bytes()
                    && ed25519_verifies(h.public_key@, h.spec_signing_bytes(), h.signature@)
                    && blake3_of(body@) == h.payload_hash@ && h.payload_size == body@.len()
                    ==> insert_outcome_fits(
                    old(self).logs@,
                    log_id,
                    h,
                    blake3_of(header_bytes@),
                    r,
                ),
    {
        let Some(header) = decode_header(header_bytes) else {
            return InsertOutcome::Rejected;
        };
        let signing = signing_bytes(
            header.public_key.as_slice(),
            header.payload_hash.as_slice(),
            header.payload_size,
            header.timestamp,
            header.seq_num,
            &header.backlink,
        );
        proof {
            reveal(OpHeader::spec_signing_bytes);
            assert(signing@ == header.spec_signing_bytes());
        }
        if !ed25519_verify(
            header.public_key.as_slice(),
            signing.as_slice(),
            header.signature.as_slice(),
        ) {
            proof {
                assert forall|h: OpHeader|
                    !(header_field_lens(h) && header_bytes@ == #[trigger] h.spec_bytes()
                        && ed25519_verifies(h.public_key@, h.spec_signing_bytes(), h.signature@)) by {
                    if header_field_lens(h) && header_bytes@ == h.spec_bytes() {
                        lemma_header_bytes_inj(h, header);
                    }
                }
            }
            return InsertOutcome::Rejected;
        }
        let body_hash = blake3_hash(body);
        if !bytes_eq(body_hash.as_slice(), header.payload_hash.as_slice()) {
            proof {
                assert forall|h: OpHeader|
                    !(header_field_lens(h) && header_bytes@ == #[trigger] h.spec_bytes()
                        && blake3_of(body@) == h.payload_hash@) by {
                    if header_field_lens(h) && header_bytes@ == h.spec_bytes() {
                        lemma_header_bytes_inj(h, header);
                    }
                }
            }
            return InsertOutcome::Rejected;
        }
        if header.payload_size != body.len() as u64 {
            proof {
                assert forall|h: OpHeader|
                    !(header_field_lens(h) && header_bytes@ == #[trigger] h.spec_bytes()
                        && h.payload_size == body@.len()) by {
                    if header_field_lens(h) && header_bytes@ == h.spec_bytes() {
                        lemma_header_bytes_inj(h, header);
                    }
                }
            }
            return InsertOutcome::Rejected;
        }
        let hash = blake3_hash(header_bytes);
        proof {
            reveal(OpHeader::wf);
            reveal(StoredOp::wf);
            reveal(OpHeader::spec_bytes);
        }
        let op = StoredOp {
            hash,
            header,
            header_bytes: slice_to_vec(header_bytes),
            body: slice_to_vec(body),
        };
        let ghost parsed = op.header;
        let outcome = self.place_op(log_id, op);
        proof {
            assert forall|h: OpHeader|
                header_field_lens(h) && header_bytes@ == #[trigger] h.spec_bytes()
                    && ed25519_verifies(h.public_key@, h.spec_signing_bytes(), h.signature@)
                    && blake3_of(body@) == h.payload_hash@ && h.payload_size
                    == body@.len() implies insert_outcome_fits(
                old(self).logs@,
                log_id,
                h,
                blake3_of(header_bytes@),
                outcome,
            ) by {
                lemma_header_bytes_inj(h, parsed);
            }
        }
        if let InsertOutcome::Inserted = outcome {
            let ghost mid = self.logs@;
            self.drain_pending();
            proof {
                assert(op_in_store(
                    self.logs@,
                    hex_chars_of(parsed.public_key@),
                    log_id,
                    parsed.seq_num as int,
                    blake3_of(header_bytes@),
                    body@,
                ));
                assert(header_field_lens(parsed) && header_bytes@ == parsed.spec_bytes());
            }
            return InsertOutcome::Inserted;
        }
        outcome
    }

    /// Take the log of an author and stream out of the store, creating an
    /// empty one on first use. The store is left ready to receive it back.
    fn take_log(&mut self, author_pk: &[u8], author_hex: &str, log_id: LogId) -> (log: OpLog)
        requires
            old(self).wf(),
            author_hex@ == hex_chars_of(author_pk@),
        ensures
            log.wf(),
            log.author_hex@ == author_hex@,
            log.author_pk@ == author_pk@,
            log.log_id == log_id,
            forall|k: int|
                0 <= k < old(self).logs@.len() && (#[trigger] old(self).logs@[k]).author_hex@
                    == author_hex@ && old(self).logs@[k].log_id == log_id ==> log.entries@ == old(
                    self,
                ).logs@[k].entries@,
            !log_exists(old(self).logs@, author_hex@, log_id) ==> log.entries@.len() == 0,
            forall|a: Seq<char>, l: LogId, s2: int, h2: Seq<u8>, b2: Seq<u8>|
                #[trigger] op_in_store(old(self).logs@, a, l, s2, h2, b2) ==> op_in_store(
                    final(self).logs@,
                    a,
                    l,
                    s2,
                    h2,
                    b2,
                ) || (a == author_hex@ && l == log_id && 0 <= s2 < log.entries@.len()
                    && log.entries@[s2].hash@ == h2 && log.entries@[s2].body@ == b2),
            forall|i: int|
                0 <= i < final(self).logs@.len() ==> (#[trigger] final(self).logs@[i]).wf(),
            forall|i: int, j: int|
                0 <= i < j < final(self).logs@.len() ==> !((#[trigger] final(self).logs@[i]).author_hex@
                    == (#[trigger] final(self).logs@[j]).author_hex@
                    && final(self).logs@[i].log_id == final(self).logs@[j].log_id),
            forall|i: int|
                0 <= i < final(self).logs@.len() ==> !((#[trigger] final(self).logs@[i]).author_hex@
                    == log.author_hex@ && final(self).logs@[i].log_id == log.log_id),
            forall|i: int|
                0 <= i < final(self).pending@.len() ==> (#[trigger] final(self).pending@[i]).1.wf(),
    {
        match self.find_log(author_hex, log_id) {
            Some(i) => {
                let ghost logs_pre = self.logs@;
                let log = self.logs.remove(i);
                proof {
                    lemma_remove_log(logs_pre, i as int, self.logs@);
                    lemma_hex_chars_injective(log.author_pk@, author_pk@);
                    assert forall|k: int|
                        0 <= k < logs_pre.len() && (#[trigger] logs_pre[k]).author_hex@
                            == author_hex@ && logs_pre[k].log_id == log_id implies log.entries@
                        == logs_pre[k].entries@ by {
                        if k != i {
                            assert(!(logs_pre[i as int].author_hex@ == logs_pre[k].author_hex@
                                && logs_pre[i as int].log_id == logs_pre[k].log_id));
                        }
                    }
                    assert forall|a: Seq<char>, l: LogId, s2: int, h2: Seq<u8>, b2: Seq<u8>|
                        #[trigger] op_in_store(logs_pre, a, l, s2, h2, b2) implies op_in_store(
                        self.logs@,
                        a,
                        l,
                        s2,
                        h2,
                        b2,
                    ) || (a == log.author_hex@ && l == log.log_id && 0 <= s2 < log.entries@.len()
                        && log.entries@[s2].hash@ == h2 && log.entries@[s2].body@ == b2) by {
                        let k0 = choose|k0: int|
                            0 <= k0 < logs_pre.len() && (#[trigger] logs_pre[k0]).author_hex@ == a
                                && logs_pre[k0].log_id == l && 0 <= s2
                                < logs_pre[k0].entries@.len() && logs_pre[k0].entries@[s2].hash@
                                == h2 && logs_pre[k0].entries@[s2].body@ == b2;
                        if k0 != i {
                            let k1 = if k0 < i {
                                k0
                            } else {
                                k0 - 1
                            };
                            assert(self.logs@[k1] == logs_pre[k0]);
                        }
                    }
                }
                log
            },
            None => {
                OpLog {
                    author_hex: author_hex.to_owned(),
                    author_pk: slice_to_vec(author_pk),
                    log_id,
                    entries: Vec::new(),
                }
            },
        }
    }

    /// Build and sign one op at a given chain position.
    fn make_signed_op(
        seed: &[u8],
        body: &[u8],
        timestamp: u64,
        seq_num: u64,
        backlink: Option<Vec<u8>>,
    ) -> (r: (StoredOp, Vec<u8>, String))
        requires
            seed@.len() == 32,
            match backlink {
                Some(b) => b@.len() == 32,
                None => true,
            },
        ensures
            r.0.wf(),
            r.0.header.public_key@ == ed25519_pk_of(seed@),
            r.0.header.seq_num == seq_num,
            (match (r.0.header.backlink, backlink) {
                (Some(a), Some(b)) => a@ == b@,
                (None, None) => true,
                _ => false,
            }),
            r.0.body@ == body@,
            r.1@ == r.0.header.spec_bytes(),
            r.0.hash@ == blake3_of(r.1@),
            r.2@ == hex_chars_of(blake3_of(r.1@)),
    {
        let public_key = ed25519_public(seed);
        let payload_hash = blake3_hash(body);
        let signing = signing_bytes(
            public_key.as_slice(),
            payload_hash.as_slice(),
            body.len() as u64,
            timestamp,
            seq_num,
            &backlink,
        );
        let signature = ed25519_sign(seed, signing.as_slice());
        let mut header_bytes = signing;
        append_bytes(&mut header_bytes, &signature);
        let hash = blake3_hash(header_bytes.as_slice());
        let hash_hex = hex_string(hash.as_slice());
        let header = OpHeader {
            public_key,
            signature,
            payload_hash,
            payload_size: body.len() as u64,
            timestamp,
            seq_num,
            backlink,
        };
        proof {
            reveal(OpHeader::wf);
            reveal(StoredOp::wf);
            reveal(OpHeader::spec_signing_bytes);
            reveal(OpHeader::spec_bytes);
            assert(header.spec_bytes() =~= header_bytes@);
        }
        let op = StoredOp {
            hash,
            header,
            header_bytes: slice_to_vec(header_bytes.as_slice()),
            body: slice_to_vec(body),
        };
        (op, header_bytes, hash_hex)
    }

    /// Record a freshly signed local op at the tip of its author's log and
    /// return its hash as hex together with its canonical header bytes.
    #[verifier::rlimit(100)]
    pub fn sign_and_store_op(&mut self, seed: &[u8], log_id: LogId, body: &[u8], timestamp: u64) -> (r:
        (String, Vec<u8>))
        requires
            old(self).wf(),
            seed@.len() == 32,
        ensures
            final(self).wf(),
            r.0@ == hex_chars_of(blake3_of(r.1@)),
            op_stored(
                final(self).logs@,
                hex_chars_of(ed25519_pk_of(seed@)),
                log_id,
                blake3_of(r.1@),
                body@,
            ),
            forall|a: Seq<char>, l: LogId, s2: int, h2: Seq<u8>, b2: Seq<u8>|
                #[trigger] op_in_store(old(self).logs@, a, l, s2, h2, b2) ==> op_in_store(
                    final(self).logs@,
                    a,
                    l,
                    s2,
                    h2,
                    b2,
                ),
            r.1@.len() <= 186,
    {
        let public_key = ed25519_public(seed);
        let author_hex = hex_string(public_key.as_slice());
        let ghost logs0 = self.logs@;
        let log = self.take_log(public_key.as_slice(), author_hex.as_str(), log_id);
        let ghost logs1 = self.logs@;
        let ghost taken = log;
        let n = log.entries.len();
        proof {
            reveal(StoredOp::wf);
        }
        let (seq_num, backlink): (u64, Option<Vec<u8>>) = if n == 0 {
            (0, None)
        } else {
            let tip = slice_to_vec(log.entries[n - 1].hash.as_slice());
            (n as u64, Some(tip))
        };
        let (op, header_bytes, hash_hex) = OpStore::make_signed_op(
            seed,
            body,
            timestamp,
            seq_num,
            backlink,
        );
        proof {
            reveal(StoredOp::wf);
            reveal(OpHeader::wf);
            assert(header_field_lens(op.header));
            lemma_header_bytes_len(op.header);
        }
        let ghost sq = seq_num as int;
        let ghost author_view = author_hex@;
        let ghost op_hash_view = op.hash@;
        let ghost op_body_view = op.body@;
        self.put_back_with(log, op);
        proof {
            assert(op_in_store(self.logs@, author_view, log_id, sq, op_hash_view, op_body_view));
            assert(author_view == hex_chars_of(ed25519_pk_of(seed@)));
            assert(op_hash_view == blake3_of(header_bytes@));
            assert(op_in_store(
                self.logs@,
                hex_chars_of(ed25519_pk_of(seed@)),
                log_id,
                sq,
                blake3_of(header_bytes@),
                body@,
            ));
            assert(op_stored(
                self.logs@,
                hex_chars_of(ed25519_pk_of(seed@)),
                log_id,
                blake3_of(header_bytes@),
                body@,
            ));
        }
        (hash_hex, header_bytes)
    }
}

} // verus!
