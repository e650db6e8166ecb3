//! Topic identifiers and the topic-to-logs registry.
//!
//! A topic is the 32-byte BLAKE3 digest of a domain-separated scope string.
//! Direct-message topics sort the two participants first so both sides derive
//! the same identifier, and discovery topics fold ASCII case so lookups are
//! case-insensitive.

use vstd::prelude::*;

use vstd::string::StringSliceAdditionalSpecFns;

use vstd::slice::slice_to_vec;
use vstd::utf8::encode_utf8_decode_utf8;

use crate::bytesfmt::bytes32;
use crate::extcrypto::{blake3_hash, blake3_of};

verus! {

/// Bytes of the organization topic prefix, `delta:org:`.
pub open spec fn org_prefix() -> Seq<u8> {
    seq![0x64u8, 0x65, 0x6c, 0x74, 0x61, 0x3a, 0x6f, 0x72, 0x67, 0x3a]
}

/// Bytes of the room topic prefix, `delta:room:`.
pub open spec fn room_prefix() -> Seq<u8> {
    seq![0x64u8, 0x65, 0x6c, 0x74, 0x61, 0x3a, 0x72, 0x6f, 0x6f, 0x6d, 0x3a]
}

/// Bytes of the direct-message topic prefix, `delta:dm:`.
pub open spec fn dm_prefix() -> Seq<u8> {
    seq![0x64u8, 0x65, 0x6c, 0x74, 0x61, 0x3a, 0x64, 0x6d, 0x3a]
}

/// Bytes of the discovery topic prefix, `delta:discover:`.
pub open spec fn discover_prefix() -> Seq<u8> {
    seq![
        0x64u8,
        0x65,
        0x6c,
        0x74,
        0x61,
        0x3a,
        0x64,
        0x69,
        0x73,
        0x63,
        0x6f,
        0x76,
        0x65,
        0x72,
        0x3a,
    ]
}

/// Lexicographic order on byte strings: true when `a` sorts at or before `b`.
pub open spec fn lex_le(a: Seq<u8>, b: Seq<u8>) -> bool
    decreases a.len(),
{
    if a.len() == 0 {
        true
    } else if b.len() == 0 {
        false
    } else if a[0] < b[0] {
        true
    } else if a[0] > b[0] {
        false
    } else {
        lex_le(a.drop_first(), b.drop_first())
    }
}

/// Lexicographic order is total.
pub proof fn lemma_lex_total(a: Seq<u8>, b: Seq<u8>)
    ensures
        lex_le(a, b) || lex_le(b, a),
        lex_le(a, b) && lex_le(b, a) ==> a =~= b,
    decreases a.len(),
{
    if a.len() > 0 && b.len() > 0 && a[0] == b[0] {
        lemma_lex_total(a.drop_first(), b.drop_first());
        if lex_le(a, b) && lex_le(b, a) {
            assert(a =~= seq![a[0]] + a.drop_first());
            assert(b =~= seq![b[0]] + b.drop_first());
        }
    }
}

/// Compare two byte strings lexicographically.
pub fn lex_le_bytes(a: &[u8], b: &[u8]) -> (r: bool)
    ensures
        r == lex_le(a@, b@),
{
    let mut i: usize = 0;
    let n = if a.len() < b.len() {
        a.len()
    } else {
        b.len()
    };
    proof {
        assert(a@.skip(0) =~= a@);
        assert(b@.skip(0) =~= b@);
    }
    while i < n
        invariant
            i <= n,
            n == (if a@.len() < b@.len() {
                a@.len()
            } else {
                b@.len()
            }),
            forall|j: int| 0 <= j < i ==> a@[j] == b@[j],
            lex_le(a@, b@) == lex_le(a@.skip(i as int), b@.skip(i as int)),
            lex_le(b@, a@) == lex_le(b@.skip(i as int), a@.skip(i as int)),
        decreases n - i,
    {
        let x = a[i];
        let y = b[i];
        proof {
            assert(a@.skip(i as int)[0] == a@[i as int]);
            assert(b@.skip(i as int)[0] == b@[i as int]);
            assert(a@.skip(i as int).drop_first() =~= a@.skip(i as int + 1));
            assert(b@.skip(i as int).drop_first() =~= b@.skip(i as int + 1));
        }
        if x < y {
            return true;
        }
        if x > y {
            return false;
        }
        i = i + 1;
    }
    proof {
        if a@.len() <= b@.len() {
            assert(a@.skip(i as int).len() == 0);
        } else {
            assert(b@.skip(i as int).len() == 0);
            assert(a@.skip(i as int).len() > 0);
        }
    }
    a.len() <= b.len()
}

/// ASCII lowercase folding of one byte.
pub open spec fn lower_byte(b: u8) -> u8 {
    if 0x41 <= b && b <= 0x5a {
        (b + 32) as u8
    } else {
        b
    }
}

/// ASCII lowercase folding of a byte string; bytes outside `A`..`Z` pass through.
pub open spec fn lower_bytes(s: Seq<u8>) -> Seq<u8> {
    s.map_values(|b: u8| lower_byte(b))
}

/// ASCII uppercase folding of one byte.
pub open spec fn upper_byte(b: u8) -> u8 {
    if 0x61 <= b && b <= 0x7a {
        (b - 32) as u8
    } else {
        b
    }
}

/// ASCII uppercase folding of a byte string.
pub open spec fn upper_bytes(s: Seq<u8>) -> Seq<u8> {
    s.map_values(|b: u8| upper_byte(b))
}

/// Case folding erases an earlier ASCII uppercasing: the law behind
/// case-insensitive discovery topics.
pub proof fn lemma_lower_of_upper(s: Seq<u8>)
    ensures
        lower_bytes(upper_bytes(s)) =~= lower_bytes(s),
{
    assert forall|i: int| 0 <= i < s.len() implies lower_byte(upper_byte(s[i])) == lower_byte(
        s[i],
    ) by {
    }
}

/// Fold a byte string to ASCII lowercase.
pub fn lower_ascii_bytes(v: &[u8]) -> (r: Vec<u8>)
    ensures
        r@ == lower_bytes(v@),
{
    let mut out: Vec<u8> = Vec::new();
    let mut i: usize = 0;
    while i < v.len()
        invariant
            i <= v.len(),
            out@ == lower_bytes(v@.take(i as int)),
        decreases v.len() - i,
    {
        let b = v[i];
        let l: u8 = if 0x41 <= b && b <= 0x5a {
            b + 32
        } else {
            b
        };
        out.push(l);
        i = i + 1;
        proof {
            assert(out@ =~= lower_bytes(v@.take(i as int)));
        }
    }
    proof {
        assert(v@.take(v@.len() as int) =~= v@);
    }
    out
}

/// Scope bytes hashed for an organization topic.
pub open spec fn org_topic_preimage(org_id: Seq<u8>) -> Seq<u8> {
    org_prefix() + org_id
}

/// Scope bytes hashed for a room topic.
pub open spec fn room_topic_preimage(room_id: Seq<u8>) -> Seq<u8> {
    room_prefix() + room_id
}

/// Scope bytes hashed for a direct-message topic: the two participant
/// identities in lexicographic order, joined by a colon.
pub open spec fn dm_topic_preimage(key_a: Seq<u8>, key_b: Seq<u8>) -> Seq<u8> {
    if lex_le(key_a, key_b) {
        dm_prefix() + key_a + seq![0x3au8] + key_b
    } else {
        dm_prefix() + key_b + seq![0x3au8] + key_a
    }
}

/// Scope bytes hashed for a discovery topic: the name folded to lowercase.
pub open spec fn discovery_topic_preimage(name: Seq<u8>) -> Seq<u8> {
    discover_prefix() + lower_bytes(name)
}

/// Discovery lookups fold case: a name and its ASCII uppercasing hash the
/// same scope, so both derive the same topic.
pub proof fn lemma_discovery_preimage_case_insensitive(name: Seq<u8>)
    ensures
        discovery_topic_preimage(upper_bytes(name)) == discovery_topic_preimage(name),
{
    lemma_lower_of_upper(name);
}

/// Both participants derive the same direct-message preimage, whichever way
/// round they name the pair.
pub proof fn lemma_dm_preimage_symmetric(key_a: Seq<u8>, key_b: Seq<u8>)
    ensures
        dm_topic_preimage(key_a, key_b) == dm_topic_preimage(key_b, key_a),
{
    lemma_lex_total(key_a, key_b);
    if lex_le(key_a, key_b) && lex_le(key_b, key_a) {
        assert(key_a =~= key_b);
    }
}

/// Distinct partners give distinct direct-message preimages, for identities
/// of the same length (hex identities are 64 characters): hashing aside, the
/// derivation itself never conflates two conversations.
pub proof fn lemma_dm_preimage_distinct(key_a: Seq<u8>, key_b: Seq<u8>, key_c: Seq<u8>)
    requires
        key_a.len() == key_b.len(),
        key_b.len() == key_c.len(),
        key_b != key_c,
    ensures
        dm_topic_preimage(key_a, key_b) != dm_topic_preimage(key_a, key_c),
{
    let p = dm_prefix();
    let n = p.len();
    let k = key_a.len() as int;
    let ab = dm_topic_preimage(key_a, key_b);
    let ac = dm_topic_preimage(key_a, key_c);
    if ab == ac {
        // Both preimages have the shape prefix + lo + ':' + hi with equal-length
        // halves, so the halves must match pairwise.
        let ab_lo = ab.subrange(n as int, n + k);
        let ab_hi = ab.subrange(n + k + 1, ab.len() as int);
        assert(ab_lo =~= (if lex_le(key_a, key_b) {
            key_a
        } else {
            key_b
        }));
        assert(ab_hi =~= (if lex_le(key_a, key_b) {
            key_b
        } else {
            key_a
        }));
        let ac_lo = ac.subrange(n as int, n + k);
        let ac_hi = ac.subrange(n + k + 1, ac.len() as int);
        assert(ac_lo =~= (if lex_le(key_a, key_c) {
            key_a
        } else {
            key_c
        }));
        assert(ac_hi =~= (if lex_le(key_a, key_c) {
            key_c
        } else {
            key_a
        }));
        lemma_lex_total(key_a, key_b);
        lemma_lex_total(key_a, key_c);
    }
}

/// Topic for an organization's meta stream.
pub fn topic_id_for_org(org_id: &str) -> (r: [u8; 32])
    ensures
        r@ == blake3_of(org_topic_preimage(org_id.spec_bytes())),
{
    let mut buf: Vec<u8> = Vec::new();
    push_org_prefix(&mut buf);
    let scope = org_id.as_bytes_vec();
    append_bytes(&mut buf, &scope);
    proof {
        assert(buf@ =~= org_topic_preimage(org_id.spec_bytes()));
    }
    let h = blake3_hash(buf.as_slice());
    bytes32(h.as_slice())
}

/// Topic for a room's message stream.
pub fn topic_id_for_room(room_id: &str) -> (r: [u8; 32])
    ensures
        r@ == blake3_of(room_topic_preimage(room_id.spec_bytes())),
{
    let mut buf: Vec<u8> = Vec::new();
    push_room_prefix(&mut buf);
    let scope = room_id.as_bytes_vec();
    append_bytes(&mut buf, &scope);
    proof {
        assert(buf@ =~= room_topic_preimage(room_id.spec_bytes()));
    }
    let h = blake3_hash(buf.as_slice());
    bytes32(h.as_slice())
}

/// Topic shared by a pair of peers for their direct messages: symmetric in
/// the two identities.
pub fn topic_id_for_dm(key_a: &str, key_b: &str) -> (r: [u8; 32])
    ensures
        r@ == blake3_of(dm_topic_preimage(key_a.spec_bytes(), key_b.spec_bytes())),
{
    let a = key_a.as_bytes_vec();
    let b = key_b.as_bytes_vec();
    let mut buf: Vec<u8> = Vec::new();
    push_dm_prefix(&mut buf);
    if lex_le_bytes(a.as_slice(), b.as_slice()) {
        append_bytes(&mut buf, &a);
        buf.push(0x3a);
        append_bytes(&mut buf, &b);
    } else {
        append_bytes(&mut buf, &b);
        buf.push(0x3a);
        append_bytes(&mut buf, &a);
    }
    proof {
        assert(buf@ =~= dm_topic_preimage(key_a.spec_bytes(), key_b.spec_bytes()));
    }
    let h = blake3_hash(buf.as_slice());
    bytes32(h.as_slice())
}

/// Topic for discovering public organizations by name, case-insensitively.
pub fn topic_id_for_discovery(name: &str) -> (r: [u8; 32])
    ensures
        r@ == blake3_of(discovery_topic_preimage(name.spec_bytes())),
{
    let raw = name.as_bytes_vec();
    let folded = lower_ascii_bytes(raw.as_slice());
    let mut buf: Vec<u8> = Vec::new();
    push_discover_prefix(&mut buf);
    append_bytes(&mut buf, &folded);
    proof {
        assert(buf@ =~= discovery_topic_preimage(name.spec_bytes()));
    }
    let h = blake3_hash(buf.as_slice());
    bytes32(h.as_slice())
}

/// Append all bytes of `src` to `dst`.
pub fn append_bytes(dst: &mut Vec<u8>, src: &Vec<u8>)
    ensures
        final(dst)@ == old(dst)@ + src@,
{
    let mut i: usize = 0;
    while i < src.len()
        invariant
            i <= src.len(),
            dst@ == old(dst)@ + src@.take(i as int),
        decreases src.len() - i,
    {
        let b = src[i];
        dst.push(b);
        i = i + 1;
        proof {
            assert(dst@ =~= old(dst)@ + src@.take(i as int));
        }
    }
    proof {
        assert(src@.take(src@.len() as int) =~= src@);
    }
}

fn push_org_prefix(buf: &mut Vec<u8>)
    ensures
        final(buf)@ == old(buf)@ + org_prefix(),
{
    // "delta:org:"
    buf.push(0x64);
    buf.push(0x65);
    buf.push(0x6c);
    buf.push(0x74);
    buf.push(0x61);
    buf.push(0x3a);
    buf.push(0x6f);
    buf.push(0x72);
    buf.push(0x67);
    buf.push(0x3a);
    proof {
        assert(buf@ =~= old(buf)@ + org_prefix());
    }
}

fn push_room_prefix(buf: &mut Vec<u8>)
    ensures
        final(buf)@ == old(buf)@ + room_prefix(),
{
    // "delta:room:"
    buf.push(0x64);
    buf.push(0x65);
    buf.push(0x6c);
    buf.push(0x74);
    buf.push(0x61);
    buf.push(0x3a);
    buf.push(0x72);
    buf.push(0x6f);
    buf.push(0x6f);
    buf.push(0x6d);
    buf.push(0x3a);
    proof {
        assert(buf@ =~= old(buf)@ + room_prefix());
    }
}

fn push_dm_prefix(buf: &mut Vec<u8>)
    ensures
        final(buf)@ == old(buf)@ + dm_prefix(),
{
    // "delta:dm:"
    buf.push(0x64);
    buf.push(0x65);
    buf.push(0x6c);
    buf.push(0x74);
    buf.push(0x61);
    buf.push(0x3a);
    buf.push(0x64);
    buf.push(0x6d);
    buf.push(0x3a);
    proof {
        assert(buf@ =~= old(buf)@ + dm_prefix());
    }
}

fn push_discover_prefix(buf: &mut Vec<u8>)
    ensures
        final(buf)@ == old(buf)@ + discover_prefix(),
{
    // "delta:discover:"
    buf.push(0x64);
    buf.push(0x65);
    buf.push(0x6c);
    buf.push(0x74);
    buf.push(0x61);
    buf.push(0x3a);
    buf.push(0x64);
    buf.push(0x69);
    buf.push(0x73);
    buf.push(0x63);
    buf.push(0x6f);
    buf.push(0x76);
    buf.push(0x65);
    buf.push(0x72);
    buf.push(0x3a);
    proof {
        assert(buf@ =~= old(buf)@ + discover_prefix());
    }
}

/// One registration: this author's log belongs to this topic.
pub struct TopicRegistration {
    pub topic: Vec<u8>,
    pub author: String,
    pub log_id: String,
}

/// Registry mapping topics to the author logs that replicate on them. The
/// sync layer asks it which logs to request when a peer subscribes; unknown
/// topics yield nothing, so sync degrades gracefully.
pub struct TopicLogMap {
    pub registrations: Vec<TopicRegistration>,
}

impl TopicLogMap {
    /// The set of (topic, author, log) triples registered.
    pub open spec fn view_set(&self) -> Set<(Seq<u8>, Seq<char>, Seq<char>)> {
        Set::new(
            |t: (Seq<u8>, Seq<char>, Seq<char>)|
                exists|i: int|
                    0 <= i < self.registrations@.len() && #[trigger] self.registrations@[i].topic@
                        == t.0 && self.registrations@[i].author@ == t.1
                        && self.registrations@[i].log_id@ == t.2,
        )
    }

    /// An empty registry.
    pub fn new() -> (r: TopicLogMap)
        ensures
            r.view_set() == Set::<(Seq<u8>, Seq<char>, Seq<char>)>::empty(),
    {
        let r = TopicLogMap { registrations: Vec::new() };
        proof {
            assert(r.view_set() =~= Set::<(Seq<u8>, Seq<char>, Seq<char>)>::empty());
        }
        r
    }

    /// Register `(author, log_id)` under a topic; additive, and a repeat of an
    /// existing registration changes nothing.
    pub fn insert(&mut self, topic: &[u8], author: &str, log_id: &str)
        ensures
            final(self).view_set() == old(self).view_set().insert((topic@, author@, log_id@)),
    {
        let n = self.registrations.len();
        let mut i: usize = 0;
        while i < n
            invariant
                i <= n,
                n == self.registrations@.len(),
                self == old(self),
                forall|j: int|
                    0 <= j < i ==> !(#[trigger] self.registrations@[j].topic@ == topic@
                        && self.registrations@[j].author@ == author@
                        && self.registrations@[j].log_id@ == log_id@),
            decreases n - i,
        {
            let reg = &self.registrations[i];
            if bytes_eq(reg.topic.as_slice(), topic) && str_eq(reg.author.as_str(), author)
                && str_eq(reg.log_id.as_str(), log_id) {
                proof {
                    assert(self.view_set().contains((topic@, author@, log_id@)));
                    assert(self.view_set() =~= old(self).view_set().insert(
                        (topic@, author@, log_id@),
                    ));
                }
                return ;
            }
            i = i + 1;
        }
        let t: Vec<u8> = slice_to_vec(topic);
        self.registrations.push(
            TopicRegistration { topic: t, author: author.to_owned(), log_id: log_id.to_owned() },
        );
        proof {
            let regs = self.registrations@;
            assert(regs[regs.len() - 1].topic@ == topic@);
            assert forall|x: (Seq<u8>, Seq<char>, Seq<char>)| old(self).view_set().insert(
                (topic@, author@, log_id@),
            ).contains(x) implies self.view_set().contains(x) by {
                if x == (topic@, author@, log_id@) {
                    assert(regs[regs.len() - 1].topic@ == x.0);
                } else {
                    let i = choose|i: int|
                        0 <= i < old(self).registrations@.len() && #[trigger] old(
                            self,
                        ).registrations@[i].topic@ == x.0 && old(self).registrations@[i].author@
                            == x.1 && old(self).registrations@[i].log_id@ == x.2;
                    assert(regs[i].topic@ == x.0);
                }
            }
            assert forall|x: (Seq<u8>, Seq<char>, Seq<char>)| self.view_set().contains(
                x,
            ) implies old(self).view_set().insert((topic@, author@, log_id@)).contains(x) by {
                let i = choose|i: int|
                    0 <= i < regs.len() && #[trigger] regs[i].topic@ == x.0 && regs[i].author@
                        == x.1 && regs[i].log_id@ == x.2;
                if i < regs.len() - 1 {
                    assert(old(self).registrations@[i].topic@ == x.0);
                }
            }
            assert(self.view_set() =~= old(self).view_set().insert((topic@, author@, log_id@)));
        }
    }

    /// Forget every registration of a topic, as when leaving a room.
    pub fn remove(&mut self, topic: &[u8])
        ensures
            final(self).view_set() == old(self).view_set().filter(
                |t: (Seq<u8>, Seq<char>, Seq<char>)| t.0 != topic@,
            ),
    {
        let mut kept: Vec<TopicRegistration> = Vec::new();
        let n = self.registrations.len();
        let mut i: usize = 0;
        while i < n
            invariant
                i <= n,
                n == self.registrations@.len(),
                self == old(self),
                forall|j: int|
                    0 <= j < kept@.len() ==> (#[trigger] kept@[j].topic@ != topic@ && exists|k: int|
                        0 <= k < i && regs_match(#[trigger] self.registrations@[k], kept@[j])),
                forall|k: int|
                    0 <= k < i && #[trigger] self.registrations@[k].topic@ != topic@ ==> exists|
                        j: int,
                    | 0 <= j < kept@.len() && regs_match(self.registrations@[k], #[trigger] kept@[j]),
            decreases n - i,
        {
            let reg = &self.registrations[i];
            let ghost kept_pre = kept@;
            let matched = bytes_eq(reg.topic.as_slice(), topic);
            if !matched {
                let mut t: Vec<u8> = Vec::new();
                append_bytes(&mut t, &reg.topic);
                let copied = TopicRegistration {
                    topic: t,
                    author: clone_string(&reg.author),
                    log_id: clone_string(&reg.log_id),
                };
                proof {
                    assert(regs_match(self.registrations@[i as int], copied));
                }
                kept.push(copied);
            }
            proof {
                assert forall|j: int| 0 <= j < kept@.len() implies (#[trigger] kept@[j].topic@
                    != topic@ && exists|k: int|
                    0 <= k < i + 1 && regs_match(#[trigger] self.registrations@[k], kept@[j])) by {
                    if j < kept_pre.len() {
                        assert(kept@[j] == kept_pre[j]);
                        let k0 = choose|k0: int|
                            0 <= k0 < i && regs_match(
                                #[trigger] self.registrations@[k0],
                                kept_pre[j],
                            );
                        assert(regs_match(self.registrations@[k0], kept@[j]));
                    } else {
                        assert(regs_match(self.registrations@[i as int], kept@[j]));
                    }
                }
                assert forall|k: int|
                    0 <= k < i + 1 && #[trigger] self.registrations@[k].topic@
                        != topic@ implies exists|j: int|
                    0 <= j < kept@.len() && regs_match(
                        self.registrations@[k],
                        #[trigger] kept@[j],
                    ) by {
                    if k < i {
                        let j0 = choose|j0: int|
                            0 <= j0 < kept_pre.len() && regs_match(
                                self.registrations@[k],
                                #[trigger] kept_pre[j0],
                            );
                        assert(kept@[j0] == kept_pre[j0]);
                        assert(regs_match(self.registrations@[k], kept@[j0]));
                    } else {
                        assert(regs_match(self.registrations@[k], kept@[kept@.len() - 1]));
                    }
                }
            }
            i = i + 1;
        }
        self.registrations = kept;
        proof {
            let target = old(self).view_set().filter(
                |t: (Seq<u8>, Seq<char>, Seq<char>)| t.0 != topic@,
            );
            assert forall|x: (Seq<u8>, Seq<char>, Seq<char>)| self.view_set().contains(
                x,
            ) implies target.contains(x) by {
                let j = choose|j: int|
                    0 <= j < self.registrations@.len() && #[trigger] self.registrations@[j].topic@
                        == x.0 && self.registrations@[j].author@ == x.1
                        && self.registrations@[j].log_id@ == x.2;
                let k = choose|k: int|
                    0 <= k < n && regs_match(
                        #[trigger] old(self).registrations@[k],
                        self.registrations@[j],
                    );
                assert(old(self).view_set().contains(x));
            }
            assert forall|x: (Seq<u8>, Seq<char>, Seq<char>)| target.contains(
                x,
            ) implies self.view_set().contains(x) by {
                let k = choose|k: int|
                    0 <= k < old(self).registrations@.len() && #[trigger] old(
                        self,
                    ).registrations@[k].topic@ == x.0 && old(self).registrations@[k].author@ == x.1
                        && old(self).registrations@[k].log_id@ == x.2;
                let j = choose|j: int|
                    0 <= j < self.registrations@.len() && regs_match(
                        old(self).registrations@[k],
                        #[trigger] self.registrations@[j],
                    );
                assert(self.registrations@[j].topic@ == x.0);
            }
            assert(self.view_set() =~= target);
        }
    }

    /// All `(author, log_id)` pairs registered under a topic; empty for an
    /// unknown topic.
    pub fn get(&self, topic: &[u8]) -> (r: Vec<(String, String)>)
        ensures
            forall|j: int|
                0 <= j < r@.len() ==> registered_below(
                    self.registrations@,
                    self.registrations@.len() as int,
                    topic@,
                    #[trigger] r@[j],
                ),
            forall|k: int|
                0 <= k < self.registrations@.len() && #[trigger] self.registrations@[k].topic@
                    == topic@ ==> pair_listed(
                    r@,
                    self.registrations@[k].author@,
                    self.registrations@[k].log_id@,
                ),
    {
        let mut out: Vec<(String, String)> = Vec::new();
        let n = self.registrations.len();
        let mut i: usize = 0;
        while i < n
            invariant
                i <= n,
                n == self.registrations@.len(),
                forall|j: int|
                    0 <= j < out@.len() ==> registered_below(
                        self.registrations@,
                        i as int,
                        topic@,
                        #[trigger] out@[j],
                    ),
                forall|k: int|
                    0 <= k < i && #[trigger] self.registrations@[k].topic@ == topic@
                        ==> pair_listed(
                        out@,
                        self.registrations@[k].author@,
                        self.registrations@[k].log_id@,
                    ),
            decreases n - i,
        {
            let reg = &self.registrations[i];
            let ghost out_pre = out@;
            if bytes_eq(reg.topic.as_slice(), topic) {
                let author_c = clone_string(&reg.author);
                let log_c = clone_string(&reg.log_id);
                out.push((author_c, log_c));
                proof {
                    assert(out@[out@.len() - 1].0@ == self.registrations@[i as int].author@);
                    assert(out@[out@.len() - 1].1@ == self.registrations@[i as int].log_id@);
                }
            }
            proof {
                let regs = self.registrations@;
                assert forall|j: int| 0 <= j < out@.len() implies registered_below(
                    regs,
                    i + 1,
                    topic@,
                    #[trigger] out@[j],
                ) by {
                    if j < out_pre.len() {
                        assert(out@[j] == out_pre[j]);
                        assert(registered_below(regs, i as int, topic@, out_pre[j]));
                        let k0 = choose|k0: int|
                            0 <= k0 < i && #[trigger] regs[k0].topic@ == topic@ && regs[k0].author@
                                == out_pre[j].0@ && regs[k0].log_id@ == out_pre[j].1@;
                        assert(regs[k0].topic@ == topic@);
                    } else {
                        assert(regs[i as int].topic@ == topic@);
                    }
                }
                assert forall|k: int|
                    0 <= k < i + 1 && #[trigger] regs[k].topic@ == topic@ implies pair_listed(
                    out@,
                    regs[k].author@,
                    regs[k].log_id@,
                ) by {
                    if k < i {
                        assert(pair_listed(out_pre, regs[k].author@, regs[k].log_id@));
                        let j0 = choose|j0: int|
                            0 <= j0 < out_pre.len() && #[trigger] out_pre[j0].0@ == regs[k].author@
                                && out_pre[j0].1@ == regs[k].log_id@;
                        assert(out@[j0] == out_pre[j0]);
                        assert(out@[j0].0@ == regs[k].author@);
                    } else {
                        assert(out@[out@.len() - 1].0@ == regs[k].author@);
                    }
                }
            }
            i = i + 1;
        }
        out
    }
}

/// A pair occurs among the first `bound` registrations of a topic.
pub open spec fn registered_below(
    regs: Seq<TopicRegistration>,
    bound: int,
    topic: Seq<u8>,
    pair: (String, String),
) -> bool {
    exists|k: int|
        0 <= k < bound && #[trigger] regs[k].topic@ == topic && regs[k].author@ == pair.0@
            && regs[k].log_id@ == pair.1@
}

/// An (author, log) pair appears in a listing.
pub open spec fn pair_listed(out: Seq<(String, String)>, author: Seq<char>, log: Seq<char>) -> bool {
    exists|j: int| 0 <= j < out.len() && #[trigger] out[j].0@ == author && out[j].1@ == log
}

/// Two registrations carry the same topic, author and log.
pub open spec fn regs_match(a: TopicRegistration, b: TopicRegistration) -> bool {
    a.topic@ == b.topic@ && a.author@ == b.author@ && a.log_id@ == b.log_id@
}

/// Byte-for-byte equality of two slices.
pub fn bytes_eq(a: &[u8], b: &[u8]) -> (r: bool)
    ensures
        r == (a@ == b@),
{
    if a.len() != b.len() {
        proof {
            assert(a@.len() != b@.len());
        }
        return false;
    }
    let mut i: usize = 0;
    while i < a.len()
        invariant
            i <= a.len(),
            a@.len() == b@.len(),
            forall|j: int| 0 <= j < i ==> a@[j] == b@[j],
        decreases a.len() - i,
    {
        if a[i] != b[i] {
            return false;
        }
        i = i + 1;
    }
    proof {
        assert(a@ =~= b@);
    }
    true
}

/// Copy a string.
pub fn clone_string(s: &String) -> (r: String)
    ensures
        r@ == s@,
{
    s.as_str().to_owned()
}

/// Character-for-character equality of two string slices, decided on their
/// UTF-8 bytes.
pub fn str_eq(a: &str, b: &str) -> (r: bool)
    ensures
        r == (a@ == b@),
{
    let r = bytes_eq(a.as_bytes(), b.as_bytes());
    proof {
        encode_utf8_decode_utf8(a@);
        encode_utf8_decode_utf8(b@);
    }
    r
}

} // verus!
