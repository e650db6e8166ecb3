//! The core handle: one value holding the identity, the op store, the read
//! model and the topic registry. Every user-facing mutation publishes a
//! signed op into the store first and then updates the read model, returning
//! what the caller must gossip.

use vstd::prelude::*;

use vstd::string::StringSliceAdditionalSpecFns;
use vstd::utf8::encode_utf8;

use crate::auth::{AccessLevel, AuthError, MembershipState};
use crate::bytesfmt::{hex_chars_of, hex_decode_bytes, hex_string};
use crate::extcrypto::{ed25519_pk_of, ed25519_public};
use crate::onion::{decrypt_layer, OnionError, OnionPayload};
use crate::ops::{
    DmThreadOp, GossipEnvelope, MembershipOp, MessageOp, OrgOp, OrgUpdateOp, ProfileOp,
    RoomDeleteOp, RoomOp,
};
use crate::projector::{membership_key, MembershipRow, OrgRow, ReadModel, RoomRow};
use crate::store::{op_stored, InsertOutcome, LogId, OpStore};
use crate::token::InviteToken;
use crate::topics::{clone_string, str_eq, topic_id_for_dm, topic_id_for_room, TopicLogMap};

verus! {

/// Errors surfaced by the core.
#[derive(Debug)]
pub enum CoreError {
    /// The private key is not 64 hex digits.
    InvalidKey,
    /// An input broke a stated rule; carries the reason.
    InvalidInput(String),
    /// The caller lacks the required access level.
    Unauthorized(String),
}

/// What a mutation wants published: bytes for one topic. When `sealed` the
/// payload is already a sealed-sender envelope.
pub struct GossipPlan {
    pub topic: [u8; 32],
    pub payload: Vec<u8>,
    pub sealed: bool,
}

/// The state of one peer: identity, logs, read model, topic registry.
pub struct CoreState {
    pub private_seed: Vec<u8>,
    pub public_key: Vec<u8>,
    pub public_key_hex: String,
    pub op_store: OpStore,
    pub read: ReadModel,
    pub topics: TopicLogMap,
}

/// A sluggified channel name: one to fifty lowercase letters, digits, inner
/// hyphens or underscores, starting and ending with a letter or digit, and
/// never two separators in a row.
pub open spec fn valid_channel_name(s: Seq<char>) -> bool {
    &&& 1 <= s.len() <= 50
    &&& forall|i: int| 0 <= i < s.len() ==> channel_char(#[trigger] s[i])
    &&& channel_alnum(s[0])
    &&& channel_alnum(s[s.len() - 1])
    &&& forall|i: int|
        0 <= i < s.len() - 1 ==> !(!channel_alnum(#[trigger] s[i]) && s[i] == s[i + 1])
}

/// A lowercase letter or digit.
pub open spec fn channel_alnum(c: char) -> bool {
    ('a' <= c && c <= 'z') || ('0' <= c && c <= '9')
}

/// Any character a channel name may hold.
pub open spec fn channel_char(c: char) -> bool {
    channel_alnum(c) || c == '-' || c == '_'
}

/// Check a channel name against the sluggification rule, before anything is
/// published.
pub fn validate_channel_name(name: &str) -> (r: bool)
    ensures
        r == valid_channel_name(name@),
{
    let n = name.unicode_len();
    if n < 1 || n > 50 {
        return false;
    }
    let mut i: usize = 0;
    while i < n
        invariant
            i <= n,
            n == name@.len(),
            forall|j: int| 0 <= j < i ==> channel_char(#[trigger] name@[j]),
            forall|j: int|
                0 <= j < i - 1 ==> !(!channel_alnum(#[trigger] name@[j]) && name@[j] == name@[j
                    + 1]),
        decreases n - i,
    {
        let c = name.get_char(i);
        let alnum = ('a' <= c && c <= 'z') || ('0' <= c && c <= '9');
        if !(alnum || c == '-' || c == '_') {
            return false;
        }
        if i > 0 && !alnum {
            let prev = name.get_char(i - 1);
            if prev == c {
                return false;
            }
        }
        i = i + 1;
    }
    let first = name.get_char(0);
    let last = name.get_char(n - 1);
    let first_ok = ('a' <= first && first <= 'z') || ('0' <= first && first <= '9');
    let last_ok = ('a' <= last && last <= 'z') || ('0' <= last && last <= '9');
    first_ok && last_ok
}

/// The level a member holds in an organization, read off the membership
/// table.
pub open spec fn spec_member_level(
    read: ReadModel,
    org: Seq<char>,
    member: Seq<char>,
) -> Option<AccessLevel> {
    match read.memberships.spec_get(crate::projector::member_key_of(org, member)) {
        Some(row) => AccessLevel::spec_from_name(row.access_level@),
        None => None,
    }
}

/// The member holds at least the Manage level.
pub open spec fn spec_has_manage(read: ReadModel, org: Seq<char>, member: Seq<char>) -> bool {
    match spec_member_level(read, org, member) {
        Some(level) => level.rank() >= AccessLevel::Manage.rank(),
        None => false,
    }
}


/// A room key the room listing for an organization yields.
pub open spec fn room_listed(
    read: ReadModel,
    org: Seq<char>,
    include_archived: bool,
    k: Seq<char>,
) -> bool {
    match read.rooms.spec_get(k) {
        Some(row) => row.org_id@ == org && (include_archived || !row.is_archived),
        None => false,
    }
}

/// A membership key the member listing for an organization yields.
pub open spec fn member_listed(read: ReadModel, org: Seq<char>, k: Seq<char>) -> bool {
    match read.memberships.spec_get(k) {
        Some(row) => row.org_id@ == org,
        None => false,
    }
}

/// A thread key the thread listing for an identity yields.
pub open spec fn dm_thread_listed(read: ReadModel, me: Seq<char>, k: Seq<char>) -> bool {
    match read.dm_threads.spec_get(k) {
        Some(row) => row.initiator_key@ == me || row.recipient_key@ == me,
        None => false,
    }
}

/// An organization key the membership listing for an identity yields.
pub open spec fn org_listed(read: ReadModel, me: Seq<char>, k: Seq<char>) -> bool {
    read.orgs.spec_get(k) is Some && read.memberships.spec_get(
        crate::projector::member_key_of(k, me),
    ) is Some
}

/// A message key the message listing for a scope and time bound yields.
pub open spec fn message_listed(
    read: ReadModel,
    room: Option<Seq<char>>,
    dm: Option<Seq<char>>,
    before: Option<i64>,
    k: Seq<char>,
) -> bool {
    match read.messages.spec_get(k) {
        Some(row) => (match room {
            Some(rid) => crate::ops::view_opt(row.room_id) == Some(rid),
            None => true,
        }) && (match dm {
            Some(t) => crate::ops::view_opt(row.dm_thread_id) == Some(t),
            None => true,
        }) && (match before {
            Some(b) => row.timestamp < b,
            None => true,
        }),
        None => false,
    }
}


/// A clear room plan: the room's derived topic, carrying exactly the gossip
/// envelope of the published op.
#[verifier::opaque]
pub open spec fn room_plan_ok(
    room: Seq<char>,
    hb: Seq<u8>,
    body: Seq<u8>,
    p: GossipPlan,
) -> bool {
    &&& !p.sealed
    &&& p.topic@ == crate::extcrypto::blake3_of(
        crate::topics::room_topic_preimage(encode_utf8(room)),
    )
    &&& p.payload@ == crate::ops::gossip_envelope_body("message"@, hb, body)
}

/// A sealed direct-message plan: the pair's derived topic, carrying the
/// gossip envelope sealed toward the thread's other participant under the
/// sender's identity.
/// The thread participant a sealed message travels to: whichever side of
/// the thread is not the sender.
pub open spec fn dm_other_of(row: crate::projector::DmThreadRow, me_hex: Seq<char>) -> Seq<
    char,
> {
    if row.initiator_key@ == me_hex {
        row.recipient_key@
    } else {
        row.initiator_key@
    }
}

/// The payload is one sealed-sender layer toward `other`, wrapping the
/// sender identity and the op's gossip envelope.
pub open spec fn dm_payload_sealed(
    me_pk: Seq<u8>,
    other: Seq<char>,
    hb: Seq<u8>,
    body: Seq<u8>,
    payload: Seq<u8>,
) -> bool {
    exists|esk: Seq<u8>, nonce: Seq<u8>|
        esk.len() == 32 && nonce.len() == 24 && payload == #[trigger] crate::envelope::layer_env(
            crate::sealed_sender::SEALED_VERSION,
            crate::sealed_sender::sealed_info(),
            esk,
            nonce,
            crate::bytesfmt::hex_parse(encode_utf8(other)),
            me_pk + crate::ops::gossip_envelope_body("message"@, hb, body),
        )
}

#[verifier::opaque]
pub open spec fn sealed_dm_plan(
    threads: crate::readmodel::Table<crate::projector::DmThreadRow>,
    me_hex: Seq<char>,
    me_pk: Seq<u8>,
    tid: Seq<char>,
    hb: Seq<u8>,
    body: Seq<u8>,
    p: GossipPlan,
) -> bool {
    &&& p.sealed
    &&& match threads.spec_get(tid) {
        Some(row) => p.topic@ == crate::extcrypto::blake3_of(
            crate::topics::dm_topic_preimage(
                encode_utf8(me_hex),
                encode_utf8(dm_other_of(row, me_hex)),
            ),
        ) && dm_payload_sealed(me_pk, dm_other_of(row, me_hex), hb, body, p.payload@),
        None => false,
    }
}

impl CoreState {
    /// The state is consistent: logs and tables well-formed, and the identity
    /// fields derived from the seed.
    pub open spec fn wf(&self) -> bool {
        &&& self.op_store.wf()
        &&& self.read.wf()
        &&& self.private_seed@.len() == 32
        &&& self.public_key@.len() == 32
        &&& self.public_key@ == ed25519_pk_of(self.private_seed@)
        &&& self.public_key_hex@ == hex_chars_of(self.public_key@)
    }

    /// Open a core from the 64-hex private key. Fails exactly on input that
    /// is not 32 bytes of hex.
    pub fn init(private_key_hex: &str) -> (r: Result<CoreState, CoreError>)
        ensures
            r is Ok ==> r->Ok_0.wf(),
            r is Ok <==> crate::bytesfmt::valid_hex_bytes(private_key_hex.spec_bytes())
                && private_key_hex.spec_bytes().len() == 64,
    {
        let key_bytes = private_key_hex.as_bytes_vec();
        let Some(seed) = hex_decode_bytes(key_bytes.as_slice()) else {
            return Err(CoreError::InvalidKey);
        };
        if seed.len() != 32 {
            return Err(CoreError::InvalidKey);
        }
        let public_key = ed25519_public(seed.as_slice());
        let public_key_hex = hex_string(public_key.as_slice());
        Ok(
            CoreState {
                private_seed: seed,
                public_key,
                public_key_hex,
                op_store: OpStore::new(),
                read: ReadModel::new(),
                topics: TopicLogMap::new(),
            },
        )
    }

    /// Publish one signed op and return its hash (hex): the id every
    /// mutation keys its read-model row by.
    fn publish_op(&mut self, log_id: LogId, body: &[u8], now: u64) -> (r: (String, Vec<u8>))
        requires
            old(self).wf(),
        ensures
            final(self).op_store.wf(),
            final(self).read == old(self).read,
            final(self).private_seed@ == old(self).private_seed@,
            final(self).public_key@ == old(self).public_key@,
            final(self).public_key_hex@ == old(self).public_key_hex@,
            final(self).wf(),
            r.0@ == hex_chars_of(crate::extcrypto::blake3_of(r.1@)),
            r.1@.len() <= 186,
            op_stored(
                final(self).op_store.logs@,
                old(self).public_key_hex@,
                log_id,
                crate::extcrypto::blake3_of(r.1@),
                body@,
            ),
            forall|a: Seq<char>, l: LogId, h2: Seq<u8>, b2: Seq<u8>|
                #[trigger] op_stored(old(self).op_store.logs@, a, l, h2, b2) ==> op_stored(
                    final(self).op_store.logs@,
                    a,
                    l,
                    h2,
                    b2,
                ),
    {
        let ghost logs_pre = self.op_store.logs@;
        let (hash_hex, header_bytes) = self.op_store.sign_and_store_op(
            self.private_seed.as_slice(),
            log_id,
            body,
            now,
        );
        proof {
            assert forall|a: Seq<char>, l: LogId, h2: Seq<u8>, b2: Seq<u8>|
                #[trigger] op_stored(logs_pre, a, l, h2, b2) implies op_stored(
                self.op_store.logs@,
                a,
                l,
                h2,
                b2,
            ) by {
                let s2 = choose|s2: int| crate::store::op_in_store(logs_pre, a, l, s2, h2, b2);
                assert(crate::store::op_in_store(self.op_store.logs@, a, l, s2, h2, b2));
            }
        }
        (hash_hex, header_bytes)
    }

    /// Create an organization: publish its create op, insert it in the read
    /// model under the op's hash, enroll the creator as Manage, and open its
    /// `general` room. Returns the new organization id.
    #[verifier::spinoff_prover]
    #[verifier::rlimit(100)]
    pub fn create_org(
        &mut self,
        name: String,
        type_label: String,
        description: Option<String>,
        is_public: bool,
        now: u64,
    ) -> (r: String)
        requires
            old(self).wf(),
        ensures
            final(self).wf(),
            final(self).read.orgs.spec_get(r@) is Some,
            ({
                let row = final(self).read.orgs.spec_get(r@)->0;
                row.name@ == name@ && row.type_label@ == type_label@ && row.is_public == is_public
                    && row.creator_key@ == old(self).public_key_hex@
            }),
            final(self).read.memberships.spec_get(
                crate::projector::member_key_of(r@, old(self).public_key_hex@),
            ) is Some,
            exists|hash: Seq<u8>|
                r@ == hex_chars_of(hash) && #[trigger] op_stored(
                    final(self).op_store.logs@,
                    old(self).public_key_hex@,
                    LogId::Org,
                    hash,
                    crate::ops::org_op_body_of(
                        "create_org"@,
                        name@,
                        type_label@,
                        crate::ops::view_opt(description),
                        None,
                        None,
                        is_public,
                    ),
                ),
    {
        let op = OrgOp {
            op_type: "create_org".to_owned(),
            name: clone_string(&name),
            type_label: clone_string(&type_label),
            description: crate::projector::clone_opt(&description),
            avatar_blob_id: None,
            cover_blob_id: None,
            is_public,
        };
        proof {
            assert(crate::ops::view_opt(op.description) == crate::ops::view_opt(description));
            assert(crate::ops::org_op_body(op) == crate::ops::org_op_body_of(
                "create_org"@,
                name@,
                type_label@,
                crate::ops::view_opt(description),
                None,
                None,
                is_public,
            ));
        }
        let body = op.encode();
        let (org_id, org_header_bytes) = self.publish_op(LogId::Org, body.as_slice(), now);
        let ghost org_hash = crate::extcrypto::blake3_of(org_header_bytes@);
        proof {
            assert(op_stored(
                self.op_store.logs@,
                old(self).public_key_hex@,
                LogId::Org,
                org_hash,
                crate::ops::org_op_body_of(
                    "create_org"@,
                    name@,
                    type_label@,
                    crate::ops::view_opt(description),
                    None,
                    None,
                    is_public,
                ),
            ));
        }
        let ghost mid_logs = self.op_store.logs@;
        let my_hex = clone_string(&self.public_key_hex);
        self.read.project_org_create(my_hex.as_str(), org_id.as_str(), &op, now as i64);
        proof {
            assert(self.op_store.logs@ == mid_logs);
        }
        self.open_general_room(org_id.as_str(), now);
        proof {
            assert(org_id@ == hex_chars_of(org_hash));
            assert(op_stored(
                self.op_store.logs@,
                old(self).public_key_hex@,
                LogId::Org,
                org_hash,
                crate::ops::org_op_body_of(
                    "create_org"@,
                    name@,
                    type_label@,
                    crate::ops::view_opt(description),
                    None,
                    None,
                    is_public,
                ),
            ));
        }
        org_id
    }

    /// Open the `general` room every new organization starts with.
    fn open_general_room(&mut self, org_id: &str, now: u64)
        requires
            old(self).wf(),
        ensures
            final(self).wf(),
            final(self).public_key_hex@ == old(self).public_key_hex@,
            final(self).read.orgs == old(self).read.orgs,
            final(self).read.memberships == old(self).read.memberships,
            forall|a: Seq<char>, l: LogId, h2: Seq<u8>, b2: Seq<u8>|
                #[trigger] op_stored(old(self).op_store.logs@, a, l, h2, b2) ==> op_stored(
                    final(self).op_store.logs@,
                    a,
                    l,
                    h2,
                    b2,
                ),
    {
        let room_op = RoomOp {
            op_type: "create_room".to_owned(),
            org_id: org_id.to_owned(),
            name: "general".to_owned(),
            enc_key_epoch: 0,
        };
        let room_body = room_op.encode();
        let (room_id, _room_header) = self.publish_op(LogId::Room, room_body.as_slice(), now);
        let my_hex = clone_string(&self.public_key_hex);
        self.read.project_room_create(my_hex.as_str(), room_id.as_str(), &room_op, now as i64);
    }

    /// Create a room in an organization. The name must be sluggified; on
    /// success the room stands in the read model under the op's hash.
    pub fn create_room(&mut self, org_id: String, name: String, now: u64) -> (r: Result<
        String,
        CoreError,
    >)
        requires
            old(self).wf(),
        ensures
            final(self).wf(),
            r is Ok <==> valid_channel_name(name@),
            r is Ok ==> final(self).read.rooms.spec_get(r->Ok_0@) is Some && ({
                let row = final(self).read.rooms.spec_get(r->Ok_0@)->0;
                row.org_id@ == org_id@ && row.name@ == name@ && row.created_by@ == old(
                    self,
                ).public_key_hex@ && !row.is_archived && row.enc_key_epoch == 0
            }),
            r is Ok ==> exists|hash: Seq<u8>|
                r->Ok_0@ == hex_chars_of(hash) && #[trigger] op_stored(
                    final(self).op_store.logs@,
                    old(self).public_key_hex@,
                    LogId::Room,
                    hash,
                    crate::ops::room_op_body_of("create_room"@, org_id@, name@, 0),
                ),
            r is Err ==> *final(self) == *old(self),
    {
        if !validate_channel_name(name.as_str()) {
            return Err(
                CoreError::InvalidInput(
                    "channel names are lowercase letters, digits and single inner separators".to_owned(),
                ),
            );
        }
        let op = RoomOp {
            op_type: "create_room".to_owned(),
            org_id: clone_string(&org_id),
            name: clone_string(&name),
            enc_key_epoch: 0,
        };
        let body = op.encode();
        let (room_id, header_bytes) = self.publish_op(LogId::Room, body.as_slice(), now);
        proof {
            reveal_strlit("create_room");
            assert(op_stored(
                self.op_store.logs@,
                old(self).public_key_hex@,
                LogId::Room,
                crate::extcrypto::blake3_of(header_bytes@),
                crate::ops::room_op_body_of("create_room"@, org_id@, name@, 0),
            ));
        }
        let my_hex = clone_string(&self.public_key_hex);
        self.read.project_room_create(my_hex.as_str(), room_id.as_str(), &op, now as i64);
        Ok(room_id)
    }

    /// Send a message into a room or a direct-message thread: publish the op,
    /// insert the message row under its hash, and hand back the gossip bytes
    /// — sealed to the thread's other participant for a direct message.
    #[verifier::spinoff_prover]
    #[verifier::rlimit(100)]

    /// Wrap an encoded op for the network: a room message travels in the
    /// clear on the room's topic; a direct message is sealed toward the
    /// thread's other participant on the pair's topic, and dropped when the
    /// thread or its recipient key is unusable.
    #[verifier::spinoff_prover]
    #[verifier::rlimit(100)]
    fn outbound_plan(
        &self,
        room_id: &Option<String>,
        dm_thread_id: &Option<String>,
        gossip_bytes: Vec<u8>,
        Ghost(hb_view): Ghost<Seq<u8>>,
        Ghost(body_term): Ghost<Seq<u8>>,
    ) -> (plan: Option<GossipPlan>)
        requires
            self.wf(),
            gossip_bytes@ == crate::ops::gossip_envelope_body("message"@, hb_view, body_term),
        ensures
            room_id is Some ==> (plan matches Some(p) && room_plan_ok(
                room_id->0@,
                hb_view,
                body_term,
                p,
            )),
            room_id is None && dm_thread_id is Some ==> (plan matches Some(p) ==> sealed_dm_plan(
                self.read.dm_threads,
                self.public_key_hex@,
                self.public_key@,
                dm_thread_id->0@,
                hb_view,
                body_term,
                p,
            )),
            room_id is None && dm_thread_id is Some && (self.read.dm_threads.spec_get(
                dm_thread_id->0@,
            ) matches Some(row) && crate::bytesfmt::valid_hex_bytes(
                encode_utf8(dm_other_of(row, self.public_key_hex@)),
            ) && encode_utf8(dm_other_of(row, self.public_key_hex@)).len() == 64)
                && gossip_bytes@.len() + 32 < 0x1000_0000 ==> plan is Some,
            room_id is None && dm_thread_id is None ==> plan is None,
    {
        let plan: Option<GossipPlan>;
        match (&room_id, &dm_thread_id) {
            (Some(rid), _) => {
                let topic = topic_id_for_room(rid.as_str());
                plan = Some(GossipPlan { topic, payload: gossip_bytes, sealed: false });
                proof {
                    reveal(room_plan_ok);
                    assert(plan matches Some(p) && room_plan_ok(
                        room_id->0@,
                        hb_view,
                        body_term,
                        p,
                    ));
                }
            },
            (None, Some(tid)) => {
                // Seal toward the thread's other participant so relays learn
                // nothing; silently unsealed-free when the thread is unknown.
                match self.read.dm_threads.get(tid.as_str()) {
                    Some(thread) => {
                        let ghost row = self.read.dm_threads.spec_get(dm_thread_id->0@)->0;
                        let other_hex = if str_eq(
                            thread.initiator_key.as_str(),
                            self.public_key_hex.as_str(),
                        ) {
                            clone_string(&thread.recipient_key)
                        } else {
                            clone_string(&thread.initiator_key)
                        };
                        proof {
                            assert(other_hex@ == (if row.initiator_key@ == self.public_key_hex@ {
                                row.recipient_key@
                            } else {
                                row.initiator_key@
                            }));
                        }
                        let other_bytes = other_hex.as_str().as_bytes_vec();
                        match hex_decode_bytes(other_bytes.as_slice()) {
                            Some(pk) => {
                                if pk.len() == 32 {
                                    let pk32 = crate::bytesfmt::bytes32(pk.as_slice());
                                    let me32 = crate::bytesfmt::bytes32(
                                        self.public_key.as_slice(),
                                    );
                                    proof {
                                        assert(pk32@ == crate::bytesfmt::hex_parse(
                                            encode_utf8(other_hex@),
                                        ));
                                        assert(me32@ == self.public_key@);
                                    }
                                    match crate::sealed_sender::seal(
                                        gossip_bytes.as_slice(),
                                        &me32,
                                        &pk32,
                                    ) {
                                        Ok(sealed) => {
                                            let ghost sealed_view = sealed@;
                                            let topic = topic_id_for_dm(
                                                self.public_key_hex.as_str(),
                                                other_hex.as_str(),
                                            );
                                            plan = Some(
                                                GossipPlan {
                                                    topic,
                                                    payload: sealed,
                                                    sealed: true,
                                                },
                                            );
                                            proof {
                                                let (esk, nonce) = choose|
                                                    esk: Seq<u8>,
                                                    nonce: Seq<u8>,
                                                |
                                                    esk.len() == 32 && nonce.len() == 24
                                                        && crate::extcrypto::x25519_base(
                                                        esk,
                                                    ).len() == 32 && sealed_view
                                                        == #[trigger] crate::envelope::layer_env(
                                                        crate::sealed_sender::SEALED_VERSION,
                                                        crate::sealed_sender::sealed_info(),
                                                        esk,
                                                        nonce,
                                                        pk32@,
                                                        me32@ + gossip_bytes@,
                                                    );
                                                assert(plan matches Some(p) && p.sealed
                                                    && p.payload@
                                                    == crate::envelope::layer_env(
                                                    crate::sealed_sender::SEALED_VERSION,
                                                    crate::sealed_sender::sealed_info(),
                                                    esk,
                                                    nonce,
                                                    crate::bytesfmt::hex_parse(
                                                        encode_utf8(other_hex@),
                                                    ),
                                                    self.public_key@
                                                        + crate::ops::gossip_envelope_body(
                                                        "message"@,
                                                        hb_view,
                                                        body_term,
                                                    ),
                                                ));
                                                assert(other_hex@ == dm_other_of(
                                                    row,
                                                    self.public_key_hex@,
                                                ));
                                                assert(dm_payload_sealed(
                                                    self.public_key@,
                                                    other_hex@,
                                                    hb_view,
                                                    body_term,
                                                    sealed_view,
                                                ));
                                                reveal(sealed_dm_plan);
                                                assert(plan matches Some(p) && sealed_dm_plan(
                                                    self.read.dm_threads,
                                                    self.public_key_hex@,
                                                    self.public_key@,
                                                    dm_thread_id->0@,
                                                    hb_view,
                                                    body_term,
                                                    p,
                                                ));
                                            }
                                        },
                                        Err(_) => {
                                            plan = None;
                                        },
                                    }
                                } else {
                                    plan = None;
                                }
                            },
                            None => {
                                plan = None;
                            },
                        }
                    },
                    None => {
                        plan = None;
                    },
                }
            },
            (None, None) => {
                plan = None;
            },
        }
        plan
    }

    pub fn send_message(
        &mut self,
        room_id: Option<String>,
        dm_thread_id: Option<String>,
        content_type: String,
        text_content: Option<String>,
        blob_id: Option<String>,
        embed_url: Option<String>,
        mentions: Vec<String>,
        reply_to: Option<String>,
        now: u64,
    ) -> (r: Result<(String, Option<GossipPlan>), CoreError>)
        requires
            old(self).wf(),
        ensures
            final(self).wf(),
            r is Ok <==> (room_id is Some || dm_thread_id is Some),
            r is Err ==> *final(self) == *old(self),
            r is Ok ==> ({
                let q = r->Ok_0;
                final(self).read.messages.spec_get(q.0@) is Some && ({
                    let row = final(self).read.messages.spec_get(q.0@)->0;
                    row.author_key@ == old(self).public_key_hex@ && row.timestamp == now as i64
                        && !row.is_deleted
                })
            }),
            r is Ok ==> exists|hash: Seq<u8>|
                r->Ok_0.0@ == hex_chars_of(hash) && #[trigger] op_stored(
                    final(self).op_store.logs@,
                    old(self).public_key_hex@,
                    LogId::Message,
                    hash,
                    crate::ops::message_op_body_of(
                        "send"@,
                        crate::ops::view_opt(room_id),
                        crate::ops::view_opt(dm_thread_id),
                        content_type@,
                        crate::ops::view_opt(text_content),
                        crate::ops::view_opt(blob_id),
                        crate::ops::view_opt(embed_url),
                        mentions.deep_view(),
                        crate::ops::view_opt(reply_to),
                    ),
                ),
            r is Ok && room_id is Some ==> ({
                let q = r->Ok_0;
                q.1 matches Some(plan) && exists|hb: Seq<u8>|
                    q.0@ == hex_chars_of(crate::extcrypto::blake3_of(hb)) && #[trigger] room_plan_ok(
                        room_id->0@,
                        hb,
                        crate::ops::message_op_body_of(
                            "send"@,
                            crate::ops::view_opt(room_id),
                            crate::ops::view_opt(dm_thread_id),
                            content_type@,
                            crate::ops::view_opt(text_content),
                            crate::ops::view_opt(blob_id),
                            crate::ops::view_opt(embed_url),
                            mentions.deep_view(),
                            crate::ops::view_opt(reply_to),
                        ),
                        plan,
                    )
            }),
            r is Ok && room_id is None && dm_thread_id is Some && (old(
                self,
            ).read.dm_threads.spec_get(dm_thread_id->0@) matches Some(row)
                && crate::bytesfmt::valid_hex_bytes(
                encode_utf8(dm_other_of(row, old(self).public_key_hex@)),
            ) && encode_utf8(dm_other_of(row, old(self).public_key_hex@)).len() == 64)
                && crate::ops::message_op_body_of(
                "send"@,
                crate::ops::view_opt(room_id),
                crate::ops::view_opt(dm_thread_id),
                content_type@,
                crate::ops::view_opt(text_content),
                crate::ops::view_opt(blob_id),
                crate::ops::view_opt(embed_url),
                mentions.deep_view(),
                crate::ops::view_opt(reply_to),
            ).len() + 400 < 0x1000_0000 ==> r->Ok_0.1 is Some,
            r is Ok && room_id is None && dm_thread_id is Some ==> ({
                let q = r->Ok_0;
                q.1 matches Some(plan) ==> exists|hb: Seq<u8>|
                    q.0@ == hex_chars_of(crate::extcrypto::blake3_of(hb))
                        && #[trigger] sealed_dm_plan(
                        old(self).read.dm_threads,
                        old(self).public_key_hex@,
                        old(self).public_key@,
                        dm_thread_id->0@,
                        hb,
                        crate::ops::message_op_body_of(
                            "send"@,
                            crate::ops::view_opt(room_id),
                            crate::ops::view_opt(dm_thread_id),
                            content_type@,
                            crate::ops::view_opt(text_content),
                            crate::ops::view_opt(blob_id),
                            crate::ops::view_opt(embed_url),
                            mentions.deep_view(),
                            crate::ops::view_opt(reply_to),
                        ),
                        plan,
                    )
            }),
    {
        if room_id.is_none() && dm_thread_id.is_none() {
            return Err(CoreError::InvalidInput("a room or thread is required".to_owned()));
        }
        let op = MessageOp {
            op_type: "send".to_owned(),
            room_id: crate::projector::clone_opt(&room_id),
            dm_thread_id: crate::projector::clone_opt(&dm_thread_id),
            content_type,
            text_content,
            blob_id,
            embed_url,
            mentions,
            reply_to,
        };
        proof {
            assert(crate::ops::message_op_body(op) == crate::ops::message_op_body_of(
                "send"@,
                crate::ops::view_opt(room_id),
                crate::ops::view_opt(dm_thread_id),
                content_type@,
                crate::ops::view_opt(text_content),
                crate::ops::view_opt(blob_id),
                crate::ops::view_opt(embed_url),
                mentions.deep_view(),
                crate::ops::view_opt(reply_to),
            ));
        }
        let body = op.encode();
        let (message_id, header_bytes) = self.publish_op(LogId::Message, body.as_slice(), now);
        let ghost msg_hash = crate::extcrypto::blake3_of(header_bytes@);
        proof {
            assert(op_stored(
                self.op_store.logs@,
                old(self).public_key_hex@,
                LogId::Message,
                msg_hash,
                crate::ops::message_op_body_of(
                    "send"@,
                    crate::ops::view_opt(room_id),
                    crate::ops::view_opt(dm_thread_id),
                    content_type@,
                    crate::ops::view_opt(text_content),
                    crate::ops::view_opt(blob_id),
                    crate::ops::view_opt(embed_url),
                    mentions.deep_view(),
                    crate::ops::view_opt(reply_to),
                ),
            ));
        }
        let ghost mid_logs = self.op_store.logs@;
        let my_hex = clone_string(&self.public_key_hex);
        self.read.project_message(
            my_hex.as_str(),
            message_id.as_str(),
            &op,
            now as i64,
        );
        proof {
            reveal_strlit("send");
            reveal_strlit("delete");
            assert("send"@.len() == 4 && "delete"@.len() == 6);
        }
        let ghost hb_view = header_bytes@;
        let envelope = GossipEnvelope {
            log_id: LogId::Message.as_str().to_owned(),
            header_bytes,
            body_bytes: body,
        };
        let gossip_bytes = envelope.encode();
        let ghost gossip_view = gossip_bytes@;
        let ghost body_term = crate::ops::message_op_body_of(
            "send"@,
            crate::ops::view_opt(room_id),
            crate::ops::view_opt(dm_thread_id),
            content_type@,
            crate::ops::view_opt(text_content),
            crate::ops::view_opt(blob_id),
            crate::ops::view_opt(embed_url),
            mentions.deep_view(),
            crate::ops::view_opt(reply_to),
        );
        proof {
            assert(gossip_view == crate::ops::gossip_envelope_body("message"@, hb_view, body_term));
            assert(message_id@ == hex_chars_of(crate::extcrypto::blake3_of(hb_view)));
            if body_term.len() + 400 < 0x1000_0000 {
                crate::ops::lemma_dm_gossip_small(hb_view, body_term);
            }
        }
        let plan: Option<GossipPlan> = self.outbound_plan(
            &room_id,
            &dm_thread_id,
            gossip_bytes,
            Ghost(hb_view),
            Ghost(body_term),
        );
        proof {
            assert(self.op_store.logs@ == mid_logs);
            assert(message_id@ == hex_chars_of(msg_hash));
            assert(op_stored(
                self.op_store.logs@,
                old(self).public_key_hex@,
                LogId::Message,
                msg_hash,
                crate::ops::message_op_body_of(
                    "send"@,
                    crate::ops::view_opt(room_id),
                    crate::ops::view_opt(dm_thread_id),
                    content_type@,
                    crate::ops::view_opt(text_content),
                    crate::ops::view_opt(blob_id),
                    crate::ops::view_opt(embed_url),
                    mentions.deep_view(),
                    crate::ops::view_opt(reply_to),
                ),
            ));
        }
        Ok((message_id, plan))
    }

    /// Open a direct-message thread toward a recipient: publish the op and
    /// insert the thread row under its hash.
    pub fn create_dm_thread(&mut self, recipient_key: String, now: u64) -> (r: String)
        requires
            old(self).wf(),
        ensures
            final(self).wf(),
            final(self).read.dm_threads.spec_get(r@) is Some,
            ({
                let row = final(self).read.dm_threads.spec_get(r@)->0;
                row.initiator_key@ == old(self).public_key_hex@ && row.recipient_key@
                    == recipient_key@
            }),
    {
        let op = DmThreadOp {
            op_type: "create_thread".to_owned(),
            recipient_key: clone_string(&recipient_key),
        };
        let body = op.encode();
        let (thread_id, _header_bytes) = self.publish_op(LogId::DmThread, body.as_slice(), now);
        let my_hex = clone_string(&self.public_key_hex);
        self.read.project_dm_thread(my_hex.as_str(), thread_id.as_str(), &op, now as i64);
        thread_id
    }

    /// The caller's membership view of an organization, rebuilt from the
    /// membership table: it reports a level exactly for the members the
    /// table records under this organization with a known level name.
    pub fn org_membership_state(&self, org_id: &str) -> (r: MembershipState)
        ensures
            r.org_id@ == org_id@,
            forall|k: Seq<char>|
                #[trigger] r.spec_level(k) is Some ==> exists|j: int|
                    0 <= j < self.read.memberships.entries@.len() && (
                    #[trigger] self.read.memberships.entries@[j]).1.org_id@ == org_id@
                        && self.read.memberships.entries@[j].1.member_key@ == k
                        && AccessLevel::spec_from_name(
                        self.read.memberships.entries@[j].1.access_level@,
                    ) == r.spec_level(k),
            forall|j: int|
                0 <= j < self.read.memberships.entries@.len() && (
                #[trigger] self.read.memberships.entries@[j]).1.org_id@ == org_id@
                    && AccessLevel::spec_from_name(
                    self.read.memberships.entries@[j].1.access_level@,
                ) is Some ==> r.spec_level(self.read.memberships.entries@[j].1.member_key@)
                    is Some,
    {
        let mut state = MembershipState::new(org_id.to_owned());
        let n = self.read.memberships.entries.len();
        let mut i: usize = 0;
        while i < n
            invariant
                i <= n,
                n == self.read.memberships.entries@.len(),
                state.org_id@ == org_id@,
                forall|k: Seq<char>|
                    #[trigger] state.spec_level(k) is Some ==> exists|j: int|
                        0 <= j < i && (#[trigger] self.read.memberships.entries@[j]).1.org_id@
                            == org_id@ && self.read.memberships.entries@[j].1.member_key@ == k
                            && AccessLevel::spec_from_name(
                            self.read.memberships.entries@[j].1.access_level@,
                        ) == state.spec_level(k),
                forall|j: int|
                    0 <= j < i && (#[trigger] self.read.memberships.entries@[j]).1.org_id@
                        == org_id@ && AccessLevel::spec_from_name(
                        self.read.memberships.entries@[j].1.access_level@,
                    ) is Some ==> state.spec_level(
                        self.read.memberships.entries@[j].1.member_key@,
                    ) is Some,
            decreases n - i,
        {
            let entry = &self.read.memberships.entries[i];
            let ghost state0 = state;
            if str_eq(entry.1.org_id.as_str(), org_id) {
                if let Some(level) = AccessLevel::from_str(entry.1.access_level.as_str()) {
                    state.add_member(clone_string(&entry.1.member_key), level);
                }
            }
            proof {
                assert forall|k: Seq<char>| #[trigger] state.spec_level(k) is Some implies exists|
                    j: int,
                |
                    0 <= j < i + 1 && (#[trigger] self.read.memberships.entries@[j]).1.org_id@
                        == org_id@ && self.read.memberships.entries@[j].1.member_key@ == k
                        && AccessLevel::spec_from_name(
                        self.read.memberships.entries@[j].1.access_level@,
                    ) == state.spec_level(k) by {
                    if state.spec_level(k) == state0.spec_level(k) && state0.spec_level(k)
                        is Some {
                        let j0 = choose|j0: int|
                            0 <= j0 < i && (#[trigger] self.read.memberships.entries@[j0]).1.org_id@
                                == org_id@ && self.read.memberships.entries@[j0].1.member_key@
                                == k && AccessLevel::spec_from_name(
                                self.read.memberships.entries@[j0].1.access_level@,
                            ) == state0.spec_level(k);
                        assert(0 <= j0 < i + 1);
                    } else {
                        assert(self.read.memberships.entries@[i as int].1.member_key@ == k);
                    }
                }
            }
            i = i + 1;
        }
        state
    }

    /// Whether this core's own key holds Manage in the organization, read
    /// directly off the membership table.
    pub fn has_manage(&self, org_id: &str) -> (r: bool)
        ensures
            r == spec_has_manage(self.read, org_id@, self.public_key_hex@),
    {
        let key = membership_key(org_id, self.public_key_hex.as_str());
        match self.read.memberships.get(key.as_str()) {
            Some(row) => match AccessLevel::from_str(row.access_level.as_str()) {
                Some(level) => level.has_permission(AccessLevel::Manage),
                None => false,
            },
            None => false,
        }
    }

    /// Add a member directly (as over NFC): the caller must hold Manage; on
    /// success the membership row is set and the membership op published.
    pub fn add_member_direct(
        &mut self,
        org_id: String,
        member_public_key: String,
        access_level: String,
        now: u64,
    ) -> (r: Result<(), AuthError>)
        requires
            old(self).wf(),
        ensures
            final(self).wf(),
            r is Ok <==> AccessLevel::spec_from_name(access_level@) is Some && spec_has_manage(
                old(self).read,
                org_id@,
                old(self).public_key_hex@,
            ),
            r is Ok ==> final(self).read.memberships.spec_get(
                crate::projector::member_key_of(org_id@, member_public_key@),
            ) is Some && ({
                let row = final(self).read.memberships.spec_get(
                    crate::projector::member_key_of(org_id@, member_public_key@),
                )->0;
                row.access_level@ == access_level@
            }),
            r is Err ==> *final(self) == *old(self),
    {
        let Some(level) = AccessLevel::from_str(access_level.as_str()) else {
            return Err(AuthError::Unauthorized("unknown access level".to_owned()));
        };
        if !self.has_manage(org_id.as_str()) {
            return Err(AuthError::Unauthorized("only Manage-level members can add".to_owned()));
        }
        proof {
            level.lemma_name_round_trip();
        }
        let ghost level_name = level.spec_name();
        let op = MembershipOp {
            op_type: "add_member".to_owned(),
            org_id: clone_string(&org_id),
            member_key: clone_string(&member_public_key),
            access_level: Some(level.as_str().to_owned()),
        };
        let body = op.encode();
        let (_hash, _header) = self.publish_op(LogId::Membership, body.as_slice(), now);
        let row = MembershipRow {
            org_id: clone_string(&org_id),
            member_key: clone_string(&member_public_key),
            access_level: access_level,
            joined_at: now as i64,
        };
        let key = membership_key(org_id.as_str(), member_public_key.as_str());
        self.read.memberships.upsert(key, row);
        Ok(())
    }

    /// Remove a member: the caller must hold Manage and may not remove
    /// itself; on success the membership row is gone and the op published.
    pub fn remove_member_from_org(
        &mut self,
        org_id: String,
        member_public_key: String,
        now: u64,
    ) -> (r: Result<(), AuthError>)
        requires
            old(self).wf(),
        ensures
            final(self).wf(),
            r is Ok <==> spec_has_manage(old(self).read, org_id@, old(self).public_key_hex@)
                && member_public_key@ != old(self).public_key_hex@,
            r is Ok ==> final(self).read.memberships.spec_get(
                crate::projector::member_key_of(org_id@, member_public_key@),
            ) is None,
            r is Err ==> *final(self) == *old(self),
    {
        if str_eq(member_public_key.as_str(), self.public_key_hex.as_str()) {
            return Err(AuthError::Unauthorized("a member cannot remove itself".to_owned()));
        }
        if !self.has_manage(org_id.as_str()) {
            return Err(
                AuthError::Unauthorized("only Manage-level members can remove others".to_owned()),
            );
        }
        let op = MembershipOp {
            op_type: "remove_member".to_owned(),
            org_id: clone_string(&org_id),
            member_key: clone_string(&member_public_key),
            access_level: None,
        };
        let body = op.encode();
        let (_hash, _header) = self.publish_op(LogId::Membership, body.as_slice(), now);
        let key = membership_key(org_id.as_str(), member_public_key.as_str());
        self.read.memberships.remove(key.as_str());
        Ok(())
    }

    /// Change a member's level: the caller must hold Manage.
    pub fn change_member_permission(
        &mut self,
        org_id: String,
        member_public_key: String,
        new_access_level: String,
        now: u64,
    ) -> (r: Result<(), AuthError>)
        requires
            old(self).wf(),
        ensures
            final(self).wf(),
            r is Ok ==> final(self).read.memberships.spec_get(
                crate::projector::member_key_of(org_id@, member_public_key@),
            ) is Some && final(self).read.memberships.spec_get(
                crate::projector::member_key_of(org_id@, member_public_key@),
            )->0.access_level@ == new_access_level@,
            r is Ok <==> AccessLevel::spec_from_name(new_access_level@) is Some
                && spec_has_manage(old(self).read, org_id@, old(self).public_key_hex@),
            r is Err ==> *final(self) == *old(self),
    {
        let Some(level) = AccessLevel::from_str(new_access_level.as_str()) else {
            return Err(AuthError::Unauthorized("unknown access level".to_owned()));
        };
        if !self.has_manage(org_id.as_str()) {
            return Err(
                AuthError::Unauthorized("only Manage-level members can change levels".to_owned()),
            );
        }
        let op = MembershipOp {
            op_type: "change_permission".to_owned(),
            org_id: clone_string(&org_id),
            member_key: clone_string(&member_public_key),
            access_level: Some(level.as_str().to_owned()),
        };
        let body = op.encode();
        let (_hash, _header) = self.publish_op(LogId::Membership, body.as_slice(), now);
        let row = MembershipRow {
            org_id: clone_string(&org_id),
            member_key: clone_string(&member_public_key),
            access_level: new_access_level,
            joined_at: now as i64,
        };
        let key = membership_key(org_id.as_str(), member_public_key.as_str());
        self.read.memberships.upsert(key, row);
        Ok(())
    }

    /// Ingest a raw op from a relay: verify and place it in the store, then
    /// remember the relay's sequence number for the topic. A rejected op is
    /// never acknowledged: the sequence stays where it was.
    pub fn ingest_op(
        &mut self,
        topic_hex: &str,
        seq: i64,
        log_id: LogId,
        header_bytes: &[u8],
        body: &[u8],
    ) -> (r: crate::store::InsertOutcome)
        requires
            old(self).wf(),
        ensures
            final(self).wf(),
            !(r matches crate::store::InsertOutcome::Rejected) ==> final(self).read.topic_seqs.spec_get(
                topic_hex@,
            ) == Some(seq),
            r matches crate::store::InsertOutcome::Rejected ==> *final(self) == *old(self),
            r matches crate::store::InsertOutcome::Inserted ==> exists|h: crate::store::OpHeader|
                crate::store::header_field_lens(h) && header_bytes@ == #[trigger] h.spec_bytes()
                    && crate::store::op_in_store(
                    final(self).op_store.logs@,
                    hex_chars_of(h.public_key@),
                    log_id,
                    h.seq_num as int,
                    crate::extcrypto::blake3_of(header_bytes@),
                    body@,
                ),
            r matches crate::store::InsertOutcome::Duplicate ==> final(self).op_store == old(
                self,
            ).op_store,
            r matches crate::store::InsertOutcome::Pending ==> final(self).op_store.logs@ == old(
                self,
            ).op_store.logs@ && crate::store::pending_holds(
                final(self).op_store.pending@,
                log_id,
                crate::extcrypto::blake3_of(header_bytes@),
            ),
    {
        let outcome = self.op_store.insert_op(log_id, header_bytes, body);
        if let crate::store::InsertOutcome::Rejected = outcome {
            return outcome;
        }
        self.read.set_topic_seq(topic_hex, seq);
        outcome
    }


    /// Create or refresh the caller's profile: publish the profile op and
    /// upsert the profile row under the caller's key. Returns the op's hash
    /// (hex).
    pub fn create_or_update_profile(
        &mut self,
        username: String,
        bio: Option<String>,
        available_for: Vec<String>,
        is_public: bool,
        pre_key_bundle: Option<Vec<u8>>,
        now: u64,
    ) -> (r: String)
        requires
            old(self).wf(),
        ensures
            final(self).wf(),
            exists|hash: Seq<u8>|
                r@ == hex_chars_of(hash) && #[trigger] op_stored(
                    final(self).op_store.logs@,
                    old(self).public_key_hex@,
                    LogId::Profile,
                    hash,
                    crate::ops::profile_op_body_of(
                        "create_profile"@,
                        username@,
                        None,
                        crate::ops::view_opt(bio),
                        available_for.deep_view(),
                        is_public,
                        crate::store::view_opt_bytes(pre_key_bundle),
                    ),
                ),
            final(self).read.profiles.spec_get(old(self).public_key_hex@) is Some,
            ({
                let row = final(self).read.profiles.spec_get(old(self).public_key_hex@)->0;
                row.username@ == username@ && row.is_public == is_public && row.updated_at
                    == now as i64
            }),
    {
        let op = ProfileOp {
            op_type: "create_profile".to_owned(),
            username,
            avatar_blob_id: None,
            bio,
            available_for,
            is_public,
            pre_key_bundle,
        };
        let body = op.encode();
        let (profile_hash, header_bytes) = self.publish_op(LogId::Profile, body.as_slice(), now);
        let ghost op_hash = crate::extcrypto::blake3_of(header_bytes@);
        proof {
            assert(op_stored(
                self.op_store.logs@,
                old(self).public_key_hex@,
                LogId::Profile,
                op_hash,
                crate::ops::profile_op_body(op),
            ));
        }
        let ghost mid_logs = self.op_store.logs@;
        let my_hex = clone_string(&self.public_key_hex);
        self.read.project_profile(my_hex.as_str(), &op, now as i64);
        proof {
            assert(self.op_store.logs@ == mid_logs);
        }
        profile_hash
    }

    /// Update an organization's descriptive fields: the caller must hold
    /// Manage, and a new name may not exceed 100 characters. On success the
    /// update op is published and the org row, where it exists, carries each
    /// given field over the old one.
    pub fn update_org(
        &mut self,
        org_id: String,
        name: Option<String>,
        type_label: Option<String>,
        description: Option<String>,
        avatar_blob_id: Option<String>,
        cover_blob_id: Option<String>,
        is_public: Option<bool>,
        now: u64,
    ) -> (r: Result<(), CoreError>)
        requires
            old(self).wf(),
        ensures
            final(self).wf(),
            r is Ok <==> spec_has_manage(old(self).read, org_id@, old(self).public_key_hex@) && (
            name is None || name->0@.len() <= 100),
            r is Err ==> *final(self) == *old(self),
            r is Ok ==> exists|hash: Seq<u8>| #[trigger] op_stored(
                final(self).op_store.logs@,
                old(self).public_key_hex@,
                LogId::Org,
                hash,
                crate::ops::org_update_op_body_of(
                    "update_org"@,
                    org_id@,
                    crate::ops::view_opt(name),
                    crate::ops::view_opt(type_label),
                    crate::ops::view_opt(description),
                    crate::ops::view_opt(avatar_blob_id),
                    crate::ops::view_opt(cover_blob_id),
                    is_public,
                ),
            ),
            r is Ok && old(self).read.orgs.spec_get(org_id@) is Some ==> ({
                let row = old(self).read.orgs.spec_get(org_id@)->0;
                let q = final(self).read.orgs.spec_get(org_id@);
                q is Some && ({
                    let nr = q->0;
                    nr.name@ == (match name {
                        Some(n) => n@,
                        None => row.name@,
                    }) && nr.type_label@ == (match type_label {
                        Some(t) => t@,
                        None => row.type_label@,
                    }) && crate::ops::view_opt(nr.description) == (match description {
                        Some(d) => Some(d@),
                        None => crate::ops::view_opt(row.description),
                    }) && nr.is_public == (match is_public {
                        Some(p) => p,
                        None => row.is_public,
                    }) && nr.creator_key@ == row.creator_key@ && nr.created_at == row.created_at
                })
            }),
            r is Ok && old(self).read.orgs.spec_get(org_id@) is None ==> final(self).read.orgs
                == old(self).read.orgs,
    {
        if let Some(n) = &name {
            if n.unicode_len() > 100 {
                return Err(
                    CoreError::InvalidInput("org name too long (max 100 characters)".to_owned()),
                );
            }
        }
        if !self.has_manage(org_id.as_str()) {
            return Err(
                CoreError::InvalidInput(
                    "only Manage-level members can update organizations".to_owned(),
                ),
            );
        }
        let op = OrgUpdateOp {
            op_type: "update_org".to_owned(),
            org_id: clone_string(&org_id),
            name: crate::projector::clone_opt(&name),
            type_label: crate::projector::clone_opt(&type_label),
            description: crate::projector::clone_opt(&description),
            avatar_blob_id: crate::projector::clone_opt(&avatar_blob_id),
            cover_blob_id: crate::projector::clone_opt(&cover_blob_id),
            is_public,
        };
        proof {
            assert(crate::ops::org_update_op_body(op) == crate::ops::org_update_op_body_of(
                "update_org"@,
                org_id@,
                crate::ops::view_opt(name),
                crate::ops::view_opt(type_label),
                crate::ops::view_opt(description),
                crate::ops::view_opt(avatar_blob_id),
                crate::ops::view_opt(cover_blob_id),
                is_public,
            ));
        }
        let body = op.encode();
        let (_hash, header_bytes) = self.publish_op(LogId::Org, body.as_slice(), now);
        let ghost op_hash = crate::extcrypto::blake3_of(header_bytes@);
        proof {
            assert(op_stored(
                self.op_store.logs@,
                old(self).public_key_hex@,
                LogId::Org,
                op_hash,
                crate::ops::org_update_op_body(op),
            ));
        }
        let ghost mid_logs = self.op_store.logs@;
        let updated: Option<OrgRow> = match self.read.orgs.get(org_id.as_str()) {
            Some(row) => Some(
                OrgRow {
                    name: match &name {
                        Some(n) => clone_string(n),
                        None => clone_string(&row.name),
                    },
                    type_label: match &type_label {
                        Some(t) => clone_string(t),
                        None => clone_string(&row.type_label),
                    },
                    description: match &description {
                        Some(d) => Some(clone_string(d)),
                        None => crate::projector::clone_opt(&row.description),
                    },
                    avatar_blob_id: match &avatar_blob_id {
                        Some(a) => Some(clone_string(a)),
                        None => crate::projector::clone_opt(&row.avatar_blob_id),
                    },
                    cover_blob_id: match &cover_blob_id {
                        Some(c) => Some(clone_string(c)),
                        None => crate::projector::clone_opt(&row.cover_blob_id),
                    },
                    is_public: match is_public {
                        Some(p) => p,
                        None => row.is_public,
                    },
                    creator_key: clone_string(&row.creator_key),
                    created_at: row.created_at,
                },
            ),
            None => None,
        };
        if let Some(row) = updated {
            self.read.orgs.upsert(clone_string(&org_id), row);
        }
        proof {
            assert(self.op_store.logs@ == mid_logs);
        }
        Ok(())
    }

    /// Whether a room exists under this organization.
    fn room_in_org(&self, org_id: &str, room_id: &str) -> (r: bool)
        ensures
            r == match self.read.rooms.spec_get(room_id@) {
                Some(row) => row.org_id@ == org_id@,
                None => false,
            },
    {
        match self.read.rooms.get(room_id) {
            Some(row) => str_eq(row.org_id.as_str(), org_id),
            None => false,
        }
    }

    /// Delete a room: the caller must hold Manage and the room must belong
    /// to the organization. On success the delete op is published and the
    /// room row erased.
    pub fn delete_room(&mut self, org_id: String, room_id: String, now: u64) -> (r: Result<
        (),
        CoreError,
    >)
        requires
            old(self).wf(),
        ensures
            final(self).wf(),
            r is Ok <==> spec_has_manage(old(self).read, org_id@, old(self).public_key_hex@)
                && (match old(self).read.rooms.spec_get(room_id@) {
                Some(row) => row.org_id@ == org_id@,
                None => false,
            }),
            r is Err ==> *final(self) == *old(self),
            r is Ok ==> final(self).read.rooms.spec_get(room_id@) is None,
            r is Ok ==> forall|k: Seq<char>|
                k != room_id@ ==> final(self).read.rooms.spec_get(k) == old(
                    self,
                ).read.rooms.spec_get(k),
            r is Ok ==> exists|hash: Seq<u8>| #[trigger] op_stored(
                final(self).op_store.logs@,
                old(self).public_key_hex@,
                LogId::Room,
                hash,
                crate::ops::room_delete_op_body_of("delete_room"@, room_id@, org_id@),
            ),
    {
        if !self.has_manage(org_id.as_str()) {
            return Err(
                CoreError::InvalidInput("only Manage-level members can delete rooms".to_owned()),
            );
        }
        if !self.room_in_org(org_id.as_str(), room_id.as_str()) {
            return Err(CoreError::InvalidInput("room not found in organization".to_owned()));
        }
        let op = RoomDeleteOp {
            op_type: "delete_room".to_owned(),
            room_id: clone_string(&room_id),
            org_id: clone_string(&org_id),
        };
        let body = op.encode();
        let (_hash, header_bytes) = self.publish_op(LogId::Room, body.as_slice(), now);
        let ghost op_hash = crate::extcrypto::blake3_of(header_bytes@);
        proof {
            assert(op_stored(
                self.op_store.logs@,
                old(self).public_key_hex@,
                LogId::Room,
                op_hash,
                crate::ops::room_delete_op_body(op),
            ));
        }
        let ghost mid_logs = self.op_store.logs@;
        self.read.project_room_delete(&op, now as i64);
        proof {
            assert(self.op_store.logs@ == mid_logs);
        }
        Ok(())
    }

    /// Archive a room: the caller must hold Manage and the room must belong
    /// to the organization. On success the archive op is published and the
    /// room row flagged with the archival time.
    pub fn archive_room(&mut self, org_id: String, room_id: String, now: u64) -> (r: Result<
        (),
        CoreError,
    >)
        requires
            old(self).wf(),
        ensures
            final(self).wf(),
            r is Ok <==> spec_has_manage(old(self).read, org_id@, old(self).public_key_hex@)
                && (match old(self).read.rooms.spec_get(room_id@) {
                Some(row) => row.org_id@ == org_id@,
                None => false,
            }),
            r is Err ==> *final(self) == *old(self),
            r is Ok ==> ({
                let q = final(self).read.rooms.spec_get(room_id@);
                q is Some && q->0.is_archived && q->0.archived_at == Some(now as i64)
                    && q->0.org_id@ == org_id@
            }),
            r is Ok ==> forall|k: Seq<char>|
                k != room_id@ ==> final(self).read.rooms.spec_get(k) == old(
                    self,
                ).read.rooms.spec_get(k),
            r is Ok ==> exists|hash: Seq<u8>| #[trigger] op_stored(
                final(self).op_store.logs@,
                old(self).public_key_hex@,
                LogId::Room,
                hash,
                crate::ops::room_delete_op_body_of("archive_room"@, room_id@, org_id@),
            ),
    {
        if !self.has_manage(org_id.as_str()) {
            return Err(
                CoreError::InvalidInput("only Manage-level members can archive rooms".to_owned()),
            );
        }
        if !self.room_in_org(org_id.as_str(), room_id.as_str()) {
            return Err(CoreError::InvalidInput("room not found in organization".to_owned()));
        }
        let op = RoomDeleteOp {
            op_type: "archive_room".to_owned(),
            room_id: clone_string(&room_id),
            org_id: clone_string(&org_id),
        };
        let body = op.encode();
        let (_hash, header_bytes) = self.publish_op(LogId::Room, body.as_slice(), now);
        let ghost op_hash = crate::extcrypto::blake3_of(header_bytes@);
        proof {
            assert(op_stored(
                self.op_store.logs@,
                old(self).public_key_hex@,
                LogId::Room,
                op_hash,
                crate::ops::room_delete_op_body(op),
            ));
        }
        let ghost mid_logs = self.op_store.logs@;
        self.read.project_room_delete(&op, now as i64);
        proof {
            assert(self.op_store.logs@ == mid_logs);
            reveal_strlit("delete_room");
            reveal_strlit("archive_room");
            assert("delete_room"@.len() == 11 && "archive_room"@.len() == 12);
        }
        Ok(())
    }

    /// Unarchive a room: the caller must hold Manage and the room must belong
    /// to the organization. Clears the archival flag on the row; no op is
    /// published, as in the original read-model repair.
    pub fn unarchive_room(&mut self, org_id: String, room_id: String) -> (r: Result<
        (),
        CoreError,
    >)
        requires
            old(self).wf(),
        ensures
            final(self).wf(),
            r is Ok <==> spec_has_manage(old(self).read, org_id@, old(self).public_key_hex@)
                && (match old(self).read.rooms.spec_get(room_id@) {
                Some(row) => row.org_id@ == org_id@,
                None => false,
            }),
            r is Err ==> *final(self) == *old(self),
            r is Ok ==> ({
                let q = final(self).read.rooms.spec_get(room_id@);
                let row = old(self).read.rooms.spec_get(room_id@)->0;
                q is Some && !q->0.is_archived && q->0.archived_at is None && q->0.name@
                    == row.name@ && q->0.org_id@ == row.org_id@ && q->0.enc_key_epoch
                    == row.enc_key_epoch
            }),
            r is Ok ==> forall|k: Seq<char>|
                k != room_id@ ==> final(self).read.rooms.spec_get(k) == old(
                    self,
                ).read.rooms.spec_get(k),
    {
        if !self.has_manage(org_id.as_str()) {
            return Err(
                CoreError::InvalidInput(
                    "only Manage-level members can unarchive rooms".to_owned(),
                ),
            );
        }
        if !self.room_in_org(org_id.as_str(), room_id.as_str()) {
            return Err(CoreError::InvalidInput("room not found in organization".to_owned()));
        }
        let updated: Option<RoomRow> = match self.read.rooms.get(room_id.as_str()) {
            Some(room) => Some(
                RoomRow {
                    org_id: clone_string(&room.org_id),
                    name: clone_string(&room.name),
                    created_by: clone_string(&room.created_by),
                    created_at: room.created_at,
                    enc_key_epoch: room.enc_key_epoch,
                    is_archived: false,
                    archived_at: None,
                },
            ),
            None => None,
        };
        if let Some(row) = updated {
            self.read.rooms.upsert(clone_string(&room_id), row);
        }
        Ok(())
    }


    /// Decide what one inbound gossip frame carries: a sealed-sender
    /// envelope is opened with this core's seed and yields the authenticated
    /// sender with its payload (or nothing, when it is not addressed to us or
    /// tampered with); any other frame passes through unchanged, with no
    /// sender to vouch for. A caller must hold the returned sender against
    /// the membership the op claims.
    pub fn inbound_op_bytes(&self, bytes: &[u8]) -> (r: Option<(Option<[u8; 32]>, Vec<u8>)>)
        requires
            self.wf(),
        ensures
            !(bytes@.len() >= 73 && bytes@[0] == crate::sealed_sender::SEALED_VERSION) ==> r
                is Some && ({
                let q = r->0;
                q.0 is None && q.1@ == bytes@
            }),
            r is None ==> bytes@.len() >= 73 && bytes@[0]
                == crate::sealed_sender::SEALED_VERSION,
            r is Some && ({
                let q = r->0;
                q.0 is Some
            }) ==> bytes@.len() >= 73 && bytes@[0] == crate::sealed_sender::SEALED_VERSION,
            forall|esk: Seq<u8>, spk: Seq<u8>, op: Seq<u8>|
                esk.len() == 32 && crate::extcrypto::x25519_base(esk).len() == 32 && spk.len()
                    == 32 && spk.len() + op.len() + 73 == bytes@.len() && bytes@
                    == #[trigger] crate::envelope::layer_env(
                    crate::sealed_sender::SEALED_VERSION,
                    crate::sealed_sender::sealed_info(),
                    esk,
                    bytes@.subrange(33, 57),
                    ed25519_pk_of(self.private_seed@),
                    spk + op,
                ) ==> r is Some && ({
                    let q = r->0;
                    q.1@ == op && (q.0 matches Some(sender) && sender@ == spk)
                }),
    {
        if !crate::sealed_sender::is_sealed(bytes) {
            return Some((None, vstd::slice::slice_to_vec(bytes)));
        }
        let seed32 = crate::bytesfmt::bytes32(self.private_seed.as_slice());
        match crate::sealed_sender::open(bytes, &seed32) {
            Ok((sender_pk, inner)) => Some((Some(sender_pk), inner)),
            Err(_) => None,
        }
    }


    /// List the rooms of an organization: exactly the room keys whose row
    /// belongs to it, skipping archived rooms unless asked for.
    pub fn list_rooms(&self, org_id: &str, include_archived: bool) -> (r: Vec<String>)
        requires
            self.wf(),
        ensures
            forall|m: int|
                0 <= m < r@.len() ==> #[trigger] room_listed(
                    self.read,
                    org_id@,
                    include_archived,
                    r@[m]@,
                ),
            forall|k: Seq<char>|
                #[trigger] room_listed(self.read, org_id@, include_archived, k) ==> exists|m: int|
                    0 <= m < r@.len() && (#[trigger] r@[m])@ == k,
    {
        let mut out: Vec<String> = Vec::new();
        let n = self.read.rooms.entries.len();
        let mut i: usize = 0;
        while i < n
            invariant
                self.wf(),
                i <= n,
                n == self.read.rooms.entries@.len(),
                forall|m: int|
                    0 <= m < out@.len() ==> #[trigger] room_listed(
                        self.read,
                        org_id@,
                        include_archived,
                        out@[m]@,
                    ),
                forall|j: int|
                    0 <= j < i && room_listed(
                        self.read,
                        org_id@,
                        include_archived,
                        (#[trigger] self.read.rooms.entries@[j]).0@,
                    ) ==> exists|m: int|
                        0 <= m < out@.len() && (#[trigger] out@[m])@
                            == self.read.rooms.entries@[j].0@,
            decreases n - i,
        {
            let entry = &self.read.rooms.entries[i];
            proof {
                crate::readmodel::lemma_assoc_at(self.read.rooms.entries@, i as int);
            }
            let ghost out0 = out@;
            if str_eq(entry.1.org_id.as_str(), org_id) && (include_archived
                || !entry.1.is_archived) {
                out.push(clone_string(&entry.0));
            }
            proof {
                assert forall|j: int|
                    0 <= j < i + 1 && room_listed(
                        self.read,
                        org_id@,
                        include_archived,
                        (#[trigger] self.read.rooms.entries@[j]).0@,
                    ) implies exists|m: int|
                    0 <= m < out@.len() && (#[trigger] out@[m])@
                        == self.read.rooms.entries@[j].0@ by {
                    let key = self.read.rooms.entries@[j].0@;
                    if j < i {
                        let m = choose|m: int| 0 <= m < out0.len() && (#[trigger] out0[m])@ == key;
                        assert(out@[m] == out0[m]);
                    } else {
                        assert(out@[out@.len() - 1]@ == key);
                    }
                }
            }
            i = i + 1;
        }
        proof {
            assert forall|k: Seq<char>| #[trigger] room_listed(
                self.read,
                org_id@,
                include_archived,
                k,
            ) implies exists|m: int| 0 <= m < out@.len() && (#[trigger] out@[m])@ == k by {
                crate::readmodel::lemma_assoc_present(self.read.rooms.entries@, k);
                let j = choose|j: int|
                    0 <= j < self.read.rooms.entries@.len() && (
                    #[trigger] self.read.rooms.entries@[j]).0@ == k
                        && self.read.rooms.spec_get(k) == Some(self.read.rooms.entries@[j].1);
                assert(room_listed(
                    self.read,
                    org_id@,
                    include_archived,
                    self.read.rooms.entries@[j].0@,
                ));
            }
        }
        out
    }

    /// List the members of an organization: exactly the membership keys
    /// whose row names it.
    pub fn list_org_members(&self, org_id: &str) -> (r: Vec<String>)
        requires
            self.wf(),
        ensures
            forall|m: int|
                0 <= m < r@.len() ==> #[trigger] member_listed(self.read, org_id@, r@[m]@),
            forall|k: Seq<char>|
                #[trigger] member_listed(self.read, org_id@, k) ==> exists|m: int|
                    0 <= m < r@.len() && (#[trigger] r@[m])@ == k,
    {
        let mut out: Vec<String> = Vec::new();
        let n = self.read.memberships.entries.len();
        let mut i: usize = 0;
        while i < n
            invariant
                self.wf(),
                i <= n,
                n == self.read.memberships.entries@.len(),
                forall|m: int|
                    0 <= m < out@.len() ==> #[trigger] member_listed(self.read, org_id@, out@[m]@),
                forall|j: int|
                    0 <= j < i && member_listed(
                        self.read,
                        org_id@,
                        (#[trigger] self.read.memberships.entries@[j]).0@,
                    ) ==> exists|m: int|
                        0 <= m < out@.len() && (#[trigger] out@[m])@
                            == self.read.memberships.entries@[j].0@,
            decreases n - i,
        {
            let entry = &self.read.memberships.entries[i];
            proof {
                crate::readmodel::lemma_assoc_at(self.read.memberships.entries@, i as int);
            }
            let ghost out0 = out@;
            if str_eq(entry.1.org_id.as_str(), org_id) {
                out.push(clone_string(&entry.0));
            }
            proof {
                assert forall|j: int|
                    0 <= j < i + 1 && member_listed(
                        self.read,
                        org_id@,
                        (#[trigger] self.read.memberships.entries@[j]).0@,
                    ) implies exists|m: int|
                    0 <= m < out@.len() && (#[trigger] out@[m])@
                        == self.read.memberships.entries@[j].0@ by {
                    let key = self.read.memberships.entries@[j].0@;
                    if j < i {
                        let m = choose|m: int| 0 <= m < out0.len() && (#[trigger] out0[m])@ == key;
                        assert(out@[m] == out0[m]);
                    } else {
                        assert(out@[out@.len() - 1]@ == key);
                    }
                }
            }
            i = i + 1;
        }
        proof {
            assert forall|k: Seq<char>| #[trigger] member_listed(self.read, org_id@, k) implies
                exists|m: int| 0 <= m < out@.len() && (#[trigger] out@[m])@ == k by {
                crate::readmodel::lemma_assoc_present(self.read.memberships.entries@, k);
                let j = choose|j: int|
                    0 <= j < self.read.memberships.entries@.len() && (
                    #[trigger] self.read.memberships.entries@[j]).0@ == k
                        && self.read.memberships.spec_get(k) == Some(
                        self.read.memberships.entries@[j].1,
                    );
                assert(member_listed(self.read, org_id@, self.read.memberships.entries@[j].0@));
            }
        }
        out
    }

    /// List the direct-message threads this identity takes part in.
    pub fn list_dm_threads(&self) -> (r: Vec<String>)
        requires
            self.wf(),
        ensures
            forall|m: int|
                0 <= m < r@.len() ==> #[trigger] dm_thread_listed(
                    self.read,
                    self.public_key_hex@,
                    r@[m]@,
                ),
            forall|k: Seq<char>|
                #[trigger] dm_thread_listed(self.read, self.public_key_hex@, k) ==> exists|m: int|
                    0 <= m < r@.len() && (#[trigger] r@[m])@ == k,
    {
        let mut out: Vec<String> = Vec::new();
        let n = self.read.dm_threads.entries.len();
        let mut i: usize = 0;
        while i < n
            invariant
                self.wf(),
                i <= n,
                n == self.read.dm_threads.entries@.len(),
                forall|m: int|
                    0 <= m < out@.len() ==> #[trigger] dm_thread_listed(
                        self.read,
                        self.public_key_hex@,
                        out@[m]@,
                    ),
                forall|j: int|
                    0 <= j < i && dm_thread_listed(
                        self.read,
                        self.public_key_hex@,
                        (#[trigger] self.read.dm_threads.entries@[j]).0@,
                    ) ==> exists|m: int|
                        0 <= m < out@.len() && (#[trigger] out@[m])@
                            == self.read.dm_threads.entries@[j].0@,
            decreases n - i,
        {
            let entry = &self.read.dm_threads.entries[i];
            proof {
                crate::readmodel::lemma_assoc_at(self.read.dm_threads.entries@, i as int);
            }
            let ghost out0 = out@;
            if str_eq(entry.1.initiator_key.as_str(), self.public_key_hex.as_str()) || str_eq(
                entry.1.recipient_key.as_str(),
                self.public_key_hex.as_str(),
            ) {
                out.push(clone_string(&entry.0));
            }
            proof {
                assert forall|j: int|
                    0 <= j < i + 1 && dm_thread_listed(
                        self.read,
                        self.public_key_hex@,
                        (#[trigger] self.read.dm_threads.entries@[j]).0@,
                    ) implies exists|m: int|
                    0 <= m < out@.len() && (#[trigger] out@[m])@
                        == self.read.dm_threads.entries@[j].0@ by {
                    let key = self.read.dm_threads.entries@[j].0@;
                    if j < i {
                        let m = choose|m: int| 0 <= m < out0.len() && (#[trigger] out0[m])@ == key;
                        assert(out@[m] == out0[m]);
                    } else {
                        assert(out@[out@.len() - 1]@ == key);
                    }
                }
            }
            i = i + 1;
        }
        proof {
            assert forall|k: Seq<char>| #[trigger] dm_thread_listed(
                self.read,
                self.public_key_hex@,
                k,
            ) implies exists|m: int| 0 <= m < out@.len() && (#[trigger] out@[m])@ == k by {
                crate::readmodel::lemma_assoc_present(self.read.dm_threads.entries@, k);
                let j = choose|j: int|
                    0 <= j < self.read.dm_threads.entries@.len() && (
                    #[trigger] self.read.dm_threads.entries@[j]).0@ == k
                        && self.read.dm_threads.spec_get(k) == Some(
                        self.read.dm_threads.entries@[j].1,
                    );
                assert(dm_thread_listed(
                    self.read,
                    self.public_key_hex@,
                    self.read.dm_threads.entries@[j].0@,
                ));
            }
        }
        out
    }

    /// List the organizations this identity belongs to: exactly the org keys
    /// with a membership row for it.
    pub fn list_my_orgs(&self) -> (r: Vec<String>)
        requires
            self.wf(),
        ensures
            forall|m: int|
                0 <= m < r@.len() ==> #[trigger] org_listed(
                    self.read,
                    self.public_key_hex@,
                    r@[m]@,
                ),
            forall|k: Seq<char>|
                #[trigger] org_listed(self.read, self.public_key_hex@, k) ==> exists|m: int|
                    0 <= m < r@.len() && (#[trigger] r@[m])@ == k,
    {
        let mut out: Vec<String> = Vec::new();
        let n = self.read.orgs.entries.len();
        let mut i: usize = 0;
        while i < n
            invariant
                self.wf(),
                i <= n,
                n == self.read.orgs.entries@.len(),
                forall|m: int|
                    0 <= m < out@.len() ==> #[trigger] org_listed(
                        self.read,
                        self.public_key_hex@,
                        out@[m]@,
                    ),
                forall|j: int|
                    0 <= j < i && org_listed(
                        self.read,
                        self.public_key_hex@,
                        (#[trigger] self.read.orgs.entries@[j]).0@,
                    ) ==> exists|m: int|
                        0 <= m < out@.len() && (#[trigger] out@[m])@
                            == self.read.orgs.entries@[j].0@,
            decreases n - i,
        {
            let entry = &self.read.orgs.entries[i];
            proof {
                crate::readmodel::lemma_assoc_at(self.read.orgs.entries@, i as int);
            }
            let key = membership_key(entry.0.as_str(), self.public_key_hex.as_str());
            let ghost out0 = out@;
            if self.read.memberships.get(key.as_str()).is_some() {
                out.push(clone_string(&entry.0));
            }
            proof {
                assert forall|j: int|
                    0 <= j < i + 1 && org_listed(
                        self.read,
                        self.public_key_hex@,
                        (#[trigger] self.read.orgs.entries@[j]).0@,
                    ) implies exists|m: int|
                    0 <= m < out@.len() && (#[trigger] out@[m])@
                        == self.read.orgs.entries@[j].0@ by {
                    let kj = self.read.orgs.entries@[j].0@;
                    if j < i {
                        let m = choose|m: int| 0 <= m < out0.len() && (#[trigger] out0[m])@ == kj;
                        assert(out@[m] == out0[m]);
                    } else {
                        assert(out@[out@.len() - 1]@ == kj);
                    }
                }
            }
            i = i + 1;
        }
        proof {
            assert forall|k: Seq<char>| #[trigger] org_listed(
                self.read,
                self.public_key_hex@,
                k,
            ) implies exists|m: int| 0 <= m < out@.len() && (#[trigger] out@[m])@ == k by {
                crate::readmodel::lemma_assoc_present(self.read.orgs.entries@, k);
                let j = choose|j: int|
                    0 <= j < self.read.orgs.entries@.len() && (
                    #[trigger] self.read.orgs.entries@[j]).0@ == k && self.read.orgs.spec_get(k)
                        == Some(self.read.orgs.entries@[j].1);
                assert(org_listed(
                    self.read,
                    self.public_key_hex@,
                    self.read.orgs.entries@[j].0@,
                ));
            }
        }
        out
    }

    /// List the messages of a room or thread, optionally only those strictly
    /// before a timestamp: exactly the message keys whose row matches every
    /// given filter. Ordering and pagination are left to the reader.
    pub fn list_messages(
        &self,
        room_id: Option<String>,
        dm_thread_id: Option<String>,
        before_timestamp: Option<i64>,
    ) -> (r: Vec<String>)
        requires
            self.wf(),
        ensures
            forall|m: int|
                0 <= m < r@.len() ==> #[trigger] message_listed(
                    self.read,
                    crate::ops::view_opt(room_id),
                    crate::ops::view_opt(dm_thread_id),
                    before_timestamp,
                    r@[m]@,
                ),
            forall|k: Seq<char>|
                #[trigger] message_listed(
                    self.read,
                    crate::ops::view_opt(room_id),
                    crate::ops::view_opt(dm_thread_id),
                    before_timestamp,
                    k,
                ) ==> exists|m: int| 0 <= m < r@.len() && (#[trigger] r@[m])@ == k,
    {
        let mut out: Vec<String> = Vec::new();
        let n = self.read.messages.entries.len();
        let mut i: usize = 0;
        while i < n
            invariant
                self.wf(),
                i <= n,
                n == self.read.messages.entries@.len(),
                forall|m: int|
                    0 <= m < out@.len() ==> #[trigger] message_listed(
                        self.read,
                        crate::ops::view_opt(room_id),
                        crate::ops::view_opt(dm_thread_id),
                        before_timestamp,
                        out@[m]@,
                    ),
                forall|j: int|
                    0 <= j < i && message_listed(
                        self.read,
                        crate::ops::view_opt(room_id),
                        crate::ops::view_opt(dm_thread_id),
                        before_timestamp,
                        (#[trigger] self.read.messages.entries@[j]).0@,
                    ) ==> exists|m: int|
                        0 <= m < out@.len() && (#[trigger] out@[m])@
                            == self.read.messages.entries@[j].0@,
            decreases n - i,
        {
            let entry = &self.read.messages.entries[i];
            proof {
                crate::readmodel::lemma_assoc_at(self.read.messages.entries@, i as int);
            }
            let room_ok = match (&room_id, &entry.1.room_id) {
                (Some(want), Some(have)) => str_eq(want.as_str(), have.as_str()),
                (Some(_), None) => false,
                (None, _) => true,
            };
            let dm_ok = match (&dm_thread_id, &entry.1.dm_thread_id) {
                (Some(want), Some(have)) => str_eq(want.as_str(), have.as_str()),
                (Some(_), None) => false,
                (None, _) => true,
            };
            let time_ok = match before_timestamp {
                Some(b) => entry.1.timestamp < b,
                None => true,
            };
            let ghost out0 = out@;
            if room_ok && dm_ok && time_ok {
                out.push(clone_string(&entry.0));
            }
            proof {
                assert forall|j: int|
                    0 <= j < i + 1 && message_listed(
                        self.read,
                        crate::ops::view_opt(room_id),
                        crate::ops::view_opt(dm_thread_id),
                        before_timestamp,
                        (#[trigger] self.read.messages.entries@[j]).0@,
                    ) implies exists|m: int|
                    0 <= m < out@.len() && (#[trigger] out@[m])@
                        == self.read.messages.entries@[j].0@ by {
                    let key = self.read.messages.entries@[j].0@;
                    if j < i {
                        let m = choose|m: int| 0 <= m < out0.len() && (#[trigger] out0[m])@ == key;
                        assert(out@[m] == out0[m]);
                    } else {
                        assert(out@[out@.len() - 1]@ == key);
                    }
                }
            }
            i = i + 1;
        }
        proof {
            assert forall|k: Seq<char>| #[trigger] message_listed(
                self.read,
                crate::ops::view_opt(room_id),
                crate::ops::view_opt(dm_thread_id),
                before_timestamp,
                k,
            ) implies exists|m: int| 0 <= m < out@.len() && (#[trigger] out@[m])@ == k by {
                crate::readmodel::lemma_assoc_present(self.read.messages.entries@, k);
                let j = choose|j: int|
                    0 <= j < self.read.messages.entries@.len() && (
                    #[trigger] self.read.messages.entries@[j]).0@ == k
                        && self.read.messages.spec_get(k) == Some(
                        self.read.messages.entries@[j].1,
                    );
                assert(message_listed(
                    self.read,
                    crate::ops::view_opt(room_id),
                    crate::ops::view_opt(dm_thread_id),
                    before_timestamp,
                    self.read.messages.entries@[j].0@,
                ));
            }
        }
        out
    }

    /// Sign an invite token for an organization, returning its base64 form.
    /// Fails exactly on an unknown level name.
    pub fn generate_invite_token(
        &self,
        org_id: String,
        access_level: &str,
        expiry_timestamp: i64,
    ) -> (r: Result<String, AuthError>)
        requires
            self.wf(),
        ensures
            r is Ok <==> AccessLevel::spec_from_name(access_level@) is Some,
            r is Ok ==> r->Ok_0@ == crate::token::token_wire(
                org_id@,
                self.public_key@,
                AccessLevel::spec_from_name(access_level@)->0,
                expiry_timestamp,
                self.private_seed@,
            ),
    {
        let Some(level) = AccessLevel::from_str(access_level) else {
            return Err(AuthError::Unauthorized("unknown access level".to_owned()));
        };
        let me32 = crate::bytesfmt::bytes32(self.public_key.as_slice());
        let ghost org_view = org_id@;
        let token = InviteToken::create(
            org_id,
            me32.as_slice(),
            level,
            expiry_timestamp,
            self.private_seed.as_slice(),
        );
        proof {
            assert(token.spec_payload() == crate::token::token_payload(
                org_view,
                hex_chars_of(self.public_key@),
                level.spec_name(),
                expiry_timestamp as int,
            ));
        }
        Ok(token.to_base64())
    }
}

/// Verify a shared invite token at the given time: decode it, check the
/// expiry, and check the inviter's signature over all fields. On success the
/// inviter's identity (hex) and parsed level come back with the token.
pub fn verify_invite_token(token_base64: &str, current_timestamp: i64) -> (r: Result<
    (InviteToken, String, AccessLevel),
    AuthError,
>)
    ensures
        r is Ok ==> ({
            let q = r->Ok_0;
            current_timestamp <= q.0.expiry_timestamp && q.0.spec_intact() && q.1@ == hex_chars_of(
                q.0.spec_inviter_bytes(),
            ) && Some(q.2) == AccessLevel::spec_from_name(q.0.access_level@)
        }),
        forall|o: Seq<char>, ik: Seq<char>, lv: Seq<char>, e: i64, sg: Seq<char>|
            token_base64@ == crate::extcrypto::b64_of(
                #[trigger] crate::token::token_json(
                    encode_utf8(o),
                    encode_utf8(ik),
                    encode_utf8(lv),
                    e as int,
                    encode_utf8(sg),
                ),
            ) && crate::token::fields_intact(o, ik, lv, e, sg) && current_timestamp <= e ==> r
                is Ok,
{
    let token = match InviteToken::from_base64(token_base64) {
        Ok(t) => t,
        Err(e) => {
            proof {
                assert forall|o: Seq<char>, ik: Seq<char>, lv: Seq<char>, em: i64, sg: Seq<char>|
                    !(token_base64@ == crate::extcrypto::b64_of(
                        #[trigger] crate::token::token_json(
                            encode_utf8(o),
                            encode_utf8(ik),
                            encode_utf8(lv),
                            em as int,
                            encode_utf8(sg),
                        ),
                    ) && crate::token::fields_intact(o, ik, lv, em, sg) && current_timestamp
                        <= em) by {}
            }
            return Err(e);
        },
    };
    let (inviter_pk, level) = match token.verify(current_timestamp) {
        Ok(p) => p,
        Err(e) => {
            proof {
                assert forall|o: Seq<char>, ik: Seq<char>, lv: Seq<char>, em: i64, sg: Seq<char>|
                    !(token_base64@ == crate::extcrypto::b64_of(
                        #[trigger] crate::token::token_json(
                            encode_utf8(o),
                            encode_utf8(ik),
                            encode_utf8(lv),
                            em as int,
                            encode_utf8(sg),
                        ),
                    ) && crate::token::fields_intact(o, ik, lv, em, sg) && current_timestamp
                        <= em) by {
                    if token_base64@ == crate::extcrypto::b64_of(
                        crate::token::token_json(
                            encode_utf8(o),
                            encode_utf8(ik),
                            encode_utf8(lv),
                            em as int,
                            encode_utf8(sg),
                        ),
                    ) && crate::token::fields_intact(o, ik, lv, em, sg) {
                        assert(token.org_id@ == o && token.inviter_key@ == ik
                            && token.access_level@ == lv && token.expiry_timestamp == em
                            && token.signature@ == sg);
                        assert(token.spec_intact());
                    }
                }
            }
            return Err(e);
        },
    };
    let inviter_hex = hex_string(inviter_pk.as_slice());
    Ok((token, inviter_hex, level))
}

/// The peeled form of one onion layer, as plain data.
pub struct OnionPeeled {
    pub peel_type: String,
    pub next_hop_url: Option<String>,
    pub inner_packet: Option<Vec<u8>>,
    pub topic_id: Option<Vec<u8>>,
    pub op: Option<Vec<u8>>,
}

/// Peel one onion layer with a hex-encoded recipient seed, decomposed for a
/// caller that cannot hold the payload enum.
pub fn peel_onion_layer(packet: &[u8], recipient_seed_hex: &str) -> (r: Result<
    OnionPeeled,
    OnionError,
>)
    ensures
        r is Ok ==> ({
            let q = r->Ok_0;
            (q.peel_type@ == "forward"@ && q.next_hop_url is Some && q.inner_packet is Some
                && q.topic_id is None && q.op is None) || (q.peel_type@ == "deliver"@ && q.topic_id
                is Some && q.topic_id->0@.len() == 32 && q.op is Some && q.next_hop_url is None
                && q.inner_packet is None)
        }),
        (r is Err && r->Err_0 is InvalidKey) <==> !(crate::bytesfmt::valid_hex_bytes(
            recipient_seed_hex.spec_bytes(),
        ) && recipient_seed_hex.spec_bytes().len() == 64),
        forall|hops: Seq<crate::onion::OnionHop>, topic: Seq<u8>, op: Seq<u8>|
            hops.len() >= 2 && #[trigger] crate::onion::onion_shape(packet@, hops, topic, op)
                && crate::bytesfmt::valid_hex_bytes(recipient_seed_hex.spec_bytes())
                && recipient_seed_hex.spec_bytes().len() == 64 && hops[0].pubkey_bytes@
                == ed25519_pk_of(
                crate::bytesfmt::hex_parse(recipient_seed_hex.spec_bytes()),
            ) ==> r is Ok && ({
                let q = r->Ok_0;
                q.peel_type@ == "forward"@ && q.next_hop_url->0@ == hops[1].next_url@
                    && crate::onion::onion_shape(q.inner_packet->0@, hops.drop_first(), topic, op)
            }),
        forall|hops: Seq<crate::onion::OnionHop>, topic: Seq<u8>, op: Seq<u8>|
            hops.len() == 1 && #[trigger] crate::onion::onion_shape(packet@, hops, topic, op)
                && crate::bytesfmt::valid_hex_bytes(recipient_seed_hex.spec_bytes())
                && recipient_seed_hex.spec_bytes().len() == 64 && hops[0].pubkey_bytes@
                == ed25519_pk_of(
                crate::bytesfmt::hex_parse(recipient_seed_hex.spec_bytes()),
            ) ==> r is Ok && ({
                let q = r->Ok_0;
                q.peel_type@ == "deliver"@ && q.topic_id->0@ == topic && q.op->0@ == op
            }),
{
    let seed_bytes = recipient_seed_hex.as_bytes_vec();
    let Some(seed) = hex_decode_bytes(seed_bytes.as_slice()) else {
        return Err(OnionError::InvalidKey("the seed is not valid hex".to_owned()));
    };
    if seed.len() != 32 {
        return Err(OnionError::InvalidKey("the seed must be 32 bytes".to_owned()));
    }
    let seed32 = crate::bytesfmt::bytes32(seed.as_slice());
    match decrypt_layer(packet, &seed32) {
        Ok(OnionPayload::Forward { next_hop_url, inner_packet }) => Ok(
            OnionPeeled {
                peel_type: "forward".to_owned(),
                next_hop_url: Some(next_hop_url),
                inner_packet: Some(inner_packet),
                topic_id: None,
                op: None,
            },
        ),
        Ok(OnionPayload::Deliver { topic_id, op }) => Ok(
            OnionPeeled {
                peel_type: "deliver".to_owned(),
                next_hop_url: None,
                inner_packet: None,
                topic_id: Some(vstd::slice::slice_to_vec(topic_id.as_slice())),
                op: Some(op),
            },
        ),
        Err(e) => Err(e),
    }
}

} // verus!
