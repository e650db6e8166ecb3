//! Operation payloads: the typed bodies of each log's ops and their
//! canonical CBOR encodings, plus the gossip envelope that carries an op on
//! the wire.

use vstd::prelude::*;

use vstd::string::StringSliceAdditionalSpecFns;

use crate::cbor::{
    cbor_bool, cbor_bytes, cbor_hdr, cbor_opt_text, cbor_text, cbor_text_array_items, cbor_uint,
    push_cbor_bool, push_cbor_bytes, push_cbor_hdr, push_cbor_opt_text, push_cbor_text,
    push_cbor_text_array,
};

verus! {

/// A profile create or update.
pub struct ProfileOp {
    pub op_type: String,
    pub username: String,
    pub avatar_blob_id: Option<String>,
    pub bio: Option<String>,
    pub available_for: Vec<String>,
    pub is_public: bool,
    pub pre_key_bundle: Option<Vec<u8>>,
}

/// An organization create.
pub struct OrgOp {
    pub op_type: String,
    pub name: String,
    pub type_label: String,
    pub description: Option<String>,
    pub avatar_blob_id: Option<String>,
    pub cover_blob_id: Option<String>,
    pub is_public: bool,
}

/// A partial organization update.
pub struct OrgUpdateOp {
    pub op_type: String,
    pub org_id: String,
    pub name: Option<String>,
    pub type_label: Option<String>,
    pub description: Option<String>,
    pub avatar_blob_id: Option<String>,
    pub cover_blob_id: Option<String>,
    pub is_public: Option<bool>,
}

/// A room create.
pub struct RoomOp {
    pub op_type: String,
    pub org_id: String,
    pub name: String,
    pub enc_key_epoch: u64,
}

/// A room rename.
pub struct RoomUpdateOp {
    pub op_type: String,
    pub room_id: String,
    pub org_id: String,
    pub name: Option<String>,
}

/// A room archive or delete.
pub struct RoomDeleteOp {
    pub op_type: String,
    pub room_id: String,
    pub org_id: String,
}

/// A message send, edit or delete.
pub struct MessageOp {
    pub op_type: String,
    pub room_id: Option<String>,
    pub dm_thread_id: Option<String>,
    pub content_type: String,
    pub text_content: Option<String>,
    pub blob_id: Option<String>,
    pub embed_url: Option<String>,
    pub mentions: Vec<String>,
    pub reply_to: Option<String>,
}

/// A reaction add or remove.
pub struct ReactionOp {
    pub op_type: String,
    pub message_id: String,
    pub emoji: String,
}

/// A direct-message thread create.
pub struct DmThreadOp {
    pub op_type: String,
    pub recipient_key: String,
}

/// A published pre-key bundle.
pub struct KeyBundleOp {
    pub bundle_type: String,
    pub bundle_data: Vec<u8>,
}

/// A group-encryption control message.
pub struct EncCtrlOp {
    pub group_id: String,
    pub ctrl_data: Vec<u8>,
}

/// A group-encryption message addressed to one recipient.
pub struct EncDirectOp {
    pub group_id: String,
    pub recipient_key: String,
    pub direct_data: Vec<u8>,
}

/// A membership add, remove or permission change.
pub struct MembershipOp {
    pub op_type: String,
    pub org_id: String,
    pub member_key: String,
    pub access_level: Option<String>,
}

/// The envelope every gossip message carries: the log tag and the op's raw
/// header and body bytes.
pub struct GossipEnvelope {
    pub log_id: String,
    pub header_bytes: Vec<u8>,
    pub body_bytes: Vec<u8>,
}

/// The body bytes of an organization create, over the field views.
#[verifier::opaque]
pub open spec fn org_op_body_of(
    op_type: Seq<char>,
    name: Seq<char>,
    type_label: Seq<char>,
    description: Option<Seq<char>>,
    avatar_blob_id: Option<Seq<char>>,
    cover_blob_id: Option<Seq<char>>,
    is_public: bool,
) -> Seq<u8> {
    cbor_hdr(5, 7) + cbor_text("op_type"@) + cbor_text(op_type) + cbor_text("name"@) + cbor_text(
        name,
    ) + cbor_text("type_label"@) + cbor_text(type_label) + cbor_text("description"@)
        + cbor_opt_text(description) + cbor_text("avatar_blob_id"@) + cbor_opt_text(avatar_blob_id)
        + cbor_text("cover_blob_id"@) + cbor_opt_text(cover_blob_id) + cbor_text("is_public"@)
        + cbor_bool(is_public)
}

/// The body bytes of an organization create.
pub open spec fn org_op_body(op: OrgOp) -> Seq<u8> {
    org_op_body_of(
        op.op_type@,
        op.name@,
        op.type_label@,
        view_opt(op.description),
        view_opt(op.avatar_blob_id),
        view_opt(op.cover_blob_id),
        op.is_public,
    )
}

/// View of an optional string.
pub open spec fn view_opt(o: Option<String>) -> Option<Seq<char>> {
    match o {
        Some(s) => Some(s@),
        None => None,
    }
}

impl OrgOp {
    /// Encode the body.
    pub fn encode(&self) -> (r: Vec<u8>)
        ensures
            r@ == org_op_body(*self),
    {
        let mut out: Vec<u8> = Vec::new();
        push_cbor_hdr(&mut out, 5, 7);
        push_cbor_text(&mut out, "op_type");
        push_cbor_text(&mut out, self.op_type.as_str());
        push_cbor_text(&mut out, "name");
        push_cbor_text(&mut out, self.name.as_str());
        push_cbor_text(&mut out, "type_label");
        push_cbor_text(&mut out, self.type_label.as_str());
        push_cbor_text(&mut out, "description");
        push_cbor_opt_text(&mut out, &self.description);
        push_cbor_text(&mut out, "avatar_blob_id");
        push_cbor_opt_text(&mut out, &self.avatar_blob_id);
        push_cbor_text(&mut out, "cover_blob_id");
        push_cbor_opt_text(&mut out, &self.cover_blob_id);
        push_cbor_text(&mut out, "is_public");
        push_cbor_bool(&mut out, self.is_public);
        proof {
            reveal(org_op_body_of);
            assert(out@ =~= org_op_body(*self));
        }
        out
    }
}

/// The body bytes of a room create, over the field views.
#[verifier::opaque]
pub open spec fn room_op_body_of(
    op_type: Seq<char>,
    org_id: Seq<char>,
    name: Seq<char>,
    enc_key_epoch: u64,
) -> Seq<u8> {
    cbor_hdr(5, 4) + cbor_text("op_type"@) + cbor_text(op_type) + cbor_text("org_id"@) + cbor_text(
        org_id,
    ) + cbor_text("name"@) + cbor_text(name) + cbor_text("enc_key_epoch"@) + cbor_uint(
        enc_key_epoch as nat,
    )
}

/// The body bytes of a room create.
pub open spec fn room_op_body(op: RoomOp) -> Seq<u8> {
    room_op_body_of(op.op_type@, op.org_id@, op.name@, op.enc_key_epoch)
}

impl RoomOp {
    /// Encode the body.
    pub fn encode(&self) -> (r: Vec<u8>)
        ensures
            r@ == room_op_body(*self),
    {
        let mut out: Vec<u8> = Vec::new();
        push_cbor_hdr(&mut out, 5, 4);
        push_cbor_text(&mut out, "op_type");
        push_cbor_text(&mut out, self.op_type.as_str());
        push_cbor_text(&mut out, "org_id");
        push_cbor_text(&mut out, self.org_id.as_str());
        push_cbor_text(&mut out, "name");
        push_cbor_text(&mut out, self.name.as_str());
        push_cbor_text(&mut out, "enc_key_epoch");
        crate::cbor::push_cbor_uint(&mut out, self.enc_key_epoch);
        proof {
            reveal(room_op_body_of);
            assert(out@ =~= room_op_body(*self));
        }
        out
    }
}


/// The body bytes of a partial organization update, over the field views.
#[verifier::opaque]
pub open spec fn org_update_op_body_of(
    op_type: Seq<char>,
    org_id: Seq<char>,
    name: Option<Seq<char>>,
    type_label: Option<Seq<char>>,
    description: Option<Seq<char>>,
    avatar_blob_id: Option<Seq<char>>,
    cover_blob_id: Option<Seq<char>>,
    is_public: Option<bool>,
) -> Seq<u8> {
    cbor_hdr(5, 8) + cbor_text("op_type"@) + cbor_text(op_type) + cbor_text("org_id"@) + cbor_text(
        org_id,
    ) + cbor_text("name"@) + cbor_opt_text(name) + cbor_text("type_label"@) + cbor_opt_text(
        type_label,
    ) + cbor_text("description"@) + cbor_opt_text(description) + cbor_text("avatar_blob_id"@)
        + cbor_opt_text(avatar_blob_id) + cbor_text("cover_blob_id"@) + cbor_opt_text(cover_blob_id)
        + cbor_text("is_public"@) + (match is_public {
        Some(b) => crate::cbor::cbor_bool(b),
        None => crate::cbor::cbor_null(),
    })
}

/// The body bytes of a partial organization update.
pub open spec fn org_update_op_body(op: OrgUpdateOp) -> Seq<u8> {
    org_update_op_body_of(
        op.op_type@,
        op.org_id@,
        view_opt(op.name),
        view_opt(op.type_label),
        view_opt(op.description),
        view_opt(op.avatar_blob_id),
        view_opt(op.cover_blob_id),
        op.is_public,
    )
}

impl OrgUpdateOp {
    /// Encode the body.
    pub fn encode(&self) -> (r: Vec<u8>)
        ensures
            r@ == org_update_op_body(*self),
    {
        let mut out: Vec<u8> = Vec::new();
        push_cbor_hdr(&mut out, 5, 8);
        push_cbor_text(&mut out, "op_type");
        push_cbor_text(&mut out, self.op_type.as_str());
        push_cbor_text(&mut out, "org_id");
        push_cbor_text(&mut out, self.org_id.as_str());
        push_cbor_text(&mut out, "name");
        push_cbor_opt_text(&mut out, &self.name);
        push_cbor_text(&mut out, "type_label");
        push_cbor_opt_text(&mut out, &self.type_label);
        push_cbor_text(&mut out, "description");
        push_cbor_opt_text(&mut out, &self.description);
        push_cbor_text(&mut out, "avatar_blob_id");
        push_cbor_opt_text(&mut out, &self.avatar_blob_id);
        push_cbor_text(&mut out, "cover_blob_id");
        push_cbor_opt_text(&mut out, &self.cover_blob_id);
        push_cbor_text(&mut out, "is_public");
        match self.is_public {
            Some(b) => {
                push_cbor_bool(&mut out, b);
            },
            None => {
                out.push(0xf6);
            },
        }
        proof {
            reveal(org_update_op_body_of);
            assert(out@ =~= org_update_op_body(*self));
        }
        out
    }
}

/// The body bytes of a room rename, over the field views.
#[verifier::opaque]
pub open spec fn room_update_op_body_of(
    op_type: Seq<char>,
    room_id: Seq<char>,
    org_id: Seq<char>,
    name: Option<Seq<char>>,
) -> Seq<u8> {
    cbor_hdr(5, 4) + cbor_text("op_type"@) + cbor_text(op_type) + cbor_text("room_id"@)
        + cbor_text(room_id) + cbor_text("org_id"@) + cbor_text(org_id) + cbor_text("name"@)
        + cbor_opt_text(name)
}

/// The body bytes of a room rename.
pub open spec fn room_update_op_body(op: RoomUpdateOp) -> Seq<u8> {
    room_update_op_body_of(op.op_type@, op.room_id@, op.org_id@, view_opt(op.name))
}

impl RoomUpdateOp {
    /// Encode the body.
    pub fn encode(&self) -> (r: Vec<u8>)
        ensures
            r@ == room_update_op_body(*self),
    {
        let mut out: Vec<u8> = Vec::new();
        push_cbor_hdr(&mut out, 5, 4);
        push_cbor_text(&mut out, "op_type");
        push_cbor_text(&mut out, self.op_type.as_str());
        push_cbor_text(&mut out, "room_id");
        push_cbor_text(&mut out, self.room_id.as_str());
        push_cbor_text(&mut out, "org_id");
        push_cbor_text(&mut out, self.org_id.as_str());
        push_cbor_text(&mut out, "name");
        push_cbor_opt_text(&mut out, &self.name);
        proof {
            reveal(room_update_op_body_of);
            assert(out@ =~= room_update_op_body(*self));
        }
        out
    }
}

/// The body bytes of a room archive or delete, over the field views.
#[verifier::opaque]
pub open spec fn room_delete_op_body_of(
    op_type: Seq<char>,
    room_id: Seq<char>,
    org_id: Seq<char>,
) -> Seq<u8> {
    cbor_hdr(5, 3) + cbor_text("op_type"@) + cbor_text(op_type) + cbor_text("room_id"@)
        + cbor_text(room_id) + cbor_text("org_id"@) + cbor_text(org_id)
}

/// The body bytes of a room archive or delete.
pub open spec fn room_delete_op_body(op: RoomDeleteOp) -> Seq<u8> {
    room_delete_op_body_of(op.op_type@, op.room_id@, op.org_id@)
}

impl RoomDeleteOp {
    /// Encode the body.
    pub fn encode(&self) -> (r: Vec<u8>)
        ensures
            r@ == room_delete_op_body(*self),
    {
        let mut out: Vec<u8> = Vec::new();
        push_cbor_hdr(&mut out, 5, 3);
        push_cbor_text(&mut out, "op_type");
        push_cbor_text(&mut out, self.op_type.as_str());
        push_cbor_text(&mut out, "room_id");
        push_cbor_text(&mut out, self.room_id.as_str());
        push_cbor_text(&mut out, "org_id");
        push_cbor_text(&mut out, self.org_id.as_str());
        proof {
            reveal(room_delete_op_body_of);
            assert(out@ =~= room_delete_op_body(*self));
        }
        out
    }
}

/// The body bytes of a message op, over the field views.
#[verifier::opaque]
pub open spec fn message_op_body_of(
    op_type: Seq<char>,
    room_id: Option<Seq<char>>,
    dm_thread_id: Option<Seq<char>>,
    content_type: Seq<char>,
    text_content: Option<Seq<char>>,
    blob_id: Option<Seq<char>>,
    embed_url: Option<Seq<char>>,
    mentions: Seq<Seq<char>>,
    reply_to: Option<Seq<char>>,
) -> Seq<u8> {
    cbor_hdr(5, 9) + cbor_text("op_type"@) + cbor_text(op_type) + cbor_text("room_id"@)
        + cbor_opt_text(room_id) + cbor_text("dm_thread_id"@) + cbor_opt_text(dm_thread_id)
        + cbor_text("content_type"@) + cbor_text(content_type) + cbor_text("text_content"@)
        + cbor_opt_text(text_content) + cbor_text("blob_id"@) + cbor_opt_text(blob_id) + cbor_text(
        "embed_url"@,
    ) + cbor_opt_text(embed_url) + cbor_text("mentions"@) + cbor_hdr(4, mentions.len() as nat)
        + cbor_text_array_items(mentions) + cbor_text("reply_to"@) + cbor_opt_text(reply_to)
}

/// The body bytes of a message op.
pub open spec fn message_op_body(op: MessageOp) -> Seq<u8> {
    message_op_body_of(
        op.op_type@,
        view_opt(op.room_id),
        view_opt(op.dm_thread_id),
        op.content_type@,
        view_opt(op.text_content),
        view_opt(op.blob_id),
        view_opt(op.embed_url),
        op.mentions.deep_view(),
        view_opt(op.reply_to),
    )
}

impl MessageOp {
    /// Encode the body.
    pub fn encode(&self) -> (r: Vec<u8>)
        ensures
            r@ == message_op_body(*self),
    {
        let mut out: Vec<u8> = Vec::new();
        push_cbor_hdr(&mut out, 5, 9);
        push_cbor_text(&mut out, "op_type");
        push_cbor_text(&mut out, self.op_type.as_str());
        push_cbor_text(&mut out, "room_id");
        push_cbor_opt_text(&mut out, &self.room_id);
        push_cbor_text(&mut out, "dm_thread_id");
        push_cbor_opt_text(&mut out, &self.dm_thread_id);
        push_cbor_text(&mut out, "content_type");
        push_cbor_text(&mut out, self.content_type.as_str());
        push_cbor_text(&mut out, "text_content");
        push_cbor_opt_text(&mut out, &self.text_content);
        push_cbor_text(&mut out, "blob_id");
        push_cbor_opt_text(&mut out, &self.blob_id);
        push_cbor_text(&mut out, "embed_url");
        push_cbor_opt_text(&mut out, &self.embed_url);
        push_cbor_text(&mut out, "mentions");
        push_cbor_text_array(&mut out, &self.mentions);
        push_cbor_text(&mut out, "reply_to");
        push_cbor_opt_text(&mut out, &self.reply_to);
        proof {
            reveal(message_op_body_of);
            assert(out@ =~= message_op_body(*self));
        }
        out
    }
}

/// The body bytes of a reaction op.
pub open spec fn reaction_op_body(op: ReactionOp) -> Seq<u8> {
    cbor_hdr(5, 3) + cbor_text("op_type"@) + cbor_text(op.op_type@) + cbor_text("message_id"@)
        + cbor_text(op.message_id@) + cbor_text("emoji"@) + cbor_text(op.emoji@)
}

impl ReactionOp {
    /// Encode the body.
    pub fn encode(&self) -> (r: Vec<u8>)
        ensures
            r@ == reaction_op_body(*self),
    {
        let mut out: Vec<u8> = Vec::new();
        push_cbor_hdr(&mut out, 5, 3);
        push_cbor_text(&mut out, "op_type");
        push_cbor_text(&mut out, self.op_type.as_str());
        push_cbor_text(&mut out, "message_id");
        push_cbor_text(&mut out, self.message_id.as_str());
        push_cbor_text(&mut out, "emoji");
        push_cbor_text(&mut out, self.emoji.as_str());
        proof {
            assert(out@ =~= reaction_op_body(*self));
        }
        out
    }
}

/// The body bytes of a thread create, over the field views.
#[verifier::opaque]
pub open spec fn dm_thread_op_body_of(op_type: Seq<char>, recipient_key: Seq<char>) -> Seq<u8> {
    cbor_hdr(5, 2) + cbor_text("op_type"@) + cbor_text(op_type) + cbor_text("recipient_key"@)
        + cbor_text(recipient_key)
}

/// The body bytes of a thread create.
pub open spec fn dm_thread_op_body(op: DmThreadOp) -> Seq<u8> {
    dm_thread_op_body_of(op.op_type@, op.recipient_key@)
}

impl DmThreadOp {
    /// Encode the body.
    pub fn encode(&self) -> (r: Vec<u8>)
        ensures
            r@ == dm_thread_op_body(*self),
    {
        let mut out: Vec<u8> = Vec::new();
        push_cbor_hdr(&mut out, 5, 2);
        push_cbor_text(&mut out, "op_type");
        push_cbor_text(&mut out, self.op_type.as_str());
        push_cbor_text(&mut out, "recipient_key");
        push_cbor_text(&mut out, self.recipient_key.as_str());
        proof {
            reveal(dm_thread_op_body_of);
            assert(out@ =~= dm_thread_op_body(*self));
        }
        out
    }
}

/// The body bytes of a membership op, over the field views.
#[verifier::opaque]
pub open spec fn membership_op_body_of(
    op_type: Seq<char>,
    org_id: Seq<char>,
    member_key: Seq<char>,
    access_level: Option<Seq<char>>,
) -> Seq<u8> {
    cbor_hdr(5, 4) + cbor_text("op_type"@) + cbor_text(op_type) + cbor_text("org_id"@) + cbor_text(
        org_id,
    ) + cbor_text("member_key"@) + cbor_text(member_key) + cbor_text("access_level"@)
        + cbor_opt_text(access_level)
}

/// The body bytes of a membership op.
pub open spec fn membership_op_body(op: MembershipOp) -> Seq<u8> {
    membership_op_body_of(op.op_type@, op.org_id@, op.member_key@, view_opt(op.access_level))
}

impl MembershipOp {
    /// Encode the body.
    pub fn encode(&self) -> (r: Vec<u8>)
        ensures
            r@ == membership_op_body(*self),
    {
        let mut out: Vec<u8> = Vec::new();
        push_cbor_hdr(&mut out, 5, 4);
        push_cbor_text(&mut out, "op_type");
        push_cbor_text(&mut out, self.op_type.as_str());
        push_cbor_text(&mut out, "org_id");
        push_cbor_text(&mut out, self.org_id.as_str());
        push_cbor_text(&mut out, "member_key");
        push_cbor_text(&mut out, self.member_key.as_str());
        push_cbor_text(&mut out, "access_level");
        push_cbor_opt_text(&mut out, &self.access_level);
        proof {
            reveal(membership_op_body_of);
            assert(out@ =~= membership_op_body(*self));
        }
        out
    }
}

/// The body bytes of a profile op, over the field views.
#[verifier::opaque]
pub open spec fn profile_op_body_of(
    op_type: Seq<char>,
    username: Seq<char>,
    avatar_blob_id: Option<Seq<char>>,
    bio: Option<Seq<char>>,
    available_for: Seq<Seq<char>>,
    is_public: bool,
    pre_key_bundle: Option<Seq<u8>>,
) -> Seq<u8> {
    cbor_hdr(5, 7) + cbor_text("op_type"@) + cbor_text(op_type) + cbor_text("username"@)
        + cbor_text(username) + cbor_text("avatar_blob_id"@) + cbor_opt_text(avatar_blob_id)
        + cbor_text("bio"@) + cbor_opt_text(bio) + cbor_text("available_for"@) + cbor_hdr(
        4,
        available_for.len() as nat,
    ) + cbor_text_array_items(available_for) + cbor_text("is_public"@) + cbor_bool(is_public)
        + cbor_text("pre_key_bundle"@) + (match pre_key_bundle {
        Some(b) => cbor_bytes(b),
        None => crate::cbor::cbor_null(),
    })
}

/// The body bytes of a profile op.
pub open spec fn profile_op_body(op: ProfileOp) -> Seq<u8> {
    profile_op_body_of(
        op.op_type@,
        op.username@,
        view_opt(op.avatar_blob_id),
        view_opt(op.bio),
        op.available_for.deep_view(),
        op.is_public,
        match op.pre_key_bundle {
            Some(b) => Some(b@),
            None => None,
        },
    )
}

impl ProfileOp {
    /// Encode the body.
    pub fn encode(&self) -> (r: Vec<u8>)
        ensures
            r@ == profile_op_body(*self),
    {
        let mut out: Vec<u8> = Vec::new();
        push_cbor_hdr(&mut out, 5, 7);
        push_cbor_text(&mut out, "op_type");
        push_cbor_text(&mut out, self.op_type.as_str());
        push_cbor_text(&mut out, "username");
        push_cbor_text(&mut out, self.username.as_str());
        push_cbor_text(&mut out, "avatar_blob_id");
        push_cbor_opt_text(&mut out, &self.avatar_blob_id);
        push_cbor_text(&mut out, "bio");
        push_cbor_opt_text(&mut out, &self.bio);
        push_cbor_text(&mut out, "available_for");
        push_cbor_text_array(&mut out, &self.available_for);
        push_cbor_text(&mut out, "is_public");
        push_cbor_bool(&mut out, self.is_public);
        push_cbor_text(&mut out, "pre_key_bundle");
        match &self.pre_key_bundle {
            Some(b) => {
                push_cbor_bytes(&mut out, b);
            },
            None => {
                out.push(0xf6);
            },
        }
        proof {
            reveal(profile_op_body_of);
            assert(out@ =~= profile_op_body(*self));
        }
        out
    }
}

/// The gossip envelope's bytes: a three-entry map of the log tag and the
/// op's header and body bytes.
pub open spec fn gossip_envelope_body(log_id: Seq<char>, header: Seq<u8>, body: Seq<u8>) -> Seq<
    u8,
> {
    cbor_hdr(5, 3) + cbor_text("log_id"@) + cbor_text(log_id) + cbor_text("header_bytes"@)
        + cbor_bytes(header) + cbor_text("body_bytes"@) + cbor_bytes(body)
}

/// The gossip envelope adds at most ninety bytes of framing around the
/// header and body it carries.
pub proof fn lemma_gossip_envelope_len(log_id: Seq<char>, header: Seq<u8>, body: Seq<u8>)
    requires
        vstd::utf8::encode_utf8(log_id).len() <= 16,
    ensures
        gossip_envelope_body(log_id, header, body).len() <= 90 + header.len() + body.len(),
{
    crate::cbor::lemma_cbor_hdr_len(5, 3);
    crate::cbor::lemma_cbor_hdr_len(3, vstd::utf8::encode_utf8("log_id"@).len());
    crate::cbor::lemma_cbor_hdr_len(3, vstd::utf8::encode_utf8(log_id).len());
    crate::cbor::lemma_cbor_hdr_len(3, vstd::utf8::encode_utf8("header_bytes"@).len());
    crate::cbor::lemma_cbor_hdr_len(2, header.len());
    crate::cbor::lemma_cbor_hdr_len(3, vstd::utf8::encode_utf8("body_bytes"@).len());
    crate::cbor::lemma_cbor_hdr_len(2, body.len());
    reveal_strlit("log_id");
    reveal_strlit("header_bytes");
    reveal_strlit("body_bytes");
    vstd::utf8::is_ascii_chars_encode_utf8("log_id"@);
    vstd::utf8::is_ascii_chars_encode_utf8("header_bytes"@);
    vstd::utf8::is_ascii_chars_encode_utf8("body_bytes"@);
}

/// A message envelope over a bounded header and a bounded body stays under
/// the AEAD's sealing limit.
pub proof fn lemma_dm_gossip_small(hb: Seq<u8>, body: Seq<u8>)
    requires
        hb.len() <= 186,
        body.len() + 400 < 0x1000_0000,
    ensures
        gossip_envelope_body("message"@, hb, body).len() + 32 < 0x1000_0000,
{
    reveal_strlit("message");
    vstd::utf8::is_ascii_chars_encode_utf8("message"@);
    lemma_gossip_envelope_len("message"@, hb, body);
}

impl GossipEnvelope {
    /// Encode the envelope for gossip.
    pub fn encode(&self) -> (r: Vec<u8>)
        ensures
            r@ == gossip_envelope_body(self.log_id@, self.header_bytes@, self.body_bytes@),
    {
        let mut out: Vec<u8> = Vec::new();
        push_cbor_hdr(&mut out, 5, 3);
        push_cbor_text(&mut out, "log_id");
        push_cbor_text(&mut out, self.log_id.as_str());
        push_cbor_text(&mut out, "header_bytes");
        push_cbor_bytes(&mut out, &self.header_bytes);
        push_cbor_text(&mut out, "body_bytes");
        push_cbor_bytes(&mut out, &self.body_bytes);
        proof {
            assert(out@ =~= gossip_envelope_body(
                self.log_id@,
                self.header_bytes@,
                self.body_bytes@,
            ));
        }
        out
    }
}

} // verus!
