//! The projector: typed op bodies applied to the read model, idempotently.
//!
//! Every handler is an upsert or delete keyed by a stable identifier, so
//! replaying any prefix of the op stream reproduces the same read model; the
//! replay law at the bottom states that once and for all update streams.

use vstd::prelude::*;

use crate::ops::{
    DmThreadOp, MembershipOp, MessageOp, OrgOp, OrgUpdateOp, ReactionOp, RoomDeleteOp, RoomOp,
    RoomUpdateOp, ProfileOp,
};
use crate::readmodel::Table;
use crate::topics::{clone_string, str_eq};

verus! {

/// A profile row, keyed by the author's hex identity.
pub struct ProfileRow {
    pub username: String,
    pub avatar_blob_id: Option<String>,
    pub bio: Option<String>,
    pub available_for: Vec<String>,
    pub is_public: bool,
    pub created_at: i64,
    pub updated_at: i64,
}

/// An organization row, keyed by the hex hash of its create op.
pub struct OrgRow {
    pub name: String,
    pub type_label: String,
    pub description: Option<String>,
    pub avatar_blob_id: Option<String>,
    pub cover_blob_id: Option<String>,
    pub is_public: bool,
    pub creator_key: String,
    pub created_at: i64,
}

/// A room row, keyed by the hex hash of its create op.
pub struct RoomRow {
    pub org_id: String,
    pub name: String,
    pub created_by: String,
    pub created_at: i64,
    pub enc_key_epoch: u64,
    pub is_archived: bool,
    pub archived_at: Option<i64>,
}

/// A message row, keyed by the hex hash of its op.
pub struct MessageRow {
    pub room_id: Option<String>,
    pub dm_thread_id: Option<String>,
    pub author_key: String,
    pub content_type: String,
    pub text_content: Option<String>,
    pub blob_id: Option<String>,
    pub embed_url: Option<String>,
    pub mentions: Vec<String>,
    pub reply_to: Option<String>,
    pub timestamp: i64,
    pub edited_at: Option<i64>,
    pub is_deleted: bool,
}

/// A direct-message thread row, keyed by the hex hash of its create op.
pub struct DmThreadRow {
    pub initiator_key: String,
    pub recipient_key: String,
    pub created_at: i64,
    pub last_message_at: Option<i64>,
}

/// One membership, keyed by `org_id:member_key`.
pub struct MembershipRow {
    pub org_id: String,
    pub member_key: String,
    pub access_level: String,
    pub joined_at: i64,
}

/// One reaction: the (message, emoji, reactor) triple, held at most once.
pub struct ReactionRow {
    pub message_id: String,
    pub emoji: String,
    pub reactor_key: String,
}

/// Metadata of a stored blob, keyed by its content hash.
pub struct BlobMeta {
    pub mime_type: String,
    pub room_id: Option<String>,
    pub sender_key: Option<String>,
    pub secret_id: Option<Vec<u8>>,
    pub nonce: Option<Vec<u8>>,
}

/// The whole read model.
pub struct ReadModel {
    pub profiles: Table<ProfileRow>,
    pub orgs: Table<OrgRow>,
    pub rooms: Table<RoomRow>,
    pub messages: Table<MessageRow>,
    pub dm_threads: Table<DmThreadRow>,
    pub memberships: Table<MembershipRow>,
    pub reactions: Vec<ReactionRow>,
    pub cursors: Table<u64>,
    pub topic_seqs: Table<i64>,
    pub blob_meta: Table<BlobMeta>,
}

/// The reaction triple is present.
pub open spec fn reaction_present(
    rs: Seq<ReactionRow>,
    message_id: Seq<char>,
    emoji: Seq<char>,
    reactor: Seq<char>,
) -> bool {
    exists|i: int|
        0 <= i < rs.len() && (#[trigger] rs[i]).message_id@ == message_id && rs[i].emoji@ == emoji
            && rs[i].reactor_key@ == reactor
}

impl ReadModel {
    /// Every table keeps its keys unique.
    pub open spec fn wf(&self) -> bool {
        &&& self.profiles.wf()
        &&& self.orgs.wf()
        &&& self.rooms.wf()
        &&& self.messages.wf()
        &&& self.dm_threads.wf()
        &&& self.memberships.wf()
        &&& self.cursors.wf()
        &&& self.topic_seqs.wf()
        &&& self.blob_meta.wf()
    }

    /// An empty read model.
    pub fn new() -> (r: ReadModel)
        ensures
            r.wf(),
            r.profiles.entries@.len() == 0,
            r.orgs.entries@.len() == 0,
            r.rooms.entries@.len() == 0,
            r.messages.entries@.len() == 0,
            r.dm_threads.entries@.len() == 0,
            r.memberships.entries@.len() == 0,
            r.reactions@.len() == 0,
            r.cursors.entries@.len() == 0,
            r.topic_seqs.entries@.len() == 0,
            r.blob_meta.entries@.len() == 0,
            forall|k: Seq<char>| r.orgs.spec_get(k) is None,
            forall|k: Seq<char>| r.rooms.spec_get(k) is None,
            forall|k: Seq<char>| r.messages.spec_get(k) is None,
            forall|k: Seq<char>| r.profiles.spec_get(k) is None,
            forall|k: Seq<char>| r.dm_threads.spec_get(k) is None,
            forall|k: Seq<char>| r.memberships.spec_get(k) is None,
            forall|k: Seq<char>| r.cursors.spec_get(k) is None,
            forall|k: Seq<char>| r.topic_seqs.spec_get(k) is None,
            forall|k: Seq<char>| r.blob_meta.spec_get(k) is None,
    {
        ReadModel {
            profiles: Table::new(),
            orgs: Table::new(),
            rooms: Table::new(),
            messages: Table::new(),
            dm_threads: Table::new(),
            memberships: Table::new(),
            reactions: Vec::new(),
            cursors: Table::new(),
            topic_seqs: Table::new(),
            blob_meta: Table::new(),
        }
    }

    /// Apply a profile op: upsert the author's profile, keeping the first
    /// creation time.
    pub fn project_profile(&mut self, author_hex: &str, op: &ProfileOp, now: i64)
        requires
            old(self).wf(),
        ensures
            final(self).wf(),
            final(self).profiles.spec_get(author_hex@) is Some,
            ({
                let row = final(self).profiles.spec_get(author_hex@)->0;
                row.username@ == op.username@ && row.is_public == op.is_public && row.updated_at
                    == now && row.created_at == (match old(self).profiles.spec_get(author_hex@) {
                    Some(prev) => prev.created_at,
                    None => now,
                })
            }),
    {
        let created_at: i64 = match self.profiles.get(author_hex) {
            Some(prev) => prev.created_at,
            None => now,
        };
        let mut available_for: Vec<String> = Vec::new();
        let mut i: usize = 0;
        while i < op.available_for.len()
            invariant
                i <= op.available_for@.len(),
            decreases op.available_for@.len() - i,
        {
            available_for.push(clone_string(&op.available_for[i]));
            i = i + 1;
        }
        let row = ProfileRow {
            username: clone_string(&op.username),
            avatar_blob_id: clone_opt(&op.avatar_blob_id),
            bio: clone_opt(&op.bio),
            available_for,
            is_public: op.is_public,
            created_at,
            updated_at: now,
        };
        self.profiles.upsert(author_hex.to_owned(), row);
    }

    /// Apply an organization create: insert the org under the op's hash and
    /// enroll the creator at the Manage level.
    pub fn project_org_create(&mut self, author_hex: &str, op_hash_hex: &str, op: &OrgOp, now: i64)
        requires
            old(self).wf(),
        ensures
            final(self).wf(),
            ({
                let row = final(self).orgs.spec_get(op_hash_hex@);
                row is Some && row->0.name@ == op.name@ && row->0.type_label@ == op.type_label@
                    && row->0.is_public == op.is_public && row->0.creator_key@ == author_hex@
                    && row->0.created_at == now
            }),
            final(self).memberships.spec_get(member_key_of(op_hash_hex@, author_hex@)) is Some,
            ({
                let m = final(self).memberships.spec_get(member_key_of(op_hash_hex@, author_hex@))->0;
                m.access_level@ == "manage"@ && m.org_id@ == op_hash_hex@ && m.member_key@
                    == author_hex@
            }),
            forall|k: Seq<char>|
                k != op_hash_hex@ ==> final(self).orgs.spec_get(k) == old(self).orgs.spec_get(k),
            forall|k: Seq<char>|
                k != member_key_of(op_hash_hex@, author_hex@) ==> final(self).memberships.spec_get(
                    k,
                ) == old(self).memberships.spec_get(k),
            final(self).profiles == old(self).profiles,
            final(self).rooms == old(self).rooms,
            final(self).messages == old(self).messages,
            final(self).dm_threads == old(self).dm_threads,
            final(self).reactions == old(self).reactions,
            final(self).cursors == old(self).cursors,
            final(self).topic_seqs == old(self).topic_seqs,
            final(self).blob_meta == old(self).blob_meta,
    {
        let row = OrgRow {
            name: clone_string(&op.name),
            type_label: clone_string(&op.type_label),
            description: clone_opt(&op.description),
            avatar_blob_id: clone_opt(&op.avatar_blob_id),
            cover_blob_id: clone_opt(&op.cover_blob_id),
            is_public: op.is_public,
            creator_key: author_hex.to_owned(),
            created_at: now,
        };
        self.orgs.upsert(op_hash_hex.to_owned(), row);
        let member = MembershipRow {
            org_id: op_hash_hex.to_owned(),
            member_key: author_hex.to_owned(),
            access_level: "manage".to_owned(),
            joined_at: now,
        };
        let key = membership_key(op_hash_hex, author_hex);
        self.memberships.upsert(key, member);
    }

    /// Apply a room create: insert the room under the op's hash.
    pub fn project_room_create(&mut self, author_hex: &str, op_hash_hex: &str, op: &RoomOp, now: i64)
        requires
            old(self).wf(),
        ensures
            final(self).wf(),
            ({
                let row = final(self).rooms.spec_get(op_hash_hex@);
                row is Some && row->0.org_id@ == op.org_id@ && row->0.name@ == op.name@
                    && row->0.created_by@ == author_hex@ && row->0.created_at == now
                    && row->0.enc_key_epoch == op.enc_key_epoch && !row->0.is_archived
            }),
            forall|k: Seq<char>|
                k != op_hash_hex@ ==> final(self).rooms.spec_get(k) == old(self).rooms.spec_get(k),
            final(self).orgs == old(self).orgs,
            final(self).memberships == old(self).memberships,
            final(self).messages == old(self).messages,
            final(self).dm_threads == old(self).dm_threads,
    {
        let row = RoomRow {
            org_id: clone_string(&op.org_id),
            name: clone_string(&op.name),
            created_by: author_hex.to_owned(),
            created_at: now,
            enc_key_epoch: op.enc_key_epoch,
            is_archived: false,
            archived_at: None,
        };
        self.rooms.upsert(op_hash_hex.to_owned(), row);
    }

    /// Apply a room rename: when the room exists and a name is given, only
    /// the name changes; otherwise nothing does.
    pub fn project_room_update(&mut self, op: &RoomUpdateOp)
        requires
            old(self).wf(),
        ensures
            final(self).wf(),
            match (crate::ops::view_opt(op.name), old(self).rooms.spec_get(op.room_id@)) {
                (Some(n), Some(row)) => ({
                    &&& final(self).rooms.spec_get(op.room_id@) is Some
                    &&& ({
                        let new_row = final(self).rooms.spec_get(op.room_id@)->0;
                        new_row.name@ == n && new_row.org_id@ == row.org_id@
                            && new_row.created_by@ == row.created_by@ && new_row.created_at
                            == row.created_at && new_row.enc_key_epoch == row.enc_key_epoch
                            && new_row.is_archived == row.is_archived && new_row.archived_at
                            == row.archived_at
                    })
                    &&& forall|k: Seq<char>|
                        k != op.room_id@ ==> final(self).rooms.spec_get(k) == old(self).rooms.spec_get(k)
                }),
                _ => final(self).rooms == old(self).rooms,
            },
            final(self).orgs == old(self).orgs,
            final(self).messages == old(self).messages,
            final(self).memberships == old(self).memberships,
            final(self).dm_threads == old(self).dm_threads,
    {
        if let Some(new_name) = &op.name {
            let updated: Option<RoomRow> = match self.rooms.get(op.room_id.as_str()) {
                Some(room) => Some(
                    RoomRow {
                        org_id: clone_string(&room.org_id),
                        name: clone_string(new_name),
                        created_by: clone_string(&room.created_by),
                        created_at: room.created_at,
                        enc_key_epoch: room.enc_key_epoch,
                        is_archived: room.is_archived,
                        archived_at: room.archived_at,
                    },
                ),
                None => None,
            };
            if let Some(row) = updated {
                self.rooms.upsert(clone_string(&op.room_id), row);
            }
        }
    }

    /// Apply a room archive or delete: a delete erases the row, an archive
    /// flags it with the archival time, anything else changes nothing; other
    /// rooms are untouched.
    pub fn project_room_delete(&mut self, op: &RoomDeleteOp, now: i64)
        requires
            old(self).wf(),
        ensures
            final(self).wf(),
            op.op_type@ == "delete_room"@ ==> final(self).rooms.spec_get(op.room_id@) is None
                && (forall|k: Seq<char>|
                k != op.room_id@ ==> final(self).rooms.spec_get(k) == old(self).rooms.spec_get(k)),
            op.op_type@ == "archive_room"@ ==> (match old(self).rooms.spec_get(op.room_id@) {
                Some(row) => ({
                    &&& final(self).rooms.spec_get(op.room_id@) is Some
                    &&& ({
                        let new_row = final(self).rooms.spec_get(op.room_id@)->0;
                        new_row.is_archived && new_row.archived_at == Some(now) && new_row.name@
                            == row.name@ && new_row.org_id@ == row.org_id@ && new_row.created_by@
                            == row.created_by@ && new_row.created_at == row.created_at
                            && new_row.enc_key_epoch == row.enc_key_epoch
                    })
                    &&& forall|k: Seq<char>|
                        k != op.room_id@ ==> final(self).rooms.spec_get(k) == old(self).rooms.spec_get(k)
                }),
                None => final(self).rooms == old(self).rooms,
            }),
            op.op_type@ != "delete_room"@ && op.op_type@ != "archive_room"@ ==> final(self).rooms
                == old(self).rooms,
            final(self).orgs == old(self).orgs,
            final(self).messages == old(self).messages,
            final(self).memberships == old(self).memberships,
    {
        proof {
            reveal_strlit("delete_room");
            reveal_strlit("archive_room");
            assert("delete_room"@.len() == 11 && "archive_room"@.len() == 12);
        }
        if str_eq(op.op_type.as_str(), "delete_room") {
            self.rooms.remove(op.room_id.as_str());
        } else if str_eq(op.op_type.as_str(), "archive_room") {
            let updated: Option<RoomRow> = match self.rooms.get(op.room_id.as_str()) {
                Some(room) => Some(
                    RoomRow {
                        org_id: clone_string(&room.org_id),
                        name: clone_string(&room.name),
                        created_by: clone_string(&room.created_by),
                        created_at: room.created_at,
                        enc_key_epoch: room.enc_key_epoch,
                        is_archived: true,
                        archived_at: Some(now),
                    },
                ),
                None => None,
            };
            if let Some(row) = updated {
                self.rooms.upsert(clone_string(&op.room_id), row);
            }
        }
    }

    /// Apply a message op: upsert the message under the op's hash, with the
    /// header timestamp and the deletion flag from the op type.
    pub fn project_message(
        &mut self,
        author_hex: &str,
        op_hash_hex: &str,
        op: &MessageOp,
        timestamp: i64,
    )
        requires
            old(self).wf(),
        ensures
            final(self).wf(),
            ({
                let row = final(self).messages.spec_get(op_hash_hex@);
                row is Some && row->0.author_key@ == author_hex@ && row->0.timestamp == timestamp
                    && row->0.is_deleted == (op.op_type@ == "delete"@) && row->0.content_type@
                    == op.content_type@ && row->0.edited_at is None
                    && crate::ops::view_opt(row->0.text_content) == crate::ops::view_opt(
                    op.text_content,
                ) && crate::ops::view_opt(row->0.room_id) == crate::ops::view_opt(op.room_id)
                    && crate::ops::view_opt(row->0.dm_thread_id) == crate::ops::view_opt(
                    op.dm_thread_id,
                ) && crate::ops::view_opt(row->0.blob_id) == crate::ops::view_opt(op.blob_id)
                    && crate::ops::view_opt(row->0.embed_url) == crate::ops::view_opt(op.embed_url)
                    && crate::ops::view_opt(row->0.reply_to) == crate::ops::view_opt(op.reply_to)
                    && row->0.mentions@.len() == op.mentions@.len() && (forall|j: int|
                    0 <= j < op.mentions@.len() ==> (#[trigger] row->0.mentions@[j])@
                        == op.mentions@[j]@)
            }),
            forall|k: Seq<char>|
                k != op_hash_hex@ ==> final(self).messages.spec_get(k) == old(self).messages.spec_get(k),
            final(self).profiles == old(self).profiles,
            final(self).orgs == old(self).orgs,
            final(self).rooms == old(self).rooms,
            final(self).dm_threads == old(self).dm_threads,
            final(self).memberships == old(self).memberships,
            final(self).reactions == old(self).reactions,
            final(self).cursors == old(self).cursors,
            final(self).topic_seqs == old(self).topic_seqs,
            final(self).blob_meta == old(self).blob_meta,
    {
        proof {
            reveal_strlit("delete");
        }
        let is_deleted = str_eq(op.op_type.as_str(), "delete");
        let mut mentions: Vec<String> = Vec::new();
        let mut i: usize = 0;
        while i < op.mentions.len()
            invariant
                i <= op.mentions@.len(),
                mentions@.len() == i,
                forall|j: int| 0 <= j < i ==> (#[trigger] mentions@[j])@ == op.mentions@[j]@,
            decreases op.mentions@.len() - i,
        {
            let ghost pre = mentions@;
            mentions.push(clone_string(&op.mentions[i]));
            i = i + 1;
            proof {
                assert forall|j: int| 0 <= j < i implies (#[trigger] mentions@[j])@
                    == op.mentions@[j]@ by {
                    if j < i - 1 {
                        assert(mentions@[j] == pre[j]);
                    }
                }
            }
        }
        let row = MessageRow {
            room_id: clone_opt(&op.room_id),
            dm_thread_id: clone_opt(&op.dm_thread_id),
            author_key: author_hex.to_owned(),
            content_type: clone_string(&op.content_type),
            text_content: clone_opt(&op.text_content),
            blob_id: clone_opt(&op.blob_id),
            embed_url: clone_opt(&op.embed_url),
            mentions,
            reply_to: clone_opt(&op.reply_to),
            timestamp,
            edited_at: None,
            is_deleted,
        };
        self.messages.upsert(op_hash_hex.to_owned(), row);
    }

    /// Apply a reaction op: add or remove the (message, emoji, reactor)
    /// triple; adding an existing triple changes nothing.
    pub fn project_reaction(&mut self, author_hex: &str, op: &ReactionOp)
        requires
            old(self).wf(),
        ensures
            final(self).wf(),
            op.op_type@ == "add_reaction"@ ==> reaction_present(
                final(self).reactions@,
                op.message_id@,
                op.emoji@,
                author_hex@,
            ),
            op.op_type@ == "remove_reaction"@ ==> !reaction_present(
                final(self).reactions@,
                op.message_id@,
                op.emoji@,
                author_hex@,
            ),
    {
        proof {
            reveal_strlit("add_reaction");
            reveal_strlit("remove_reaction");
        }
        proof {
            assert("add_reaction"@.len() == 12);
            assert("remove_reaction"@.len() == 15);
        }
        if str_eq(op.op_type.as_str(), "add_reaction") {
            let already = self.reaction_exists(op.message_id.as_str(), op.emoji.as_str(), author_hex);
            if !already {
                self.reactions.push(
                    ReactionRow {
                        message_id: clone_string(&op.message_id),
                        emoji: clone_string(&op.emoji),
                        reactor_key: author_hex.to_owned(),
                    },
                );
                proof {
                    let rs = self.reactions@;
                    assert(rs[rs.len() - 1].message_id@ == op.message_id@);
                    assert(rs[rs.len() - 1].emoji@ == op.emoji@);
                    assert(rs[rs.len() - 1].reactor_key@ == author_hex@);
                    assert(reaction_present(rs, op.message_id@, op.emoji@, author_hex@));
                }
            }
        } else if str_eq(op.op_type.as_str(), "remove_reaction") {
            self.remove_reaction(op.message_id.as_str(), op.emoji.as_str(), author_hex);
        }
    }

    /// Whether a reaction triple is present.
    pub fn reaction_exists(&self, message_id: &str, emoji: &str, reactor: &str) -> (r: bool)
        ensures
            r == reaction_present(self.reactions@, message_id@, emoji@, reactor@),
    {
        let n = self.reactions.len();
        let mut i: usize = 0;
        while i < n
            invariant
                i <= n,
                n == self.reactions@.len(),
                forall|j: int|
                    0 <= j < i ==> !((#[trigger] self.reactions@[j]).message_id@ == message_id@
                        && self.reactions@[j].emoji@ == emoji@ && self.reactions@[j].reactor_key@
                        == reactor@),
            decreases n - i,
        {
            let row = &self.reactions[i];
            if str_eq(row.message_id.as_str(), message_id) && str_eq(row.emoji.as_str(), emoji)
                && str_eq(row.reactor_key.as_str(), reactor) {
                return true;
            }
            i = i + 1;
        }
        false
    }

    /// Drop every copy of a reaction triple.
    fn remove_reaction(&mut self, message_id: &str, emoji: &str, reactor: &str)
        requires
            old(self).wf(),
        ensures
            final(self).wf(),
            !reaction_present(final(self).reactions@, message_id@, emoji@, reactor@),
    {
        let mut kept: Vec<ReactionRow> = Vec::new();
        let n = self.reactions.len();
        let mut i: usize = 0;
        while i < n
            invariant
                i <= n,
                n == self.reactions@.len(),
                !reaction_present(kept@, message_id@, emoji@, reactor@),
            decreases n - i,
        {
            let ghost kept_pre = kept@;
            let row = &self.reactions[i];
            let matched = str_eq(row.message_id.as_str(), message_id) && str_eq(
                row.emoji.as_str(),
                emoji,
            ) && str_eq(row.reactor_key.as_str(), reactor);
            if !matched {
                kept.push(
                    ReactionRow {
                        message_id: clone_string(&row.message_id),
                        emoji: clone_string(&row.emoji),
                        reactor_key: clone_string(&row.reactor_key),
                    },
                );
                proof {
                    assert forall|j: int|
                        0 <= j < kept@.len() implies !((#[trigger] kept@[j]).message_id@
                        == message_id@ && kept@[j].emoji@ == emoji@ && kept@[j].reactor_key@
                        == reactor@) by {
                        if j < kept_pre.len() {
                            assert(kept@[j] == kept_pre[j]);
                        }
                    }
                }
            }
            i = i + 1;
        }
        self.reactions = kept;
    }

    /// Apply a thread create: insert the thread under the op's hash, with the
    /// author as initiator.
    pub fn project_dm_thread(&mut self, author_hex: &str, op_hash_hex: &str, op: &DmThreadOp, now: i64)
        requires
            old(self).wf(),
        ensures
            final(self).wf(),
            ({
                let row = final(self).dm_threads.spec_get(op_hash_hex@);
                row is Some && row->0.initiator_key@ == author_hex@ && row->0.recipient_key@
                    == op.recipient_key@ && row->0.created_at == now
            }),
            forall|k: Seq<char>|
                k != op_hash_hex@ ==> final(self).dm_threads.spec_get(k) == old(
                    self,
                ).dm_threads.spec_get(k),
            final(self).profiles == old(self).profiles,
            final(self).orgs == old(self).orgs,
            final(self).rooms == old(self).rooms,
            final(self).messages == old(self).messages,
            final(self).memberships == old(self).memberships,
            final(self).reactions == old(self).reactions,
            final(self).cursors == old(self).cursors,
            final(self).topic_seqs == old(self).topic_seqs,
            final(self).blob_meta == old(self).blob_meta,
    {
        let row = DmThreadRow {
            initiator_key: author_hex.to_owned(),
            recipient_key: clone_string(&op.recipient_key),
            created_at: now,
            last_message_at: None,
        };
        self.dm_threads.upsert(op_hash_hex.to_owned(), row);
    }

    /// Apply a membership op: an add or permission change upserts the row, a
    /// remove erases it, anything else changes nothing; other members keep
    /// their rows.
    pub fn project_membership(&mut self, op: &MembershipOp, now: i64)
        requires
            old(self).wf(),
        ensures
            final(self).wf(),
            op.op_type@ == "remove_member"@ ==> final(self).memberships.spec_get(
                member_key_of(op.org_id@, op.member_key@),
            ) is None && (forall|k: Seq<char>|
                k != member_key_of(op.org_id@, op.member_key@) ==> final(self).memberships.spec_get(k) == old(self).memberships.spec_get(k)),
            (op.op_type@ == "add_member"@ || op.op_type@ == "change_permission"@) ==> (
            match crate::ops::view_opt(op.access_level) {
                Some(level) => ({
                    &&& final(self).memberships.spec_get(
                        member_key_of(op.org_id@, op.member_key@),
                    ) is Some
                    &&& ({
                        let row = final(self).memberships.spec_get(
                            member_key_of(op.org_id@, op.member_key@),
                        )->0;
                        row.org_id@ == op.org_id@ && row.member_key@ == op.member_key@
                            && row.access_level@ == level && row.joined_at == now
                    })
                    &&& forall|k: Seq<char>|
                        k != member_key_of(op.org_id@, op.member_key@) ==> final(self).memberships.spec_get(k) == old(self).memberships.spec_get(k)
                }),
                None => final(self).memberships == old(self).memberships,
            }),
            op.op_type@ != "remove_member"@ && op.op_type@ != "add_member"@ && op.op_type@
                != "change_permission"@ ==> final(self).memberships == old(self).memberships,
            final(self).rooms == old(self).rooms,
            final(self).orgs == old(self).orgs,
            final(self).messages == old(self).messages,
    {
        proof {
            reveal_strlit("add_member");
            reveal_strlit("remove_member");
            reveal_strlit("change_permission");
            assert("add_member"@.len() == 10 && "remove_member"@.len() == 13
                && "change_permission"@.len() == 17);
        }
        let key = membership_key(op.org_id.as_str(), op.member_key.as_str());
        if str_eq(op.op_type.as_str(), "remove_member") {
            self.memberships.remove(key.as_str());
        } else if str_eq(op.op_type.as_str(), "add_member") || str_eq(
            op.op_type.as_str(),
            "change_permission",
        ) {
            if let Some(level) = &op.access_level {
                let row = MembershipRow {
                    org_id: clone_string(&op.org_id),
                    member_key: clone_string(&op.member_key),
                    access_level: clone_string(level),
                    joined_at: now,
                };
                self.memberships.upsert(key, row);
            }
        }
    }

    /// The cursor of a (log, author) pair: the count of ops already projected.
    pub fn get_cursor(&self, log_id: &str, author_hex: &str) -> (r: u64)
        ensures
            r == (match self.cursors.spec_get(member_key_of(log_id@, author_hex@)) {
                Some(c) => c,
                None => 0u64,
            }),
    {
        let key = membership_key(log_id, author_hex);
        match self.cursors.get(key.as_str()) {
            Some(c) => *c,
            None => 0,
        }
    }

    /// Advance the cursor of a (log, author) pair.
    pub fn set_cursor(&mut self, log_id: &str, author_hex: &str, cursor: u64)
        requires
            old(self).wf(),
        ensures
            final(self).wf(),
            final(self).cursors.spec_get(member_key_of(log_id@, author_hex@)) == Some(cursor),
    {
        let key = membership_key(log_id, author_hex);
        self.cursors.upsert(key, cursor);
    }

    /// The last relay-acknowledged sequence of a topic, 0 when unknown.
    pub fn get_topic_seq(&self, topic_hex: &str) -> (r: i64)
        ensures
            r == (match self.topic_seqs.spec_get(topic_hex@) {
                Some(v) => v,
                None => 0i64,
            }),
    {
        match self.topic_seqs.get(topic_hex) {
            Some(v) => *v,
            None => 0,
        }
    }

    /// Record the last relay-acknowledged sequence of a topic.
    pub fn set_topic_seq(&mut self, topic_hex: &str, seq: i64)
        requires
            old(self).wf(),
        ensures
            final(self).wf(),
            final(self).topic_seqs.spec_get(topic_hex@) == Some(seq),
    {
        self.topic_seqs.upsert(topic_hex.to_owned(), seq);
    }
}

/// The composite key of a pair of identifiers: the first, a colon, the second.
/// Identifiers on the left are hex hashes or log tags, which hold no colon,
/// so the key is unambiguous.
pub open spec fn member_key_of(org: Seq<char>, member: Seq<char>) -> Seq<char> {
    org + seq![':'] + member
}

/// Build the composite key of a pair of identifiers.
pub fn membership_key(org: &str, member: &str) -> (r: String)
    ensures
        r@ == member_key_of(org@, member@),
{
    let mut out = org.to_owned();
    out.append(":");
    out.append(member);
    proof {
        reveal_strlit(":");
        assert(out@ =~= member_key_of(org@, member@));
    }
    out
}

/// Copy an optional string.
pub fn clone_opt(o: &Option<String>) -> (r: Option<String>)
    ensures
        (match (r, o) {
            (Some(a), Some(b)) => a@ == b@,
            (None, None) => true,
            _ => false,
        }),
{
    match o {
        Some(s) => Some(clone_string(s)),
        None => None,
    }
}

/// One abstract projector effect on a table: set a key's row or erase it.
pub open spec fn apply_update<V>(
    m: Map<Seq<char>, V>,
    key: Seq<char>,
    val: Option<V>,
) -> Map<Seq<char>, V> {
    match val {
        Some(v) => m.insert(key, v),
        None => m.remove(key),
    }
}

/// A stream of effects applied in order.
pub open spec fn apply_updates<V>(
    m: Map<Seq<char>, V>,
    us: Seq<(Seq<char>, Option<V>)>,
) -> Map<Seq<char>, V>
    decreases us.len(),
{
    if us.len() == 0 {
        m
    } else {
        apply_update(apply_updates(m, us.drop_last()), us.last().0, us.last().1)
    }
}

/// What a stream of effects leaves at one key: the last effect on that key,
/// or what was there before.
pub proof fn lemma_apply_updates_lookup<V>(
    m: Map<Seq<char>, V>,
    us: Seq<(Seq<char>, Option<V>)>,
    k: Seq<char>,
)
    ensures
        apply_updates(m, us).contains_key(k) == (if has_update(us, k) {
            last_update(us, k) is Some
        } else {
            m.contains_key(k)
        }),
        apply_updates(m, us).contains_key(k) ==> apply_updates(m, us)[k] == (if has_update(us, k) {
            last_update(us, k)->0
        } else {
            m[k]
        }),
    decreases us.len(),
{
    if us.len() > 0 {
        lemma_apply_updates_lookup(m, us.drop_last(), k);
    }
}

/// Some effect in the stream touches the key.
pub open spec fn has_update<V>(us: Seq<(Seq<char>, Option<V>)>, k: Seq<char>) -> bool
    decreases us.len(),
{
    if us.len() == 0 {
        false
    } else if us.last().0 == k {
        true
    } else {
        has_update(us.drop_last(), k)
    }
}

/// The last effect on the key.
pub open spec fn last_update<V>(us: Seq<(Seq<char>, Option<V>)>, k: Seq<char>) -> Option<V>
    decreases us.len(),
{
    if us.len() == 0 {
        None
    } else if us.last().0 == k {
        us.last().1
    } else {
        last_update(us.drop_last(), k)
    }
}

/// Replaying the projector is idempotent: a table that already reflects a
/// stream of keyed upserts and deletes is left exactly as it was by applying
/// the same stream again — so re-running any already-projected prefix of the
/// op stream reproduces the same read model.
pub proof fn lemma_replay_idempotent<V>(m: Map<Seq<char>, V>, us: Seq<(Seq<char>, Option<V>)>)
    ensures
        apply_updates(apply_updates(m, us), us) =~= apply_updates(m, us),
{
    let once = apply_updates(m, us);
    let twice = apply_updates(once, us);
    assert forall|k: Seq<char>| twice.contains_key(k) == once.contains_key(k) && (
    twice.contains_key(k) ==> twice[k] == once[k]) by {
        lemma_apply_updates_lookup(m, us, k);
        lemma_apply_updates_lookup(once, us, k);
    }
    assert forall|k: Seq<char>| #[trigger] twice.dom().contains(k) <==> once.dom().contains(
        k,
    ) by {
        lemma_apply_updates_lookup(m, us, k);
        lemma_apply_updates_lookup(once, us, k);
    }
}

} // verus!
