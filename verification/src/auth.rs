//! Membership and authorization: the access lattice and per-organization
//! membership state, with Manage-gated mutations.

use vstd::prelude::*;

use vstd::string::StringSliceAdditionalSpecFns;

use crate::extcrypto::{blake3_hash, blake3_of};
use crate::topics::{append_bytes, clone_string, str_eq};

verus! {

/// The four access levels, ordered `Pull < Read < Write < Manage`.
#[derive(Debug, Clone, Copy, PartialEq, Eq, Structural)]
pub enum AccessLevel {
    Pull,
    Read,
    Write,
    Manage,
}

/// Errors of the authorization layer.
#[derive(Debug)]
pub enum AuthError {
    /// A token's signature does not verify, or a field of it is malformed.
    InvalidSignature,
    /// A token's expiry lies before the given current time.
    TokenExpired,
    /// The caller lacks the access level the mutation demands.
    Unauthorized(String),
    /// A token could not be encoded or decoded.
    Serialization(String),
}

impl AccessLevel {
    /// Numeric rank inside the lattice.
    pub open spec fn rank(self) -> int {
        match self {
            AccessLevel::Pull => 0,
            AccessLevel::Read => 1,
            AccessLevel::Write => 2,
            AccessLevel::Manage => 3,
        }
    }

    /// The lowercase name of the level.
    pub open spec fn spec_name(self) -> Seq<char> {
        match self {
            AccessLevel::Pull => "pull"@,
            AccessLevel::Read => "read"@,
            AccessLevel::Write => "write"@,
            AccessLevel::Manage => "manage"@,
        }
    }

    /// The level a lowercase name denotes, if any.
    pub open spec fn spec_from_name(s: Seq<char>) -> Option<AccessLevel> {
        if s == "pull"@ {
            Some(AccessLevel::Pull)
        } else if s == "read"@ {
            Some(AccessLevel::Read)
        } else if s == "write"@ {
            Some(AccessLevel::Write)
        } else if s == "manage"@ {
            Some(AccessLevel::Manage)
        } else {
            None
        }
    }

    /// The lowercase name of the level.
    pub fn as_str(&self) -> (r: &'static str)
        ensures
            r@ == self.spec_name(),
    {
        match self {
            AccessLevel::Pull => "pull",
            AccessLevel::Read => "read",
            AccessLevel::Write => "write",
            AccessLevel::Manage => "manage",
        }
    }

    /// Parse a level name; `None` exactly on unknown names.
    pub fn from_str(s: &str) -> (r: Option<AccessLevel>)
        ensures
            r == AccessLevel::spec_from_name(s@),
    {
        if str_eq(s, "pull") {
            Some(AccessLevel::Pull)
        } else if str_eq(s, "read") {
            Some(AccessLevel::Read)
        } else if str_eq(s, "write") {
            Some(AccessLevel::Write)
        } else if str_eq(s, "manage") {
            Some(AccessLevel::Manage)
        } else {
            None
        }
    }

    /// True when this level grants everything `required` grants: containment
    /// in the lattice order.
    pub fn has_permission(&self, required: AccessLevel) -> (r: bool)
        ensures
            r == (self.rank() >= required.rank()),
    {
        let mine: u8 = match self {
            AccessLevel::Pull => 0,
            AccessLevel::Read => 1,
            AccessLevel::Write => 2,
            AccessLevel::Manage => 3,
        };
        let needed: u8 = match required {
            AccessLevel::Pull => 0,
            AccessLevel::Read => 1,
            AccessLevel::Write => 2,
            AccessLevel::Manage => 3,
        };
        mine >= needed
    }

    /// Distinct levels have distinct names: parsing inverts printing.
    pub proof fn lemma_name_round_trip(self)
        ensures
            AccessLevel::spec_from_name(self.spec_name()) == Some(self),
    {
        reveal_strlit("pull");
        reveal_strlit("read");
        reveal_strlit("write");
        reveal_strlit("manage");
        assert("pull"@[0] == 'p' && "read"@[0] == 'r' && "write"@[0] == 'w' && "manage"@[0]
            == 'm');
    }
}

/// The level a member holds, looked up from the end of the list so later
/// entries shadow earlier ones.
pub open spec fn assoc_level(s: Seq<(String, AccessLevel)>, key: Seq<char>) -> Option<AccessLevel>
    decreases s.len(),
{
    if s.len() == 0 {
        None
    } else if s.last().0@ == key {
        Some(s.last().1)
    } else {
        assoc_level(s.drop_last(), key)
    }
}

/// In-memory membership of one organization: each member's identity (a
/// 64-character hex key) mapped to an access level.
pub struct MembershipState {
    pub org_id: String,
    pub members: Vec<(String, AccessLevel)>,
}

impl MembershipState {
    /// The level a member holds, if any.
    pub open spec fn spec_level(&self, key: Seq<char>) -> Option<AccessLevel> {
        assoc_level(self.members@, key)
    }

    /// An empty membership.
    pub fn new(org_id: String) -> (r: MembershipState)
        ensures
            r.org_id == org_id,
            forall|k: Seq<char>| r.spec_level(k) is None,
    {
        MembershipState { org_id, members: Vec::new() }
    }

    /// Insert or overwrite a member's level.
    pub fn add_member(&mut self, member_key: String, level: AccessLevel)
        ensures
            final(self).org_id == old(self).org_id,
            forall|k: Seq<char>|
                final(self).spec_level(k) == (if k == member_key@ {
                    Some(level)
                } else {
                    old(self).spec_level(k)
                }),
    {
        self.members.push((member_key, level));
        proof {
            let s = self.members@;
            assert(s.drop_last() =~= old(self).members@);
            assert forall|k: Seq<char>|
                self.spec_level(k) == (if k == s.last().0@ {
                    Some(s.last().1)
                } else {
                    old(self).spec_level(k)
                }) by {
            }
        }
    }

    /// Remove a member entirely.
    pub fn remove_member(&mut self, member_key: &str)
        ensures
            final(self).org_id == old(self).org_id,
            forall|k: Seq<char>|
                final(self).spec_level(k) == (if k == member_key@ {
                    None::<AccessLevel>
                } else {
                    old(self).spec_level(k)
                }),
    {
        let mut kept: Vec<(String, AccessLevel)> = Vec::new();
        let n = self.members.len();
        let mut i: usize = 0;
        while i < n
            invariant
                i <= n,
                n == self.members@.len(),
                self == old(self),
                forall|k: Seq<char>|
                    assoc_level(kept@, k) == (if k == member_key@ {
                        None::<AccessLevel>
                    } else {
                        assoc_level(self.members@.take(i as int), k)
                    }),
            decreases n - i,
        {
            let entry = &self.members[i];
            let ghost kept_pre = kept@;
            if !str_eq(entry.0.as_str(), member_key) {
                let copied_key = clone_string(&entry.0);
                let copied_level = entry.1;
                kept.push((copied_key, copied_level));
                i = i + 1;
                proof {
                    let taken = self.members@.take(i as int);
                    assert(taken.drop_last() =~= self.members@.take(i as int - 1));
                    assert(taken.last() == self.members@[i as int - 1]);
                    assert(kept@.drop_last() =~= kept_pre);
                    assert(kept@.last().0@ == self.members@[i as int - 1].0@);
                    assert(kept@.last().1 == self.members@[i as int - 1].1);
                    assert(kept@.last().0@ != member_key@);
                    assert forall|k: Seq<char>|
                        assoc_level(kept@, k) == (if k == member_key@ {
                            None::<AccessLevel>
                        } else {
                            assoc_level(taken, k)
                        }) by {
                        assert(assoc_level(kept@, k) == (if k == kept@.last().0@ {
                            Some(kept@.last().1)
                        } else {
                            assoc_level(kept_pre, k)
                        }));
                        assert(assoc_level(taken, k) == (if k == taken.last().0@ {
                            Some(taken.last().1)
                        } else {
                            assoc_level(self.members@.take(i as int - 1), k)
                        }));
                    }
                }
            } else {
                i = i + 1;
                proof {
                    let taken = self.members@.take(i as int);
                    assert(taken.drop_last() =~= self.members@.take(i as int - 1));
                    assert(taken.last() == self.members@[i as int - 1]);
                    assert(taken.last().0@ == member_key@);
                    assert forall|k: Seq<char>|
                        assoc_level(kept@, k) == (if k == member_key@ {
                            None::<AccessLevel>
                        } else {
                            assoc_level(taken, k)
                        }) by {
                        assert(assoc_level(taken, k) == (if k == taken.last().0@ {
                            Some(taken.last().1)
                        } else {
                            assoc_level(self.members@.take(i as int - 1), k)
                        }));
                    }
                }
            }
        }
        self.members = kept;
        proof {
            assert(old(self).members@.take(n as int) =~= old(self).members@);
        }
    }

    /// Overwrite a member's level; same as inserting.
    pub fn change_permission(&mut self, member_key: String, new_level: AccessLevel)
        ensures
            final(self).org_id == old(self).org_id,
            forall|k: Seq<char>|
                final(self).spec_level(k) == (if k == member_key@ {
                    Some(new_level)
                } else {
                    old(self).spec_level(k)
                }),
    {
        self.add_member(member_key, new_level);
    }

    /// The level a member holds, or `None` for a non-member.
    pub fn get_level(&self, member_key: &str) -> (r: Option<AccessLevel>)
        ensures
            r == self.spec_level(member_key@),
    {
        let n = self.members.len();
        let mut i: usize = n;
        proof {
            assert(self.members@.take(n as int) =~= self.members@);
        }
        while i > 0
            invariant
                i <= n,
                n == self.members@.len(),
                assoc_level(self.members@, member_key@) == assoc_level(
                    self.members@.take(i as int),
                    member_key@,
                ),
            decreases i,
        {
            i = i - 1;
            let entry = &self.members[i];
            proof {
                let taken = self.members@.take(i as int + 1);
                assert(taken.last() == self.members@[i as int]);
                assert(taken.drop_last() =~= self.members@.take(i as int));
            }
            if str_eq(entry.0.as_str(), member_key) {
                return Some(entry.1);
            }
        }
        None
    }

    /// True when the member holds at least `required`.
    pub fn has_permission(&self, member_key: &str, required: AccessLevel) -> (r: bool)
        ensures
            r == match self.spec_level(member_key@) {
                Some(level) => level.rank() >= required.rank(),
                None => false,
            },
    {
        match self.get_level(member_key) {
            Some(level) => level.has_permission(required),
            None => false,
        }
    }

    /// True when the key belongs to a member.
    pub fn is_member(&self, member_key: &str) -> (r: bool)
        ensures
            r == (self.spec_level(member_key@) is Some),
    {
        self.get_level(member_key).is_some()
    }
}

/// Bytes hashed for an add-member operation: `add:<key>:<level>`.
pub open spec fn add_member_preimage(member_key: Seq<u8>, level: AccessLevel) -> Seq<u8> {
    seq![0x61u8, 0x64, 0x64, 0x3a] + member_key + seq![0x3au8] + vstd::utf8::encode_utf8(
        level.spec_name(),
    )
}

/// Bytes hashed for a remove-member operation: `remove:<key>`.
pub open spec fn remove_member_preimage(member_key: Seq<u8>) -> Seq<u8> {
    seq![0x72u8, 0x65, 0x6d, 0x6f, 0x76, 0x65, 0x3a] + member_key
}

/// Bytes hashed for a change-permission operation: `change:<key>:<level>`.
pub open spec fn change_permission_preimage(member_key: Seq<u8>, level: AccessLevel) -> Seq<u8> {
    seq![0x63u8, 0x68, 0x61, 0x6e, 0x67, 0x65, 0x3a] + member_key + seq![0x3au8]
        + vstd::utf8::encode_utf8(level.spec_name())
}

/// Add a member. Only a Manage-level caller may do so; on success the member
/// holds the level and the returned hash binds the mutation.
pub fn add_member(
    state: &mut MembershipState,
    adder_key: &str,
    new_member_key: String,
    level: AccessLevel,
) -> (r: Result<Vec<u8>, AuthError>)
    ensures
        r is Ok <==> match old(state).spec_level(adder_key@) {
            Some(l) => l.rank() >= AccessLevel::Manage.rank(),
            None => false,
        },
        r is Ok ==> final(state).org_id == old(state).org_id && (forall|k: Seq<char>|
            final(state).spec_level(k) == (if k == new_member_key@ {
                Some(level)
            } else {
                old(state).spec_level(k)
            })) && r->Ok_0@ == blake3_of(
            add_member_preimage(vstd::utf8::encode_utf8(new_member_key@), level),
        ),
        r is Err ==> *final(state) == *old(state),
{
    if !state.has_permission(adder_key, AccessLevel::Manage) {
        return Err(AuthError::Unauthorized(
            "only Manage-level members can add members".to_owned(),
        ));
    }
    let mut buf: Vec<u8> = Vec::new();
    // "add:"
    buf.push(0x61);
    buf.push(0x64);
    buf.push(0x64);
    buf.push(0x3a);
    let key_bytes = new_member_key.as_str().as_bytes_vec();
    append_bytes(&mut buf, &key_bytes);
    buf.push(0x3a);
    let level_bytes = level.as_str().as_bytes_vec();
    append_bytes(&mut buf, &level_bytes);
    proof {
        assert(buf@ =~= add_member_preimage(vstd::utf8::encode_utf8(new_member_key@), level));
    }
    let hash = blake3_hash(buf.as_slice());
    state.add_member(new_member_key, level);
    Ok(hash)
}

/// Remove a member. Only a Manage-level caller may do so, and never itself:
/// the last manager locking itself out would orphan the organization.
pub fn remove_member(
    state: &mut MembershipState,
    remover_key: &str,
    member_to_remove: &str,
) -> (r: Result<Vec<u8>, AuthError>)
    ensures
        r is Ok <==> (match old(state).spec_level(remover_key@) {
            Some(l) => l.rank() >= AccessLevel::Manage.rank(),
            None => false,
        }) && remover_key@ != member_to_remove@,
        r is Ok ==> final(state).org_id == old(state).org_id && (forall|k: Seq<char>|
            final(state).spec_level(k) == (if k == member_to_remove@ {
                None::<AccessLevel>
            } else {
                old(state).spec_level(k)
            })) && r->Ok_0@ == blake3_of(remove_member_preimage(member_to_remove.spec_bytes())),
        r is Err ==> *final(state) == *old(state),
{
    if !state.has_permission(remover_key, AccessLevel::Manage) {
        return Err(AuthError::Unauthorized(
            "only Manage-level members can remove members".to_owned(),
        ));
    }
    if str_eq(remover_key, member_to_remove) {
        return Err(AuthError::Unauthorized("cannot remove yourself".to_owned()));
    }
    let mut buf: Vec<u8> = Vec::new();
    // "remove:"
    buf.push(0x72);
    buf.push(0x65);
    buf.push(0x6d);
    buf.push(0x6f);
    buf.push(0x76);
    buf.push(0x65);
    buf.push(0x3a);
    let key_bytes = member_to_remove.as_bytes_vec();
    append_bytes(&mut buf, &key_bytes);
    proof {
        assert(buf@ =~= remove_member_preimage(member_to_remove.spec_bytes()));
    }
    let hash = blake3_hash(buf.as_slice());
    state.remove_member(member_to_remove);
    Ok(hash)
}

/// Change a member's level. Only a Manage-level caller may do so.
pub fn change_permission(
    state: &mut MembershipState,
    changer_key: &str,
    target_member: String,
    new_level: AccessLevel,
) -> (r: Result<Vec<u8>, AuthError>)
    ensures
        r is Ok <==> match old(state).spec_level(changer_key@) {
            Some(l) => l.rank() >= AccessLevel::Manage.rank(),
            None => false,
        },
        r is Ok ==> final(state).org_id == old(state).org_id && (forall|k: Seq<char>|
            final(state).spec_level(k) == (if k == target_member@ {
                Some(new_level)
            } else {
                old(state).spec_level(k)
            })) && r->Ok_0@ == blake3_of(
            change_permission_preimage(vstd::utf8::encode_utf8(target_member@), new_level),
        ),
        r is Err ==> *final(state) == *old(state),
{
    if !state.has_permission(changer_key, AccessLevel::Manage) {
        return Err(AuthError::Unauthorized(
            "only Manage-level members can change permissions".to_owned(),
        ));
    }
    let mut buf: Vec<u8> = Vec::new();
    // "change:"
    buf.push(0x63);
    buf.push(0x68);
    buf.push(0x61);
    buf.push(0x6e);
    buf.push(0x67);
    buf.push(0x65);
    buf.push(0x3a);
    let key_bytes = target_member.as_str().as_bytes_vec();
    append_bytes(&mut buf, &key_bytes);
    buf.push(0x3a);
    let level_bytes = new_level.as_str().as_bytes_vec();
    append_bytes(&mut buf, &level_bytes);
    proof {
        assert(buf@ =~= change_permission_preimage(vstd::utf8::encode_utf8(target_member@), new_level));
    }
    let hash = blake3_hash(buf.as_slice());
    state.change_permission(target_member, new_level);
    Ok(hash)
}

} // verus!
