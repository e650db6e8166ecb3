//! Group state for the encryption layer: the membership trackers of the two
//! group schemes and the per-group orderer.
//!
//! Rooms use the plain tracker: members are an unordered set. Direct-message
//! groups use the acknowledged tracker, which also records pending adds and
//! removes with their acknowledgements. The orderer queues incoming messages
//! and releases them in arrival order only once the local peer was welcomed.

use vstd::prelude::*;

use crate::topics::bytes_eq;

verus! {


/// Copy a byte vector.
pub fn copy_bytes(v: &Vec<u8>) -> (r: Vec<u8>)
    ensures
        r@ == v@,
{
    vstd::slice::slice_to_vec(v.as_slice())
}

/// An identity is present in a list of 32-byte keys.
pub open spec fn id_present(ids: Seq<Vec<u8>>, id: Seq<u8>) -> bool {
    exists|i: int| 0 <= i < ids.len() && (#[trigger] ids[i])@ == id
}

/// Membership of one room group: the local identity and the current members.
pub struct GroupMembers {
    pub my_id: Vec<u8>,
    pub members: Vec<Vec<u8>>,
}

impl GroupMembers {
    /// A member is present.
    pub open spec fn spec_member(&self, id: Seq<u8>) -> bool {
        id_present(self.members@, id)
    }

    /// Create a group with its initial members.
    pub fn create(my_id: Vec<u8>, initial_members: Vec<Vec<u8>>) -> (r: GroupMembers)
        ensures
            r.my_id@ == my_id@,
            forall|id: Seq<u8>| r.spec_member(id) == id_present(initial_members@, id),
    {
        GroupMembers { my_id, members: initial_members }
    }

    /// Adopt a welcomed state: the members are the welcoming peer's view.
    pub fn from_welcome(my_id: Vec<u8>, welcomed: GroupMembers) -> (r: GroupMembers)
        ensures
            r.my_id@ == my_id@,
            forall|id: Seq<u8>| r.spec_member(id) == welcomed.spec_member(id),
    {
        GroupMembers { my_id, members: welcomed.members }
    }

    /// Whether an identity is a member.
    pub fn contains(&self, id: &[u8]) -> (r: bool)
        ensures
            r == self.spec_member(id@),
    {
        let n = self.members.len();
        let mut i: usize = 0;
        while i < n
            invariant
                i <= n,
                n == self.members@.len(),
                forall|j: int| 0 <= j < i ==> (#[trigger] self.members@[j])@ != id@,
            decreases n - i,
        {
            if bytes_eq(self.members[i].as_slice(), id) {
                return true;
            }
            i = i + 1;
        }
        false
    }

    /// Add a member; adding a present member changes nothing.
    pub fn add(&mut self, added: Vec<u8>)
        ensures
            final(self).my_id@ == old(self).my_id@,
            forall|id: Seq<u8>|
                final(self).spec_member(id) == (id == added@ || old(self).spec_member(id)),
    {
        if !self.contains(added.as_slice()) {
            let ghost pre = self.members@;
            let ghost added_view = added@;
            self.members.push(added);
            proof {
                assert(self.members@.last()@ == added_view);
                assert forall|id: Seq<u8>|
                    self.spec_member(id) == (id == added_view || id_present(pre, id)) by {
                    if id_present(pre, id) {
                        let j = choose|j: int| 0 <= j < pre.len() && (#[trigger] pre[j])@ == id;
                        assert(self.members@[j]@ == id);
                    }
                    if id == added_view {
                        assert(self.members@[self.members@.len() - 1]@ == id);
                    }
                    if id_present(self.members@, id) && id != added_view {
                        let j = choose|j: int|
                            0 <= j < self.members@.len() && (#[trigger] self.members@[j])@ == id;
                        assert(j < pre.len());
                        assert(pre[j]@ == id);
                    }
                }
            }
        }
    }

    /// Position of an identity, if present.
    fn find(&self, id: &[u8]) -> (r: Option<usize>)
        ensures
            r is Some ==> r->0 < self.members@.len() && self.members@[r->0 as int]@ == id@,
            r is None ==> !self.spec_member(id@),
    {
        let n = self.members.len();
        let mut i: usize = 0;
        while i < n
            invariant
                i <= n,
                n == self.members@.len(),
                forall|j: int| 0 <= j < i ==> (#[trigger] self.members@[j])@ != id@,
            decreases n - i,
        {
            if bytes_eq(self.members[i].as_slice(), id) {
                return Some(i);
            }
            i = i + 1;
        }
        None
    }

    /// Remove a member entirely.
    pub fn remove(&mut self, removed: &[u8])
        ensures
            final(self).my_id@ == old(self).my_id@,
            forall|id: Seq<u8>|
                final(self).spec_member(id) == (id != removed@ && old(self).spec_member(id)),
    {
        loop
            invariant
                self.my_id@ == old(self).my_id@,
                forall|id: Seq<u8>|
                    id != removed@ ==> self.spec_member(id) == old(self).spec_member(id),
                self.spec_member(removed@) ==> old(self).spec_member(removed@),
            decreases self.members@.len(),
        {
            let Some(idx) = self.find(removed) else {
                return ;
            };
            let ghost pre = self.members@;
            let gone = self.members.remove(idx);
            proof {
                lemma_remove_one(pre, idx as int);
            }
        }
    }

    /// How many members the group has.
    pub fn len(&self) -> (r: usize)
        ensures
            r == self.members@.len(),
    {
        self.members.len()
    }
}


/// Taking one entry out never makes another identity appear or vanish.
proof fn lemma_remove_one(ids: Seq<Vec<u8>>, idx: int)
    requires
        0 <= idx < ids.len(),
    ensures
        forall|id: Seq<u8>|
            ids[idx]@ != id ==> #[trigger] id_present(ids.remove(idx), id) == id_present(ids, id),
        forall|id: Seq<u8>|
            #[trigger] id_present(ids.remove(idx), id) ==> id_present(ids, id),
{
    let r = ids.remove(idx);
    assert forall|id: Seq<u8>|
        ids[idx]@ != id implies #[trigger] id_present(r, id) == id_present(ids, id) by {
        if id_present(r, id) {
            let j = choose|j: int| 0 <= j < r.len() && (#[trigger] r[j])@ == id;
            let j0 = if j < idx {
                j
            } else {
                j + 1
            };
            assert(ids[j0]@ == id);
        }
        if id_present(ids, id) {
            let j = choose|j: int| 0 <= j < ids.len() && (#[trigger] ids[j])@ == id;
            if j < idx {
                assert(r[j]@ == id);
            } else {
                assert(j > idx);
                assert(r[j - 1]@ == id);
            }
        }
    }
    assert forall|id: Seq<u8>|
        #[trigger] id_present(r, id) implies id_present(ids, id) by {
        let j = choose|j: int| 0 <= j < r.len() && (#[trigger] r[j])@ == id;
        let j0 = if j < idx {
            j
        } else {
            j + 1
        };
        assert(ids[j0]@ == id);
    }
}

/// The per-group orderer: a FIFO queue of raw incoming messages, released
/// only once the local peer was welcomed into the group.
pub struct GroupOrderer {
    pub next_seq: u64,
    pub queue: Vec<Vec<u8>>,
    pub welcomed: bool,
}

impl GroupOrderer {
    /// A fresh orderer: nothing queued, not yet welcomed.
    pub fn init() -> (r: GroupOrderer)
        ensures
            r.next_seq == 0,
            r.queue@.len() == 0,
            !r.welcomed,
    {
        GroupOrderer { next_seq: 0, queue: Vec::new(), welcomed: false }
    }

    /// Take the next local sequence number, for tagging an outgoing message.
    pub fn next_message_seq(&mut self) -> (r: u64)
        requires
            old(self).next_seq < 0xffff_ffff_ffff_ffff,
        ensures
            r == old(self).next_seq,
            final(self).next_seq == old(self).next_seq + 1,
            final(self).queue@ == old(self).queue@,
            final(self).welcomed == old(self).welcomed,
    {
        let seq = self.next_seq;
        self.next_seq = self.next_seq + 1;
        seq
    }

    /// Queue an incoming message behind everything already waiting.
    pub fn queue_message(&mut self, message: Vec<u8>)
        ensures
            final(self).queue@ == old(self).queue@.push(message),
            final(self).welcomed == old(self).welcomed,
            final(self).next_seq == old(self).next_seq,
    {
        self.queue.push(message);
    }

    /// Mark the local peer welcomed: queued messages become ready.
    pub fn set_welcome(&mut self)
        ensures
            final(self).welcomed,
            final(self).queue@ == old(self).queue@,
            final(self).next_seq == old(self).next_seq,
    {
        self.welcomed = true;
    }

    /// The next ready message: nothing before the welcome; afterwards the
    /// head of the queue, in arrival order.
    pub fn next_ready_message(&mut self) -> (r: Option<Vec<u8>>)
        ensures
            !old(self).welcomed ==> r is None && *final(self) == *old(self),
            old(self).welcomed && old(self).queue@.len() == 0 ==> r is None && *final(self) == *old(
                self,
            ),
            old(self).welcomed && old(self).queue@.len() > 0 ==> r is Some && r->0@ == old(
                self,
            ).queue@[0]@ && final(self).queue@ == old(self).queue@.skip(1) && final(self).welcomed
                == old(self).welcomed && final(self).next_seq == old(self).next_seq,
    {
        if !self.welcomed {
            return None;
        }
        if self.queue.len() == 0 {
            return None;
        }
        let head = self.queue.remove(0);
        proof {
            assert(self.queue@ =~= old(self).queue@.skip(1));
        }
        Some(head)
    }
}


/// An op id is recorded in a pending list.
pub open spec fn op_recorded(entries: Seq<(Vec<u8>, Vec<u8>, Vec<u8>)>, op_id: Seq<u8>) -> bool {
    exists|i: int| 0 <= i < entries.len() && (#[trigger] entries[i]).0@ == op_id
}

/// An op id is recorded with its actor and subject.
pub open spec fn op_recorded_as(
    entries: Seq<(Vec<u8>, Vec<u8>, Vec<u8>)>,
    op_id: Seq<u8>,
    actor: Seq<u8>,
    subject: Seq<u8>,
) -> bool {
    exists|i: int|
        0 <= i < entries.len() && (#[trigger] entries[i]).0@ == op_id && entries[i].1@ == actor
            && entries[i].2@ == subject
}

/// Membership of one direct-message group: beside the member set it tracks
/// removed peers, the adds and removes still awaiting acknowledgement, and
/// who acknowledged which op.
pub struct AckedGroupMembers {
    pub base: GroupMembers,
    pub removed: Vec<Vec<u8>>,
    pub pending_adds: Vec<(Vec<u8>, Vec<u8>, Vec<u8>)>,
    pub pending_removes: Vec<(Vec<u8>, Vec<u8>, Vec<u8>)>,
    pub acks: Vec<(Vec<u8>, Vec<u8>)>,
}

impl AckedGroupMembers {
    /// A member is present.
    pub open spec fn spec_member(&self, id: Seq<u8>) -> bool {
        self.base.spec_member(id)
    }

    /// Create a group with its initial members; nothing pending yet.
    pub fn create(my_id: Vec<u8>, initial_members: Vec<Vec<u8>>) -> (r: AckedGroupMembers)
        ensures
            r.base.my_id@ == my_id@,
            forall|id: Seq<u8>| r.spec_member(id) == id_present(initial_members@, id),
            r.pending_adds@.len() == 0,
            r.pending_removes@.len() == 0,
            r.acks@.len() == 0,
    {
        AckedGroupMembers {
            base: GroupMembers::create(my_id, initial_members),
            removed: Vec::new(),
            pending_adds: Vec::new(),
            pending_removes: Vec::new(),
            acks: Vec::new(),
        }
    }

    /// Adopt a welcomed state: members and removals come from the welcoming
    /// peer; local pending bookkeeping is kept.
    pub fn from_welcome(&mut self, welcome: AckedGroupMembers)
        ensures
            final(self).base.my_id@ == old(self).base.my_id@,
            forall|id: Seq<u8>| final(self).spec_member(id) == welcome.spec_member(id),
            final(self).pending_adds@ == old(self).pending_adds@,
            final(self).pending_removes@ == old(self).pending_removes@,
            final(self).acks@ == old(self).acks@,
    {
        let my_id = vstd::slice::slice_to_vec(self.base.my_id.as_slice());
        self.base = GroupMembers::from_welcome(my_id, welcome.base);
        self.removed = welcome.removed;
    }

    /// Record an add: the member joins at once, and the op waits for acks
    /// carrying who added whom; nothing else moves.
    pub fn add(&mut self, adder: Vec<u8>, added: Vec<u8>, op_id: Vec<u8>)
        ensures
            forall|id: Seq<u8>|
                final(self).spec_member(id) == (id == added@ || old(self).spec_member(id)),
            op_recorded(final(self).pending_adds@, op_id@),
            op_recorded_as(final(self).pending_adds@, op_id@, adder@, added@),
            final(self).base.my_id@ == old(self).base.my_id@,
            final(self).removed@ == old(self).removed@,
            final(self).pending_removes@ == old(self).pending_removes@,
            final(self).acks@ == old(self).acks@,
    {
        self.base.add(copy_bytes(&added));
        let ghost pre = self.pending_adds@;
        let ghost adder_view = adder@;
        let ghost added_view = added@;
        self.pending_adds.push((op_id, adder, added));
        proof {
            let last = self.pending_adds@.len() - 1;
            assert(self.pending_adds@[last].1@ == adder_view);
            assert(self.pending_adds@[last].2@ == added_view);
        }
    }

    /// Record a remove: the member leaves at once and is remembered as
    /// removed, and the op waits for acks carrying who removed whom; nothing
    /// else moves.
    pub fn remove(&mut self, remover: Vec<u8>, removed_id: Vec<u8>, op_id: Vec<u8>)
        ensures
            forall|id: Seq<u8>|
                final(self).spec_member(id) == (id != removed_id@ && old(self).spec_member(id)),
            op_recorded(final(self).pending_removes@, op_id@),
            op_recorded_as(final(self).pending_removes@, op_id@, remover@, removed_id@),
            id_present(final(self).removed@, removed_id@),
            final(self).base.my_id@ == old(self).base.my_id@,
            final(self).pending_adds@ == old(self).pending_adds@,
            final(self).acks@ == old(self).acks@,
    {
        self.base.remove(removed_id.as_slice());
        let ghost removed_view = removed_id@;
        self.removed.push(copy_bytes(&removed_id));
        proof {
            assert(self.removed@[self.removed@.len() - 1]@ == removed_view);
        }
        self.pending_removes.push((op_id, remover, removed_id));
        proof {
            let last = self.pending_removes@.len() - 1;
            assert(self.pending_removes@[last].1@ == remover@);
            assert(self.pending_removes@[last].2@ == removed_view);
        }
    }

    /// Record one acknowledgement of an op.
    pub fn ack(&mut self, acker: Vec<u8>, op_id: Vec<u8>)
        ensures
            final(self).acks@ == old(self).acks@.push((op_id, acker)),
            final(self).base == old(self).base,
            final(self).pending_adds@ == old(self).pending_adds@,
            final(self).pending_removes@ == old(self).pending_removes@,
    {
        self.acks.push((op_id, acker));
    }

    /// Whether an op is a pending add.
    pub fn is_add(&self, op_id: &[u8]) -> (r: bool)
        ensures
            r == op_recorded(self.pending_adds@, op_id@),
    {
        op_lookup(&self.pending_adds, op_id)
    }

    /// Whether an op is a pending remove.
    pub fn is_remove(&self, op_id: &[u8]) -> (r: bool)
        ensures
            r == op_recorded(self.pending_removes@, op_id@),
    {
        op_lookup(&self.pending_removes, op_id)
    }

    /// The current member set, as seen by any viewer.
    pub fn members_view(&self) -> (r: &Vec<Vec<u8>>)
        ensures
            forall|id: Seq<u8>| id_present(r@, id) == self.spec_member(id),
    {
        &self.base.members
    }
}

/// Scan a pending list for an op id.
fn op_lookup(entries: &Vec<(Vec<u8>, Vec<u8>, Vec<u8>)>, op_id: &[u8]) -> (r: bool)
    ensures
        r == op_recorded(entries@, op_id@),
{
    let n = entries.len();
    let mut i: usize = 0;
    while i < n
        invariant
            i <= n,
            n == entries@.len(),
            forall|j: int| 0 <= j < i ==> (#[trigger] entries@[j]).0@ != op_id@,
        decreases n - i,
    {
        if bytes_eq(entries[i].0.as_slice(), op_id) {
            return true;
        }
        i = i + 1;
    }
    false
}

} // verus!
