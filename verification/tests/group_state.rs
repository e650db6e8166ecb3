//! The group membership trackers and the per-group orderer.

use delta_core::dgm::{AckedGroupMembers, GroupMembers, GroupOrderer};

fn id(tag: u8) -> Vec<u8> {
    let mut v = vec![0u8; 32];
    v[0] = tag;
    v
}

#[test]
fn create_contains_initial_members() {
    let me = id(1);
    let alice = id(2);
    let bob = id(3);
    let state = GroupMembers::create(me, vec![alice.clone(), bob.clone()]);
    assert!(state.contains(&alice));
    assert!(state.contains(&bob));
}

#[test]
fn add_member() {
    let me = id(1);
    let alice = id(2);
    let mut state = GroupMembers::create(me, vec![]);
    state.add(alice.clone());
    assert!(state.contains(&alice));
}

#[test]
fn remove_member() {
    let me = id(1);
    let alice = id(2);
    let mut state = GroupMembers::create(me, vec![alice.clone()]);
    state.remove(&alice);
    assert!(!state.contains(&alice));
}

#[test]
fn from_welcome_preserves_members() {
    let me = id(1);
    let alice = id(2);
    let state = GroupMembers::create(me.clone(), vec![alice.clone()]);
    let welcomed = GroupMembers::from_welcome(me, state);
    assert!(welcomed.contains(&alice));
}

#[test]
fn acked_dgm_create_and_members() {
    let me = id(1);
    let alice = id(2);
    let state = AckedGroupMembers::create(me, vec![alice.clone()]);
    let members = state.members_view();
    assert!(members.iter().any(|m| *m == alice));
}

#[test]
fn acked_dgm_add_and_ack() {
    let me = id(1);
    let alice = id(2);
    let op = vec![7u8; 32];
    let mut state = AckedGroupMembers::create(me.clone(), vec![]);
    state.add(me, alice.clone(), op.clone());
    assert!(state.is_add(&op));
    assert!(!state.is_remove(&op));
    state.ack(alice.clone(), op);
    let members = state.members_view();
    assert!(members.iter().any(|m| *m == alice));
}

#[test]
fn acked_dgm_remove_tracks_pending() {
    let me = id(1);
    let alice = id(2);
    let op = vec![8u8; 32];
    let mut state = AckedGroupMembers::create(me.clone(), vec![alice.clone()]);
    state.remove(me, alice.clone(), op.clone());
    assert!(state.is_remove(&op));
    assert!(!state.members_view().iter().any(|m| *m == alice));
}

#[test]
fn ordering_queue_and_dequeue() {
    let mut orderer = GroupOrderer::init();
    let seq = orderer.next_message_seq();
    assert_eq!(seq, 0);
    orderer.queue_message(b"control message".to_vec());
    // Nothing is ready before the welcome.
    assert!(orderer.next_ready_message().is_none());
    orderer.set_welcome();
    let ready = orderer.next_ready_message();
    assert_eq!(ready.as_deref(), Some(&b"control message"[..]));
    assert!(orderer.next_ready_message().is_none());
}

#[test]
fn fs_ordering_queue_and_dequeue() {
    // The direct-message scheme shares the orderer: arrival order is kept.
    let mut orderer = GroupOrderer::init();
    orderer.queue_message(b"first".to_vec());
    orderer.queue_message(b"second".to_vec());
    orderer.set_welcome();
    assert_eq!(orderer.next_ready_message().as_deref(), Some(&b"first"[..]));
    assert_eq!(orderer.next_ready_message().as_deref(), Some(&b"second"[..]));
    assert!(orderer.next_ready_message().is_none());
}
