//! Profile and organization lifecycle, room archival, the query surface, and
//! the room-encryption wire format.

use delta_core::corestate::CoreState;
use delta_core::roomenc::{blob_content_hash, open_room_message, seal_room_message};

fn fresh_core(tag: u8) -> CoreState {
    let mut seed = [0u8; 32];
    seed[11] = tag;
    CoreState::init(&hex::encode(seed)).unwrap()
}

#[test]
fn profile_upserts_row_under_own_key() {
    let mut core = fresh_core(1);
    let me = core.public_key_hex.clone();
    let hash = core.create_or_update_profile(
        "ada".to_string(),
        Some("bio".to_string()),
        vec!["work".to_string()],
        true,
        None,
        50,
    );
    assert_eq!(hash.len(), 64);
    let row = core.read.profiles.get(&me).unwrap();
    assert_eq!(row.username, "ada");
    assert_eq!(row.bio.as_deref(), Some("bio"));
    assert!(row.is_public);
    assert_eq!(row.created_at, 50);

    core.create_or_update_profile(
        "ada2".to_string(),
        None,
        vec![],
        false,
        Some(vec![1, 2, 3]),
        60,
    );
    let row = core.read.profiles.get(&me).unwrap();
    assert_eq!(row.username, "ada2");
    assert_eq!(row.created_at, 50, "first creation time is kept");
    assert_eq!(row.updated_at, 60);
}

#[test]
fn update_org_overrides_only_given_fields() {
    let mut core = fresh_core(2);
    let org = core.create_org("dev".to_string(), "team".to_string(), None, true, 10);
    let r = core.update_org(
        org.clone(),
        Some("dev2".to_string()),
        None,
        Some("about".to_string()),
        None,
        None,
        None,
        20,
    );
    assert!(r.is_ok());
    let row = core.read.orgs.get(&org).unwrap();
    assert_eq!(row.name, "dev2");
    assert_eq!(row.type_label, "team", "unset fields stay");
    assert_eq!(row.description.as_deref(), Some("about"));
    assert!(row.is_public);
}

#[test]
fn update_org_rejects_long_names_and_strangers() {
    let mut core = fresh_core(3);
    let org = core.create_org("dev".to_string(), "team".to_string(), None, true, 10);
    let long = "x".repeat(101);
    assert!(core.update_org(org, Some(long), None, None, None, None, None, 20).is_err());
    let mut other = fresh_core(4);
    assert!(
        other
            .update_org("missing".to_string(), None, None, None, None, None, None, 20)
            .is_err(),
        "no Manage membership"
    );
}

#[test]
fn archive_and_unarchive_room_flip_the_flag() {
    let mut core = fresh_core(5);
    let org = core.create_org("dev".to_string(), "team".to_string(), None, true, 10);
    let room = core.create_room(org.clone(), "plans".to_string(), 20).unwrap();
    assert!(core.archive_room(org.clone(), room.clone(), 30).is_ok());
    let row = core.read.rooms.get(&room).unwrap();
    assert!(row.is_archived);
    assert_eq!(row.archived_at, Some(30));
    assert!(core.unarchive_room(org.clone(), room.clone()).is_ok());
    let row = core.read.rooms.get(&room).unwrap();
    assert!(!row.is_archived);
    assert_eq!(row.archived_at, None);
}

#[test]
fn delete_room_erases_the_row_and_needs_manage() {
    let mut core = fresh_core(6);
    let org = core.create_org("dev".to_string(), "team".to_string(), None, true, 10);
    let room = core.create_room(org.clone(), "plans".to_string(), 20).unwrap();
    let mut stranger = fresh_core(7);
    assert!(stranger.delete_room(org.clone(), room.clone(), 25).is_err());
    assert!(core.delete_room(org.clone(), room.clone(), 30).is_ok());
    assert!(core.read.rooms.get(&room).is_none());
    assert!(core.delete_room(org, room, 40).is_err(), "already gone");
}

#[test]
fn list_rooms_filters_archived_and_foreign() {
    let mut core = fresh_core(8);
    let org = core.create_org("dev".to_string(), "team".to_string(), None, true, 10);
    let other = core.create_org("ops".to_string(), "team".to_string(), None, true, 11);
    let r1 = core.create_room(org.clone(), "alpha".to_string(), 20).unwrap();
    let r2 = core.create_room(org.clone(), "beta".to_string(), 21).unwrap();
    core.create_room(other.clone(), "gamma".to_string(), 22).unwrap();
    core.archive_room(org.clone(), r2.clone(), 30).unwrap();

    let live = core.list_rooms(&org, false);
    assert!(live.contains(&r1) && !live.contains(&r2));
    let all = core.list_rooms(&org, true);
    assert!(all.contains(&r1) && all.contains(&r2));
    for k in &all {
        assert_eq!(core.read.rooms.get(k).unwrap().org_id, org);
    }
}

#[test]
fn list_org_members_and_my_orgs() {
    let mut core = fresh_core(9);
    let me = core.public_key_hex.clone();
    let org = core.create_org("dev".to_string(), "team".to_string(), None, true, 10);
    core.add_member_direct(org.clone(), "aa".repeat(32), "read".to_string(), 20).unwrap();

    let members = core.list_org_members(&org);
    assert_eq!(members.len(), 2);
    let orgs = core.list_my_orgs();
    assert_eq!(orgs, vec![org.clone()]);
    assert!(members.iter().any(|k| k == &format!("{}:{}", org, me)));
}

#[test]
fn list_messages_honours_scope_and_time_bound() {
    let mut core = fresh_core(10);
    let org = core.create_org("dev".to_string(), "team".to_string(), None, true, 10);
    let room = core.create_room(org.clone(), "alpha".to_string(), 20).unwrap();
    let (m1, _) = core
        .send_message(
            Some(room.clone()),
            None,
            "text".to_string(),
            Some("one".to_string()),
            None,
            None,
            vec![],
            None,
            100,
        )
        .unwrap();
    let (m2, _) = core
        .send_message(
            Some(room.clone()),
            None,
            "text".to_string(),
            Some("two".to_string()),
            None,
            None,
            vec![],
            None,
            200,
        )
        .unwrap();
    let both = core.list_messages(Some(room.clone()), None, None);
    assert!(both.contains(&m1) && both.contains(&m2));
    let early = core.list_messages(Some(room.clone()), None, Some(150));
    assert!(early.contains(&m1) && !early.contains(&m2));
    let none = core.list_messages(Some("unknown".to_string()), None, None);
    assert!(none.is_empty());
}

#[test]
fn dm_send_without_a_thread_row_travels_unplanned() {
    let mut core = fresh_core(20);
    let (message_id, plan) = core
        .send_message(
            None,
            Some("no-such-thread".to_string()),
            "text".to_string(),
            Some("hello".to_string()),
            None,
            None,
            vec![],
            None,
            70,
        )
        .unwrap();
    assert_eq!(message_id.len(), 64, "the op is still published");
    assert!(plan.is_none(), "nothing can be sealed without the thread's keys");
}

#[test]
fn list_dm_threads_sees_own_threads() {
    let mut core = fresh_core(11);
    let thread = core.create_dm_thread("bb".repeat(32), 30);
    let threads = core.list_dm_threads();
    assert_eq!(threads, vec![thread]);
}

#[test]
fn encrypted_body_round_trips_exactly() {
    let (body, checkpoints) = seal_room_message(
        &[7u8; 32],
        &[9u8; 24],
        vec![1, 2, 3, 4],
        &[5u8; 32],
        vec![10],
        vec![20],
        vec![30],
    );
    assert_eq!(checkpoints.group_state, vec![10]);
    assert_eq!(checkpoints.key_manager, vec![20]);
    assert_eq!(checkpoints.key_registry, vec![30]);
    let opened = open_room_message(&body).unwrap();
    assert_eq!(opened.secret_id, vec![7u8; 32]);
    assert_eq!(opened.nonce, vec![9u8; 24]);
    assert_eq!(opened.ciphertext, vec![1, 2, 3, 4]);
    assert_eq!(opened.sender_key, vec![5u8; 32]);
    assert!(open_room_message(b"not an envelope").is_err());

    let (sid, nonce, sender) = delta_core::roomenc::encrypted_body_arrays(&opened).unwrap();
    assert_eq!(sid, [7u8; 32]);
    assert_eq!(nonce, [9u8; 24]);
    assert_eq!(sender, [5u8; 32]);
    let (short_body, _) =
        seal_room_message(&[7u8; 4], &[9u8; 24], vec![1], &[5u8; 32], vec![], vec![], vec![]);
    let short = open_room_message(&short_body).unwrap();
    assert!(delta_core::roomenc::encrypted_body_arrays(&short).is_none());
}

#[test]
fn blob_hash_mixes_the_room_id() {
    let plain = blob_content_hash(b"bytes", None);
    let mut keyed = b"bytes".to_vec();
    keyed.extend_from_slice(b"room-1");
    assert_eq!(
        plain,
        hex::encode(p2panda_core::Hash::digest(b"bytes".as_slice()).as_bytes())
    );
    assert_eq!(
        blob_content_hash(b"bytes", Some("room-1")),
        hex::encode(p2panda_core::Hash::digest(&keyed).as_bytes())
    );
    assert_ne!(plain, blob_content_hash(b"bytes", Some("room-1")));
}

#[test]
fn inbound_bytes_pass_through_or_unseal() {
    let core = fresh_core(12);
    let plain = b"gossip frame".to_vec();
    let (who, what) = core.inbound_op_bytes(&plain).unwrap();
    assert!(who.is_none());
    assert_eq!(what, plain);

    let mut seed = [0u8; 32];
    seed[11] = 12;
    let recipient_pk = ed25519_dalek::SigningKey::from_bytes(&seed).verifying_key();
    let sender = [3u8; 32];
    let sealed = delta_core::sealed_sender::seal(
        b"inner op",
        &sender,
        recipient_pk.as_bytes(),
    )
    .unwrap();
    let (who, what) = core.inbound_op_bytes(&sealed).unwrap();
    assert_eq!(who, Some(sender), "the opened sender identity comes back");
    assert_eq!(what, b"inner op".to_vec());

    let other = fresh_core(13);
    assert!(other.inbound_op_bytes(&sealed).is_none(), "not addressed to us");
}

#[test]
fn peel_onion_rejects_bad_seed_hex() {
    let r = delta_core::corestate::peel_onion_layer(&[0u8; 80], "zz");
    assert!(matches!(
        r,
        Err(delta_core::onion::OnionError::InvalidKey(_))
    ));
}
