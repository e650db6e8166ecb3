//! The op store, the header codec, the projector, and the core handle.

use delta_core::corestate::{validate_channel_name, verify_invite_token, CoreState};
use delta_core::ops::{MessageOp, OrgOp, RoomOp};
use delta_core::projector::ReadModel;
use delta_core::store::{decode_header, InsertOutcome, LogId, OpStore};

fn fresh_core(tag: u8) -> CoreState {
    let mut seed = [0u8; 32];
    seed[7] = tag;
    CoreState::init(&hex::encode(seed)).unwrap()
}

#[test]
fn core_init_rejects_bad_keys() {
    assert!(CoreState::init("xyz").is_err());
    assert!(CoreState::init("abcd").is_err());
    assert!(CoreState::init(&"ab".repeat(32)).is_ok());
}

#[test]
fn signed_ops_chain_with_backlinks() {
    let mut store = OpStore::new();
    let seed = [3u8; 32];
    let (_h1, hb1) = store.sign_and_store_op(&seed, LogId::Message, b"one", 1000);
    let (_h2, hb2) = store.sign_and_store_op(&seed, LogId::Message, b"two", 1001);
    let (_h3, hb3) = store.sign_and_store_op(&seed, LogId::Message, b"three", 1002);

    let d1 = decode_header(&hb1).unwrap();
    let d2 = decode_header(&hb2).unwrap();
    let d3 = decode_header(&hb3).unwrap();
    assert_eq!(d1.seq_num, 0);
    assert_eq!(d2.seq_num, 1);
    assert_eq!(d3.seq_num, 2);
    assert!(d1.backlink.is_none());
    let h1 = *p2panda_core::Hash::digest(&hb1).as_bytes();
    let h2 = *p2panda_core::Hash::digest(&hb2).as_bytes();
    assert_eq!(d2.backlink.as_deref(), Some(&h1[..]));
    assert_eq!(d3.backlink.as_deref(), Some(&h2[..]));
}

#[test]
fn signed_header_verifies_with_ed25519() {
    let mut store = OpStore::new();
    let seed = [5u8; 32];
    let (_hash, header_bytes) = store.sign_and_store_op(&seed, LogId::Org, b"body", 7);
    let header = decode_header(&header_bytes).unwrap();
    let signing = ed25519_dalek::SigningKey::from_bytes(&seed);
    assert_eq!(header.public_key, signing.verifying_key().as_bytes().to_vec());
    let msg = &header_bytes[..header_bytes.len() - 64];
    let sig = ed25519_dalek::Signature::from_slice(&header.signature).unwrap();
    assert!(signing.verifying_key().verify_strict(msg, &sig).is_ok());
}

#[test]
fn remote_insert_accepts_in_order_and_holds_gaps() {
    let mut source = OpStore::new();
    let seed = [9u8; 32];
    let (_, hb1) = source.sign_and_store_op(&seed, LogId::Message, b"m0", 1);
    let (_, hb2) = source.sign_and_store_op(&seed, LogId::Message, b"m1", 2);
    let (_, hb3) = source.sign_and_store_op(&seed, LogId::Message, b"m2", 3);

    let mut sink = OpStore::new();
    // Out of order: the third op waits for its predecessors.
    assert!(matches!(sink.insert_op(LogId::Message, &hb3, b"m2"), InsertOutcome::Pending));
    assert!(matches!(sink.insert_op(LogId::Message, &hb1, b"m0"), InsertOutcome::Inserted));
    // The second op unblocks the third through the pending buffer.
    assert!(matches!(sink.insert_op(LogId::Message, &hb2, b"m1"), InsertOutcome::Inserted));
    let author = hex::encode(ed25519_dalek::SigningKey::from_bytes(&seed).verifying_key().as_bytes());
    let ops = sink.ops_from(&author, LogId::Message, 0);
    assert_eq!(ops.len(), 3);
    assert_eq!(ops[2].1, b"m2".to_vec());
    // A duplicate is a silent no-op.
    assert!(matches!(sink.insert_op(LogId::Message, &hb1, b"m0"), InsertOutcome::Duplicate));
}

#[test]
fn remote_insert_rejects_bad_signature_and_body() {
    let mut source = OpStore::new();
    let seed = [11u8; 32];
    let (_, hb) = source.sign_and_store_op(&seed, LogId::Message, b"payload", 1);
    let mut sink = OpStore::new();
    // A body that does not match the payload hash is rejected.
    assert!(matches!(sink.insert_op(LogId::Message, &hb, b"other"), InsertOutcome::Rejected));
    // A tampered header is rejected.
    let mut bad = hb.clone();
    bad[40] ^= 1;
    assert!(matches!(sink.insert_op(LogId::Message, &bad, b"payload"), InsertOutcome::Rejected));
}

#[test]
fn projector_idempotence() {
    let mut model = ReadModel::new();
    let author = "a".repeat(64);
    let org_op = OrgOp {
        op_type: "create_org".into(),
        name: "team".into(),
        type_label: "community".into(),
        description: None,
        avatar_blob_id: None,
        cover_blob_id: None,
        is_public: false,
    };
    let room_op = RoomOp {
        op_type: "create_room".into(),
        org_id: "org-hash".into(),
        name: "general".into(),
        enc_key_epoch: 0,
    };
    let msg = |text: &str| MessageOp {
        op_type: "send".into(),
        room_id: Some("room-hash".into()),
        dm_thread_id: None,
        content_type: "text".into(),
        text_content: Some(text.into()),
        blob_id: None,
        embed_url: None,
        mentions: vec![],
        reply_to: None,
    };

    let replay = |m: &mut ReadModel| {
        m.project_org_create(&author, "org-hash", &org_op, 10);
        m.project_room_create(&author, "room-hash", &room_op, 11);
        m.project_message(&author, "msg-1", &msg("first"), 12);
        m.project_message(&author, "msg-2", &msg("second"), 13);
    };

    replay(&mut model);
    assert_eq!(model.orgs.len(), 1);
    assert_eq!(model.rooms.len(), 1);
    assert_eq!(model.messages.len(), 2);

    // Replaying the same ops from the start leaves the model unchanged.
    replay(&mut model);
    assert_eq!(model.orgs.len(), 1);
    assert_eq!(model.rooms.len(), 1);
    assert_eq!(model.messages.len(), 2);
    let row = model.messages.get("msg-1").unwrap();
    assert_eq!(row.text_content.as_deref(), Some("first"));
}

#[test]
fn create_org_enrolls_creator_and_opens_general() {
    let mut core = fresh_core(1);
    let org_id = core.create_org("team".into(), "community".into(), None, false, 1000);
    assert_eq!(core.read.orgs.len(), 1);
    let org = core.read.orgs.get(&org_id).unwrap();
    assert_eq!(org.name, "team");
    let members = core.org_membership_state(&org_id);
    let me = core.public_key_hex.clone();
    assert!(members.has_permission(&me, delta_core::auth::AccessLevel::Manage));
    assert_eq!(core.read.rooms.len(), 1);
    let (_, general) = &core.read.rooms.entries[0];
    assert_eq!(general.name, "general");
    assert_eq!(general.org_id, org_id);
}

#[test]
fn create_room_validates_channel_names() {
    let mut core = fresh_core(2);
    let org_id = core.create_org("team".into(), "community".into(), None, false, 1000);
    assert!(core.create_room(org_id.clone(), "dev-chat".into(), 1001).is_ok());
    assert!(core.create_room(org_id.clone(), "Bad Name".into(), 1002).is_err());
    assert!(core.create_room(org_id.clone(), "-starts".into(), 1003).is_err());
    assert!(core.create_room(org_id, "a--b".into(), 1004).is_err());
}

#[test]
fn channel_name_rule() {
    assert!(validate_channel_name("general"));
    assert!(validate_channel_name("a"));
    assert!(validate_channel_name("dev_chat-2"));
    assert!(!validate_channel_name(""));
    assert!(!validate_channel_name("UPPER"));
    assert!(!validate_channel_name("has space"));
    assert!(!validate_channel_name("-lead"));
    assert!(!validate_channel_name("trail-"));
    assert!(!validate_channel_name("a__b"));
    assert!(!validate_channel_name(&"x".repeat(51)));
}

#[test]
fn send_message_inserts_row_and_plans_gossip() {
    let mut core = fresh_core(3);
    let org_id = core.create_org("team".into(), "community".into(), None, false, 1000);
    let room_id = core.create_room(org_id, "dev".into(), 1001).unwrap();
    let (message_id, plan) = core
        .send_message(
            Some(room_id.clone()),
            None,
            "text".into(),
            Some("hello".into()),
            None,
            None,
            vec![],
            None,
            1002,
        )
        .unwrap();
    let row = core.read.messages.get(&message_id).unwrap();
    assert_eq!(row.text_content.as_deref(), Some("hello"));
    assert!(!row.is_deleted);
    let plan = plan.unwrap();
    assert!(!plan.sealed);
    assert_eq!(plan.topic, delta_core::topics::topic_id_for_room(&room_id));
    assert!(core.send_message(None, None, "text".into(), None, None, None, vec![], None, 1003)
        .is_err());
}

#[test]
fn dm_message_is_sealed_for_the_peer() {
    let mut alice = fresh_core(4);
    let bob = fresh_core(5);
    let thread_id = alice.create_dm_thread(bob.public_key_hex.clone(), 2000);
    let (_, plan) = alice
        .send_message(
            None,
            Some(thread_id),
            "text".into(),
            Some("psst".into()),
            None,
            None,
            vec![],
            None,
            2001,
        )
        .unwrap();
    let plan = plan.unwrap();
    assert!(plan.sealed);
    // Only the addressed peer opens the envelope and sees the sender.
    let bob_seed: [u8; 32] = bob.private_seed.clone().try_into().unwrap();
    let (sender, _inner) = delta_core::sealed_sender::open(&plan.payload, &bob_seed).unwrap();
    assert_eq!(hex::encode(sender), alice.public_key_hex);
}

#[test]
fn membership_mutations_require_manage() {
    let mut admin = fresh_core(6);
    let stranger = fresh_core(7);
    let org_id = admin.create_org("team".into(), "community".into(), None, false, 100);
    let member = stranger.public_key_hex.clone();

    assert!(admin.add_member_direct(org_id.clone(), member.clone(), "write".into(), 101).is_ok());
    let state = admin.org_membership_state(&org_id);
    assert_eq!(state.get_level(&member), Some(delta_core::auth::AccessLevel::Write));

    assert!(admin
        .change_member_permission(org_id.clone(), member.clone(), "read".into(), 102)
        .is_ok());
    assert!(admin.remove_member_from_org(org_id.clone(), member.clone(), 103).is_ok());
    let state = admin.org_membership_state(&org_id);
    assert_eq!(state.get_level(&member), None);

    // A peer without Manage cannot mutate the membership.
    let mut outsider = fresh_core(8);
    assert!(outsider.add_member_direct(org_id, member, "read".into(), 104).is_err());
}

#[test]
fn invite_round_trip_through_the_core() {
    let core = fresh_core(9);
    let token_b64 = core
        .generate_invite_token("org1".into(), "write", 9999999999999999)
        .unwrap();
    let (token, inviter_hex, level) = verify_invite_token(&token_b64, 1000000000000000).unwrap();
    assert_eq!(inviter_hex, core.public_key_hex);
    assert_eq!(level, delta_core::auth::AccessLevel::Write);
    assert_eq!(token.org_id, "org1");
}

#[test]
fn invite_expiry_checked_through_the_core() {
    let core = fresh_core(10);
    let token_b64 = core
        .generate_invite_token("org1".into(), "write", 1000000000000000)
        .unwrap();
    let result = verify_invite_token(&token_b64, 2000000000000000);
    assert!(matches!(result, Err(delta_core::auth::AuthError::TokenExpired)));
}

#[test]
fn ingest_tracks_topic_sequences() {
    let mut source = fresh_core(11);
    let (_, hb) = source.op_store.sign_and_store_op(
        &source.private_seed.clone(),
        LogId::Message,
        b"m0",
        5,
    );
    let mut sink = fresh_core(12);
    let outcome = sink.ingest_op("ab".repeat(32).as_str(), 41, LogId::Message, &hb, b"m0");
    assert!(matches!(outcome, InsertOutcome::Inserted));
    assert_eq!(sink.read.get_topic_seq(&"ab".repeat(32)), 41);
    assert_eq!(sink.read.get_topic_seq(&"cd".repeat(32)), 0);

    // A second delivery is acknowledged as a duplicate and moves the cursor.
    let outcome = sink.ingest_op("ab".repeat(32).as_str(), 42, LogId::Message, &hb, b"m0");
    assert!(matches!(outcome, InsertOutcome::Duplicate));
    assert_eq!(sink.read.get_topic_seq(&"ab".repeat(32)), 42);
}

#[test]
fn ingest_never_acknowledges_a_rejected_op() {
    let mut source = fresh_core(13);
    let (_, mut hb) = source.op_store.sign_and_store_op(
        &source.private_seed.clone(),
        LogId::Message,
        b"m0",
        5,
    );
    let last = hb.len() - 1;
    hb[last] ^= 0x01;
    let mut sink = fresh_core(14);
    let outcome = sink.ingest_op("ab".repeat(32).as_str(), 41, LogId::Message, &hb, b"m0");
    assert!(matches!(outcome, InsertOutcome::Rejected));
    assert_eq!(
        sink.read.get_topic_seq(&"ab".repeat(32)),
        0,
        "a bad op leaves the relay cursor untouched"
    );
}

#[test]
fn op_bodies_are_standard_cbor() {
    let op = OrgOp {
        op_type: "create_org".into(),
        name: "team".into(),
        type_label: "community".into(),
        description: Some("hi".into()),
        avatar_blob_id: None,
        cover_blob_id: None,
        is_public: true,
    };
    let bytes = op.encode();
    let value: ciborium::Value = ciborium::from_reader(bytes.as_slice()).unwrap();
    let map = value.into_map().unwrap();
    assert_eq!(map.len(), 7);
    assert_eq!(map[0].0.as_text(), Some("op_type"));
    assert_eq!(map[0].1.as_text(), Some("create_org"));
    assert_eq!(map[1].1.as_text(), Some("team"));
    assert_eq!(map[6].0.as_text(), Some("is_public"));
    assert_eq!(map[6].1.as_bool(), Some(true));
}

#[test]
fn message_bodies_decode_as_cbor_maps() {
    let op = MessageOp {
        op_type: "send".into(),
        room_id: Some("r1".into()),
        dm_thread_id: None,
        content_type: "text".into(),
        text_content: Some("hello there".into()),
        blob_id: None,
        embed_url: None,
        mentions: vec!["aa".into(), "bb".into()],
        reply_to: None,
    };
    let bytes = op.encode();
    let value: ciborium::Value = ciborium::from_reader(bytes.as_slice()).unwrap();
    let map = value.into_map().unwrap();
    assert_eq!(map.len(), 9);
    assert_eq!(map[0].1.as_text(), Some("send"));
    assert_eq!(map[1].1.as_text(), Some("r1"));
    assert!(map[2].1.is_null());
    assert_eq!(map[3].1.as_text(), Some("text"));
    assert_eq!(map[4].1.as_text(), Some("hello there"));
    let mentions = map[7].1.as_array().unwrap();
    assert_eq!(mentions.len(), 2);
    assert_eq!(mentions[0].as_text(), Some("aa"));
    assert_eq!(mentions[1].as_text(), Some("bb"));
    assert!(map[8].1.is_null());
}
