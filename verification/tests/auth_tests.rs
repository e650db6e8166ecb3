//! The access lattice, membership mutations, and invite tokens.

use delta_core::auth::{add_member, change_permission, remove_member, AccessLevel, AuthError,
    MembershipState};
use delta_core::token::InviteToken;

use base64::Engine;

fn test_seed(tag: u8) -> [u8; 32] {
    let mut seed = [0u8; 32];
    seed[0] = tag;
    seed[31] = tag.wrapping_add(7);
    seed
}

fn pk_of(seed: &[u8; 32]) -> [u8; 32] {
    let signing = ed25519_dalek::SigningKey::from_bytes(seed);
    *signing.verifying_key().as_bytes()
}

fn hex_of(bytes: &[u8]) -> String {
    hex::encode(bytes)
}

#[test]
fn access_level_hierarchy() {
    assert!(AccessLevel::Manage.has_permission(AccessLevel::Pull));
    assert!(AccessLevel::Manage.has_permission(AccessLevel::Read));
    assert!(AccessLevel::Manage.has_permission(AccessLevel::Write));
    assert!(AccessLevel::Manage.has_permission(AccessLevel::Manage));

    assert!(AccessLevel::Write.has_permission(AccessLevel::Pull));
    assert!(AccessLevel::Write.has_permission(AccessLevel::Read));
    assert!(AccessLevel::Write.has_permission(AccessLevel::Write));
    assert!(!AccessLevel::Write.has_permission(AccessLevel::Manage));

    assert!(!AccessLevel::Pull.has_permission(AccessLevel::Read));
}

#[test]
fn access_level_names_round_trip() {
    for level in [AccessLevel::Pull, AccessLevel::Read, AccessLevel::Write, AccessLevel::Manage] {
        assert_eq!(AccessLevel::from_str(level.as_str()), Some(level));
    }
    assert_eq!(AccessLevel::from_str("admin"), None);
}

#[test]
fn membership_state_operations() {
    let admin_key = hex_of(&pk_of(&test_seed(1)));
    let member_key = hex_of(&pk_of(&test_seed(2)));

    let mut state = MembershipState::new("org1".into());
    state.add_member(admin_key.clone(), AccessLevel::Manage);

    assert!(state.is_member(&admin_key));
    assert!(!state.is_member(&member_key));
    assert_eq!(state.get_level(&admin_key), Some(AccessLevel::Manage));

    state.add_member(member_key.clone(), AccessLevel::Read);
    assert!(state.is_member(&member_key));
    assert_eq!(state.get_level(&member_key), Some(AccessLevel::Read));

    state.change_permission(member_key.clone(), AccessLevel::Write);
    assert_eq!(state.get_level(&member_key), Some(AccessLevel::Write));

    state.remove_member(&member_key);
    assert!(!state.is_member(&member_key));
}

#[test]
fn add_member_requires_manage_permission() {
    let admin_key = hex_of(&pk_of(&test_seed(1)));
    let writer_key = hex_of(&pk_of(&test_seed(2)));
    let new_member_key = hex_of(&pk_of(&test_seed(3)));
    let another_key = hex_of(&pk_of(&test_seed(4)));

    let mut state = MembershipState::new("org1".into());
    state.add_member(admin_key.clone(), AccessLevel::Manage);
    state.add_member(writer_key.clone(), AccessLevel::Write);

    let result = add_member(&mut state, &admin_key, new_member_key, AccessLevel::Read);
    assert!(result.is_ok());

    let result = add_member(&mut state, &writer_key, another_key, AccessLevel::Read);
    assert!(result.is_err());
}

#[test]
fn cannot_remove_yourself() {
    let admin_key = hex_of(&pk_of(&test_seed(1)));

    let mut state = MembershipState::new("org1".into());
    state.add_member(admin_key.clone(), AccessLevel::Manage);

    let result = remove_member(&mut state, &admin_key, &admin_key);
    assert!(result.is_err());
}

#[test]
fn change_permission_requires_manage() {
    let admin_key = hex_of(&pk_of(&test_seed(1)));
    let reader_key = hex_of(&pk_of(&test_seed(2)));

    let mut state = MembershipState::new("org1".into());
    state.add_member(admin_key.clone(), AccessLevel::Manage);
    state.add_member(reader_key.clone(), AccessLevel::Read);

    assert!(change_permission(&mut state, &admin_key, reader_key.clone(), AccessLevel::Write)
        .is_ok());
    assert_eq!(state.get_level(&reader_key), Some(AccessLevel::Write));
    assert!(change_permission(&mut state, &reader_key, admin_key.clone(), AccessLevel::Pull)
        .is_err());
}

#[test]
fn invite_token_create_and_verify() {
    let seed = test_seed(9);
    let public_key = pk_of(&seed);
    let expiry = 9999999999999999;

    let token = InviteToken::create("org1".into(), &public_key, AccessLevel::Write, expiry, &seed);

    let current_time = 1000000000000000;
    let result = token.verify(current_time);
    assert!(result.is_ok());

    let (verified_key, verified_level) = result.unwrap();
    assert_eq!(verified_key, public_key.to_vec());
    assert_eq!(verified_level, AccessLevel::Write);
}

#[test]
fn invite_token_rejects_expired() {
    let seed = test_seed(9);
    let public_key = pk_of(&seed);
    let expiry = 1000000000000000;

    let token = InviteToken::create("org1".into(), &public_key, AccessLevel::Write, expiry, &seed);

    let current_time = 2000000000000000;
    let result = token.verify(current_time);
    assert!(matches!(result, Err(AuthError::TokenExpired)));
}

#[test]
fn invite_token_rejects_invalid_signature() {
    let seed = test_seed(9);
    let public_key = pk_of(&seed);
    let expiry = 9999999999999999;

    let mut token =
        InviteToken::create("org1".into(), &public_key, AccessLevel::Write, expiry, &seed);

    token.access_level = "manage".into();

    let current_time = 1000000000000000;
    let result = token.verify(current_time);
    assert!(matches!(result, Err(AuthError::InvalidSignature)));
}

#[test]
fn invite_token_base64_roundtrip() {
    let seed = test_seed(9);
    let public_key = pk_of(&seed);
    let expiry = 9999999999999999;

    let token = InviteToken::create("org1".into(), &public_key, AccessLevel::Write, expiry, &seed);

    let encoded = token.to_base64();
    let decoded = InviteToken::from_base64(&encoded).unwrap();

    assert_eq!(decoded.org_id, token.org_id);
    assert_eq!(decoded.inviter_key, token.inviter_key);
    assert_eq!(decoded.access_level, token.access_level);
    assert_eq!(decoded.expiry_timestamp, token.expiry_timestamp);
    assert_eq!(decoded.signature, token.signature);
}

#[test]
fn invite_token_wire_form_is_base64_json() {
    let seed = test_seed(5);
    let public_key = pk_of(&seed);
    let token =
        InviteToken::create("org-a".into(), &public_key, AccessLevel::Read, 42, &seed);
    let encoded = token.to_base64();
    let json_bytes = base64::engine::general_purpose::STANDARD.decode(&encoded).unwrap();
    let value: serde_json::Value = serde_json::from_slice(&json_bytes).unwrap();
    assert_eq!(value.get("org_id").and_then(|v| v.as_str()), Some("org-a"));
    assert_eq!(
        value.get("inviter_key").and_then(|v| v.as_str()),
        Some(hex_of(&public_key).as_str())
    );
    assert_eq!(value.get("access_level").and_then(|v| v.as_str()), Some("read"));
    assert_eq!(value.get("expiry_timestamp").and_then(|v| v.as_i64()), Some(42));
}

#[test]
fn invite_token_negative_expiry_round_trips() {
    let seed = test_seed(6);
    let public_key = pk_of(&seed);
    let token =
        InviteToken::create("org-b".into(), &public_key, AccessLevel::Pull, -12345, &seed);
    let decoded = InviteToken::from_base64(&token.to_base64()).unwrap();
    assert_eq!(decoded.expiry_timestamp, -12345);
}
