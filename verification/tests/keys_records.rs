//! Mnemonic keypairs, pkarr URLs, and TXT-record building and parsing.

use delta_core::keys::{generate_keypair, import_from_mnemonic};
use delta_core::pkarrtxt::{
    build_org_txt_record, build_user_txt_record, get_pkarr_url, parse_pkarr_url, parse_txt_record,
};

#[test]
fn generate_and_reimport() {
    let kp1 = generate_keypair();
    assert_eq!(kp1.mnemonic.split_whitespace().count(), 24);
    assert_eq!(kp1.private_key_hex.len(), 64);
    assert_eq!(kp1.public_key_hex.len(), 64);

    let words: Vec<String> = kp1.mnemonic.split_whitespace().map(String::from).collect();
    let kp2 = import_from_mnemonic(words).expect("a freshly generated mnemonic is valid");

    assert_eq!(kp1.private_key_hex, kp2.private_key_hex);
    assert_eq!(kp1.public_key_hex, kp2.public_key_hex);
}

#[test]
fn bad_mnemonic_returns_error() {
    let bad: Vec<String> = vec!["not".into(), "valid".into()];
    assert!(import_from_mnemonic(bad).is_err());
}

#[test]
fn derived_key_matches_bip39_seed() {
    let kp = generate_keypair();
    let mnemonic = kp.mnemonic.parse::<bip39::Mnemonic>().unwrap();
    let seed = mnemonic.to_seed("");
    assert_eq!(kp.private_key_hex, hex::encode(&seed[..32]));
}

#[test]
fn pkarr_url_round_trip() {
    let kp = generate_keypair();
    let url = get_pkarr_url(&kp.public_key_hex).unwrap();
    assert!(url.starts_with("pk:"));
    let z32 = parse_pkarr_url(&url).unwrap();
    let pk_bytes: [u8; 32] = hex::decode(&kp.public_key_hex).unwrap().try_into().unwrap();
    let expected = pkarr::PublicKey::try_from(&pk_bytes).unwrap().to_z32();
    assert_eq!(z32, expected);
}

#[test]
fn pkarr_url_rejects_bad_hex() {
    assert!(get_pkarr_url("zz").is_err());
    assert!(get_pkarr_url("abcd").is_err());
}

#[test]
fn parse_pkarr_url_requires_scheme() {
    assert_eq!(parse_pkarr_url("pk:abc"), Some("abc".to_string()));
    assert_eq!(parse_pkarr_url("abc"), None);
}

#[test]
fn parse_relay_record() {
    let txt = format!("v=delta1;t=relay;n=https://relay.delta.app/hop;a={}", "ab".repeat(32));
    let record = parse_txt_record(&txt, "testz32key");
    assert_eq!(record.record_type, "relay");
    assert_eq!(record.name.as_deref(), Some("https://relay.delta.app/hop"));
    assert_eq!(record.avatar_blob_id.as_deref(), Some(&"ab".repeat(32) as &str));
}

#[test]
fn parse_user_record_still_works() {
    let txt = "v=delta1;t=user;u=alice;b=hello";
    let record = parse_txt_record(txt, "testz32key");
    assert_eq!(record.record_type, "user");
    assert_eq!(record.username.as_deref(), Some("alice"));
    assert_eq!(record.bio.as_deref(), Some("hello"));
}

#[test]
fn build_user_record_includes_fields() {
    let txt = build_user_txt_record("alice", Some("hi there"), Some("blob1"));
    assert_eq!(txt, "v=delta1;t=user;u=alice;b=hi there;a=blob1");
    let parsed = parse_txt_record(&txt, "key");
    assert_eq!(parsed.record_type, "user");
    assert_eq!(parsed.username.as_deref(), Some("alice"));
    assert_eq!(parsed.bio.as_deref(), Some("hi there"));
    assert_eq!(parsed.avatar_blob_id.as_deref(), Some("blob1"));
}

#[test]
fn build_user_record_truncates_long_bio() {
    let long_bio = "x".repeat(150);
    let txt = build_user_txt_record("bob", Some(&long_bio), None);
    let parsed = parse_txt_record(&txt, "key");
    let bio = parsed.bio.unwrap();
    assert_eq!(bio.len(), 100);
    assert!(bio.ends_with("..."));
}

#[test]
fn build_org_record_truncates_long_description() {
    let long_desc = "y".repeat(200);
    let txt = build_org_txt_record("team", Some(&long_desc), None, Some("cover1"));
    let parsed = parse_txt_record(&txt, "key");
    let desc = parsed.description.unwrap();
    assert_eq!(desc.len(), 150);
    assert!(desc.ends_with("..."));
    assert_eq!(parsed.cover_blob_id.as_deref(), Some("cover1"));
    assert_eq!(parsed.name.as_deref(), Some("team"));
}
