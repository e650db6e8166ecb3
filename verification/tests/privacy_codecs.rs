//! The sealed-sender envelope and the onion packet codec, end to end with the
//! real crypto crates.

use delta_core::corestate::peel_onion_layer;
use delta_core::onion::{
    build_onion_packet, decrypt_layer, encrypt_layer, OnionHop, OnionPayload,
};
use delta_core::sealed_sender::{is_sealed, open, seal};

use rand::RngCore;

fn random_keypair() -> ([u8; 32], [u8; 32]) {
    let mut seed = [0u8; 32];
    rand::rngs::OsRng.fill_bytes(&mut seed);
    let signing = ed25519_dalek::SigningKey::from_bytes(&seed);
    let verifying = signing.verifying_key();
    (seed, *verifying.as_bytes())
}

#[test]
fn seal_and_open_roundtrip() {
    let (_sender_seed, sender_pk) = random_keypair();
    let (recipient_seed, recipient_pk) = random_keypair();
    let op = b"hello sealed world";

    let envelope = seal(op, &sender_pk, &recipient_pk).unwrap();
    let (recovered_sender, recovered_op) = open(&envelope, &recipient_seed).unwrap();

    assert_eq!(recovered_sender, sender_pk);
    assert_eq!(recovered_op, op);
}

#[test]
fn wrong_recipient_key_fails() {
    let (_sender_seed, sender_pk) = random_keypair();
    let (_recipient_seed, recipient_pk) = random_keypair();
    let (wrong_seed, _wrong_pk) = random_keypair();

    let envelope = seal(b"secret", &sender_pk, &recipient_pk).unwrap();
    assert!(open(&envelope, &wrong_seed).is_err());
}

#[test]
fn tampered_ciphertext_fails() {
    let (_, sender_pk) = random_keypair();
    let (recipient_seed, recipient_pk) = random_keypair();

    let mut envelope = seal(b"secret", &sender_pk, &recipient_pk).unwrap();
    let last = envelope.len() - 1;
    envelope[last] ^= 0xff;

    assert!(open(&envelope, &recipient_seed).is_err());
}

#[test]
fn is_sealed_detects_version_byte() {
    let (_, sender_pk) = random_keypair();
    let (_, recipient_pk) = random_keypair();

    let envelope = seal(b"test", &sender_pk, &recipient_pk).unwrap();
    assert!(is_sealed(&envelope));
    assert!(!is_sealed(b"plain gossip bytes"));
}

#[test]
fn encrypt_decrypt_forward_roundtrip() {
    let (seed, pubkey) = random_keypair();
    let inner = b"inner onion packet bytes";
    let payload = OnionPayload::Forward {
        next_hop_url: "https://relay.example.com/hop".to_string(),
        inner_packet: inner.to_vec(),
    };

    let envelope = encrypt_layer(&payload, &pubkey).unwrap();
    let recovered = decrypt_layer(&envelope, &seed).unwrap();

    match recovered {
        OnionPayload::Forward { next_hop_url, inner_packet } => {
            assert_eq!(next_hop_url, "https://relay.example.com/hop");
            assert_eq!(inner_packet, inner);
        },
        _ => panic!("expected a forward instruction"),
    }
}

#[test]
fn encrypt_decrypt_deliver_roundtrip() {
    let (seed, pubkey) = random_keypair();
    let tid = [0xabu8; 32];
    let op_bytes = b"raw protocol bytes";
    let payload = OnionPayload::Deliver { topic_id: tid, op: op_bytes.to_vec() };

    let envelope = encrypt_layer(&payload, &pubkey).unwrap();
    let recovered = decrypt_layer(&envelope, &seed).unwrap();

    match recovered {
        OnionPayload::Deliver { topic_id, op } => {
            assert_eq!(topic_id, tid);
            assert_eq!(op, op_bytes);
        },
        _ => panic!("expected a deliver instruction"),
    }
}

#[test]
fn wrong_key_fails_decryption() {
    let (_, pubkey) = random_keypair();
    let (wrong_seed, _) = random_keypair();
    let payload = OnionPayload::Forward {
        next_hop_url: "https://example.com".to_string(),
        inner_packet: vec![1, 2, 3],
    };
    let envelope = encrypt_layer(&payload, &pubkey).unwrap();
    assert!(decrypt_layer(&envelope, &wrong_seed).is_err());
}

#[test]
fn tampered_envelope_fails() {
    let (seed, pubkey) = random_keypair();
    let payload = OnionPayload::Forward {
        next_hop_url: "https://example.com".to_string(),
        inner_packet: vec![1, 2, 3],
    };
    let mut envelope = encrypt_layer(&payload, &pubkey).unwrap();
    let last = envelope.len() - 1;
    envelope[last] ^= 0xff;
    assert!(decrypt_layer(&envelope, &seed).is_err());
}

#[test]
fn envelope_too_short_fails() {
    let (seed, _) = random_keypair();
    assert!(decrypt_layer(b"short", &seed).is_err());
}

#[test]
fn build_and_peel_single_hop() {
    let (hop1_seed, hop1_pk) = random_keypair();
    let tid = [0x42u8; 32];
    let op_bytes = b"hello from the exit";

    let hops = vec![OnionHop {
        pubkey_bytes: hop1_pk,
        next_url: "https://relay.example.com/hop".to_string(),
    }];

    let packet = build_onion_packet(&hops, &tid, op_bytes).unwrap();
    let payload = decrypt_layer(&packet, &hop1_seed).unwrap();

    match payload {
        OnionPayload::Deliver { topic_id, op } => {
            assert_eq!(topic_id, tid);
            assert_eq!(op, op_bytes);
        },
        _ => panic!("a single hop should see the delivery"),
    }
}

#[test]
fn build_and_peel_three_hops() {
    let (hop1_seed, hop1_pk) = random_keypair();
    let (hop2_seed, hop2_pk) = random_keypair();
    let (hop3_seed, hop3_pk) = random_keypair();
    let tid = [0x99u8; 32];
    let op_bytes = b"three hop message";

    let hops = vec![
        OnionHop { pubkey_bytes: hop1_pk, next_url: "https://hop1/hop".to_string() },
        OnionHop { pubkey_bytes: hop2_pk, next_url: "https://hop2/hop".to_string() },
        OnionHop { pubkey_bytes: hop3_pk, next_url: "https://hop3/hop".to_string() },
    ];

    let packet = build_onion_packet(&hops, &tid, op_bytes).unwrap();

    let layer1 = decrypt_layer(&packet, &hop1_seed).unwrap();
    let (url2, inner1) = match layer1 {
        OnionPayload::Forward { next_hop_url, inner_packet } => (next_hop_url, inner_packet),
        _ => panic!("the first hop should see a forward"),
    };
    assert_eq!(url2, "https://hop2/hop");

    let layer2 = decrypt_layer(&inner1, &hop2_seed).unwrap();
    let (url3, inner2) = match layer2 {
        OnionPayload::Forward { next_hop_url, inner_packet } => (next_hop_url, inner_packet),
        _ => panic!("the second hop should see a forward"),
    };
    assert_eq!(url3, "https://hop3/hop");

    let layer3 = decrypt_layer(&inner2, &hop3_seed).unwrap();
    match layer3 {
        OnionPayload::Deliver { topic_id, op } => {
            assert_eq!(topic_id, tid);
            assert_eq!(op, op_bytes);
        },
        _ => panic!("the last hop should see the delivery"),
    }
}

#[test]
fn empty_route_returns_error() {
    let hops: Vec<OnionHop> = vec![];
    assert!(build_onion_packet(&hops, &[0u8; 32], b"msg").is_err());
}

#[test]
fn peel_onion_layer_reports_plain_fields() {
    let (seed, pk) = random_keypair();
    let tid = [0x17u8; 32];
    let hops = vec![OnionHop { pubkey_bytes: pk, next_url: "https://exit/hop".to_string() }];
    let packet = build_onion_packet(&hops, &tid, b"op").unwrap();
    let peeled = peel_onion_layer(&packet, &hex::encode(seed)).unwrap();
    assert_eq!(peeled.peel_type, "deliver");
    assert_eq!(peeled.topic_id.as_deref(), Some(&tid[..]));
    assert_eq!(peeled.op.as_deref(), Some(&b"op"[..]));
}
