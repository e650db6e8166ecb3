[package]
name = "delta_core"
version = "0.1.0"
edition = "2021"
publish = false

[dependencies]
base64 = "=0.22.1"
bip39 = { version = "=2.2.2", features = ["rand"] }
chacha20poly1305 = "=0.10.1"
ciborium = "=0.2.2"
curve25519-dalek = "=4.1.3"
hex = "=0.4.3"
hkdf = "=0.12.4"
p2panda-core = "=0.6.1"
p2panda-encryption = "=0.6.1"
pkarr = "=3.10.0"
rand = "=0.8.8"
serde = { version = "=1.0.229", features = ["derive"] }
serde_json = "=1.0.151"
sha2 = "=0.10.9"
sqlx = { version = "=0.8.6", features = ["sqlite", "runtime-tokio"] }
tokio = { version = "=1.53.2", features = ["rt-multi-thread", "time", "sync", "macros"] }
x25519-dalek = { version = "=2.0.1", features = ["static_secrets"] }

[dev-dependencies]
ed25519-dalek = "=2.2.0"
