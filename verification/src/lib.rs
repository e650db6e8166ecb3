//! Peer-to-peer messaging core: append-only signed operation logs, an
//! idempotent projector into a relational read model, sealed-sender and onion
//! privacy codecs, topic derivation, and membership authorization.

use vstd::prelude::*;

pub mod auth;
pub mod bytesfmt;
pub mod cbor;
pub mod corestate;
pub mod dgm;
pub mod envelope;
pub mod extcrypto;
pub mod keys;
pub mod onion;
pub mod ops;
pub mod phrase;
pub mod pkarrtxt;
pub mod projector;
pub mod readmodel;
pub mod roomenc;
pub mod sealed_sender;
pub mod store;
pub mod token;
pub mod topics;

verus! {

} // verus!
