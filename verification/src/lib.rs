//! A double-ratchet messaging library over X25519, HKDF-SHA256,
//! HMAC-SHA256 and ChaCha20-Poly1305, with its state machine verified.

pub mod bridge;
pub mod bytes;
pub mod crypto;
pub mod functions;
pub mod header;
pub mod protocol;
pub mod ratchets;
pub mod skipped;
pub mod states;
