# rusty_ratchet

A double-ratchet messaging library (X25519, HKDF-SHA256, HMAC-SHA256,
ChaCha20-Poly1305) whose state machine is verified with Verus.

- `src/crypto.rs`: the calls into the cryptographic crates, with their
  trusted contracts.
- `src/functions.rs`: key generation, Diffie-Hellman, the root and chain key
  derivations, message encryption and decryption.
- `src/header.rs`: the message header and its 36-byte encoding.
- `src/skipped.rs`: the store of skipped message keys.
- `src/states.rs`: a party's ratchet state and its byte form.
- `src/ratchets.rs`: initialisation, `ratchet_encrypt`, `ratchet_decrypt`.
- `src/protocol.rs`: laws of a conversation between two parties.
- `src/bridge.rs`, `app/`: the platform bridge (serde forms, JNI entry points).
