[package]
name = "rusty_ratchet"
version = "0.1.0"
edition = "2021"
publish = false

[dependencies]
x25519-dalek = { version = "2", features = ["static_secrets", "getrandom"] }
hkdf = "0.12"
hmac = "0.12"
sha2 = "0.10"
chacha20poly1305 = "0.10"
serde = { version = "1", features = ["derive"] }
thiserror = "2"
jni = "0.21"
zeroize = "1"

[dev-dependencies]
rand = "0.9"
