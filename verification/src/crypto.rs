//! The cryptographic primitives this library is built on.
//!
//! Every function here is a thin call into an outside crate. Their contracts
//! are taken as given, not proved, and each doc comment says what is claimed
//! of the outside function.

use chacha20poly1305::aead::{Aead, Payload};
use chacha20poly1305::{ChaCha20Poly1305, KeyInit};
use hkdf::Hkdf;
use hmac::{Hmac, Mac};
use sha2::Sha256;
use vstd::prelude::*;
use x25519_dalek::{PublicKey, StaticSecret};

verus! {

/// The X25519 public key (RFC 7748) of a 32-byte secret.
pub uninterp spec fn x25519_public_key(secret: Seq<u8>) -> Seq<u8>;

/// The X25519 shared secret of a 32-byte secret and a 32-byte public key.
pub uninterp spec fn x25519_shared_secret(secret: Seq<u8>, public: Seq<u8>) -> Seq<u8>;

/// HKDF-SHA256 (RFC 5869): extract with `salt` and `ikm`, then expand `info`
/// to `len` bytes.
pub uninterp spec fn hkdf_sha256(salt: Seq<u8>, ikm: Seq<u8>, info: Seq<u8>, len: nat) -> Seq<u8>;

/// HMAC-SHA256 (RFC 2104) of `data` under `key`.
pub uninterp spec fn hmac_sha256(key: Seq<u8>, data: Seq<u8>) -> Seq<u8>;

/// The ChaCha20-Poly1305 (RFC 8439) ciphertext of `msg`, with the tag appended.
pub uninterp spec fn chacha20poly1305_seal(
    key: Seq<u8>,
    nonce: Seq<u8>,
    msg: Seq<u8>,
    aad: Seq<u8>,
) -> Seq<u8>;

/// The ChaCha20-Poly1305 plaintext of `ct`, or `None` when authentication fails.
pub uninterp spec fn chacha20poly1305_open(
    key: Seq<u8>,
    nonce: Seq<u8>,
    ct: Seq<u8>,
    aad: Seq<u8>,
) -> Option<Seq<u8>>;

/// The largest number of whole 64-byte blocks plus one that ChaCha20-Poly1305
/// refuses to process: a message of `len` bytes is accepted iff
/// `len / 64 < AEAD_MAX_BLOCKS`.
pub const AEAD_MAX_BLOCKS: u64 = 0xffff_ffff;

/// Whether a message of `len` bytes passes ChaCha20-Poly1305's length test
/// but needs more keystream than is left: the test admits up to
/// `AEAD_MAX_BLOCKS - 1` whole blocks, but after the block that keys
/// Poly1305 only `AEAD_MAX_BLOCKS - 1` blocks remain, so a partial last
/// block makes the stream cipher panic.
pub open spec fn aead_keystream_exhausted(len: nat) -> bool {
    len / 64 == AEAD_MAX_BLOCKS - 1 && len % 64 != 0
}

#[verifier::external_type_specification]
#[verifier::external_body]
pub struct ExAeadError(chacha20poly1305::aead::Error);

/// `x25519_dalek::StaticSecret::random()` followed by `to_bytes()`: 32 bytes
/// drawn from the operating system's random number generator. Nothing is
/// claimed of the bytes. The outside code panics if the operating system
/// cannot supply randomness.
#[verifier::external_body]
pub(crate) fn random_secret() -> (secret: [u8; 32]) {
    StaticSecret::random().to_bytes()
}

/// `PublicKey::from(&StaticSecret::from(secret)).to_bytes()`: claimed to be
/// the X25519 public key of `secret`, a function of `secret` alone.
#[verifier::external_body]
pub(crate) fn x25519_public(secret: &[u8; 32]) -> (public: [u8; 32])
    ensures
        public@ == x25519_public_key(secret@),
{
    PublicKey::from(&StaticSecret::from(*secret)).to_bytes()
}

/// `StaticSecret::from(secret).diffie_hellman(&PublicKey::from(public))`:
/// claimed to be the X25519 shared secret of the two arguments, and, as the
/// crate's documentation shows, to agree with what the holder of the other
/// secret computes from `secret`'s public key.
#[verifier::external_body]
pub(crate) fn x25519_diffie_hellman(secret: &[u8; 32], public: &[u8; 32]) -> (shared: [u8; 32])
    ensures
        shared@ == x25519_shared_secret(secret@, public@),
        forall|other: Seq<u8>|
            other.len() == 32 && public@ == x25519_public_key(other) ==> shared@
                == x25519_shared_secret(other, x25519_public_key(secret@)),
{
    StaticSecret::from(*secret).diffie_hellman(&PublicKey::from(*public)).to_bytes()
}

/// `Hkdf::<Sha256>::new(Some(salt), ikm)` then `expand(info, okm)` into `len`
/// bytes: claimed to be HKDF-SHA256 of the arguments, `len` bytes long. The
/// outside `expand` fails only above 255 * 32 bytes, which `requires` rules out.
#[verifier::external_body]
pub(crate) fn hkdf_sha256_expand(salt: &[u8], ikm: &[u8], info: &[u8], len: usize) -> (okm: Vec<u8>)
    requires
        len <= 8160,
    ensures
        okm@ == hkdf_sha256(salt@, ikm@, info@, len as nat),
        okm@.len() == len,
{
    let hk = Hkdf::<Sha256>::new(Some(salt), ikm);
    let mut okm = vec![0u8; len];
    hk.expand(info, &mut okm).expect("length within the HKDF limit");
    okm
}

/// `<Hmac<Sha256> as Mac>::new_from_slice(key)`, `update(data)`, `finalize()`: claimed
/// to be HMAC-SHA256 of `data` under `key`. The outside `new_from_slice`
/// accepts keys of every length.
#[verifier::external_body]
pub(crate) fn hmac_sha256_tag(key: &[u8], data: &[u8]) -> (tag: [u8; 32])
    ensures
        tag@ == hmac_sha256(key@, data@),
{
    let mut mac = <Hmac<Sha256> as Mac>::new_from_slice(key).expect("HMAC takes keys of every length");
    mac.update(data);
    mac.finalize().into_bytes().into()
}

/// `ChaCha20Poly1305::new(key).encrypt(nonce, Payload { msg, aad })`: claimed
/// to succeed exactly when the message is shorter than the cipher's block
/// limit (the length test in `encrypt_in_place_detached`), and then to return the
/// ChaCha20-Poly1305 ciphertext of the arguments, 16 bytes longer than `msg`.
/// The outside code first allocates `msg.len() + 16` bytes, which panics
/// beyond `isize::MAX`, and its keystream panics on the lengths of
/// `aead_keystream_exhausted`; `requires` rules both out.
#[verifier::external_body]
pub(crate) fn chacha20poly1305_encrypt(
    key: &[u8; 32],
    nonce: &[u8; 12],
    msg: &[u8],
    aad: &[u8],
) -> (res: Result<Vec<u8>, chacha20poly1305::aead::Error>)
    requires
        msg@.len() + 16 <= isize::MAX,
        !aead_keystream_exhausted(msg@.len()),
    ensures
        match res {
            Ok(ct) => {
                &&& msg@.len() / 64 < AEAD_MAX_BLOCKS
                &&& ct@ == chacha20poly1305_seal(key@, nonce@, msg@, aad@)
                &&& ct@.len() == msg@.len() + 16
            },
            Err(_) => msg@.len() / 64 >= AEAD_MAX_BLOCKS,
        },
{
    let cipher = ChaCha20Poly1305::new(key.into());
    cipher.encrypt(nonce.into(), Payload { msg, aad })
}

/// `ChaCha20Poly1305::new(key).decrypt(nonce, Payload { msg: ct, aad })`:
/// claimed to return the ChaCha20-Poly1305 opening of the arguments, and, as
/// an AEAD must, to give back the message of any ciphertext that
/// `chacha20poly1305_encrypt` produced under the same key, nonce and `aad`.
/// A ciphertext shorter than the 16-byte tag is refused (the first test of
/// `decrypt_in_place`). With a valid tag, a message part of the lengths of
/// `aead_keystream_exhausted` makes the keystream panic; `requires` rules
/// those lengths out.
#[verifier::external_body]
pub(crate) fn chacha20poly1305_decrypt(
    key: &[u8; 32],
    nonce: &[u8; 12],
    ct: &[u8],
    aad: &[u8],
) -> (res: Result<Vec<u8>, chacha20poly1305::aead::Error>)
    requires
        ct@.len() >= 16 ==> !aead_keystream_exhausted((ct@.len() - 16) as nat),
    ensures
        match res {
            Ok(msg) => chacha20poly1305_open(key@, nonce@, ct@, aad@) == Some(msg@),
            Err(_) => chacha20poly1305_open(key@, nonce@, ct@, aad@) is None,
        },
        ct@.len() < 16 ==> res is Err,
        forall|msg: Seq<u8>|
            msg.len() / 64 < AEAD_MAX_BLOCKS && !aead_keystream_exhausted(msg.len()) && ct@
                == chacha20poly1305_seal(key@, nonce@, msg, aad@) ==> res is Ok && res.unwrap()@
                == msg,
{
    let cipher = ChaCha20Poly1305::new(key.into());
    cipher.decrypt(nonce.into(), Payload { msg: ct, aad })
}

/// `aead::Error`'s `to_string()`: its `Display` writes the fixed text
/// `aead::Error`.
#[verifier::external_body]
pub(crate) fn aead_error_text(err: &chacha20poly1305::aead::Error) -> (text: String)
    ensures
        text@ == "aead::Error"@,
{
    err.to_string()
}

} // verus!
