//! The cryptographic steps of the double ratchet: key generation,
//! Diffie-Hellman, the root-key and chain-key derivations, message
//! encryption and decryption, and the associated data of a message.

use crate::bytes::{array_at, concat_bytes};
use crate::crypto::{
    aead_error_text, chacha20poly1305_decrypt, chacha20poly1305_encrypt, chacha20poly1305_open,
    chacha20poly1305_seal, hkdf_sha256, hkdf_sha256_expand, hmac_sha256, hmac_sha256_tag,
    random_secret, x25519_diffie_hellman, x25519_public_key, x25519_shared_secret,
    aead_keystream_exhausted, AEAD_MAX_BLOCKS,
};
use vstd::string::StringExecFns;
use crate::header::{header_bytes, HEADER};
use vstd::prelude::*;

verus! {

/// What can go wrong in the primitives of this module.
#[derive(Debug)]
pub enum FunctionsError {
    FailedToEncrypt { err: String },
    FailedToDecrypt { err: String },
}

/// The result of `encrypt`: the ciphertext, and the ChaCha20-Poly1305 key
/// it was sealed under.
#[derive(PartialEq, Debug)]
pub struct EncryptedPayload {
    pub payload: Vec<u8>,
    pub mk: Vec<u8>,
}

/// The result of `decrypt`: the plaintext, and the ChaCha20-Poly1305 key
/// it was opened with.
#[derive(PartialEq, Debug)]
pub struct DecryptedPayload {
    pub payload: Vec<u8>,
    pub mk: Vec<u8>,
}

/// The HKDF `info` of the root-key derivation.
pub open spec fn rk_info() -> Seq<u8> {
    "RUSTY_RACHET_KDF_RK_SHA512"@.map_values(|c: char| c as u8)
}

/// The HKDF `info` of the message-key expansion.
pub open spec fn enc_info() -> Seq<u8> {
    "RUSTY_RACHET_CHACHA_POLY1305_ENCRYPTION_DECRYPTION"@.map_values(|c: char| c as u8)
}

/// The HKDF salt of the message-key expansion: 80 zero bytes.
pub open spec fn enc_salt() -> Seq<u8> {
    Seq::new(80, |i: int| 0u8)
}

/// The pair `(next root key, chain key)` that a root key and a
/// Diffie-Hellman output yield.
pub open spec fn kdf_rk_spec(rk: Seq<u8>, dh_out: Seq<u8>) -> (Seq<u8>, Seq<u8>) {
    let okm = hkdf_sha256(rk, dh_out, rk_info(), 64);
    (okm.subrange(0, 32), okm.subrange(32, 64))
}

/// The pair `(next chain key, message key)` that a chain key yields.
pub open spec fn kdf_ck_spec(ck: Seq<u8>) -> (Seq<u8>, Seq<u8>) {
    (hmac_sha256(ck, seq![2u8]), hmac_sha256(ck, seq![1u8]))
}

/// The 80 bytes expanded from a message key.
pub open spec fn message_key_material(mk: Seq<u8>) -> Seq<u8> {
    hkdf_sha256(enc_salt(), mk, enc_info(), 80)
}

/// The ChaCha20-Poly1305 key derived from a message key.
pub open spec fn aead_key(mk: Seq<u8>) -> Seq<u8> {
    message_key_material(mk).subrange(0, 32)
}

/// The ChaCha20-Poly1305 nonce derived from a message key.
pub open spec fn aead_nonce(mk: Seq<u8>) -> Seq<u8> {
    message_key_material(mk).subrange(64, 76)
}

/// Whether the holders of the secrets `a` and `b` compute the same X25519
/// shared secret from each other's public keys.
pub open spec fn x25519_agree(a: Seq<u8>, b: Seq<u8>) -> bool {
    x25519_shared_secret(a, x25519_public_key(b)) == x25519_shared_secret(b, x25519_public_key(a))
}

/// Whether ChaCha20-Poly1305 accepts a message of this length.
pub open spec fn aead_accepts(len: nat) -> bool {
    len / 64 < AEAD_MAX_BLOCKS && !aead_keystream_exhausted(len)
}

/// Whether `decrypt` refuses a ciphertext of `len` bytes for its length
/// alone: its message part is of a length ChaCha20-Poly1305 cannot finish.
pub open spec fn decrypt_refuses_length(len: nat) -> bool {
    len >= 16 && aead_keystream_exhausted((len - 16) as nat)
}

/// The associated data of a message: the caller's data, then the header's encoding.
pub open spec fn concat_spec(ad: Seq<u8>, header: crate::header::HeaderView) -> Seq<u8> {
    ad + header_bytes(header)
}

fn info_bytes(s: &str) -> (out: Vec<u8>)
    requires
        vstd::string::is_ascii(s),
    ensures
        out@ == s@.map_values(|c: char| c as u8),
{
    let n = s.unicode_len();
    let mut out: Vec<u8> = Vec::new();
    let mut i: usize = 0;
    while i < n
        invariant
            n == s@.len(),
            i <= n,
            vstd::string::is_ascii(s),
            out@ == s@.subrange(0, i as int).map_values(|c: char| c as u8),
        decreases n - i,
    {
        let b = s.get_ascii(i);
        out.push(b);
        i = i + 1;
        assert(out@ =~= s@.subrange(0, i as int).map_values(|c: char| c as u8));
    }
    assert(s@.subrange(0, n as int) =~= s@);
    out
}

/// A fresh Diffie-Hellman secret key, drawn from the operating system's randomness.
pub fn generate_dh() -> (res: Result<[u8; 32], FunctionsError>)
    ensures
        res is Ok,
{
    Ok(random_secret())
}

/// The X25519 shared secret of our secret key `dh_pair` and their public key `dh_pub`.
pub fn dh(dh_pair: [u8; 32], dh_pub: [u8; 32]) -> (res: Result<[u8; 32], FunctionsError>)
    ensures
        res matches Ok(shared) && shared@ == x25519_shared_secret(dh_pair@, dh_pub@),
        forall|other: Seq<u8>|
            other.len() == 32 && dh_pub@ == x25519_public_key(other) ==> (res matches Ok(shared)
                && shared@ == x25519_shared_secret(other, x25519_public_key(dh_pair@))),
{
    Ok(x25519_diffie_hellman(&dh_pair, &dh_pub))
}

/// Steps the root chain: returns `(next root key, chain key)` derived by
/// HKDF-SHA256 from the root key (as salt) and a Diffie-Hellman output.
pub fn kdf_rk(rk: &[u8], dh_out: [u8; 32]) -> (res: Result<([u8; 32], [u8; 32]), FunctionsError>)
    ensures
        res matches Ok((next_rk, ck)) && (next_rk@, ck@) == kdf_rk_spec(rk@, dh_out@),
        res matches Ok((next_rk, ck)) ==> {
            let okm = hkdf_sha256(rk@, dh_out@, rk_info(), 64);
            &&& next_rk@ == okm.subrange(0, 32)
            &&& ck@ == okm.subrange(32, 64)
        },
{
    let s = "RUSTY_RACHET_KDF_RK_SHA512";
    proof {
        reveal_strlit("RUSTY_RACHET_KDF_RK_SHA512");
    }
    let info = info_bytes(s);
    let keys = hkdf_sha256_expand(rk, &dh_out, info.as_slice(), 64);
    let next_rk: [u8; 32] = array_at(keys.as_slice(), 0);
    let ck: [u8; 32] = array_at(keys.as_slice(), 32);
    Ok((next_rk, ck))
}

/// Steps a symmetric-key ratchet chain: returns `(next chain key, message key)`.
pub fn kdf_ck(ck: &[u8]) -> (res: Result<([u8; 32], [u8; 32]), FunctionsError>)
    ensures
        res matches Ok((next, mk)) && (next@, mk@) == kdf_ck_spec(ck@),
        res matches Ok((next, mk)) ==> next@ == hmac_sha256(ck@, seq![2u8]) && mk@ == hmac_sha256(
            ck@,
            seq![1u8],
        ),
{
    let one: [u8; 1] = [1u8];
    let two: [u8; 1] = [2u8];
    assert(one@ =~= seq![1u8]);
    assert(two@ =~= seq![2u8]);
    let mk = hmac_sha256_tag(ck, &one);
    let next = hmac_sha256_tag(ck, &two);
    Ok((next, mk))
}

/// The ChaCha20-Poly1305 key and nonce that a message key expands to.
fn message_cipher_params(mk: &[u8]) -> (res: ([u8; 32], [u8; 12]))
    ensures
        res.0@ == aead_key(mk@),
        res.1@ == aead_nonce(mk@),
        res.0@ == hkdf_sha256(enc_salt(), mk@, enc_info(), 80).subrange(0, 32),
        res.1@ == hkdf_sha256(enc_salt(), mk@, enc_info(), 80).subrange(64, 76),
{
    let salt = [0u8; 80];
    assert(salt@ =~= enc_salt());
    let s = "RUSTY_RACHET_CHACHA_POLY1305_ENCRYPTION_DECRYPTION";
    proof {
        reveal_strlit("RUSTY_RACHET_CHACHA_POLY1305_ENCRYPTION_DECRYPTION");
    }
    let info = info_bytes(s);
    let outputs = hkdf_sha256_expand(&salt, mk, info.as_slice(), 80);
    let key: [u8; 32] = array_at(outputs.as_slice(), 0);
    let nonce: [u8; 12] = array_at(outputs.as_slice(), 64);
    (key, nonce)
}

/// Encrypts `plaintext` with associated data under the ChaCha20-Poly1305 key
/// and nonce expanded from the message key `mk`.
pub fn encrypt(mk: [u8; 32], plaintext: &[u8], associated_data: &[u8]) -> (res: Result<
    EncryptedPayload,
    FunctionsError,
>)
    requires
        plaintext@.len() + 16 <= isize::MAX,
        !aead_keystream_exhausted(plaintext@.len()),
    ensures
        match res {
            Ok(enc) => {
                &&& aead_accepts(plaintext@.len())
                &&& enc.payload@ == chacha20poly1305_seal(
                    aead_key(mk@),
                    aead_nonce(mk@),
                    plaintext@,
                    associated_data@,
                )
                &&& enc.payload@.len() == plaintext@.len() + 16
                &&& enc.mk@ == aead_key(mk@)
                &&& enc.mk@.len() == 32
            },
            Err(e) => {
                &&& !aead_accepts(plaintext@.len())
                &&& e matches FunctionsError::FailedToEncrypt { err } && err@ == "aead::Error"@
            },
        },
{
    let (key, nonce) = message_cipher_params(&mk);
    match chacha20poly1305_encrypt(&key, &nonce, plaintext, associated_data) {
        Ok(ciphertext) => {
            let key_bytes = concat_bytes(&key, &[]);
            assert(key_bytes@ =~= key@);
            Ok(EncryptedPayload { payload: ciphertext, mk: key_bytes })
        },
        Err(e) => Err(FunctionsError::FailedToEncrypt { err: aead_error_text(&e) }),
    }
}

/// Decrypts `ciphertext` with associated data under the ChaCha20-Poly1305
/// key and nonce expanded from the message key `mk`. Whatever `encrypt`
/// sealed under the same message key and associated data is given back. A
/// ciphertext whose message part ChaCha20-Poly1305 could not finish is
/// refused before it is opened.
pub fn decrypt(mk: &[u8], ciphertext: &[u8], associated_data: &[u8]) -> (res: Result<
    DecryptedPayload,
    FunctionsError,
>)
    ensures
        match res {
            Ok(dec) => {
                &&& !decrypt_refuses_length(ciphertext@.len())
                &&& chacha20poly1305_open(
                    aead_key(mk@),
                    aead_nonce(mk@),
                    ciphertext@,
                    associated_data@,
                ) == Some(dec.payload@)
                &&& dec.mk@ == aead_key(mk@)
                &&& dec.mk@.len() == 32
            },
            Err(e) => {
                &&& decrypt_refuses_length(ciphertext@.len()) || chacha20poly1305_open(
                    aead_key(mk@),
                    aead_nonce(mk@),
                    ciphertext@,
                    associated_data@,
                ) is None
                &&& e matches FunctionsError::FailedToDecrypt { err } && err@ == "aead::Error"@
            },
        },
        ciphertext@.len() < 16 ==> res is Err,
        forall|msg: Seq<u8>|
            aead_accepts(msg.len()) && ciphertext@.len() == msg.len() + 16 && ciphertext@
                == chacha20poly1305_seal(aead_key(mk@), aead_nonce(mk@), msg, associated_data@)
                ==> res is Ok && res.unwrap().payload@ == msg,
{
    if ciphertext.len() >= 16 && ((ciphertext.len() - 16) as u64) / 64 == AEAD_MAX_BLOCKS - 1 && ((
    ciphertext.len() - 16) as u64) % 64 != 0 {
        proof {
            reveal_strlit("aead::Error");
        }
        return Err(FunctionsError::FailedToDecrypt { err: String::from_str("aead::Error") });
    }
    let (key, nonce) = message_cipher_params(mk);
    match chacha20poly1305_decrypt(&key, &nonce, ciphertext, associated_data) {
        Ok(plaintext) => {
            let key_bytes = concat_bytes(&key, &[]);
            assert(key_bytes@ =~= key@);
            Ok(DecryptedPayload { payload: plaintext, mk: key_bytes })
        },
        Err(e) => Err(FunctionsError::FailedToDecrypt { err: aead_error_text(&e) }),
    }
}

/// The associated data of a message: `ad` followed by the header's encoding.
pub fn concat(ad: &[u8], header: HEADER) -> (res: Result<Vec<u8>, FunctionsError>)
    ensures
        res matches Ok(bytes) && bytes@ == concat_spec(ad@, header@),
{
    let serialized_header = header.serialize().unwrap();
    let bytes = concat_bytes(ad, serialized_header.as_slice());
    Ok(bytes)
}

} // verus!
