use rusty_ratchet::functions::{decrypt, dh, encrypt, generate_dh, kdf_ck, kdf_rk, FunctionsError};
use rusty_ratchet::header::HEADER;
use x25519_dalek::{PublicKey, StaticSecret};

fn hex(s: &str) -> Vec<u8> {
    (0..s.len()).step_by(2).map(|i| u8::from_str_radix(&s[i..i + 2], 16).unwrap()).collect()
}

fn public_of(secret: [u8; 32]) -> [u8; 32] {
    PublicKey::from(&StaticSecret::from(secret)).to_bytes()
}

#[test]
fn test_generate_dh() {
    let alice_keypair = generate_dh().unwrap();
    let bob_keypair = generate_dh().unwrap();

    let alice_public_key = public_of(alice_keypair);
    let bob_public_key = public_of(bob_keypair);

    let alice_ss = dh(alice_keypair, bob_public_key).unwrap();
    let bob_ss = dh(bob_keypair, alice_public_key).unwrap();

    assert_eq!(alice_ss, bob_ss);
}

#[test]
fn test_encryption_decryption() {
    let mk: [u8; 32] = rand::random();
    let plaintext: [u8; 32] = rand::random();
    let ad: [u8; 32] = rand::random();

    let encrypted_payload = encrypt(mk, plaintext.as_ref(), ad.as_ref()).unwrap();

    let decrypted_payload =
        decrypt(mk.as_ref(), encrypted_payload.payload.as_ref(), ad.as_ref()).unwrap();

    assert_eq!(decrypted_payload.payload, plaintext.as_ref());
}

#[test]
fn generate_dh_draws_distinct_keys() {
    let a = generate_dh().unwrap();
    let b = generate_dh().unwrap();
    assert_ne!(a, b);
}

#[test]
fn dh_matches_known_value() {
    let a = [1u8; 32];
    let b = [2u8; 32];
    assert_eq!(
        public_of(a).to_vec(),
        hex("a4e09292b651c278b9772c569f5fa9bb13d906b46ab68c9df9dc2b4409f8a209")
    );
    let shared = dh(a, public_of(b)).unwrap();
    assert_eq!(
        shared.to_vec(),
        hex("2ed76ab549b1e73c031eb49c9448f0798aea81b698279a0c3dc3e49fbfc4b953")
    );
    assert_eq!(dh(b, public_of(a)).unwrap(), shared);
}

#[test]
fn kdf_ck_matches_hmac_sha256() {
    let ck: Vec<u8> = (0u8..32).collect();
    let (next, mk) = kdf_ck(&ck).unwrap();
    assert_eq!(
        mk.to_vec(),
        hex("9b4c8120a4823a95f47cde17a244f4507244ee6e3957d1fab9fa29b44d3829b7")
    );
    assert_eq!(
        next.to_vec(),
        hex("4304c22c84a53755ab08ead8d97a8d429be5efa480682d7ad1da27f73e1fbe1d")
    );
}

#[test]
fn kdf_rk_matches_hkdf_sha256() {
    let (rk, ck) = kdf_rk(&[7u8; 32], [9u8; 32]).unwrap();
    assert_eq!(
        rk.to_vec(),
        hex("c122d2373212b3d714fdc873f5ae7c530869db7959bc92cf8462d0a9be356867")
    );
    assert_eq!(
        ck.to_vec(),
        hex("7aa422d60c70e70c275993cf6019b8e6ee5285a0b5a526763367435b8e5e35e6")
    );
}

#[test]
fn encrypt_matches_known_ciphertext() {
    let enc = encrypt([0x42u8; 32], b"hello", b"ad").unwrap();
    assert_eq!(enc.payload, hex("418803fb48127688e448f9f3f1173957b058e5decb"));
    assert_eq!(
        enc.mk,
        hex("a43d61488661b8abd381ca6935f53d05c10df07d95efb178b5e86470149c9e97")
    );
    let dec = decrypt(&[0x42u8; 32], &enc.payload, b"ad").unwrap();
    assert_eq!(dec.payload, b"hello".to_vec());
    assert_eq!(dec.mk, enc.mk);
}

#[test]
fn decrypt_refuses_tampered_ciphertext() {
    let mut enc = encrypt([5u8; 32], b"attack at dawn", b"").unwrap();
    enc.payload[0] ^= 1;
    match decrypt(&[5u8; 32], &enc.payload, b"") {
        Err(FunctionsError::FailedToDecrypt { err }) => assert_eq!(err, "aead::Error"),
        _ => panic!("tampered ciphertext was accepted"),
    }
}

#[test]
fn decrypt_refuses_other_associated_data() {
    let enc = encrypt([5u8; 32], b"attack at dawn", b"one").unwrap();
    assert!(matches!(
        decrypt(&[5u8; 32], &enc.payload, b"two"),
        Err(FunctionsError::FailedToDecrypt { .. })
    ));
}

#[test]
fn decrypt_refuses_short_ciphertext() {
    assert!(matches!(
        decrypt(&[5u8; 32], &[1, 2, 3], b""),
        Err(FunctionsError::FailedToDecrypt { .. })
    ));
}

#[test]
fn encrypt_empty_plaintext_is_tag_only() {
    let enc = encrypt([3u8; 32], b"", b"x").unwrap();
    assert_eq!(enc.payload.len(), 16);
    assert_eq!(decrypt(&[3u8; 32], &enc.payload, b"x").unwrap().payload, Vec::<u8>::new());
}

#[test]
fn concat_appends_header_encoding() {
    let header = HEADER::new([0xab; 32], 0x0102, 0x0304).unwrap();
    let bytes = rusty_ratchet::functions::concat(&[1, 2, 3], header).unwrap();
    let mut expected = vec![1u8, 2, 3];
    expected.extend([0xab; 32]);
    expected.extend([0x02, 0x01, 0x04, 0x03]);
    assert_eq!(bytes, expected);
}
