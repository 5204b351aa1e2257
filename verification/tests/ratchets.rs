use rusty_ratchet::functions::{dh, generate_dh};
use rusty_ratchet::header::HEADER;
use rusty_ratchet::ratchets::{
    ratchet_decrypt, ratchet_encrypt, ratchet_init_alice, ratchet_init_bob, RatchetsError,
};
use rusty_ratchet::states::States;
use x25519_dalek::{PublicKey, StaticSecret};

fn public_of(secret: [u8; 32]) -> [u8; 32] {
    PublicKey::from(&StaticSecret::from(secret)).to_bytes()
}

fn fresh_pair() -> (States, States) {
    let alice_keypair = generate_dh().unwrap();
    let bob_keypair = generate_dh().unwrap();
    let alice_ss = dh(alice_keypair, public_of(bob_keypair)).unwrap();
    let bob_ss = dh(bob_keypair, public_of(alice_keypair)).unwrap();
    let alice = ratchet_init_alice(States::default(), &alice_ss, &public_of(bob_keypair)).unwrap();
    let bob = ratchet_init_bob(States::default(), &bob_ss, &bob_keypair).unwrap();
    (alice, bob)
}

#[test]
fn test_ratchet_encrypt_decrypt() {
    let alice_keypair = generate_dh().unwrap();
    let bob_keypair = generate_dh().unwrap();

    let alice_public_key = public_of(alice_keypair);
    let bob_public_key = public_of(bob_keypair);

    let alice_ss = dh(alice_keypair, bob_public_key).unwrap();
    let bob_ss = dh(bob_keypair, alice_public_key).unwrap();

    assert_eq!(alice_ss, bob_ss);

    let mut alice_state = States::default();
    let mut bob_state = States::default();

    alice_state = ratchet_init_alice(alice_state, &alice_ss, &bob_public_key).unwrap();

    bob_state = ratchet_init_bob(bob_state, &bob_ss, &bob_keypair).unwrap();

    let plaintext: [u8; 32] = rand::random();
    let ad: [u8; 32] = rand::random();

    let encrypted_payload =
        ratchet_encrypt(alice_state.clone(), plaintext.as_ref(), ad.as_ref()).unwrap();
    alice_state = encrypted_payload.state;

    let decrypted_payload = ratchet_decrypt(
        bob_state.clone(),
        encrypted_payload.header,
        encrypted_payload.payload.as_slice(),
        ad.as_ref(),
    )
    .unwrap();
    bob_state = decrypted_payload.state;

    assert_eq!(decrypted_payload.payload, plaintext.to_vec());

    let mut encrypted_payload = ratchet_encrypt(bob_state, plaintext.as_ref(), ad.as_ref()).unwrap();
    bob_state = encrypted_payload.state;

    let decrypted_payload = ratchet_decrypt(
        alice_state,
        encrypted_payload.header.clone(),
        encrypted_payload.payload.as_slice(),
        ad.as_ref(),
    )
    .unwrap();
    alice_state = decrypted_payload.state;

    assert_eq!(decrypted_payload.payload, plaintext.to_vec());

    // simulate missed messages
    for _i in 0..100 {
        encrypted_payload =
            ratchet_encrypt(alice_state.clone(), plaintext.as_ref(), ad.as_ref()).unwrap();
        alice_state = encrypted_payload.state;
    }

    let decrypted_payload = ratchet_decrypt(
        bob_state.clone(),
        encrypted_payload.header,
        encrypted_payload.payload.as_slice(),
        ad.as_ref(),
    )
    .unwrap();
    assert_eq!(decrypted_payload.payload, plaintext.to_vec());
}

#[test]
fn init_bob_takes_key_as_root_and_secret() {
    let bob = ratchet_init_bob(States::default(), &[3u8; 32], &[4u8; 32]).unwrap();
    assert_eq!(bob.rk, [3u8; 32]);
    assert_eq!(bob.dhs, Some([4u8; 32]));
    assert_eq!(bob.dhr, None);
    assert_eq!(bob.cks, None);
    assert_eq!(bob.ckr, None);
    assert_eq!((bob.ns, bob.nr, bob.pn), (0, 0, 0));
}

#[test]
fn init_alice_derives_first_sending_chain() {
    let bob_public = public_of([4u8; 32]);
    let alice = ratchet_init_alice(States::default(), &[3u8; 32], &bob_public).unwrap();
    let secret = alice.dhs.unwrap();
    let (rk, cks) = rusty_ratchet::functions::kdf_rk(&[3u8; 32], dh(secret, bob_public).unwrap()).unwrap();
    assert_eq!(alice.rk, rk);
    assert_eq!(alice.cks, Some(cks));
    assert_eq!(alice.dhr, Some(bob_public));
    assert_eq!(alice.ckr, None);
    assert_eq!((alice.ns, alice.nr, alice.pn), (0, 0, 0));
}

#[test]
fn encrypt_header_carries_public_key_and_counters() {
    let (alice, _bob) = fresh_pair();
    let public = public_of(alice.dhs.unwrap());
    let first = ratchet_encrypt(alice, b"one", b"").unwrap();
    assert_eq!(first.payload.len(), 3 + 16);
    assert_eq!(first.header.dh, public);
    assert_eq!((first.header.pn, first.header.n), (0, 0));
    let second = ratchet_encrypt(first.state, b"two", b"").unwrap();
    assert_eq!((second.header.pn, second.header.n), (0, 1));
    assert_eq!(second.state.ns, 2);
}

#[test]
fn out_of_order_messages_decrypt_with_stored_keys() {
    let (alice, bob) = fresh_pair();
    let m0 = ratchet_encrypt(alice, b"zero", b"ad").unwrap();
    let m1 = ratchet_encrypt(m0.state.clone(), b"one", b"ad").unwrap();
    let m2 = ratchet_encrypt(m1.state.clone(), b"two", b"ad").unwrap();

    let d2 = ratchet_decrypt(bob, m2.header, &m2.payload, b"ad").unwrap();
    assert_eq!(d2.payload, b"two".to_vec());
    let d0 = ratchet_decrypt(d2.state, m0.header, &m0.payload, b"ad").unwrap();
    assert_eq!(d0.payload, b"zero".to_vec());
    let d1 = ratchet_decrypt(d0.state, m1.header, &m1.payload, b"ad").unwrap();
    assert_eq!(d1.payload, b"one".to_vec());
    assert_eq!(d1.state.nr, 3);
}

#[test]
fn stored_key_is_used_once() {
    let (alice, bob) = fresh_pair();
    let m0 = ratchet_encrypt(alice, b"zero", b"").unwrap();
    let m1 = ratchet_encrypt(m0.state.clone(), b"one", b"").unwrap();
    let d1 = ratchet_decrypt(bob, m1.header, &m1.payload, b"").unwrap();
    let d0 = ratchet_decrypt(d1.state, m0.header, &m0.payload, b"").unwrap();
    assert_eq!(d0.payload, b"zero".to_vec());
    let replay = ratchet_decrypt(d0.state, m0.header, &m0.payload, b"");
    assert!(matches!(replay, Err(RatchetsError::FailedToDecrypt)));
}

#[test]
fn ping_pong_conversation() {
    let (mut alice, mut bob) = fresh_pair();
    for round in 0u8..5 {
        let to_bob = ratchet_encrypt(alice, &[round; 10], &[round]).unwrap();
        alice = to_bob.state;
        let got = ratchet_decrypt(bob, to_bob.header, &to_bob.payload, &[round]).unwrap();
        assert_eq!(got.payload, vec![round; 10]);
        bob = got.state;
        let to_alice = ratchet_encrypt(bob, &[round, round], b"reply").unwrap();
        bob = to_alice.state;
        let got = ratchet_decrypt(alice, to_alice.header, &to_alice.payload, b"reply").unwrap();
        assert_eq!(got.payload, vec![round, round]);
        alice = got.state;
    }
}

#[test]
fn skipping_exactly_max_skip_is_accepted() {
    let (mut alice, bob) = fresh_pair();
    let mut last = None;
    for _ in 0..256 {
        let m = ratchet_encrypt(alice, b"x", b"").unwrap();
        alice = m.state.clone();
        last = Some(m);
    }
    let m = last.unwrap();
    assert_eq!(m.header.n, 255);
    let d = ratchet_decrypt(bob, m.header, &m.payload, b"").unwrap();
    assert_eq!(d.payload, b"x".to_vec());
}

#[test]
fn tampered_message_is_refused() {
    let (alice, bob) = fresh_pair();
    let mut m = ratchet_encrypt(alice, b"secret", b"ad").unwrap();
    m.payload[3] ^= 0x80;
    let res = ratchet_decrypt(bob, m.header, &m.payload, b"ad");
    assert!(matches!(res, Err(RatchetsError::FailedToDecrypt)));
}

#[test]
fn altered_header_is_refused() {
    let (alice, bob) = fresh_pair();
    let m = ratchet_encrypt(alice, b"secret", b"").unwrap();
    let mut header: HEADER = m.header;
    header.pn = 1;
    let res = ratchet_decrypt(bob, header, &m.payload, b"");
    assert!(matches!(res, Err(RatchetsError::FailedToDecrypt)));
}

#[test]
fn message_of_previous_chain_decrypts_after_ratchet() {
    let (alice, bob) = fresh_pair();
    let m0 = ratchet_encrypt(alice, b"zero", b"").unwrap();
    let m1 = ratchet_encrypt(m0.state.clone(), b"one", b"").unwrap();
    let alice = m1.state.clone();
    let bob = ratchet_decrypt(bob, m0.header, &m0.payload, b"").unwrap().state;

    let reply = ratchet_encrypt(bob, b"reply", b"").unwrap();
    let bob = reply.state;
    let alice = ratchet_decrypt(alice, reply.header, &reply.payload, b"").unwrap().state;

    let m2 = ratchet_encrypt(alice, b"two", b"").unwrap();
    assert_eq!((m2.header.pn, m2.header.n), (2, 0));
    let got2 = ratchet_decrypt(bob, m2.header, &m2.payload, b"").unwrap();
    assert_eq!(got2.payload, b"two".to_vec());
    let got1 = ratchet_decrypt(got2.state, m1.header, &m1.payload, b"").unwrap();
    assert_eq!(got1.payload, b"one".to_vec());
}
