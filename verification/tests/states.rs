use rusty_ratchet::functions::{dh, generate_dh};
use rusty_ratchet::ratchets::{ratchet_decrypt, ratchet_encrypt, ratchet_init_alice, ratchet_init_bob};
use rusty_ratchet::states::{RustyState, States};
use x25519_dalek::{PublicKey, StaticSecret};

fn public_of(secret: [u8; 32]) -> [u8; 32] {
    PublicKey::from(&StaticSecret::from(secret)).to_bytes()
}

#[test]
fn default_state_is_empty() {
    let s = States::default();
    assert_eq!(s.dhs, None);
    assert_eq!(s.dhr, None);
    assert_eq!(s.rk, [0u8; 32]);
    assert_eq!((s.cks, s.ckr), (None, None));
    assert_eq!((s.ns, s.nr, s.pn), (0, 0, 0));
    assert_eq!(s.mk_skipped.get(&[0u8; 32], 0), None);
}

#[test]
fn byte_form_round_trips_and_keeps_working() {
    let a = generate_dh().unwrap();
    let b = generate_dh().unwrap();
    let ss = dh(a, public_of(b)).unwrap();
    let alice = ratchet_init_alice(States::default(), &ss, &public_of(b)).unwrap();
    let bob = ratchet_init_bob(States::default(), &ss, &b).unwrap();
    let m0 = ratchet_encrypt(alice, b"zero", b"").unwrap();
    let m1 = ratchet_encrypt(m0.state, b"one", b"").unwrap();
    let d1 = ratchet_decrypt(bob, m1.header, &m1.payload, b"").unwrap();

    let bytes = RustyState::try_from(d1.state.clone()).unwrap();
    let pair = bytes.dhs.as_ref().unwrap();
    assert_eq!(pair.private_key, d1.state.dhs.unwrap().to_vec());
    assert_eq!(pair.public_key, public_of(d1.state.dhs.unwrap()).to_vec());
    assert_eq!(bytes.mk_skipped.len(), 1);
    assert_eq!(bytes.mk_skipped[0].n, 0);

    let back = States::try_from(bytes).unwrap();
    assert_eq!(back.rk, d1.state.rk);
    assert_eq!(back.dhr, d1.state.dhr);
    assert_eq!((back.ns, back.nr, back.pn), (d1.state.ns, d1.state.nr, d1.state.pn));
    let d0 = ratchet_decrypt(back, m0.header, &m0.payload, b"").unwrap();
    assert_eq!(d0.payload, b"zero".to_vec());
}

#[test]
fn byte_form_of_default_state_has_no_key_pair() {
    let bytes = RustyState::try_from(States::default()).unwrap();
    assert!(bytes.dhs.is_none());
    assert_eq!(bytes.rk, vec![0u8; 32]);
    assert!(bytes.mk_skipped.is_empty());
    let back = States::try_from(bytes).unwrap();
    assert_eq!(back.dhs, None);
    assert_eq!(back.rk, [0u8; 32]);
}
