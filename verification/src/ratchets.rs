//! The double ratchet: session initialisation for both parties, and the
//! encryption and decryption of messages with the symmetric-key and
//! Diffie-Hellman ratchet steps.

use crate::bytes::{array_at, bytes32_eq};
use crate::crypto::{
    aead_keystream_exhausted, chacha20poly1305_open, chacha20poly1305_seal, x25519_public, x25519_public_key,
    x25519_shared_secret,
};
use crate::functions::{
    aead_accepts, aead_key, aead_nonce, concat, concat_spec, decrypt, decrypt_refuses_length, dh,
    encrypt, generate_dh,
    kdf_ck, kdf_ck_spec, kdf_rk, kdf_rk_spec, x25519_agree,
};
use crate::header::{header_bytes, HeaderView, HEADER};
use crate::skipped::SkippedKeys;
use crate::protocol::{ck_iter, ratchet_receiving_chain, ratchet_root, ratchet_sending_chain};
use crate::states::{States, StatesView};
use vstd::prelude::*;

verus! {

/// What can go wrong in a ratchet step.
#[derive(Debug)]
pub enum RatchetsError {
    RatchetInitFailedForAlice,
    RatchetInitFailedForBob,
    ExceededMaxSkipMessages,
    FailedToEncrypt,
    FailedToDecrypt,
}

/// The result of `ratchet_encrypt`: the sender's next state, the header to
/// send, and the ciphertext.
pub struct RatchetEncryptedPayload {
    pub state: States,
    pub header: HEADER,
    pub payload: Vec<u8>,
}

/// The result of `ratchet_decrypt`: the receiver's next state and the plaintext.
pub struct RatchetDecryptedPayload {
    pub state: States,
    pub payload: Vec<u8>,
}

/// The most message keys one received message may make the receiver skip
/// over in one chain.
pub const MAX_SKIP: u8 = 255u8;

/// Alice's state after initialisation with the shared secret `sk`, Bob's
/// ratchet public key, and her fresh ratchet secret `dhs`.
pub open spec fn init_alice_spec(sk: Seq<u8>, bob_public: Seq<u8>, dhs: Seq<u8>) -> StatesView {
    let (rk, cks) = kdf_rk_spec(sk, x25519_shared_secret(dhs, bob_public));
    StatesView {
        dhs: Some(dhs),
        dhr: Some(bob_public),
        rk,
        cks: Some(cks),
        ckr: None,
        ns: 0,
        nr: 0,
        pn: 0,
        mk_skipped: Map::empty(),
    }
}

/// Bob's state after initialisation with the shared secret `sk` and his
/// ratchet secret.
pub open spec fn init_bob_spec(sk: Seq<u8>, bob_secret: Seq<u8>) -> StatesView {
    StatesView {
        dhs: Some(bob_secret),
        dhr: None,
        rk: sk,
        cks: None,
        ckr: None,
        ns: 0,
        nr: 0,
        pn: 0,
        mk_skipped: Map::empty(),
    }
}

/// One step of the sending chain: `(next state, message number, message key)`.
pub open spec fn send_spec(s: StatesView) -> (StatesView, u16, Seq<u8>) {
    let (ck, mk) = kdf_ck_spec(s.cks.unwrap());
    (StatesView { cks: Some(ck), ns: (s.ns + 1) as u16, ..s }, s.ns, mk)
}

/// The header of the next message sent from `s`.
pub open spec fn send_header(s: StatesView) -> HeaderView {
    HeaderView { dh: x25519_public_key(s.dhs.unwrap()), pn: s.pn, n: s.ns }
}

/// The ciphertext of `msg` with associated data `ad` in the next message
/// sent from `s`.
pub open spec fn sent_ciphertext(s: StatesView, msg: Seq<u8>, ad: Seq<u8>) -> Seq<u8> {
    let mk = send_spec(s).2;
    chacha20poly1305_seal(aead_key(mk), aead_nonce(mk), msg, concat_spec(ad, send_header(s)))
}

/// Steps the receiving chain `ck`, numbered from `nr`, up to message number
/// `until`, storing each message key under `(dh, number)`. Returns the chain
/// key, the next number, and the store.
pub open spec fn skip_chain(
    ck: Seq<u8>,
    dh: Seq<u8>,
    nr: u16,
    skipped: Map<(Seq<u8>, u16), Seq<u8>>,
    until: u16,
) -> (Seq<u8>, u16, Map<(Seq<u8>, u16), Seq<u8>>)
    decreases until - nr,
{
    if nr < until {
        let (next, mk) = kdf_ck_spec(ck);
        skip_chain(next, dh, (nr + 1) as u16, skipped.insert((dh, nr), mk), until)
    } else {
        (ck, nr, skipped)
    }
}

/// Skipping a chain ends at message number `until`, or where it started
/// when that is already past `until`.
pub proof fn lemma_skip_chain_nr(
    ck: Seq<u8>,
    dh: Seq<u8>,
    nr: u16,
    skipped: Map<(Seq<u8>, u16), Seq<u8>>,
    until: u16,
)
    ensures
        skip_chain(ck, dh, nr, skipped, until).1 == if nr < until {
            until
        } else {
            nr
        },
    decreases until - nr,
{
    if nr < until {
        let (next, mk) = kdf_ck_spec(ck);
        lemma_skip_chain_nr(next, dh, (nr + 1) as u16, skipped.insert((dh, nr), mk), until);
    }
}

/// Skipping the receiving chain up to `until`: refused when that is more
/// than `MAX_SKIP` messages ahead; nothing to do without a receiving chain.
pub open spec fn skip_spec(s: StatesView, until: u16) -> Result<StatesView, RatchetsError> {
    if s.nr + MAX_SKIP < until {
        Err(RatchetsError::ExceededMaxSkipMessages)
    } else if s.ckr is None {
        Ok(s)
    } else {
        let (ck, nr, skipped) = skip_chain(s.ckr.unwrap(), s.dhr.unwrap(), s.nr, s.mk_skipped, until);
        Ok(StatesView { ckr: Some(ck), nr, mk_skipped: skipped, ..s })
    }
}

/// The Diffie-Hellman ratchet step on receiving the new public key `dh`,
/// with `fresh` as the new ratchet secret.
pub open spec fn dh_ratchet_spec(s: StatesView, dh: Seq<u8>, fresh: Seq<u8>) -> StatesView {
    let (rk1, ckr) = kdf_rk_spec(s.rk, x25519_shared_secret(s.dhs.unwrap(), dh));
    let (rk2, cks) = kdf_rk_spec(rk1, x25519_shared_secret(fresh, dh));
    StatesView {
        dhs: Some(fresh),
        dhr: Some(dh),
        rk: rk2,
        cks: Some(cks),
        ckr: Some(ckr),
        ns: 0,
        nr: 0,
        pn: s.ns,
        mk_skipped: s.mk_skipped,
    }
}

/// Whether receiving `h` takes a Diffie-Hellman ratchet step.
pub open spec fn receive_ratchets(s: StatesView, h: HeaderView) -> bool {
    !s.mk_skipped.contains_key((h.dh, h.n)) && s.dhr != Some(h.dh)
}

/// Receiving the header `h`, with `fresh` as the ratchet secret should a
/// Diffie-Hellman step be taken: `(next state, message key)`.
pub open spec fn receive_spec(s: StatesView, h: HeaderView, fresh: Seq<u8>) -> Result<
    (StatesView, Seq<u8>),
    RatchetsError,
> {
    let key = (h.dh, h.n);
    if s.mk_skipped.contains_key(key) {
        Ok((StatesView { mk_skipped: s.mk_skipped.remove(key), ..s }, s.mk_skipped[key]))
    } else {
        let ratcheted = if s.dhr != Some(h.dh) {
            match skip_spec(s, h.pn) {
                Ok(t) => Ok(dh_ratchet_spec(t, h.dh, fresh)),
                Err(e) => Err(e),
            }
        } else {
            Ok(s)
        };
        match ratcheted {
            Err(e) => Err(e),
            Ok(t) => match skip_spec(t, h.n) {
                Err(e) => Err(e),
                Ok(u) => {
                    let (ck, mk) = kdf_ck_spec(u.ckr.unwrap());
                    Ok((StatesView { ckr: Some(ck), nr: (u.nr + 1) as u16, ..u }, mk))
                },
            },
        }
    }
}

/// The message key for `h`, or the error; it does not depend on the fresh secret.
pub open spec fn receive_mk(s: StatesView, h: HeaderView) -> Result<Seq<u8>, RatchetsError> {
    match receive_spec(s, h, Seq::empty()) {
        Ok((_, mk)) => Ok(mk),
        Err(e) => Err(e),
    }
}

/// What decrypting `ct` with header `h` and associated data `ad` gives.
pub open spec fn decrypt_outcome(s: StatesView, h: HeaderView, ct: Seq<u8>, ad: Seq<u8>) -> Result<
    Seq<u8>,
    RatchetsError,
> {
    match receive_mk(s, h) {
        Err(e) => Err(e),
        Ok(mk) => if decrypt_refuses_length(ct.len()) {
            Err(RatchetsError::FailedToDecrypt)
        } else {
            match chacha20poly1305_open(aead_key(mk), aead_nonce(mk), ct, concat_spec(ad, h)) {
                Some(p) => Ok(p),
                None => Err(RatchetsError::FailedToDecrypt),
            }
        },
    }
}

/// Whether `ct` is `msg` sealed, with associated data `ad` and the header
/// `h`, under the message key that receiving `h` in state `s` yields.
pub open spec fn is_sealed_for(
    s: StatesView,
    h: HeaderView,
    ct: Seq<u8>,
    ad: Seq<u8>,
    msg: Seq<u8>,
) -> bool {
    &&& receive_mk(s, h) is Ok
    &&& aead_accepts(msg.len())
    &&& ct.len() == msg.len() + 16
    &&& ct == chacha20poly1305_seal(
        aead_key(receive_mk(s, h)->Ok_0),
        aead_nonce(receive_mk(s, h)->Ok_0),
        msg,
        concat_spec(ad, h),
    )
}

/// The inputs on which receiving `h` is defined: a stored key, or enough
/// state for the ratchet steps, at most `MAX_SKIP` messages to skip in each
/// chain, and message numbers that fit in a `u16`.
pub open spec fn receive_defined(s: StatesView, h: HeaderView) -> bool {
    ||| s.mk_skipped.contains_key((h.dh, h.n))
    ||| s.dhr != Some(h.dh) && {
        &&& s.dhs is Some
        &&& s.nr + MAX_SKIP <= u16::MAX
        &&& h.pn <= s.nr + MAX_SKIP
        &&& h.n <= MAX_SKIP
        &&& (s.ckr is Some && s.nr < h.pn ==> s.dhr is Some)
    }
    ||| s.dhr == Some(h.dh) && {
        &&& s.ckr is Some
        &&& s.nr + MAX_SKIP <= u16::MAX
        &&& h.n <= s.nr + MAX_SKIP
        &&& h.n < u16::MAX
    }
}

/// Initialises Alice's state from the shared secret `sk` and Bob's ratchet
/// public key: a fresh ratchet key pair and the first sending chain.
pub fn ratchet_init_alice(state: States, sk: &[u8], bob_dh_public_key: &[u8]) -> (res: Result<
    States,
    RatchetsError,
>)
    requires
        bob_dh_public_key@.len() == 32,
    ensures
        res matches Ok(st) && st@.dhs is Some && st@ == init_alice_spec(
            sk@,
            bob_dh_public_key@,
            st@.dhs.unwrap(),
        ),
        res matches Ok(st) ==> {
            &&& st@.dhr == Some(bob_dh_public_key@)
            &&& st@.rk == kdf_rk_spec(
                sk@,
                x25519_shared_secret(st@.dhs.unwrap(), bob_dh_public_key@),
            ).0
            &&& st@.cks == Some(
                kdf_rk_spec(sk@, x25519_shared_secret(st@.dhs.unwrap(), bob_dh_public_key@)).1,
            )
            &&& st@.ckr is None
            &&& st.ns == 0 && st.nr == 0 && st.pn == 0
            &&& st@.mk_skipped == Map::<(Seq<u8>, u16), Seq<u8>>::empty()
        },
        res matches Ok(st) ==> forall|other: Seq<u8>|
            other.len() == 32 && bob_dh_public_key@ == x25519_public_key(other) ==> x25519_agree(
                st@.dhs.unwrap(),
                other,
            ),
{
    let mut state = state;
    let dhs = generate_dh().unwrap();
    let bob_public: [u8; 32] = array_at(bob_dh_public_key, 0);
    assert(bob_dh_public_key@.subrange(0, 32) =~= bob_dh_public_key@);
    let shared = dh(dhs, bob_public).unwrap();
    let (rk, cks) = kdf_rk(sk, shared).unwrap();
    state.dhs = Some(dhs);
    state.dhr = Some(bob_public);
    state.rk = rk;
    state.cks = Some(cks);
    state.ckr = None;
    state.ns = 0;
    state.nr = 0;
    state.pn = 0;
    state.mk_skipped = SkippedKeys::new();
    Ok(state)
}

/// Initialises Bob's state from the shared secret `sk` and his ratchet
/// secret key: no chains yet, the root key is `sk`.
pub fn ratchet_init_bob(state: States, sk: &[u8], bob_dh_key_pair: &[u8]) -> (res: Result<
    States,
    RatchetsError,
>)
    requires
        sk@.len() == 32,
        bob_dh_key_pair@.len() == 32,
    ensures
        res matches Ok(st) && st@ == init_bob_spec(sk@, bob_dh_key_pair@),
        res matches Ok(st) ==> {
            &&& st@.dhs == Some(bob_dh_key_pair@)
            &&& st@.dhr is None
            &&& st@.rk == sk@
            &&& st@.cks is None && st@.ckr is None
            &&& st.ns == 0 && st.nr == 0 && st.pn == 0
            &&& st@.mk_skipped == Map::<(Seq<u8>, u16), Seq<u8>>::empty()
        },
{
    let mut state = state;
    let bob_secret: [u8; 32] = array_at(bob_dh_key_pair, 0);
    let rk: [u8; 32] = array_at(sk, 0);
    assert(bob_dh_key_pair@.subrange(0, 32) =~= bob_dh_key_pair@);
    assert(sk@.subrange(0, 32) =~= sk@);
    state.dhs = Some(bob_secret);
    state.dhr = None;
    state.rk = rk;
    state.cks = None;
    state.ckr = None;
    state.ns = 0;
    state.nr = 0;
    state.pn = 0;
    state.mk_skipped = SkippedKeys::new();
    Ok(state)
}

fn ratchet_send_key(state: States) -> (res: Result<(States, u16, [u8; 32]), RatchetsError>)
    requires
        state@.cks is Some,
        state.ns < u16::MAX,
    ensures
        res matches Ok((s, n, mk)) && (s@, n, mk@) == send_spec(state@),
{
    let mut state = state;
    let (cks, mk) = kdf_ck(&state.cks.unwrap()).unwrap();
    state.cks = Some(cks);
    let ns = state.ns;
    state.ns = state.ns + 1;
    Ok((state, ns, mk))
}

/// Encrypts `plaintext` with the next key of the sending chain; the
/// associated data of the message is `ad` followed by the header's encoding.
pub fn ratchet_encrypt(state: States, plaintext: &[u8], ad: &[u8]) -> (res: Result<
    RatchetEncryptedPayload,
    RatchetsError,
>)
    requires
        state@.dhs is Some,
        state@.cks is Some,
        state.ns < u16::MAX,
        plaintext@.len() + 16 <= isize::MAX,
        !aead_keystream_exhausted(plaintext@.len()),
    ensures
        match res {
            Ok(out) => {
                &&& out.state@ == send_spec(state@).0
                &&& out.header@ == send_header(state@)
                &&& aead_accepts(plaintext@.len())
                &&& out.payload@ == sent_ciphertext(state@, plaintext@, ad@)
                &&& out.payload@.len() == plaintext@.len() + 16
                &&& out.header.pn == state.pn && out.header.n == state.ns
                &&& out.state.ns == state.ns + 1
                &&& out.state.pn == state.pn && out.state.nr == state.nr
                &&& out.state@.dhs == state@.dhs && out.state@.dhr == state@.dhr
                &&& out.state@.rk == state@.rk && out.state@.ckr == state@.ckr
                &&& out.state@.mk_skipped == state@.mk_skipped
                &&& out.header.dh@ == x25519_public_key(state@.dhs.unwrap())
                &&& out.state@.cks == Some(kdf_ck_spec(state@.cks.unwrap()).0)
                &&& out.payload@ == chacha20poly1305_seal(
                    aead_key(kdf_ck_spec(state@.cks.unwrap()).1),
                    aead_nonce(kdf_ck_spec(state@.cks.unwrap()).1),
                    plaintext@,
                    ad@ + header_bytes(out.header@),
                )
            },
            Err(e) => e == RatchetsError::FailedToEncrypt && !aead_accepts(plaintext@.len()),
        },
{
    let (state, ns, mk) = ratchet_send_key(state).unwrap();
    let public_key = x25519_public(&state.dhs.unwrap());
    let header = HEADER::new(public_key, state.pn, ns).unwrap();
    let associated = concat(ad, header).unwrap();
    match encrypt(mk, plaintext, associated.as_slice()) {
        Ok(enc) => Ok(RatchetEncryptedPayload { state, header, payload: enc.payload }),
        Err(_) => Err(RatchetsError::FailedToEncrypt),
    }
}

fn try_skipped_message_keys(state: States, header: HEADER) -> (res: Result<
    (States, Option<[u8; 32]>),
    RatchetsError,
>)
    ensures
        res matches Ok((s, mk)) && match mk {
            Some(k) => {
                &&& state@.mk_skipped.contains_key((header.dh@, header.n))
                &&& k@ == state@.mk_skipped[(header.dh@, header.n)]
                &&& s@ == StatesView {
                    mk_skipped: state@.mk_skipped.remove((header.dh@, header.n)),
                    ..state@
                }
            },
            None => !state@.mk_skipped.contains_key((header.dh@, header.n)) && s@ == state@,
        },
{
    let ghost orig = state@;
    let mut state = state;
    let mk = state.mk_skipped.take(&header.dh, header.n);
    proof {
        if mk is None {
            assert(state.mk_skipped@ =~= orig.mk_skipped);
        }
    }
    Ok((state, mk))
}

fn skip_message_keys(state: States, until: u16) -> (res: Result<States, RatchetsError>)
    requires
        state.nr + MAX_SKIP <= u16::MAX,
        state@.ckr is Some && state.nr < until && until <= state.nr + MAX_SKIP ==> state@.dhr is Some,
    ensures
        match res {
            Ok(s) => skip_spec(state@, until) == Ok::<StatesView, RatchetsError>(s@),
            Err(e) => skip_spec(state@, until) == Err::<StatesView, RatchetsError>(e),
        },
{
    let mut state = state;
    if state.nr + (MAX_SKIP as u16) < until {
        return Err(RatchetsError::ExceededMaxSkipMessages);
    }
    if state.ckr.is_some() {
        let ghost target = skip_chain(
            state@.ckr.unwrap(),
            state@.dhr.unwrap(),
            state.nr,
            state@.mk_skipped,
            until,
        );
        let ghost start = state@;
        while state.nr < until
            invariant
                state@.ckr is Some,
                state.nr < until ==> state@.dhr is Some,
                state@.dhr == start.dhr,
                skip_chain(state@.ckr.unwrap(), state@.dhr.unwrap(), state.nr, state@.mk_skipped, until)
                    == target,
                state@ == (StatesView {
                    ckr: state@.ckr,
                    nr: state.nr,
                    mk_skipped: state@.mk_skipped,
                    ..start
                }),
            decreases until - state.nr,
        {
            let (ck, mk) = kdf_ck(&state.ckr.unwrap()).unwrap();
            state.ckr = Some(ck);
            state.mk_skipped.insert(state.dhr.unwrap(), state.nr, mk);
            state.nr = state.nr + 1;
        }
    }
    Ok(state)
}

fn dh_ratchet(state: States, header: HEADER) -> (res: Result<States, RatchetsError>)
    requires
        state@.dhs is Some,
    ensures
        res matches Ok(s) && s@.dhs is Some && s@ == dh_ratchet_spec(
            state@,
            header.dh@,
            s@.dhs.unwrap(),
        ),
        res matches Ok(s) ==> forall|other: Seq<u8>|
            other.len() == 32 && header.dh@ == x25519_public_key(other) ==> x25519_agree(
                state@.dhs.unwrap(),
                other,
            ) && x25519_agree(s@.dhs.unwrap(), other),
{
    let mut state = state;
    state.pn = state.ns;
    state.ns = 0;
    state.nr = 0;
    state.dhr = Some(header.dh);
    let old_secret = state.dhs.unwrap();
    let (rk, ckr) = kdf_rk(&state.rk, dh(old_secret, header.dh).unwrap()).unwrap();
    state.rk = rk;
    state.ckr = Some(ckr);
    let fresh = generate_dh().unwrap();
    state.dhs = Some(fresh);
    let (rk, cks) = kdf_rk(&state.rk, dh(fresh, header.dh).unwrap()).unwrap();
    state.rk = rk;
    state.cks = Some(cks);
    Ok(state)
}

fn ratchet_receive_key(state: States, header: HEADER) -> (res: Result<
    (States, [u8; 32]),
    RatchetsError,
>)
    requires
        receive_defined(state@, header@),
    ensures
        match res {
            Ok((s, mk)) => receive_spec(state@, header@, s@.dhs.unwrap()) == Ok::<
                (StatesView, Seq<u8>),
                RatchetsError,
            >((s@, mk@)) && receive_mk(state@, header@) == Ok::<Seq<u8>, RatchetsError>(mk@),
            Err(e) => receive_mk(state@, header@) == Err::<Seq<u8>, RatchetsError>(e),
        },
        res matches Ok((s, _)) ==> (receive_ratchets(state@, header@) ==> forall|other: Seq<u8>|
            other.len() == 32 && header.dh@ == x25519_public_key(other) ==> x25519_agree(
                state@.dhs.unwrap(),
                other,
            ) && x25519_agree(s@.dhs.unwrap(), other)),
{
    let (mut state, mk) = try_skipped_message_keys(state, header).unwrap();
    if let Some(mk) = mk {
        return Ok((state, mk));
    }
    let ratchet = match state.dhr {
        None => true,
        Some(d) => !bytes32_eq(&header.dh, &d),
    };
    if ratchet {
        state = match skip_message_keys(state, header.pn) {
            Ok(s) => s,
            Err(e) => return Err(e),
        };
        state = dh_ratchet(state, header).unwrap();
    }
    let ghost before = state@;
    state = match skip_message_keys(state, header.n) {
        Ok(s) => s,
        Err(e) => return Err(e),
    };
    proof {
        if before.ckr is Some {
            lemma_skip_chain_nr(
                before.ckr.unwrap(),
                before.dhr.unwrap(),
                before.nr,
                before.mk_skipped,
                header.n,
            );
        }
    }
    let (ckr, mk) = kdf_ck(&state.ckr.unwrap()).unwrap();
    state.ckr = Some(ckr);
    state.nr = state.nr + 1;
    Ok((state, mk))
}

/// Decrypts a received message: finds or derives its message key (taking a
/// Diffie-Hellman ratchet step when the header carries a new public key,
/// and storing the keys of skipped messages), then opens the ciphertext with
/// `ad` followed by the header's encoding as associated data.
pub fn ratchet_decrypt(state: States, header: HEADER, ciphertext: &[u8], ad: &[u8]) -> (res: Result<
    RatchetDecryptedPayload,
    RatchetsError,
>)
    requires
        receive_defined(state@, header@),
    ensures
        match res {
            Ok(out) => {
                &&& decrypt_outcome(state@, header@, ciphertext@, ad@) == Ok::<
                    Seq<u8>,
                    RatchetsError,
                >(out.payload@)
                &&& receive_spec(state@, header@, out.state@.dhs.unwrap()) matches Ok((s, _))
                    && s == out.state@
            },
            Err(e) => decrypt_outcome(state@, header@, ciphertext@, ad@) == Err::<
                Seq<u8>,
                RatchetsError,
            >(e) && e == RatchetsError::FailedToDecrypt,
        },
        forall|msg: Seq<u8>|
            #[trigger] is_sealed_for(state@, header@, ciphertext@, ad@, msg) ==> (res matches Ok(
                out,
            ) && out.payload@ == msg),
        res matches Ok(out) ==> (receive_ratchets(state@, header@) ==> forall|other: Seq<u8>|
            other.len() == 32 && header.dh@ == x25519_public_key(other) ==> x25519_agree(
                state@.dhs.unwrap(),
                other,
            ) && x25519_agree(out.state@.dhs.unwrap(), other)),
        res matches Ok(out) ==> (receive_ratchets(state@, header@) ==> {
            &&& out.state.pn == state.ns
            &&& out.state.ns == 0
            &&& out.state@.dhr == Some(header.dh@)
            &&& out.state.nr == header.n + 1
        }),
        res matches Ok(out) ==> (state@.dhr == Some(header.dh@)
            && !state@.mk_skipped.contains_key((header.dh@, header.n)) ==> {
            &&& out.state@.dhs == state@.dhs
            &&& out.state@.rk == state@.rk
            &&& out.state@.cks == state@.cks
            &&& out.state.ns == state.ns
            &&& out.state.pn == state.pn
        }),
        res matches Ok(out) ==> (state@.mk_skipped.contains_key((header.dh@, header.n)) ==> {
            let mk = state@.mk_skipped[(header.dh@, header.n)];
            &&& out.state@ == (StatesView {
                mk_skipped: state@.mk_skipped.remove((header.dh@, header.n)),
                ..state@
            })
            &&& chacha20poly1305_open(
                aead_key(mk),
                aead_nonce(mk),
                ciphertext@,
                ad@ + header_bytes(header@),
            ) == Some(out.payload@)
        }),
        res matches Ok(out) ==> (receive_ratchets(state@, header@) ==> {
            let fresh = out.state@.dhs.unwrap();
            let ck = ratchet_receiving_chain(state@, header.dh@);
            let mk = kdf_ck_spec(ck_iter(ck, header.n as nat)).1;
            &&& out.state@.rk == ratchet_root(state@, header.dh@, fresh)
            &&& out.state@.cks == Some(ratchet_sending_chain(state@, header.dh@, fresh))
            &&& out.state@.ckr == Some(ck_iter(ck, header.n as nat + 1))
            &&& chacha20poly1305_open(
                aead_key(mk),
                aead_nonce(mk),
                ciphertext@,
                ad@ + header_bytes(header@),
            ) == Some(out.payload@)
        }),
        res matches Ok(out) ==> (state@.dhr == Some(header.dh@) && !state@.mk_skipped.contains_key(
            (header.dh@, header.n),
        ) && state.nr <= header.n ==> {
            let ck = state@.ckr.unwrap();
            let mk = kdf_ck_spec(ck_iter(ck, (header.n - state.nr) as nat)).1;
            &&& out.state@.ckr == Some(ck_iter(ck, (header.n - state.nr) as nat + 1))
            &&& out.state.nr == header.n + 1
            &&& chacha20poly1305_open(
                aead_key(mk),
                aead_nonce(mk),
                ciphertext@,
                ad@ + header_bytes(header@),
            ) == Some(out.payload@)
        }),
{
    let ghost old_state = state@;
    let (state, mk) = match ratchet_receive_key(state, header) {
        Ok(r) => r,
        Err(e) => return Err(e),
    };
    proof {
        let fresh = state@.dhs.unwrap();
        if receive_ratchets(old_state, header@) {
            crate::protocol::lemma_receive_ratchet_step(old_state, header@, fresh);
            crate::protocol::lemma_receive_ratchet_keys(old_state, header@, fresh);
        } else if old_state.dhr == Some(header.dh@) && !old_state.mk_skipped.contains_key(
            (header.dh@, header.n),
        ) {
            crate::protocol::lemma_receive_in_chain(old_state, header@, fresh);
            crate::protocol::lemma_receive_in_chain_keys(old_state, header@, fresh);
        }
    }
    let associated = concat(ad, header).unwrap();
    match decrypt(&mk, ciphertext, associated.as_slice()) {
        Ok(dec) => Ok(RatchetDecryptedPayload { state, payload: dec.payload }),
        Err(_) => Err(RatchetsError::FailedToDecrypt),
    }
}

} // verus!
