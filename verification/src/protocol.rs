//! Laws of a double-ratchet conversation between a sender and a receiver:
//! what each step keeps, and that the receiver derives the message key the
//! sender used.

use crate::crypto::{x25519_public_key, x25519_shared_secret};
use crate::functions::{kdf_ck_spec, kdf_rk_spec, x25519_agree};
use crate::header::HeaderView;
use crate::functions::aead_accepts;
use crate::ratchets::{
    dh_ratchet_spec, init_alice_spec, init_bob_spec, is_sealed_for, receive_defined, receive_mk,
    receive_ratchets, receive_spec, send_header, send_spec, sent_ciphertext, skip_chain, skip_spec,
    MAX_SKIP,
};
use crate::states::StatesView;
use vstd::prelude::*;

verus! {

/// The chain key `k` steps down the chain from `ck`.
pub open spec fn ck_iter(ck: Seq<u8>, k: nat) -> Seq<u8>
    decreases k,
{
    if k == 0 {
        ck
    } else {
        kdf_ck_spec(ck_iter(ck, (k - 1) as nat)).0
    }
}

/// `k + 1` steps from `ck` are `k` steps from the next chain key.
pub proof fn lemma_ck_iter_shift(ck: Seq<u8>, k: nat)
    ensures
        ck_iter(ck, k + 1) == ck_iter(kdf_ck_spec(ck).0, k),
    decreases k,
{
    assert(ck_iter(ck, k + 1) == kdf_ck_spec(ck_iter(ck, k)).0);
    if k > 0 {
        lemma_ck_iter_shift(ck, (k - 1) as nat);
        assert(ck_iter(kdf_ck_spec(ck).0, k) == kdf_ck_spec(
            ck_iter(kdf_ck_spec(ck).0, (k - 1) as nat),
        ).0);
    }
}

/// Skipping a chain from `nr` to `until` moves the chain key `until - nr`
/// steps, and stores under `(dh, j)`, for each skipped number `j`, the
/// message key of step `j - nr`; every other entry is left as it was.
pub proof fn lemma_skip_chain(
    ck: Seq<u8>,
    dh: Seq<u8>,
    nr: u16,
    skipped: Map<(Seq<u8>, u16), Seq<u8>>,
    until: u16,
)
    requires
        nr <= until,
    ensures
        ({
            let (ck2, nr2, skipped2) = skip_chain(ck, dh, nr, skipped, until);
            &&& ck2 == ck_iter(ck, (until - nr) as nat)
            &&& nr2 == until
            &&& forall|j: u16|
                nr <= j < until ==> #[trigger] skipped2.contains_key((dh, j)) && skipped2[(dh, j)]
                    == kdf_ck_spec(ck_iter(ck, (j - nr) as nat)).1
            &&& forall|k: (Seq<u8>, u16)|
                !(k.0 == dh && nr <= k.1 < until) ==> (#[trigger] skipped2.contains_key(k)
                    == skipped.contains_key(k) && (skipped.contains_key(k) ==> skipped2[k]
                    == skipped[k]))
        }),
    decreases until - nr,
{
    if nr < until {
        let (next, mk) = kdf_ck_spec(ck);
        let sk1 = skipped.insert((dh, nr), mk);
        let n1 = (nr + 1) as u16;
        lemma_skip_chain(next, dh, n1, sk1, until);
        lemma_ck_iter_shift(ck, (until - n1) as nat);
        let (ck2, nr2, skipped2) = skip_chain(ck, dh, nr, skipped, until);
        assert forall|j: u16| nr <= j < until implies #[trigger] skipped2.contains_key((dh, j))
            && skipped2[(dh, j)] == kdf_ck_spec(ck_iter(ck, (j - nr) as nat)).1 by {
            if j > nr {
                lemma_ck_iter_shift(ck, (j - n1) as nat);
                assert(skipped2.contains_key((dh, j)));
                assert(skipped2[(dh, j)] == kdf_ck_spec(ck_iter(next, (j - n1) as nat)).1);
            } else {
                assert(!((dh, j).0 == dh && n1 <= (dh, j).1 < until));
                assert(sk1.contains_key((dh, j)));
            }
        }
    }
}

/// `rcv` is ready for what `snd` sends next in `snd`'s current sending
/// chain: it knows `snd`'s ratchet public key, its receiving chain is `snd`'s
/// sending chain some steps back, and it holds no stored key for a message
/// number still ahead in that chain.
pub open spec fn in_sync(snd: StatesView, rcv: StatesView) -> bool {
    &&& snd.dhs is Some
    &&& snd.cks is Some
    &&& rcv.dhr == Some(x25519_public_key(snd.dhs.unwrap()))
    &&& rcv.ckr is Some
    &&& rcv.nr <= snd.ns
    &&& snd.cks.unwrap() == ck_iter(rcv.ckr.unwrap(), (snd.ns - rcv.nr) as nat)
    &&& forall|n: u16|
        rcv.nr <= n ==> !(#[trigger] rcv.mk_skipped.contains_key(
            (x25519_public_key(snd.dhs.unwrap()), n),
        ))
}

/// `snd` has a ratchet key pair that `rcv` has not seen yet, and its root
/// and sending chain are those `rcv` derives on its Diffie-Hellman step
/// with `snd`'s public key.
pub open spec fn awaiting_ratchet(snd: StatesView, rcv: StatesView) -> bool {
    &&& snd.dhs is Some
    &&& snd.cks is Some
    &&& rcv.dhs is Some
    &&& snd.dhr == Some(x25519_public_key(rcv.dhs.unwrap()))
    &&& rcv.dhr != Some(x25519_public_key(snd.dhs.unwrap()))
    &&& (rcv.ckr is Some ==> rcv.dhr is Some)
    &&& ({
        let (rk, ck) = kdf_rk_spec(
            rcv.rk,
            x25519_shared_secret(rcv.dhs.unwrap(), x25519_public_key(snd.dhs.unwrap())),
        );
        snd.rk == rk && snd.cks.unwrap() == ck_iter(ck, snd.ns as nat)
    })
    &&& forall|n: u16|
        !(#[trigger] rcv.mk_skipped.contains_key((x25519_public_key(snd.dhs.unwrap()), n)))
}

/// Sending keeps the receiver in sync: the message is one more ahead.
pub proof fn lemma_send_keeps_sync(snd: StatesView, rcv: StatesView)
    requires
        in_sync(snd, rcv),
        snd.ns < u16::MAX,
    ensures
        in_sync(send_spec(snd).0, rcv),
{
    let d = (snd.ns - rcv.nr) as nat;
    assert(ck_iter(rcv.ckr.unwrap(), d + 1) == kdf_ck_spec(ck_iter(rcv.ckr.unwrap(), d)).0);
}

/// Sending keeps a pending ratchet pending: the message is one more ahead.
pub proof fn lemma_send_keeps_awaiting(snd: StatesView, rcv: StatesView)
    requires
        awaiting_ratchet(snd, rcv),
        snd.ns < u16::MAX,
    ensures
        awaiting_ratchet(send_spec(snd).0, rcv),
{
    let (rk, ck) = kdf_rk_spec(
        rcv.rk,
        x25519_shared_secret(rcv.dhs.unwrap(), x25519_public_key(snd.dhs.unwrap())),
    );
    assert(ck_iter(ck, snd.ns as nat + 1) == kdf_ck_spec(ck_iter(ck, snd.ns as nat)).0);
}

/// A receiver in sync with the sender derives, for the sender's next
/// message, the message key the sender used, without a ratchet step, and
/// is then in sync with the sender's next state; provided the message is at
/// most `MAX_SKIP` ahead and the message numbers stay within a `u16`.
pub proof fn lemma_receive_in_sync(snd: StatesView, rcv: StatesView, fresh: Seq<u8>)
    requires
        in_sync(snd, rcv),
        snd.ns < u16::MAX,
        snd.ns <= rcv.nr + MAX_SKIP,
        rcv.nr + MAX_SKIP <= u16::MAX,
    ensures
        ({
            let (snd2, _, mk) = send_spec(snd);
            let h = send_header(snd);
            &&& receive_defined(rcv, h)
            &&& !receive_ratchets(rcv, h)
            &&& receive_mk(rcv, h) == Ok::<Seq<u8>, crate::ratchets::RatchetsError>(mk)
            &&& forall|msg: Seq<u8>, ad: Seq<u8>|
                aead_accepts(msg.len()) && sent_ciphertext(snd, msg, ad).len() == msg.len() + 16
                    ==> #[trigger] is_sealed_for(rcv, h, sent_ciphertext(snd, msg, ad), ad, msg)
            &&& receive_spec(rcv, h, fresh) matches Ok((rcv2, k)) && k == mk && in_sync(snd2, rcv2)
        }),
{
    let (snd2, _, mk) = send_spec(snd);
    let h = send_header(snd);
    let dh = h.dh;
    assert(!rcv.mk_skipped.contains_key((dh, h.n)));
    lemma_skip_chain(rcv.ckr.unwrap(), dh, rcv.nr, rcv.mk_skipped, h.n);
    let (ck2, nr2, sk2) = skip_chain(rcv.ckr.unwrap(), dh, rcv.nr, rcv.mk_skipped, h.n);
    assert(ck2 == snd.cks.unwrap());
    let rcv2 = receive_spec(rcv, h, fresh).unwrap().0;
    assert forall|n: u16| rcv2.nr <= n implies !(#[trigger] rcv2.mk_skipped.contains_key((dh, n))) by {
        assert(!rcv.mk_skipped.contains_key((dh, n)));
    }
}

/// A message the receiver skipped over stays readable: after receiving a
/// later message of the same sending chain, the receiver holds the message
/// key the sender used for the earlier one, and opens its ciphertext.
pub proof fn lemma_delayed_message(
    early: StatesView,
    snd: StatesView,
    rcv: StatesView,
    fresh: Seq<u8>,
)
    requires
        in_sync(early, rcv),
        in_sync(snd, rcv),
        snd.dhs == early.dhs,
        early.ns < snd.ns,
        snd.ns < u16::MAX,
        snd.ns <= rcv.nr + MAX_SKIP,
        rcv.nr + MAX_SKIP <= u16::MAX,
    ensures
        receive_spec(rcv, send_header(snd), fresh) matches Ok((rcv2, _)) && {
            let h = send_header(early);
            &&& receive_defined(rcv2, h)
            &&& receive_mk(rcv2, h) == Ok::<Seq<u8>, crate::ratchets::RatchetsError>(
                send_spec(early).2,
            )
            &&& forall|msg: Seq<u8>, ad: Seq<u8>|
                aead_accepts(msg.len()) && sent_ciphertext(early, msg, ad).len() == msg.len() + 16
                    ==> #[trigger] is_sealed_for(rcv2, h, sent_ciphertext(early, msg, ad), ad, msg)
        },
{
    let h = send_header(snd);
    let dh = h.dh;
    assert(!rcv.mk_skipped.contains_key((dh, h.n)));
    lemma_skip_chain(rcv.ckr.unwrap(), dh, rcv.nr, rcv.mk_skipped, h.n);
    let (ck2, nr2, sk2) = skip_chain(rcv.ckr.unwrap(), dh, rcv.nr, rcv.mk_skipped, h.n);
    assert(sk2.contains_key((dh, early.ns)));
    let rcv2 = receive_spec(rcv, h, fresh).unwrap().0;
    assert(rcv2.mk_skipped == sk2);
}

/// Initialisation leaves Alice with a ratchet key pair Bob has not seen,
/// and a root key and sending chain Bob derives on his first ratchet step;
/// provided Bob's public key is that of his secret, and the two X25519
/// computations agree (as `ratchet_init_alice` states of the key it draws).
pub proof fn lemma_init_awaiting(sk: Seq<u8>, alice_secret: Seq<u8>, bob_secret: Seq<u8>)
    requires
        bob_secret.len() == 32,
        x25519_agree(alice_secret, bob_secret),
    ensures
        awaiting_ratchet(
            init_alice_spec(sk, x25519_public_key(bob_secret), alice_secret),
            init_bob_spec(sk, bob_secret),
        ),
{
}

/// A receiver for whom the sender's ratchet is pending takes the matching
/// ratchet step on the sender's next message, derives the message key the
/// sender used, and is then in sync with the sender's next state. If its
/// fresh ratchet key pair is new to the sender, the sender is in turn
/// awaiting the receiver's ratchet. Provided the messages skipped are at
/// most `MAX_SKIP` in each chain, the message numbers stay within a `u16`,
/// and the fresh key agrees in X25519 with the sender's (as `ratchet_decrypt` states of the
/// key its ratchet step draws).
pub proof fn lemma_receive_awaiting(snd: StatesView, rcv: StatesView, fresh: Seq<u8>)
    requires
        awaiting_ratchet(snd, rcv),
        snd.ns < u16::MAX,
        snd.ns <= MAX_SKIP,
        rcv.nr + MAX_SKIP <= u16::MAX,
        snd.pn <= rcv.nr + MAX_SKIP,
        x25519_agree(fresh, snd.dhs.unwrap()),
    ensures
        ({
            let (snd2, _, mk) = send_spec(snd);
            let h = send_header(snd);
            &&& receive_defined(rcv, h)
            &&& receive_ratchets(rcv, h)
            &&& receive_mk(rcv, h) == Ok::<Seq<u8>, crate::ratchets::RatchetsError>(mk)
            &&& forall|msg: Seq<u8>, ad: Seq<u8>|
                aead_accepts(msg.len()) && sent_ciphertext(snd, msg, ad).len() == msg.len() + 16
                    ==> #[trigger] is_sealed_for(rcv, h, sent_ciphertext(snd, msg, ad), ad, msg)
            &&& receive_spec(rcv, h, fresh) matches Ok((rcv2, k)) && {
                &&& k == mk
                &&& in_sync(snd2, rcv2)
                &&& (x25519_public_key(fresh) != x25519_public_key(rcv.dhs.unwrap()) && (forall|
                    n: u16,
                | !(#[trigger] snd.mk_skipped.contains_key((x25519_public_key(fresh), n))))
                    ==> awaiting_ratchet(rcv2, snd2))
            }
        }),
{
    let (snd2, _, mk) = send_spec(snd);
    let h = send_header(snd);
    let dh = h.dh;
    assert(!rcv.mk_skipped.contains_key((dh, h.n)));
    let t = skip_spec(rcv, h.pn).unwrap();
    if rcv.ckr is Some && rcv.nr <= h.pn {
        lemma_skip_chain(rcv.ckr.unwrap(), rcv.dhr.unwrap(), rcv.nr, rcv.mk_skipped, h.pn);
    }
    assert forall|n: u16| !(#[trigger] t.mk_skipped.contains_key((dh, n))) by {
        assert(!rcv.mk_skipped.contains_key((dh, n)));
    }
    let t2 = dh_ratchet_spec(t, dh, fresh);
    lemma_skip_chain(t2.ckr.unwrap(), dh, 0, t2.mk_skipped, h.n);
    let rcv2 = receive_spec(rcv, h, fresh).unwrap().0;
    assert forall|n: u16| rcv2.nr <= n implies !(#[trigger] rcv2.mk_skipped.contains_key((dh, n))) by {
        assert(!t.mk_skipped.contains_key((dh, n)));
    }
}

/// A message of the sender's previous chain that the receiver had not yet
/// received stays readable after the receiver's ratchet step: receiving the
/// first message of the sender's new chain stores the message key the
/// sender used for it; provided it lies within the `pn` messages the new
/// header reports and the skipping bounds hold.
pub proof fn lemma_delayed_across_ratchet(
    early: StatesView,
    snd: StatesView,
    rcv: StatesView,
    fresh: Seq<u8>,
)
    requires
        in_sync(early, rcv),
        awaiting_ratchet(snd, rcv),
        early.ns < snd.pn,
        snd.pn <= rcv.nr + MAX_SKIP,
        snd.ns < u16::MAX,
        snd.ns <= MAX_SKIP,
        rcv.nr + MAX_SKIP <= u16::MAX,
    ensures
        receive_spec(rcv, send_header(snd), fresh) matches Ok((rcv2, _)) && {
            let h = send_header(early);
            &&& receive_defined(rcv2, h)
            &&& receive_mk(rcv2, h) == Ok::<Seq<u8>, crate::ratchets::RatchetsError>(
                send_spec(early).2,
            )
            &&& forall|msg: Seq<u8>, ad: Seq<u8>|
                aead_accepts(msg.len()) && sent_ciphertext(early, msg, ad).len() == msg.len() + 16
                    ==> #[trigger] is_sealed_for(rcv2, h, sent_ciphertext(early, msg, ad), ad, msg)
        },
{
    let h = send_header(snd);
    let dh = h.dh;
    let old_dh = rcv.dhr.unwrap();
    assert(!rcv.mk_skipped.contains_key((dh, h.n)));
    lemma_skip_chain(rcv.ckr.unwrap(), old_dh, rcv.nr, rcv.mk_skipped, h.pn);
    let t = skip_spec(rcv, h.pn).unwrap();
    assert(t.mk_skipped.contains_key((old_dh, early.ns)));
    let t2 = dh_ratchet_spec(t, dh, fresh);
    lemma_skip_chain(t2.ckr.unwrap(), dh, 0, t2.mk_skipped, h.n);
    let rcv2 = receive_spec(rcv, h, fresh).unwrap().0;
    assert(rcv2.mk_skipped.contains_key((old_dh, early.ns)));
}

/// A stored message key is used once: receiving its header hands it out
/// and removes it, changing nothing else.
pub proof fn lemma_skipped_key_used_once(s: StatesView, h: HeaderView, fresh: Seq<u8>)
    requires
        s.mk_skipped.contains_key((h.dh, h.n)),
    ensures
        receive_defined(s, h),
        !receive_ratchets(s, h),
        receive_spec(s, h, fresh) matches Ok((s2, mk)) && mk == s.mk_skipped[(h.dh, h.n)]
            && s2 == (StatesView { mk_skipped: s.mk_skipped.remove((h.dh, h.n)), ..s })
            && !s2.mk_skipped.contains_key((h.dh, h.n)),
{
}

/// Sending touches only the sending chain: the chain key steps once, the
/// message number is the old count and the count grows by one, and the
/// ratchet keys, root key, receiving chain, `pn` and stored keys stay.
pub proof fn lemma_send_frame(s: StatesView)
    requires
        s.cks is Some,
        s.ns < u16::MAX,
    ensures
        ({
            let (s2, n, mk) = send_spec(s);
            &&& n == s.ns
            &&& s2.ns == s.ns + 1
            &&& s2.cks == Some(kdf_ck_spec(s.cks.unwrap()).0)
            &&& mk == kdf_ck_spec(s.cks.unwrap()).1
            &&& s2.dhs == s.dhs
            &&& s2.dhr == s.dhr
            &&& s2.rk == s.rk
            &&& s2.ckr == s.ckr
            &&& s2.nr == s.nr
            &&& s2.pn == s.pn
            &&& s2.mk_skipped == s.mk_skipped
        }),
{
}

/// Two messages sent one after the other carry the same public key and the
/// same `pn`, and consecutive message numbers.
pub proof fn lemma_consecutive_headers(s: StatesView)
    requires
        s.cks is Some,
        s.ns < u16::MAX,
    ensures
        send_header(send_spec(s).0).dh == send_header(s).dh,
        send_header(send_spec(s).0).pn == send_header(s).pn,
        send_header(send_spec(s).0).n == send_header(s).n + 1,
{
}

/// Receiving a message of the current receiving chain (no stored key, no new
/// ratchet key) touches only the receiving side: the ratchet keys, root key,
/// sending chain, `ns` and `pn` stay; the receiving count moves past the
/// message; and every stored key stays stored.
pub proof fn lemma_receive_in_chain(s: StatesView, h: HeaderView, fresh: Seq<u8>)
    requires
        receive_defined(s, h),
        s.dhr == Some(h.dh),
        !s.mk_skipped.contains_key((h.dh, h.n)),
    ensures
        receive_spec(s, h, fresh) matches Ok((s2, _)) && {
            &&& s2.dhs == s.dhs
            &&& s2.dhr == s.dhr
            &&& s2.rk == s.rk
            &&& s2.cks == s.cks
            &&& s2.ns == s.ns
            &&& s2.pn == s.pn
            &&& s2.ckr is Some
            &&& s2.nr == (if h.n < s.nr {
                s.nr + 1
            } else {
                h.n + 1
            })
            &&& forall|k: (Seq<u8>, u16)|
                #[trigger] s.mk_skipped.contains_key(k) && !(k.0 == h.dh && s.nr <= k.1)
                    ==> s2.mk_skipped.contains_key(k) && s2.mk_skipped[k] == s.mk_skipped[k]
        },
{
    if s.nr <= h.n {
        lemma_skip_chain(s.ckr.unwrap(), h.dh, s.nr, s.mk_skipped, h.n);
    }
}

/// The store `m` holds, under `(dh, j)` for each message number `j` from
/// `from` up to `until`, the message key of chain key `ck`, `j - from`
/// steps down the chain.
pub open spec fn stores_chain_keys(
    m: Map<(Seq<u8>, u16), Seq<u8>>,
    dh: Seq<u8>,
    ck: Seq<u8>,
    from: u16,
    until: u16,
) -> bool {
    forall|j: u16|
        from <= j < until ==> #[trigger] m.contains_key((dh, j)) && m[(dh, j)] == kdf_ck_spec(
            ck_iter(ck, (j - from) as nat),
        ).1
}

/// The receiving chain key that the Diffie-Hellman step of `s` on the peer's
/// new public key `dh` starts: the second half of the root-key derivation
/// from the root key and the shared secret of `s`'s ratchet secret with `dh`.
pub open spec fn ratchet_receiving_chain(s: StatesView, dh: Seq<u8>) -> Seq<u8> {
    kdf_rk_spec(s.rk, x25519_shared_secret(s.dhs.unwrap(), dh)).1
}

/// The root key after the Diffie-Hellman step of `s` on `dh` with the fresh
/// secret `fresh`: two root-key derivations, with the old and then the
/// fresh secret.
pub open spec fn ratchet_root(s: StatesView, dh: Seq<u8>, fresh: Seq<u8>) -> Seq<u8> {
    let rk1 = kdf_rk_spec(s.rk, x25519_shared_secret(s.dhs.unwrap(), dh)).0;
    kdf_rk_spec(rk1, x25519_shared_secret(fresh, dh)).0
}

/// The sending chain key that the Diffie-Hellman step of `s` on `dh` with
/// the fresh secret `fresh` starts.
pub open spec fn ratchet_sending_chain(s: StatesView, dh: Seq<u8>, fresh: Seq<u8>) -> Seq<u8> {
    let rk1 = kdf_rk_spec(s.rk, x25519_shared_secret(s.dhs.unwrap(), dh)).0;
    kdf_rk_spec(rk1, x25519_shared_secret(fresh, dh)).1
}

/// The keys of receiving a message of the current receiving chain (no stored
/// key, no new ratchet key): for a message at or past the receiving count,
/// the chain key moves past it, the message key is that of its number, and
/// the keys of the messages skipped over are stored; for one before the
/// receiving count, the chain steps once and its key is handed out, with
/// the store unchanged.
pub proof fn lemma_receive_in_chain_keys(s: StatesView, h: HeaderView, fresh: Seq<u8>)
    requires
        receive_defined(s, h),
        s.dhr == Some(h.dh),
        !s.mk_skipped.contains_key((h.dh, h.n)),
    ensures
        receive_spec(s, h, fresh) matches Ok((s2, mk)) && if s.nr <= h.n {
            &&& s2.ckr == Some(ck_iter(s.ckr.unwrap(), (h.n - s.nr) as nat + 1))
            &&& mk == kdf_ck_spec(ck_iter(s.ckr.unwrap(), (h.n - s.nr) as nat)).1
            &&& stores_chain_keys(s2.mk_skipped, h.dh, s.ckr.unwrap(), s.nr, h.n)
        } else {
            &&& s2.ckr == Some(kdf_ck_spec(s.ckr.unwrap()).0)
            &&& mk == kdf_ck_spec(s.ckr.unwrap()).1
            &&& s2.mk_skipped == s.mk_skipped
        },
{
    let ck = s.ckr.unwrap();
    if s.nr <= h.n {
        lemma_skip_chain(ck, h.dh, s.nr, s.mk_skipped, h.n);
        let d = (h.n - s.nr) as nat;
        assert(ck_iter(ck, d + 1) == kdf_ck_spec(ck_iter(ck, d)).0);
    }
}

/// Receiving a message under a new ratchet key takes the Diffie-Hellman step:
/// `pn` becomes the number of messages sent in the previous sending chain,
/// the new sending chain starts at zero, the fresh secret becomes the ratchet
/// secret, the new public key becomes the peer's, the receiving count moves
/// past the message, and every stored key stays stored, but for keys of the
/// old receiving chain at or past the receiving count and keys of the new
/// one, which skipping may write.
pub proof fn lemma_receive_ratchet_step(s: StatesView, h: HeaderView, fresh: Seq<u8>)
    requires
        receive_defined(s, h),
        receive_ratchets(s, h),
    ensures
        receive_spec(s, h, fresh) matches Ok((s2, _)) && {
            &&& s2.pn == s.ns
            &&& s2.ns == 0
            &&& s2.dhs == Some(fresh)
            &&& s2.dhr == Some(h.dh)
            &&& s2.cks is Some
            &&& s2.ckr is Some
            &&& s2.nr == h.n + 1
            &&& forall|k: (Seq<u8>, u16)|
                #[trigger] s.mk_skipped.contains_key(k) && !(Some(k.0) == s.dhr && s.nr <= k.1)
                    && k.0 != h.dh ==> s2.mk_skipped.contains_key(k) && s2.mk_skipped[k]
                    == s.mk_skipped[k]
        },
{
    let t = skip_spec(s, h.pn).unwrap();
    if s.ckr is Some && s.nr <= h.pn {
        lemma_skip_chain(s.ckr.unwrap(), s.dhr.unwrap(), s.nr, s.mk_skipped, h.pn);
    }
    let t2 = dh_ratchet_spec(t, h.dh, fresh);
    lemma_skip_chain(t2.ckr.unwrap(), h.dh, 0, t2.mk_skipped, h.n);
    assert forall|k: (Seq<u8>, u16)|
        #[trigger] s.mk_skipped.contains_key(k) && !(Some(k.0) == s.dhr && s.nr <= k.1)
            implies t.mk_skipped.contains_key(k) && t.mk_skipped[k] == s.mk_skipped[k] by {}
    let (ck2, nr2, sk2) = skip_chain(t2.ckr.unwrap(), h.dh, 0, t2.mk_skipped, h.n);
    let s2 = receive_spec(s, h, fresh).unwrap().0;
    assert(s2.mk_skipped == sk2);
    assert(s2.nr == nr2 + 1);
    assert forall|k: (Seq<u8>, u16)|
        #[trigger] s.mk_skipped.contains_key(k) && !(Some(k.0) == s.dhr && s.nr <= k.1)
            && k.0 != h.dh implies s2.mk_skipped.contains_key(k) && s2.mk_skipped[k]
        == s.mk_skipped[k] by {
        assert(t.mk_skipped.contains_key(k));
        assert(sk2.contains_key(k) == t2.mk_skipped.contains_key(k));
    }
}

/// The keys of a Diffie-Hellman step on receiving: the root key and the new
/// sending chain come from two root-key derivations, with the old ratchet
/// secret and then the fresh one; the new receiving chain comes from the
/// first and has moved past the message; the message key is that of the
/// message's number in the new receiving chain; the keys of the messages
/// before it in the new chain are stored, and so are those of the old
/// receiving chain up to the `pn` the header reports.
pub proof fn lemma_receive_ratchet_keys(s: StatesView, h: HeaderView, fresh: Seq<u8>)
    requires
        receive_defined(s, h),
        receive_ratchets(s, h),
    ensures
        receive_spec(s, h, fresh) matches Ok((s2, mk)) && {
            &&& s2.rk == ratchet_root(s, h.dh, fresh)
            &&& s2.cks == Some(ratchet_sending_chain(s, h.dh, fresh))
            &&& s2.ckr == Some(ck_iter(ratchet_receiving_chain(s, h.dh), h.n as nat + 1))
            &&& mk == kdf_ck_spec(ck_iter(ratchet_receiving_chain(s, h.dh), h.n as nat)).1
            &&& stores_chain_keys(s2.mk_skipped, h.dh, ratchet_receiving_chain(s, h.dh), 0, h.n)
            &&& (s.ckr is Some ==> stores_chain_keys(
                s2.mk_skipped,
                s.dhr.unwrap(),
                s.ckr.unwrap(),
                s.nr,
                h.pn,
            ))
        },
{
    let t = skip_spec(s, h.pn).unwrap();
    if s.ckr is Some && s.nr <= h.pn {
        lemma_skip_chain(s.ckr.unwrap(), s.dhr.unwrap(), s.nr, s.mk_skipped, h.pn);
    }
    let t2 = dh_ratchet_spec(t, h.dh, fresh);
    let ck0 = ratchet_receiving_chain(s, h.dh);
    assert(t2.ckr == Some(ck0));
    lemma_skip_chain(ck0, h.dh, 0, t2.mk_skipped, h.n);
    let (ck2, nr2, sk2) = skip_chain(ck0, h.dh, 0, t2.mk_skipped, h.n);
    let (s2, mk) = receive_spec(s, h, fresh)->Ok_0;
    assert(s2.mk_skipped == sk2);
    assert(ck2 == ck_iter(ck0, h.n as nat));
    assert(ck_iter(ck0, h.n as nat + 1) == kdf_ck_spec(ck_iter(ck0, h.n as nat)).0);
    assert(stores_chain_keys(s2.mk_skipped, h.dh, ck0, 0, h.n)) by {
        assert forall|j: u16| 0 <= j < h.n implies #[trigger] s2.mk_skipped.contains_key((h.dh, j))
            && s2.mk_skipped[(h.dh, j)] == kdf_ck_spec(ck_iter(ck0, (j - 0) as nat)).1 by {
            assert(sk2.contains_key((h.dh, j)));
        }
    }
    if s.ckr is Some {
        assert(stores_chain_keys(s2.mk_skipped, s.dhr.unwrap(), s.ckr.unwrap(), s.nr, h.pn)) by {
            assert forall|j: u16| s.nr <= j < h.pn implies #[trigger] s2.mk_skipped.contains_key(
                (s.dhr.unwrap(), j),
            ) && s2.mk_skipped[(s.dhr.unwrap(), j)] == kdf_ck_spec(
                ck_iter(s.ckr.unwrap(), (j - s.nr) as nat),
            ).1 by {
                let k = (s.dhr.unwrap(), j);
                assert(t.mk_skipped.contains_key(k));
                assert(k.0 != h.dh);
                assert(sk2.contains_key(k) == t2.mk_skipped.contains_key(k));
            }
        }
    }
    assert(s2.ckr == Some(ck_iter(ck0, h.n as nat + 1)));
    assert(mk == kdf_ck_spec(ck_iter(ck0, h.n as nat)).1);
    assert(s2.rk == ratchet_root(s, h.dh, fresh));
    assert(s2.cks == Some(ratchet_sending_chain(s, h.dh, fresh)));
}

/// A stored message key survives a send: after sending, receiving the header
/// it is stored under still hands out the same key.
pub proof fn lemma_stored_key_survives_send(s: StatesView, h: HeaderView, fresh: Seq<u8>)
    requires
        s.cks is Some,
        s.ns < u16::MAX,
        s.mk_skipped.contains_key((h.dh, h.n)),
    ensures
        receive_spec(send_spec(s).0, h, fresh) matches Ok((_, mk)) && mk == s.mk_skipped[(
            h.dh,
            h.n,
        )],
{
}

/// Receiving a message of the current receiving chain keeps the receiver's
/// own sending side: if its peer was ready for its next message (in sync, or
/// awaiting its ratchet), the peer still is.
pub proof fn lemma_receive_in_chain_keeps_peer(
    s: StatesView,
    peer: StatesView,
    h: HeaderView,
    fresh: Seq<u8>,
)
    requires
        receive_defined(s, h),
        s.dhr == Some(h.dh),
        !s.mk_skipped.contains_key((h.dh, h.n)),
    ensures
        receive_spec(s, h, fresh) matches Ok((s2, _)) && {
            &&& in_sync(s, peer) ==> in_sync(s2, peer)
            &&& awaiting_ratchet(s, peer) ==> awaiting_ratchet(s2, peer)
            &&& send_header(s2) == send_header(s)
        },
{
    lemma_receive_in_chain(s, h, fresh);
}

/// After a Diffie-Hellman step on receiving, the next message sent carries
/// the fresh ratchet public key, `pn` equal to the number of messages sent
/// in the previous sending chain, and message number zero.
pub proof fn lemma_header_after_ratchet(s: StatesView, h: HeaderView, fresh: Seq<u8>)
    requires
        receive_defined(s, h),
        receive_ratchets(s, h),
    ensures
        receive_spec(s, h, fresh) matches Ok((s2, _)) && send_header(s2) == (HeaderView {
            dh: x25519_public_key(fresh),
            pn: s.ns,
            n: 0,
        }),
{
    lemma_receive_ratchet_step(s, h, fresh);
}

} // verus!
