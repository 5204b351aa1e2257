//! The state of one party of a double-ratchet session.

use crate::bytes::{array_at, concat_bytes};
use crate::crypto::{x25519_public, x25519_public_key};
use crate::skipped::{entry_key, keys_distinct, map_of_entries, SkippedKey, SkippedKeys};
use vstd::prelude::*;

verus! {

/// Errors of state conversion.
#[derive(Debug)]
pub enum StatesError {
    FailedToDeserialize,
}

/// One party's ratchet state: its ratchet key pair (`dhs`, the secret), the
/// other party's ratchet public key (`dhr`), the root key, the sending and
/// receiving chain keys, the message numbers for sending (`ns`) and
/// receiving (`nr`), the length of the previous sending chain (`pn`), and the
/// message keys of skipped messages.
pub struct States {
    pub dhs: Option<[u8; 32]>,
    pub dhr: Option<[u8; 32]>,
    pub rk: [u8; 32],
    pub cks: Option<[u8; 32]>,
    pub ckr: Option<[u8; 32]>,
    pub ns: u16,
    pub nr: u16,
    pub pn: u16,
    pub mk_skipped: SkippedKeys,
}

/// The mathematical value of a ratchet state.
pub struct StatesView {
    pub dhs: Option<Seq<u8>>,
    pub dhr: Option<Seq<u8>>,
    pub rk: Seq<u8>,
    pub cks: Option<Seq<u8>>,
    pub ckr: Option<Seq<u8>>,
    pub ns: u16,
    pub nr: u16,
    pub pn: u16,
    pub mk_skipped: Map<(Seq<u8>, u16), Seq<u8>>,
}

/// The bytes of an optional key.
pub open spec fn opt_bytes(k: Option<[u8; 32]>) -> Option<Seq<u8>> {
    match k {
        Some(b) => Some(b@),
        None => None,
    }
}

impl View for States {
    type V = StatesView;

    open spec fn view(&self) -> StatesView {
        StatesView {
            dhs: opt_bytes(self.dhs),
            dhr: opt_bytes(self.dhr),
            rk: self.rk@,
            cks: opt_bytes(self.cks),
            ckr: opt_bytes(self.ckr),
            ns: self.ns,
            nr: self.nr,
            pn: self.pn,
            mk_skipped: self.mk_skipped@,
        }
    }
}

/// The state before any initialisation: no keys, a zero root key, zero counters.
pub open spec fn default_view() -> StatesView {
    StatesView {
        dhs: None,
        dhr: None,
        rk: Seq::new(32, |i: int| 0u8),
        cks: None,
        ckr: None,
        ns: 0,
        nr: 0,
        pn: 0,
        mk_skipped: Map::empty(),
    }
}

impl Clone for States {
    fn clone(&self) -> (res: Self)
        ensures
            res@ == self@,
    {
        States {
            dhs: self.dhs,
            dhr: self.dhr,
            rk: self.rk,
            cks: self.cks,
            ckr: self.ckr,
            ns: self.ns,
            nr: self.nr,
            pn: self.pn,
            mk_skipped: self.mk_skipped.clone(),
        }
    }
}

impl Default for States {
    fn default() -> (s: Self)
        ensures
            s@ == default_view(),
    {
        let rk = [0u8; 32];
        assert(rk@ =~= Seq::new(32, |i: int| 0u8));
        States {
            dhs: None,
            dhr: None,
            rk,
            cks: None,
            ckr: None,
            ns: 0,
            nr: 0,
            pn: 0,
            mk_skipped: SkippedKeys::new(),
        }
    }
}

/// A ratchet key pair in byte form.
pub struct DHs {
    pub public_key: Vec<u8>,
    pub private_key: Vec<u8>,
}

/// One stored message key in byte form.
pub struct SkippedEntry {
    pub dh: Vec<u8>,
    pub n: u16,
    pub mk: Vec<u8>,
}

/// The byte form of a ratchet state, for storage and transport.
pub struct RustyState {
    pub dhs: Option<DHs>,
    pub dhr: Option<Vec<u8>>,
    pub rk: Vec<u8>,
    pub cks: Option<Vec<u8>>,
    pub ckr: Option<Vec<u8>>,
    pub ns: u16,
    pub nr: u16,
    pub pn: u16,
    pub mk_skipped: Vec<SkippedEntry>,
}

/// The mathematical value of a `RustyState`: the key pair is
/// `(public key, private key)`, each stored key `(dh, n, mk)`.
pub struct RustyStateView {
    pub dhs: Option<(Seq<u8>, Seq<u8>)>,
    pub dhr: Option<Seq<u8>>,
    pub rk: Seq<u8>,
    pub cks: Option<Seq<u8>>,
    pub ckr: Option<Seq<u8>>,
    pub ns: u16,
    pub nr: u16,
    pub pn: u16,
    pub mk_skipped: Seq<(Seq<u8>, u16, Seq<u8>)>,
}

/// The bytes of an optional byte vector.
pub open spec fn opt_vec(v: Option<Vec<u8>>) -> Option<Seq<u8>> {
    match v {
        Some(b) => Some(b@),
        None => None,
    }
}

/// The `(dh, n, mk)` value of a stored key in byte form.
pub open spec fn entry_view(e: SkippedEntry) -> (Seq<u8>, u16, Seq<u8>) {
    (e.dh@, e.n, e.mk@)
}

impl View for RustyState {
    type V = RustyStateView;

    open spec fn view(&self) -> RustyStateView {
        RustyStateView {
            dhs: match self.dhs {
                Some(pair) => Some((pair.public_key@, pair.private_key@)),
                None => None,
            },
            dhr: opt_vec(self.dhr),
            rk: self.rk@,
            cks: opt_vec(self.cks),
            ckr: opt_vec(self.ckr),
            ns: self.ns,
            nr: self.nr,
            pn: self.pn,
            mk_skipped: self.mk_skipped@.map_values(|e: SkippedEntry| entry_view(e)),
        }
    }
}

/// The map that inserting the stored keys in order builds.
pub open spec fn map_of_triples(entries: Seq<(Seq<u8>, u16, Seq<u8>)>) -> Map<
    (Seq<u8>, u16),
    Seq<u8>,
>
    decreases entries.len(),
{
    if entries.len() == 0 {
        Map::empty()
    } else {
        let (dh, n, mk) = entries.last();
        map_of_triples(entries.drop_last()).insert((dh, n), mk)
    }
}

/// The store `m` holds exactly the keys that `entries` list.
pub open spec fn same_stored_keys(entries: Seq<SkippedEntry>, m: Map<(Seq<u8>, u16), Seq<u8>>) -> bool {
    &&& forall|i: int|
        0 <= i < entries.len() ==> #[trigger] m.contains_key((entries[i].dh@, entries[i].n))
    &&& forall|k: (Seq<u8>, u16)|
        #[trigger] m.contains_key(k) ==> exists|i: int|
            0 <= i < entries.len() && (entries[i].dh@, entries[i].n) == k
}

/// No two of `entries` share a public key and message number.
pub open spec fn entries_distinct(entries: Seq<SkippedEntry>) -> bool {
    forall|i: int, j: int|
        0 <= i < j < entries.len() ==> (entries[i].dh@, entries[i].n) != (entries[j].dh@, entries[j].n)
}

/// The store `m` holds exactly the keys that `entries` list, each with the
/// message key listed for it.
pub open spec fn lists_stored_keys(entries: Seq<SkippedEntry>, m: Map<(Seq<u8>, u16), Seq<u8>>) -> bool {
    &&& same_stored_keys(entries, m)
    &&& forall|i: int|
        0 <= i < entries.len() ==> #[trigger] m[(entries[i].dh@, entries[i].n)] == entries[i].mk@
}

/// What `lemma_map_of_triples` says of the triples, said of the entries in
/// byte form they are the values of.
proof fn lemma_entries_map(entries: Seq<SkippedEntry>)
    ensures
        same_stored_keys(entries, map_of_triples(entries.map_values(|e: SkippedEntry| entry_view(e)))),
        entries_distinct(entries) ==> lists_stored_keys(
            entries,
            map_of_triples(entries.map_values(|e: SkippedEntry| entry_view(e))),
        ),
{
    let tr = entries.map_values(|e: SkippedEntry| entry_view(e));
    let m = map_of_triples(tr);
    lemma_map_of_triples(tr);
    assert forall|i: int| 0 <= i < entries.len() implies #[trigger] m.contains_key(
        (entries[i].dh@, entries[i].n),
    ) by {
        assert(tr[i] == entry_view(entries[i]));
        assert(m.contains_key((tr[i].0, tr[i].1)));
    }
    assert forall|k: (Seq<u8>, u16)| #[trigger] m.contains_key(k) implies exists|i: int|
        0 <= i < entries.len() && (entries[i].dh@, entries[i].n) == k by {
        let i0 = choose|i: int| 0 <= i < tr.len() && (tr[i].0, tr[i].1) == k;
        assert(tr[i0] == entry_view(entries[i0]));
    }
    if entries_distinct(entries) {
        assert forall|i: int, j: int| 0 <= i < j < tr.len() implies (tr[i].0, tr[i].1) != (
            tr[j].0,
            tr[j].1,
        ) by {
            assert(tr[i] == entry_view(entries[i]) && tr[j] == entry_view(entries[j]));
        }
        assert forall|i: int| 0 <= i < entries.len() implies #[trigger] m[(
            entries[i].dh@,
            entries[i].n,
        )] == entries[i].mk@ by {
            assert(tr[i] == entry_view(entries[i]));
            assert(m[(tr[i].0, tr[i].1)] == tr[i].2);
        }
    }
}

/// Every listed stored key is in the map it builds, and the map holds no
/// other key; where no key is listed twice, each maps to its listed message key.
pub proof fn lemma_map_of_triples(entries: Seq<(Seq<u8>, u16, Seq<u8>)>)
    ensures
        forall|i: int|
            0 <= i < entries.len() ==> #[trigger] map_of_triples(entries).contains_key(
                (entries[i].0, entries[i].1),
            ),
        forall|k: (Seq<u8>, u16)|
            #[trigger] map_of_triples(entries).contains_key(k) ==> exists|i: int|
                0 <= i < entries.len() && (entries[i].0, entries[i].1) == k,
        (forall|i: int, j: int|
            0 <= i < j < entries.len() ==> (entries[i].0, entries[i].1) != (
                entries[j].0,
                entries[j].1,
            )) ==> forall|i: int|
            0 <= i < entries.len() ==> #[trigger] map_of_triples(entries)[(
                entries[i].0,
                entries[i].1,
            )] == entries[i].2,
    decreases entries.len(),
{
    if entries.len() > 0 {
        let init = entries.drop_last();
        lemma_map_of_triples(init);
        let m = map_of_triples(entries);
        let mi = map_of_triples(init);
        let last = entries.last();
        assert(m == mi.insert((last.0, last.1), last.2));
        assert forall|i: int| 0 <= i < entries.len() implies #[trigger] m.contains_key(
            (entries[i].0, entries[i].1),
        ) by {
            if i < entries.len() - 1 {
                assert(init[i] == entries[i]);
                assert(mi.contains_key((init[i].0, init[i].1)));
            }
        }
        assert forall|k: (Seq<u8>, u16)| #[trigger] m.contains_key(k) implies exists|i: int|
            0 <= i < entries.len() && (entries[i].0, entries[i].1) == k by {
            if k != (last.0, last.1) {
                assert(mi.contains_key(k));
                let i0 = choose|i: int| 0 <= i < init.len() && (init[i].0, init[i].1) == k;
                assert(entries[i0] == init[i0]);
            } else {
                assert((entries[entries.len() - 1].0, entries[entries.len() - 1].1) == k);
            }
        }
        if forall|i: int, j: int|
            0 <= i < j < entries.len() ==> (entries[i].0, entries[i].1) != (
                entries[j].0,
                entries[j].1,
            ) {
            assert forall|i: int, j: int| 0 <= i < j < init.len() implies (init[i].0, init[i].1) != (
                init[j].0,
                init[j].1,
            ) by {
                assert(init[i] == entries[i] && init[j] == entries[j]);
            }
            assert forall|i: int| 0 <= i < entries.len() implies #[trigger] m[(
                entries[i].0,
                entries[i].1,
            )] == entries[i].2 by {
                if i < entries.len() - 1 {
                    assert(init[i] == entries[i]);
                    assert(mi.contains_key((init[i].0, init[i].1)));
                    assert(mi[(init[i].0, init[i].1)] == init[i].2);
                    assert((entries[i].0, entries[i].1) != (
                        entries[entries.len() - 1].0,
                        entries[entries.len() - 1].1,
                    ));
                }
            }
        }
    }
}

/// Whether an optional key is absent or 32 bytes long.
pub open spec fn opt_len32(k: Option<Seq<u8>>) -> bool {
    k matches Some(b) ==> b.len() == 32
}

/// Whether every key of a byte-form state is 32 bytes long (the public key
/// of the pair is not read back, so its length does not matter).
pub open spec fn lengths_valid(r: RustyStateView) -> bool {
    &&& (r.dhs matches Some(pair) ==> pair.1.len() == 32)
    &&& opt_len32(r.dhr)
    &&& r.rk.len() == 32
    &&& opt_len32(r.cks)
    &&& opt_len32(r.ckr)
    &&& forall|i: int|
        0 <= i < r.mk_skipped.len() ==> (#[trigger] r.mk_skipped[i]).0.len() == 32
            && r.mk_skipped[i].2.len() == 32
}

/// The state a byte-form state decodes to, when its keys have valid lengths.
pub open spec fn decode_state(r: RustyStateView) -> Option<StatesView> {
    if lengths_valid(r) {
        Some(
            StatesView {
                dhs: match r.dhs {
                    Some(pair) => Some(pair.1),
                    None => None,
                },
                dhr: r.dhr,
                rk: r.rk,
                cks: r.cks,
                ckr: r.ckr,
                ns: r.ns,
                nr: r.nr,
                pn: r.pn,
                mk_skipped: map_of_triples(r.mk_skipped),
            },
        )
    } else {
        None
    }
}

/// Whether `r` is an encoding of `s`: the same keys and counters, the key
/// pair completed with its public key, and the stored keys listed once each.
pub open spec fn encodes(r: RustyStateView, s: StatesView) -> bool {
    &&& lengths_valid(r)
    &&& r.dhs == match s.dhs {
        Some(sk) => Some((x25519_public_key(sk), sk)),
        None => None,
    }
    &&& r.dhr == s.dhr
    &&& r.rk == s.rk
    &&& r.cks == s.cks
    &&& r.ckr == s.ckr
    &&& r.ns == s.ns
    &&& r.nr == s.nr
    &&& r.pn == s.pn
    &&& map_of_triples(r.mk_skipped) == s.mk_skipped
    &&& forall|i: int, j: int|
        0 <= i < j < r.mk_skipped.len() ==> (r.mk_skipped[i].0, r.mk_skipped[i].1) != (
            r.mk_skipped[j].0,
            r.mk_skipped[j].1,
        )
}

/// Decoding keeps every field where it stands: the private key becomes the
/// ratchet secret, each chain key stays the chain key of the same direction,
/// and the counters are copied.
pub proof fn lemma_decode_fields(r: RustyStateView)
    requires
        lengths_valid(r),
    ensures
        decode_state(r) matches Some(s) && {
            &&& s.dhs == (match r.dhs {
                Some(pair) => Some(pair.1),
                None => None::<Seq<u8>>,
            })
            &&& s.dhr == r.dhr
            &&& s.rk == r.rk
            &&& s.cks == r.cks
            &&& s.ckr == r.ckr
            &&& s.ns == r.ns
            &&& s.nr == r.nr
            &&& s.pn == r.pn
        },
{
}

/// An encoding keeps every field where it stands: each chain key is the
/// chain key of the same direction, and the counters are copied.
pub proof fn lemma_encodes_fields(r: RustyStateView, s: StatesView)
    requires
        encodes(r, s),
    ensures
        r.dhr == s.dhr,
        r.rk == s.rk,
        r.cks == s.cks,
        r.ckr == s.ckr,
        r.ns == s.ns,
        r.nr == s.nr,
        r.pn == s.pn,
        s.dhs matches Some(sk) ==> r.dhs == Some((x25519_public_key(sk), sk)),
{
}

/// Decoding an encoding of a state gives the state back.
pub proof fn lemma_decode_encodes(r: RustyStateView, s: StatesView)
    requires
        encodes(r, s),
    ensures
        decode_state(r) == Some(s),
{
}

fn key_to_vec(k: &[u8; 32]) -> (v: Vec<u8>)
    ensures
        v@ == k@,
{
    let v = concat_bytes(k, &[]);
    assert(v@ =~= k@);
    v
}

fn opt_key_to_vec(k: &Option<[u8; 32]>) -> (v: Option<Vec<u8>>)
    ensures
        opt_vec(v) == opt_bytes(*k),
{
    match k {
        Some(b) => Some(key_to_vec(b)),
        None => None,
    }
}

fn vec_to_key(v: &Vec<u8>) -> (k: Option<[u8; 32]>)
    ensures
        match k {
            Some(b) => v@.len() == 32 && b@ == v@,
            None => v@.len() != 32,
        },
{
    if v.len() == 32 {
        let b: [u8; 32] = array_at(v.as_slice(), 0);
        assert(v@.subrange(0, 32) =~= v@);
        Some(b)
    } else {
        None
    }
}

fn opt_vec_to_key(v: &Option<Vec<u8>>) -> (k: Result<Option<[u8; 32]>, StatesError>)
    ensures
        match k {
            Ok(b) => opt_len32(opt_vec(*v)) && opt_bytes(b) == opt_vec(*v),
            Err(_) => !opt_len32(opt_vec(*v)),
        },
{
    match v {
        Some(bytes) => match vec_to_key(bytes) {
            Some(b) => Ok(Some(b)),
            None => Err(StatesError::FailedToDeserialize),
        },
        None => Ok(None),
    }
}

impl RustyState {
    /// The byte form of a state; the key pair is completed with its public key.
    pub fn try_from(value: States) -> (res: Result<RustyState, StatesError>)
        ensures
            res matches Ok(r) && encodes(r@, value@),
            res matches Ok(r) ==> (r@.dhs matches Some(pair) ==> pair.0.len() == 32),
            res matches Ok(r) ==> {
                &&& (match value.dhs {
                    Some(sk) => r.dhs matches Some(pair) && pair.private_key@ == sk@
                        && pair.public_key@ == x25519_public_key(sk@),
                    None => r.dhs is None,
                })
                &&& opt_vec(r.dhr) == opt_bytes(value.dhr)
                &&& r.rk@ == value.rk@
                &&& opt_vec(r.cks) == opt_bytes(value.cks)
                &&& opt_vec(r.ckr) == opt_bytes(value.ckr)
                &&& r.ns == value.ns
                &&& r.nr == value.nr
                &&& r.pn == value.pn
                &&& entries_distinct(r.mk_skipped@)
                &&& lists_stored_keys(r.mk_skipped@, value@.mk_skipped)
            },
    {
        let dhs = match &value.dhs {
            Some(sk) => Some(DHs { public_key: key_to_vec(&x25519_public(sk)), private_key: key_to_vec(sk) }),
            None => None,
        };
        let entries = value.mk_skipped.to_entries();
        let mut mk_skipped: Vec<SkippedEntry> = Vec::new();
        let mut i: usize = 0;
        while i < entries.len()
            invariant
                i <= entries@.len(),
                mk_skipped@.len() == i,
                forall|j: int|
                    0 <= j < i ==> entry_view(#[trigger] mk_skipped@[j]) == (
                        entries@[j].dh@,
                        entries@[j].n,
                        entries@[j].mk@,
                    ),
            decreases entries@.len() - i,
        {
            let e = entries[i];
            mk_skipped.push(SkippedEntry { dh: key_to_vec(&e.dh), n: e.n, mk: key_to_vec(&e.mk) });
            i = i + 1;
        }
        let ghost triples = mk_skipped@.map_values(|e: SkippedEntry| entry_view(e));
        proof {
            lemma_triples_of_entries(entries@, triples);
            lemma_entries_map(mk_skipped@);
            assert forall|i: int, j: int| 0 <= i < j < mk_skipped@.len() implies (
                mk_skipped@[i].dh@,
                mk_skipped@[i].n,
            ) != (mk_skipped@[j].dh@, mk_skipped@[j].n) by {
                assert(triples[i] == entry_view(mk_skipped@[i]));
                assert(triples[j] == entry_view(mk_skipped@[j]));
            }
        }
        Ok(RustyState {
            dhs,
            dhr: opt_key_to_vec(&value.dhr),
            rk: key_to_vec(&value.rk),
            cks: opt_key_to_vec(&value.cks),
            ckr: opt_key_to_vec(&value.ckr),
            ns: value.ns,
            nr: value.nr,
            pn: value.pn,
            mk_skipped,
        })
    }
}

/// Stored keys listed in byte form build the same map as the entries they
/// list, with the same keys distinct.
proof fn lemma_triples_of_entries(entries: Seq<SkippedKey>, triples: Seq<(Seq<u8>, u16, Seq<u8>)>)
    requires
        triples.len() == entries.len(),
        forall|j: int|
            0 <= j < entries.len() ==> #[trigger] triples[j] == (
                entries[j].dh@,
                entries[j].n,
                entries[j].mk@,
            ),
    ensures
        map_of_triples(triples) == map_of_entries(entries),
        keys_distinct(entries) ==> forall|i: int, j: int|
            0 <= i < j < triples.len() ==> (triples[i].0, triples[i].1) != (
                triples[j].0,
                triples[j].1,
            ),
    decreases entries.len(),
{
    if entries.len() > 0 {
        lemma_triples_of_entries(entries.drop_last(), triples.drop_last());
        assert(triples.last() == (entries.last().dh@, entries.last().n, entries.last().mk@));
    }
    if keys_distinct(entries) {
        assert forall|i: int, j: int| 0 <= i < j < triples.len() implies (
            triples[i].0,
            triples[i].1,
        ) != (triples[j].0, triples[j].1) by {
            assert(triples[i] == (entries[i].dh@, entries[i].n, entries[i].mk@));
            assert(triples[j] == (entries[j].dh@, entries[j].n, entries[j].mk@));
            assert(entry_key(entries[i]) != entry_key(entries[j]));
        }
    }
}

impl States {
    /// The state a byte-form state encodes, every key of which is 32 bytes
    /// long. The public key of the key pair is not read.
    pub fn try_from(value: RustyState) -> (res: Result<States, StatesError>)
        requires
            lengths_valid(value@),
        ensures
            res matches Ok(s) && decode_state(value@) == Some(s@),
            res matches Ok(s) ==> {
                &&& (match value.dhs {
                    Some(pair) => s.dhs matches Some(sk) && sk@ == pair.private_key@,
                    None => s.dhs is None,
                })
                &&& opt_bytes(s.dhr) == opt_vec(value.dhr)
                &&& s.rk@ == value.rk@
                &&& opt_bytes(s.cks) == opt_vec(value.cks)
                &&& opt_bytes(s.ckr) == opt_vec(value.ckr)
                &&& s.ns == value.ns
                &&& s.nr == value.nr
                &&& s.pn == value.pn
                &&& same_stored_keys(value.mk_skipped@, s@.mk_skipped)
                &&& (entries_distinct(value.mk_skipped@) ==> lists_stored_keys(
                    value.mk_skipped@,
                    s@.mk_skipped,
                ))
            },
    {
        let ghost v = value@;
        let dhs = match &value.dhs {
            Some(pair) => match vec_to_key(&pair.private_key) {
                Some(b) => Some(b),
                None => return Err(StatesError::FailedToDeserialize),
            },
            None => None,
        };
        let dhr = opt_vec_to_key(&value.dhr)?;
        let rk = match vec_to_key(&value.rk) {
            Some(b) => b,
            None => return Err(StatesError::FailedToDeserialize),
        };
        let cks = opt_vec_to_key(&value.cks)?;
        let ckr = opt_vec_to_key(&value.ckr)?;
        let mut mk_skipped = SkippedKeys::new();
        let mut i: usize = 0;
        while i < value.mk_skipped.len()
            invariant
                v == value@,
                lengths_valid(v),
                i <= value.mk_skipped@.len(),
                v.dhs matches Some(pair) ==> pair.1.len() == 32,
                opt_bytes(dhs) == match v.dhs {
                    Some(pair) => Some(pair.1),
                    None => None::<Seq<u8>>,
                },
                opt_len32(v.dhr) && opt_bytes(dhr) == v.dhr,
                opt_len32(v.cks) && opt_bytes(cks) == v.cks,
                opt_len32(v.ckr) && opt_bytes(ckr) == v.ckr,
                rk@ == v.rk && v.rk.len() == 32,
                mk_skipped@ == map_of_triples(v.mk_skipped.subrange(0, i as int)),
                forall|j: int|
                    0 <= j < i ==> (#[trigger] v.mk_skipped[j]).0.len() == 32 && v.mk_skipped[j].2.len()
                        == 32,
            decreases value.mk_skipped@.len() - i,
        {
            let e = &value.mk_skipped[i];
            assert(v.mk_skipped[i as int] == entry_view(value.mk_skipped@[i as int]));
            let dh = match vec_to_key(&e.dh) {
                Some(b) => b,
                None => return Err(StatesError::FailedToDeserialize),
            };
            let mk = match vec_to_key(&e.mk) {
                Some(b) => b,
                None => return Err(StatesError::FailedToDeserialize),
            };
            mk_skipped.insert(dh, e.n, mk);
            proof {
                assert(v.mk_skipped[i as int] == entry_view(value.mk_skipped@[i as int]));
                assert(v.mk_skipped.subrange(0, i + 1).drop_last() =~= v.mk_skipped.subrange(
                    0,
                    i as int,
                ));
            }
            i = i + 1;
        }
        assert(v.mk_skipped.subrange(0, i as int) =~= v.mk_skipped);
        proof {
            lemma_entries_map(value.mk_skipped@);
        }
        Ok(States { dhs, dhr, rk, cks, ckr, ns: value.ns, nr: value.nr, pn: value.pn, mk_skipped })
    }
}

} // verus!
