//! The store of message keys that were skipped over: keyed by the sender's
//! ratchet public key and the message number, each key at most once.

use crate::bytes::bytes32_eq;
use vstd::prelude::*;

verus! {

/// One stored message key: the sender's ratchet public key `dh`, the message
/// number `n`, and the message key `mk`.
#[derive(Clone, Copy, Debug)]
pub struct SkippedKey {
    pub dh: [u8; 32],
    pub n: u16,
    pub mk: [u8; 32],
}

/// The key under which an entry is stored.
pub open spec fn entry_key(e: SkippedKey) -> (Seq<u8>, u16) {
    (e.dh@, e.n)
}

/// Whether no two entries share a key.
pub open spec fn keys_distinct(entries: Seq<SkippedKey>) -> bool {
    forall|i: int, j: int|
        0 <= i < j < entries.len() ==> entry_key(entries[i]) != entry_key(entries[j])
}

/// The map that inserting the entries in order builds (a later entry
/// replaces an earlier one with the same key).
pub open spec fn map_of_entries(entries: Seq<SkippedKey>) -> Map<(Seq<u8>, u16), Seq<u8>>
    decreases entries.len(),
{
    if entries.len() == 0 {
        Map::empty()
    } else {
        map_of_entries(entries.drop_last()).insert(
            entry_key(entries.last()),
            entries.last().mk@,
        )
    }
}

/// For entries with distinct keys, the map they build holds exactly their
/// keys, each with its entry's message key.
pub proof fn lemma_map_of_entries(entries: Seq<SkippedKey>)
    requires
        keys_distinct(entries),
    ensures
        forall|i: int|
            0 <= i < entries.len() ==> #[trigger] map_of_entries(entries).contains_key(
                entry_key(entries[i]),
            ) && map_of_entries(entries)[entry_key(entries[i])] == entries[i].mk@,
        forall|k: (Seq<u8>, u16)|
            #[trigger] map_of_entries(entries).contains_key(k) ==> exists|i: int|
                0 <= i < entries.len() && entry_key(entries[i]) == k,
    decreases entries.len(),
{
    if entries.len() > 0 {
        let init = entries.drop_last();
        lemma_map_of_entries(init);
        let m = map_of_entries(entries);
        let mi = map_of_entries(init);
        assert(m == mi.insert(entry_key(entries.last()), entries.last().mk@));
        assert forall|i: int| 0 <= i < entries.len() implies #[trigger] m.contains_key(
            entry_key(entries[i]),
        ) && m[entry_key(entries[i])] == entries[i].mk@ by {
            if i < entries.len() - 1 {
                assert(init[i] == entries[i]);
                assert(mi.contains_key(entry_key(init[i])));
                assert(entry_key(entries[i]) != entry_key(entries[entries.len() - 1]));
            }
        }
        assert forall|k: (Seq<u8>, u16)| #[trigger] m.contains_key(k) implies exists|i: int|
            0 <= i < entries.len() && entry_key(entries[i]) == k by {
            if k != entry_key(entries.last()) {
                assert(mi.contains_key(k));
                let i0 = choose|i: int| 0 <= i < init.len() && entry_key(init[i]) == k;
                assert(entries[i0] == init[i0]);
            } else {
                assert(entry_key(entries[entries.len() - 1]) == k);
            }
        }
    }
}

/// A finite map from `(public key, message number)` to message key.
pub struct SkippedKeys {
    entries: Vec<SkippedKey>,
    map: Ghost<Map<(Seq<u8>, u16), Seq<u8>>>,
}

impl View for SkippedKeys {
    type V = Map<(Seq<u8>, u16), Seq<u8>>;

    closed spec fn view(&self) -> Map<(Seq<u8>, u16), Seq<u8>> {
        self.map@
    }
}

impl Clone for SkippedKeys {
    fn clone(&self) -> (res: Self)
        ensures
            res@ == self@,
            res@.dom().finite(),
    {
        proof {
            use_type_invariant(self);
        }
        let mut entries: Vec<SkippedKey> = Vec::new();
        let mut i: usize = 0;
        while i < self.entries.len()
            invariant
                i <= self.entries@.len(),
                entries@ == self.entries@.subrange(0, i as int),
            decreases self.entries@.len() - i,
        {
            let e = self.entries[i];
            entries.push(e);
            i = i + 1;
            assert(entries@ =~= self.entries@.subrange(0, i as int));
        }
        assert(entries@ =~= self.entries@);
        proof {
            use_type_invariant(self);
            assert(keys_distinct(entries@));
            assert(forall|i: int|
                0 <= i < entries@.len() ==> #[trigger] self.map@.contains_key(entry_key(entries@[i]))
                    && self.map@[entry_key(entries@[i])] == entries@[i].mk@);
            assert(forall|k: (Seq<u8>, u16)|
                #[trigger] self.map@.contains_key(k) ==> exists|i: int|
                    0 <= i < entries@.len() && entry_key(entries@[i]) == k);
        }
        SkippedKeys { entries, map: Ghost(self.map@) }
    }
}

impl SkippedKeys {
    /// The store's internal consistency: the entries are the map, once each.
    #[verifier::type_invariant]
    closed spec fn wf(&self) -> bool {
        &&& keys_distinct(self.entries@)
        &&& forall|i: int|
            0 <= i < self.entries@.len() ==> #[trigger] self.map@.contains_key(
                entry_key(self.entries@[i]),
            ) && self.map@[entry_key(self.entries@[i])] == self.entries@[i].mk@
        &&& forall|k: (Seq<u8>, u16)|
            #[trigger] self.map@.contains_key(k) ==> exists|i: int|
                0 <= i < self.entries@.len() && entry_key(self.entries@[i]) == k
        &&& self.map@.dom().finite()
    }

    /// The entries of the store, each key once, in an unspecified order.
    pub fn to_entries(&self) -> (entries: Vec<SkippedKey>)
        ensures
            keys_distinct(entries@),
            map_of_entries(entries@) == self@,
    {
        proof {
            use_type_invariant(self);
            lemma_map_of_entries(self.entries@);
            assert(map_of_entries(self.entries@) =~= self.map@);
        }
        let mut entries: Vec<SkippedKey> = Vec::new();
        let mut i: usize = 0;
        while i < self.entries.len()
            invariant
                i <= self.entries@.len(),
                entries@ == self.entries@.subrange(0, i as int),
            decreases self.entries@.len() - i,
        {
            let e = self.entries[i];
            entries.push(e);
            i = i + 1;
            assert(entries@ =~= self.entries@.subrange(0, i as int));
        }
        assert(entries@ =~= self.entries@);
        entries
    }

    /// An empty store.
    pub fn new() -> (s: Self)
        ensures
            s@ == Map::<(Seq<u8>, u16), Seq<u8>>::empty(),
            s@.dom().finite(),
    {
        SkippedKeys { entries: Vec::new(), map: Ghost(Map::empty()) }
    }

    /// The index of the entry stored under `(dh, n)`, if any.
    fn find(&self, dh: &[u8; 32], n: u16) -> (res: Option<usize>)
        ensures
            match res {
                Some(i) => i < self.entries@.len() && entry_key(self.entries@[i as int]) == (
                dh@,
                n,
                ),
                None => !self@.contains_key((dh@, n)),
            },
    {
        proof {
            use_type_invariant(self);
        }
        let mut i: usize = 0;
        while i < self.entries.len()
            invariant
                i <= self.entries@.len(),
                forall|j: int| 0 <= j < i ==> entry_key(self.entries@[j]) != (dh@, n),
            decreases self.entries@.len() - i,
        {
            let e = &self.entries[i];
            if e.n == n && bytes32_eq(&e.dh, dh) {
                return Some(i);
            }
            i = i + 1;
        }
        None
    }

    /// The message key stored under `(dh, n)`, if any.
    pub fn get(&self, dh: &[u8; 32], n: u16) -> (res: Option<[u8; 32]>)
        ensures
            match res {
                Some(mk) => self@.contains_key((dh@, n)) && self@[(dh@, n)] == mk@,
                None => !self@.contains_key((dh@, n)),
            },
    {
        proof {
            use_type_invariant(self);
        }
        match self.find(dh, n) {
            Some(i) => {
                assert(self.map@.contains_key(entry_key(self.entries@[i as int])));
                Some(self.entries[i].mk)
            },
            None => None,
        }
    }

    /// Removes and returns the message key stored under `(dh, n)`, if any.
    pub fn take(&mut self, dh: &[u8; 32], n: u16) -> (res: Option<[u8; 32]>)
        ensures
            match res {
                Some(mk) => old(self)@.contains_key((dh@, n)) && old(self)@[(dh@, n)] == mk@,
                None => !old(self)@.contains_key((dh@, n)),
            },
            final(self)@ == old(self)@.remove((dh@, n)),
            final(self)@.dom().finite(),
    {
        proof {
            use_type_invariant(&*self);
        }
        match self.find(dh, n) {
            Some(i) => {
                let mut taken = SkippedKeys::new();
                std::mem::swap(&mut taken, self);
                proof {
                    use_type_invariant(&taken);
                }
                let SkippedKeys { entries: mut entries, map: Ghost(old_map) } = taken;
                let ghost old_entries = entries@;
                let ghost key = (dh@, n);
                assert(old_map.contains_key(entry_key(old_entries[i as int])));
                assert(entry_key(old_entries[i as int]) == key);
                let e = entries.remove(i);
                let ghost new_map = old_map.remove(key);
                assert forall|a: int, b: int| 0 <= a < b < entries@.len() implies entry_key(
                    entries@[a],
                ) != entry_key(entries@[b]) by {
                    let oa = if a < i { a } else { a + 1 };
                    let ob = if b < i { b } else { b + 1 };
                    assert(entries@[a] == old_entries[oa]);
                    assert(entries@[b] == old_entries[ob]);
                }
                assert forall|j: int| 0 <= j < entries@.len() implies #[trigger] new_map.contains_key(
                    entry_key(entries@[j]),
                ) && new_map[entry_key(entries@[j])] == entries@[j].mk@ by {
                    if j < i {
                        assert(entries@[j] == old_entries[j]);
                        assert(old_map.contains_key(entry_key(old_entries[j])));
                        assert(entry_key(old_entries[j]) != entry_key(old_entries[i as int]));
                    } else {
                        assert(entries@[j] == old_entries[j + 1]);
                        assert(old_map.contains_key(entry_key(old_entries[j + 1])));
                        assert(entry_key(old_entries[j + 1]) != entry_key(old_entries[i as int]));
                    }
                }
                assert forall|k: (Seq<u8>, u16)| #[trigger] new_map.contains_key(k) implies exists|
                    j: int,
                | 0 <= j < entries@.len() && entry_key(entries@[j]) == k by {
                    let j0 = choose|j: int|
                        0 <= j < old_entries.len() && entry_key(old_entries[j]) == k;
                    assert(j0 != i);
                    if j0 < i {
                        assert(entries@[j0] == old_entries[j0]);
                    } else {
                        assert(entries@[j0 - 1] == old_entries[j0]);
                    }
                }
                *self = SkippedKeys { entries, map: Ghost(new_map) };
                Some(e.mk)
            },
            None => {
                assert(self.map@.remove((dh@, n)) =~= self.map@);
                None
            },
        }
    }

    /// Stores `mk` under `(dh, n)`, replacing what was stored there.
    pub fn insert(&mut self, dh: [u8; 32], n: u16, mk: [u8; 32])
        ensures
            final(self)@ == old(self)@.insert((dh@, n), mk@),
            final(self)@.dom().finite(),
    {
        proof {
            use_type_invariant(&*self);
        }
        let found = self.find(&dh, n);
        let mut taken = SkippedKeys::new();
        std::mem::swap(&mut taken, self);
        proof {
            use_type_invariant(&taken);
        }
        let SkippedKeys { entries: mut entries, map: Ghost(old_map) } = taken;
        let ghost key = (dh@, n);
        let ghost old_entries = entries@;
        let ghost new_map = old_map.insert(key, mk@);
        match found {
            Some(i) => {
                entries.set(i, SkippedKey { dh, n, mk });
                assert forall|a: int, b: int| 0 <= a < b < entries@.len() implies entry_key(
                    entries@[a],
                ) != entry_key(entries@[b]) by {
                    assert(entry_key(entries@[a]) == entry_key(old_entries[a]));
                    assert(entry_key(entries@[b]) == entry_key(old_entries[b]));
                }
                assert forall|j: int| 0 <= j < entries@.len() implies #[trigger] new_map.contains_key(
                    entry_key(entries@[j]),
                ) && new_map[entry_key(entries@[j])] == entries@[j].mk@ by {
                    if j != i {
                        assert(entries@[j] == old_entries[j]);
                        assert(old_map.contains_key(entry_key(old_entries[j])));
                    }
                }
                assert forall|k: (Seq<u8>, u16)| #[trigger] new_map.contains_key(k) implies exists|
                    j: int,
                | 0 <= j < entries@.len() && entry_key(entries@[j]) == k by {
                    if k != key {
                        let j0 = choose|j: int|
                            0 <= j < old_entries.len() && entry_key(old_entries[j]) == k;
                        assert(entries@[j0] == old_entries[j0]);
                    } else {
                        assert(entry_key(entries@[i as int]) == k);
                    }
                }
            },
            None => {
                entries.push(SkippedKey { dh, n, mk });
                let ghost last = old_entries.len() as int;
                assert forall|a: int, b: int| 0 <= a < b < entries@.len() implies entry_key(
                    entries@[a],
                ) != entry_key(entries@[b]) by {
                    assert(entries@[a] == old_entries[a]);
                    assert(old_map.contains_key(entry_key(old_entries[a])));
                    if b < last {
                        assert(entries@[b] == old_entries[b]);
                    }
                }
                assert forall|j: int| 0 <= j < entries@.len() implies #[trigger] new_map.contains_key(
                    entry_key(entries@[j]),
                ) && new_map[entry_key(entries@[j])] == entries@[j].mk@ by {
                    if j < last {
                        assert(entries@[j] == old_entries[j]);
                        assert(old_map.contains_key(entry_key(old_entries[j])));
                    }
                }
                assert forall|k: (Seq<u8>, u16)| #[trigger] new_map.contains_key(k) implies exists|
                    j: int,
                | 0 <= j < entries@.len() && entry_key(entries@[j]) == k by {
                    if k != key {
                        let j0 = choose|j: int|
                            0 <= j < old_entries.len() && entry_key(old_entries[j]) == k;
                        assert(entries@[j0] == old_entries[j0]);
                    } else {
                        assert(entry_key(entries@[last]) == k);
                    }
                }
            },
        }
        *self = SkippedKeys { entries, map: Ghost(new_map) };
    }
}

} // verus!
