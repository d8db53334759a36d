//! The store: a mapping from key bytes to entries, held in slots that keep
//! their position for as long as the store lives.

use crate::wire::same_bytes;
use vstd::prelude::*;

verus! {

/// A stored record: an integer flags field and an opaque value.
pub struct Entry {
    pub flags: u32,
    pub value: Vec<u8>,
}

/// What an [`Entry`] holds, as plain values.
pub struct Record {
    pub flags: u32,
    pub value: Seq<u8>,
}

impl View for Entry {
    type V = Record;

    open spec fn view(&self) -> Record {
        Record { flags: self.flags, value: self.value@ }
    }
}

impl Entry {
    /// An entry with the given value and flags of zero.
    pub fn new(value: Vec<u8>) -> (entry: Self)
        ensures
            entry@ == (Record { flags: 0, value: value@ }),
    {
        Self { flags: 0, value }
    }
}

/// The entries of the cache by key. Keys are unique; the order of the slots
/// carries no meaning. A slot, once taken, keeps its key, so that an index
/// into the store stays good while a reply is streamed from it.
pub struct Store {
    keys: Vec<Vec<u8>>,
    entries: Vec<Entry>,
}

impl View for Store {
    type V = Map<Seq<u8>, Record>;

    closed spec fn view(&self) -> Map<Seq<u8>, Record> {
        Map::new(|key: Seq<u8>| self.holds(key), |key: Seq<u8>| self.record_at(self.slot_of(key)))
    }
}

impl Store {
    /// Every slot has a key and an entry, and no key stands in two slots.
    pub closed spec fn wf(&self) -> bool {
        &&& self.keys.len() == self.entries.len()
        &&& forall|i: int, j: int|
            0 <= i < j < self.keys.len() ==> #[trigger] self.keys[i]@ != #[trigger] self.keys[j]@
    }

    /// The number of slots taken.
    pub closed spec fn slots(&self) -> nat {
        self.keys@.len()
    }

    /// The key in a slot.
    pub closed spec fn key_at(&self, slot: int) -> Seq<u8> {
        self.keys[slot]@
    }

    /// The entry in a slot.
    pub closed spec fn record_at(&self, slot: int) -> Record {
        self.entries[slot]@
    }

    spec fn holds(&self, key: Seq<u8>) -> bool {
        exists|i: int| 0 <= i < self.keys.len() && #[trigger] self.keys[i]@ == key
    }

    spec fn slot_of(&self, key: Seq<u8>) -> int {
        choose|i: int| 0 <= i < self.keys.len() && #[trigger] self.keys[i]@ == key
    }

    /// A taken slot is where the map finds its key.
    pub proof fn lemma_slot(&self, slot: int)
        requires
            self.wf(),
            0 <= slot < self.slots(),
        ensures
            self@.contains_key(self.key_at(slot)),
            self@[self.key_at(slot)] == self.record_at(slot),
    {
        let key = self.keys[slot]@;
        assert(self.holds(key));
        let found = self.slot_of(key);
        if found < slot {
            assert(self.keys[found]@ != self.keys[slot]@);
        } else if slot < found {
            assert(self.keys[slot]@ != self.keys[found]@);
        }
    }

    /// A store with no entries.
    pub fn new() -> (store: Self)
        ensures
            store.wf(),
            store.slots() == 0,
            store@ == Map::<Seq<u8>, Record>::empty(),
    {
        let store = Self { keys: Vec::new(), entries: Vec::new() };
        assert(store@ =~= Map::<Seq<u8>, Record>::empty());
        store
    }

    /// The slot that holds `key`, if one does.
    pub fn locate(&self, key: &[u8]) -> (found: Option<usize>)
        requires
            self.wf(),
        ensures
            match found {
                Some(slot) => {
                    &&& slot < self.slots()
                    &&& self.key_at(slot as int) == key@
                    &&& self@.contains_key(key@)
                    &&& self@[key@] == self.record_at(slot as int)
                },
                None => !self@.contains_key(key@),
            },
    {
        let mut i: usize = 0;
        while i < self.keys.len()
            invariant
                self.wf(),
                i <= self.keys.len(),
                forall|j: int| 0 <= j < i ==> #[trigger] self.keys[j]@ != key@,
            decreases self.keys.len() - i,
        {
            if same_bytes(self.keys[i].as_slice(), key) {
                proof {
                    self.lemma_slot(i as int);
                }
                return Some(i);
            }
            i += 1;
        }
        None
    }

    /// The entry in a taken slot.
    pub fn at(&self, slot: usize) -> (entry: &Entry)
        requires
            self.wf(),
            slot < self.slots(),
        ensures
            entry@ == self.record_at(slot as int),
    {
        &self.entries[slot]
    }

    /// The entry stored under `key`, if there is one.
    pub fn lookup(&self, key: &[u8]) -> (found: Option<&Entry>)
        requires
            self.wf(),
        ensures
            match found {
                Some(entry) => self@.contains_key(key@) && entry@ == self@[key@],
                None => !self@.contains_key(key@),
            },
    {
        match self.locate(key) {
            Some(slot) => Some(&self.entries[slot]),
            None => None,
        }
    }

    /// Stores `entry` under `key`, in place of the entry that the key had, if
    /// it had one. Slots that were taken keep their keys.
    pub fn insert(&mut self, key: Vec<u8>, entry: Entry)
        requires
            old(self).wf(),
        ensures
            final(self).wf(),
            final(self)@ == old(self)@.insert(key@, entry@),
            final(self).slots() >= old(self).slots(),
            forall|slot: int|
                0 <= slot < old(self).slots() ==> #[trigger] final(self).key_at(slot) == old(
                    self,
                ).key_at(slot),
    {
        let ghost before = *self;
        let ghost added = entry@;
        match self.locate(key.as_slice()) {
            Some(slot) => {
                self.entries[slot] = entry;
                proof {
                    assert forall|k: Seq<u8>| self.holds(k) == before.holds(k) by {
                        if self.holds(k) {
                            assert(before.keys[self.slot_of(k)]@ == k);
                        }
                        if before.holds(k) {
                            assert(self.keys[before.slot_of(k)]@ == k);
                        }
                    }
                    assert forall|k: Seq<u8>| self.holds(k) implies #[trigger] self@[k]
                        == before@.insert(key@, added)[k] by {
                        let i = self.slot_of(k);
                        self.lemma_slot(i);
                        before.lemma_slot(i);
                    }
                    assert(self@ =~= before@.insert(key@, added));
                }
            },
            None => {
                self.keys.push(key);
                self.entries.push(entry);
                proof {
                    let last = before.keys.len() as int;
                    assert forall|i: int, j: int| 0 <= i < j < self.keys.len() implies #[trigger]
                        self.keys[i]@ != #[trigger] self.keys[j]@ by {
                        if j == last {
                            assert(before.keys[i]@ == self.keys[i]@);
                            assert(before.holds(self.keys[i]@));
                        } else {
                            assert(before.keys[i]@ != before.keys[j]@);
                        }
                    }
                    assert forall|k: Seq<u8>| self.holds(k) == (k == key@ || before.holds(k)) by {
                        if self.holds(k) {
                            let i = self.slot_of(k);
                            if i != last {
                                assert(before.keys[i]@ == k);
                            }
                        }
                        if before.holds(k) {
                            assert(self.keys[before.slot_of(k)]@ == k);
                        }
                        if k == key@ {
                            assert(self.keys[last]@ == k);
                        }
                    }
                    assert forall|k: Seq<u8>| self.holds(k) implies #[trigger] self@[k]
                        == before@.insert(key@, added)[k] by {
                        let i = self.slot_of(k);
                        self.lemma_slot(i);
                        if i != last {
                            assert(before.keys[i]@ == k);
                            before.lemma_slot(i);
                        }
                    }
                    assert(self@ =~= before@.insert(key@, added));
                }
            },
        }
    }
}

} // verus!
