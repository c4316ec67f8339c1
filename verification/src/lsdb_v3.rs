//! The OSPFv3 link state database.
//!
//! LSAs are keyed by scope, type, link state id and advertising router. The entries keep the
//! order in which their keys first arrived.
use vstd::prelude::*;

use crate::packet_v3::{LsaV3Header, LsaV3Type, LSA_V3_HEADER_LEN};
use crate::wire;
use crate::wire::{copy_bytes, copy_range};

verus! {

broadcast use {wire::lemma_views_push, wire::lemma_views_update};

/// What identifies an LSA in the database.
#[derive(Clone, Copy, Debug, PartialEq, Eq, Structural)]
pub struct LsaKeyV3 {
    /// The area for area-scope and link-scope LSAs, nothing for AS-scope ones. With the area in
    /// the key a border router holds its Router-LSA in several areas at once.
    pub area: Option<u32>,
    pub ls_type: LsaV3Type,
    pub link_state_id: u32,
    pub advertising_router: u32,
}

/// One stored LSA.
#[derive(Debug)]
pub struct LsaEntryV3 {
    pub header: LsaV3Header,
    /// Header and body octets as they stand on the wire.
    pub raw: Vec<u8>,
    /// The area that the LSA belongs to; nothing for AS scope.
    pub area: Option<u32>,
}

/// What one stored LSA holds.
pub struct LsaEntryV3View {
    pub header: LsaV3Header,
    pub raw: Seq<u8>,
    pub area: Option<u32>,
}

impl View for LsaEntryV3 {
    type V = LsaEntryV3View;

    open spec fn view(&self) -> LsaEntryV3View {
        LsaEntryV3View { header: self.header, raw: self.raw@, area: self.area }
    }
}

impl LsaEntryV3View {
    /// The key under which the entry is stored.
    pub open spec fn key(self) -> LsaKeyV3 {
        LsaKeyV3 {
            area: self.area,
            ls_type: self.header.ls_type,
            link_state_id: self.header.link_state_id,
            advertising_router: self.header.advertising_router,
        }
    }

    /// The octets behind the header.
    pub open spec fn body(self) -> Seq<u8> {
        if self.raw.len() < LSA_V3_HEADER_LEN {
            Seq::empty()
        } else {
            self.raw.skip(LSA_V3_HEADER_LEN as int)
        }
    }

    /// Whether the two entries are the same instance of an LSA.
    pub open spec fn same_instance(self, other: LsaEntryV3View) -> bool {
        self.header.ls_sequence_number == other.header.ls_sequence_number
            && self.header.ls_checksum == other.header.ls_checksum
    }
}

impl LsaEntryV3 {
    /// The key under which the entry is stored.
    pub fn key(&self) -> (k: LsaKeyV3)
        ensures
            k == self@.key(),
    {
        LsaKeyV3 {
            area: self.area,
            ls_type: self.header.ls_type,
            link_state_id: self.header.link_state_id,
            advertising_router: self.header.advertising_router,
        }
    }

    /// The octets behind the header.
    pub fn body(&self) -> (r: Vec<u8>)
        ensures
            r@ == self@.body(),
    {
        if self.raw.len() < LSA_V3_HEADER_LEN {
            return Vec::new();
        }
        let r = copy_range(self.raw.as_slice(), LSA_V3_HEADER_LEN, self.raw.len());
        assert(r@ =~= self@.body());
        r
    }

    /// A copy of the entry.
    pub fn duplicate(&self) -> (r: LsaEntryV3)
        ensures
            r@ == self@,
    {
        LsaEntryV3 { header: self.header, raw: copy_bytes(&self.raw), area: self.area }
    }
}

/// The LSA database.
#[derive(Debug)]
pub struct LsdbV3 {
    entries: Vec<LsaEntryV3>,
    /// Counts the content changes: it moves when a new instance is installed and stays on a
    /// repeated one. Route computation is due when it moved, not when the size did, because an
    /// update in place leaves the size alone.
    generation: u64,
}

/// What the database holds.
pub struct LsdbV3View {
    pub entries: Seq<LsaEntryV3View>,
    pub generation: u64,
}

impl View for LsdbV3 {
    type V = LsdbV3View;

    closed spec fn view(&self) -> LsdbV3View {
        LsdbV3View { entries: wire::views(self.entries@), generation: self.generation }
    }
}

/// The position of the first entry with key `k` at or behind `from`.
pub open spec fn key_pos(s: Seq<LsaEntryV3View>, k: LsaKeyV3, from: int) -> Option<int>
    decreases s.len() - from,
{
    if from < 0 || from >= s.len() {
        None
    } else if s[from].key() == k {
        Some(from)
    } else {
        key_pos(s, k, from + 1)
    }
}

/// The headers of the entries.
pub open spec fn entry_headers(s: Seq<LsaEntryV3View>) -> Seq<LsaV3Header> {
    Seq::new(s.len(), |i: int| s[i].header)
}

impl LsdbV3View {
    /// No LSA, nothing counted.
    pub open spec fn empty() -> LsdbV3View {
        LsdbV3View { entries: Seq::empty(), generation: 0 }
    }

    /// No key occurs twice.
    pub open spec fn wf(self) -> bool {
        forall|i: int, j: int|
            0 <= i < j < self.entries.len() ==> #[trigger] self.entries[i].key()
                != #[trigger] self.entries[j].key()
    }

    /// The entry stored under `k`.
    pub open spec fn lookup(self, k: LsaKeyV3) -> Option<LsaEntryV3View> {
        match key_pos(self.entries, k, 0) {
            Some(i) => Some(self.entries[i]),
            None => None,
        }
    }

    /// Whether storing `e` changes the content.
    pub open spec fn is_change(self, e: LsaEntryV3View) -> bool {
        match self.lookup(e.key()) {
            Some(old_entry) => !old_entry.same_instance(e),
            None => true,
        }
    }

    /// The database with `e` stored under its key.
    pub open spec fn insert(self, e: LsaEntryV3View) -> LsdbV3View {
        LsdbV3View {
            entries: match key_pos(self.entries, e.key(), 0) {
                Some(i) => self.entries.update(i, e),
                None => self.entries.push(e),
            },
            generation: if self.is_change(e) {
                if self.generation == u64::MAX {
                    0
                } else {
                    (self.generation + 1) as u64
                }
            } else {
                self.generation
            },
        }
    }
}

impl LsdbV3 {
    /// An empty database.
    pub fn new() -> (db: LsdbV3)
        ensures
            db@ == LsdbV3View::empty(),
    {
        let db = LsdbV3 { entries: Vec::new(), generation: 0 };
        assert(db@.entries =~= Seq::empty());
        db
    }

    /// The position of the entry with key `key`.
    fn position(&self, key: &LsaKeyV3) -> (r: Option<usize>)
        ensures
            match (r, key_pos(self@.entries, *key, 0)) {
                (Some(i), Some(j)) => i == j && i < self.entries@.len(),
                (None, None) => true,
                _ => false,
            },
    {
        let mut i: usize = 0;
        while i < self.entries.len()
            invariant
                i <= self.entries@.len(),
                key_pos(self@.entries, *key, 0) == key_pos(self@.entries, *key, i as int),
            decreases self.entries.len() - i,
        {
            if self.entries[i].key() == *key {
                return Some(i);
            }
            i = i + 1;
        }
        None
    }

    /// Stores `entry` under its key, in place of what was there. The generation moves when the key
    /// is new or the sequence number or checksum differs.
    pub fn insert(&mut self, entry: LsaEntryV3)
        ensures
            final(self)@ == old(self)@.insert(entry@),
    {
        let key = entry.key();
        match self.position(&key) {
            Some(i) => {
                let changed = self.entries[i].header.ls_sequence_number
                    != entry.header.ls_sequence_number || self.entries[i].header.ls_checksum
                    != entry.header.ls_checksum;
                if changed {
                    self.generation = self.generation.wrapping_add(1);
                }
                self.entries.set(i, entry);
            },
            None => {
                self.generation = self.generation.wrapping_add(1);
                self.entries.push(entry);
            },
        }
    }

    /// The content-change counter.
    pub fn generation(&self) -> (g: u64)
        ensures
            g == self@.generation,
    {
        self.generation
    }

    /// The entry stored under `key`.
    pub fn get(&self, key: &LsaKeyV3) -> (r: Option<&LsaEntryV3>)
        ensures
            match (r, self@.lookup(*key)) {
                (Some(e), Some(v)) => e@ == v,
                (None, None) => true,
                _ => false,
            },
    {
        match self.position(key) {
            Some(i) => Some(&self.entries[i]),
            None => None,
        }
    }

    /// How many LSAs are stored.
    pub fn len(&self) -> (n: usize)
        ensures
            n == self@.entries.len(),
    {
        self.entries.len()
    }

    /// Whether no LSA is stored.
    pub fn is_empty(&self) -> (b: bool)
        ensures
            b == (self@.entries.len() == 0),
    {
        self.entries.len() == 0
    }

    /// The entry at position `i`.
    pub fn entry(&self, i: usize) -> (e: &LsaEntryV3)
        requires
            i < self@.entries.len(),
        ensures
            e@ == self@.entries[i as int],
    {
        &self.entries[i]
    }

    /// The stored entries.
    pub fn iter(&self) -> (r: &Vec<LsaEntryV3>)
        ensures
            wire::views(r@) == self@.entries,
    {
        &self.entries
    }

    /// The headers of all stored LSAs.
    pub fn headers(&self) -> (r: Vec<LsaV3Header>)
        ensures
            r@ == entry_headers(self@.entries),
    {
        let mut v: Vec<LsaV3Header> = Vec::new();
        let mut i: usize = 0;
        while i < self.entries.len()
            invariant
                i <= self.entries@.len(),
                v@ == entry_headers(self@.entries).take(i as int),
            decreases self.entries.len() - i,
        {
            v.push(self.entries[i].header);
            i = i + 1;
            assert(v@ =~= entry_headers(self@.entries).take(i as int));
        }
        assert(v@ =~= entry_headers(self@.entries));
        v
    }

    /// A copy of the database.
    pub fn duplicate(&self) -> (r: LsdbV3)
        ensures
            r@ == self@,
    {
        let mut v: Vec<LsaEntryV3> = Vec::new();
        let mut i: usize = 0;
        while i < self.entries.len()
            invariant
                i <= self.entries@.len(),
                wire::views(v@) == self@.entries.take(i as int),
            decreases self.entries.len() - i,
        {
            v.push(self.entries[i].duplicate());
            i = i + 1;
            assert(wire::views(v@) =~= self@.entries.take(i as int));
        }
        assert(wire::views(v@) =~= self@.entries);
        LsdbV3 { entries: v, generation: self.generation }
    }
}

/// What a search for a key finds.
pub proof fn lemma_key_pos(s: Seq<LsaEntryV3View>, k: LsaKeyV3, from: int)
    requires
        0 <= from,
    ensures
        match key_pos(s, k, from) {
            Some(i) => from <= i < s.len() && s[i].key() == k && forall|j: int|
                from <= j < i ==> (#[trigger] s[j]).key() != k,
            None => forall|j: int| from <= j < s.len() ==> (#[trigger] s[j]).key() != k,
        },
    decreases s.len() - from,
{
    if from < s.len() && s[from].key() != k {
        lemma_key_pos(s, k, from + 1);
    }
}

impl LsdbV3View {
    /// The empty database holds no key twice, and storing keeps it so.
    pub proof fn lemma_insert_wf(self, e: LsaEntryV3View)
        requires
            self.wf(),
        ensures
            self.insert(e).wf(),
            LsdbV3View::empty().wf(),
    {
        lemma_key_pos(self.entries, e.key(), 0);
    }

    /// What was stored is what a lookup of its key gives back, and no other key is touched.
    pub proof fn lemma_get_after_insert(self, e: LsaEntryV3View, k: LsaKeyV3)
        ensures
            self.insert(e).lookup(e.key()) == Some(e),
            k != e.key() ==> self.insert(e).lookup(k) == self.lookup(k),
    {
        let after = self.insert(e);
        lemma_key_pos(self.entries, e.key(), 0);
        lemma_key_pos(after.entries, e.key(), 0);
        lemma_key_pos(self.entries, k, 0);
        lemma_key_pos(after.entries, k, 0);
        match key_pos(self.entries, e.key(), 0) {
            Some(i) => {
                assert(after.entries[i] == e);
            },
            None => {
                assert(after.entries[self.entries.len() as int] == e);
            },
        }
        if k != e.key() {
            match key_pos(self.entries, k, 0) {
                Some(j) => {
                    assert(after.entries[j] == self.entries[j]);
                },
                None => {},
            }
            match key_pos(after.entries, k, 0) {
                Some(j) => {
                    assert(after.entries[j].key() == k);
                    assert(j < self.entries.len());
                    assert(self.entries[j] == after.entries[j]);
                },
                None => {},
            }
        }
    }

    /// The size grows by one for a new key and stays for a known one.
    pub proof fn lemma_insert_len(self, e: LsaEntryV3View)
        ensures
            self.insert(e).entries.len() == self.entries.len() + (if self.lookup(e.key()) is None {
                1int
            } else {
                0int
            }),
    {
        lemma_key_pos(self.entries, e.key(), 0);
    }

    /// What storing an entry does: a lookup of its key gives it back, whatever stood there, and every
    /// other key keeps its entry. The number of entries grows by one exactly where the key was absent,
    /// and the generation moves on by one, wrapping around, exactly where the key was absent or held
    /// another sequence number or checksum.
    pub proof fn lemma_insert_exact(self, e: LsaEntryV3View, k: LsaKeyV3)
        ensures
            ({
                let before = self.lookup(e.key());
                let after = self.insert(e);
                let moved = match before {
                    None => true,
                    Some(v) => v.header.ls_sequence_number != e.header.ls_sequence_number
                        || v.header.ls_checksum != e.header.ls_checksum,
                };
                &&& after.lookup(e.key()) == Some(e)
                &&& k != e.key() ==> after.lookup(k) == self.lookup(k)
                &&& after.entries.len() == self.entries.len() + (if before is None {
                    1int
                } else {
                    0int
                })
                &&& after.generation == (if moved {
                    (self.generation + 1) % 0x10000000000000000
                } else {
                    self.generation as int
                })
            }),
    {
        self.lemma_get_after_insert(e, k);
        self.lemma_insert_len(e);
    }

    /// Storing an instance again leaves the generation alone.
    pub proof fn lemma_duplicate_keeps_generation(self, e: LsaEntryV3View)
        ensures
            self.insert(e).insert(e).generation == self.insert(e).generation,
    {
        self.lemma_get_after_insert(e, e.key());
    }

    /// Storing an instance with another sequence number or checksum moves the generation.
    pub proof fn lemma_fresh_instance_moves_generation(self, e: LsaEntryV3View)
        requires
            self.lookup(e.key()) matches Some(v) ==> !v.same_instance(e),
        ensures
            self.insert(e).generation != self.generation,
    {
    }
}

} // verus!
