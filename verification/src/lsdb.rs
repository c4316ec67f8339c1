//! The OSPFv2 link state database of an area.
//!
//! Time is given as milliseconds of a clock that never runs backwards. The entries keep the order
//! in which their keys arrived.
use vstd::prelude::*;

use crate::packet::lsa;
use crate::packet::lsa::{
    Lsa, LsaBody, LsaHeader, LsaKey, LsaType, Recency, RouterLink, RouterLsa,
    INITIAL_SEQUENCE_NUMBER, MAX_AGE,
};
use crate::packet_v3::length_field;
use crate::wire;

verus! {

broadcast use {wire::lemma_views_push, wire::lemma_views_update};

/// Age at which the originator issues an LSA again, in seconds.
pub const LS_REFRESH_TIME: u16 = 1800;

/// One stored LSA.
#[derive(Debug)]
pub struct LsdbEntry {
    pub lsa: Lsa,
    /// When the LSA was stored.
    pub installed_at: u64,
    /// Whether we issued the LSA.
    pub self_originated: bool,
}

/// What one stored LSA holds.
pub struct LsdbEntryView {
    pub lsa: lsa::LsaView,
    pub installed_at: u64,
    pub self_originated: bool,
}

impl View for LsdbEntry {
    type V = LsdbEntryView;

    open spec fn view(&self) -> LsdbEntryView {
        LsdbEntryView {
            lsa: self.lsa@,
            installed_at: self.installed_at,
            self_originated: self.self_originated,
        }
    }
}

/// Whole seconds from `then` to `now`.
pub open spec fn seconds_since(then: u64, now: u64) -> int {
    if now >= then {
        (now - then) / 1000
    } else {
        0
    }
}

impl LsdbEntryView {
    /// The key of the LSA.
    pub open spec fn key(self) -> LsaKey {
        self.lsa.header.spec_key()
    }

    /// The age: the age on arrival and the seconds since, at most the maximal age.
    pub open spec fn age(self, now: u64) -> u16 {
        let a = self.lsa.header.ls_age + seconds_since(self.installed_at, now);
        if a < MAX_AGE {
            a as u16
        } else {
            MAX_AGE
        }
    }

    /// Whether the LSA reached the maximal age.
    pub open spec fn expired(self, now: u64) -> bool {
        self.age(now) >= MAX_AGE
    }

    /// Whether we issued the LSA and have to issue it again.
    pub open spec fn stale(self, now: u64) -> bool {
        self.self_originated && self.age(now) >= LS_REFRESH_TIME
    }

    /// The header with the current age.
    pub open spec fn aged_header(self, now: u64) -> LsaHeader {
        LsaHeader { ls_age: self.age(now), ..self.lsa.header }
    }

    /// The LSA with the current age.
    pub open spec fn aged(self, now: u64) -> lsa::LsaView {
        lsa::LsaView { header: self.aged_header(now), body: self.lsa.body }
    }
}

/// Whole seconds from `then` to `now`.
pub fn elapsed_seconds(then: u64, now: u64) -> (s: u64)
    ensures
        s == seconds_since(then, now),
{
    if now >= then {
        (now - then) / 1000
    } else {
        0
    }
}

impl LsdbEntry {
    /// The age of the LSA at `now`.
    pub fn current_age(&self, now: u64) -> (a: u16)
        ensures
            a == self@.age(now),
    {
        let s: u64 = elapsed_seconds(self.installed_at, now);
        if s < MAX_AGE as u64 && self.lsa.header.ls_age < MAX_AGE && self.lsa.header.ls_age as u64 + s
            < MAX_AGE as u64 {
            self.lsa.header.ls_age + s as u16
        } else {
            MAX_AGE
        }
    }

    /// Whether the LSA reached the maximal age.
    pub fn is_max_age(&self, now: u64) -> (b: bool)
        ensures
            b == self@.expired(now),
    {
        self.current_age(now) >= MAX_AGE
    }

    /// Whether we issued the LSA and have to issue it again.
    pub fn needs_refresh(&self, now: u64) -> (b: bool)
        ensures
            b == self@.stale(now),
    {
        self.self_originated && self.current_age(now) >= LS_REFRESH_TIME
    }

    /// The header with the current age.
    fn aged_header(&self, now: u64) -> (h: LsaHeader)
        ensures
            h == self@.aged_header(now),
    {
        let mut h = self.lsa.header;
        h.ls_age = self.current_age(now);
        h
    }
}

/// What became of an LSA that was offered to the database.
#[derive(Clone, Copy, Debug, PartialEq, Eq, Structural)]
pub enum InstallResult {
    /// Its key was not known; it was stored.
    New,
    /// It took the place of an older instance.
    Updated,
    /// The same instance was there already.
    Duplicate,
    /// A newer instance was there already.
    Older,
}

impl InstallResult {
    /// Whether the LSA was stored.
    pub open spec fn stored(self) -> bool {
        self is New || self is Updated
    }

    /// Whether the database changed.
    pub fn changed(&self) -> (b: bool)
        ensures
            b == self.stored(),
    {
        match self {
            InstallResult::New => true,
            InstallResult::Updated => true,
            InstallResult::Duplicate => false,
            InstallResult::Older => false,
        }
    }
}

/// The database of one area.
#[derive(Debug)]
pub struct Lsdb {
    entries: Vec<LsdbEntry>,
    router_id: u32,
}

/// What the database holds.
pub struct LsdbView {
    pub entries: Seq<LsdbEntryView>,
    pub router_id: u32,
}

impl View for Lsdb {
    type V = LsdbView;

    closed spec fn view(&self) -> LsdbView {
        LsdbView { entries: wire::views(self.entries@), router_id: self.router_id }
    }
}

/// The position of the first entry with key `k` at or behind `from`.
pub open spec fn key_pos(s: Seq<LsdbEntryView>, k: LsaKey, from: int) -> Option<int>
    decreases s.len() - from,
{
    if from < 0 || from >= s.len() {
        None
    } else if s[from].key() == k {
        Some(from)
    } else {
        key_pos(s, k, from + 1)
    }
}

/// The headers of the entries that have not expired, with their current age.
pub open spec fn live_headers(s: Seq<LsdbEntryView>, now: u64) -> Seq<LsaHeader>
    decreases s.len(),
{
    if s.len() == 0 {
        Seq::empty()
    } else if s.last().expired(now) {
        live_headers(s.drop_last(), now)
    } else {
        live_headers(s.drop_last(), now).push(s.last().aged_header(now))
    }
}

/// The LSAs that have not expired, with their current age.
pub open spec fn live_lsas(s: Seq<LsdbEntryView>, now: u64) -> Seq<lsa::LsaView>
    decreases s.len(),
{
    if s.len() == 0 {
        Seq::empty()
    } else if s.last().expired(now) {
        live_lsas(s.drop_last(), now)
    } else {
        live_lsas(s.drop_last(), now).push(s.last().aged(now))
    }
}

/// The entries that have not expired.
pub open spec fn live_entries(s: Seq<LsdbEntryView>, now: u64) -> Seq<LsdbEntryView>
    decreases s.len(),
{
    if s.len() == 0 {
        Seq::empty()
    } else if s.last().expired(now) {
        live_entries(s.drop_last(), now)
    } else {
        live_entries(s.drop_last(), now).push(s.last())
    }
}

/// The keys of the entries that expired.
pub open spec fn expired_keys(s: Seq<LsdbEntryView>, now: u64) -> Seq<LsaKey>
    decreases s.len(),
{
    if s.len() == 0 {
        Seq::empty()
    } else if s.last().expired(now) {
        expired_keys(s.drop_last(), now).push(s.last().key())
    } else {
        expired_keys(s.drop_last(), now)
    }
}

/// The keys of our LSAs that have to be issued again.
pub open spec fn stale_keys(s: Seq<LsdbEntryView>, now: u64) -> Seq<LsaKey>
    decreases s.len(),
{
    if s.len() == 0 {
        Seq::empty()
    } else if s.last().stale(now) {
        stale_keys(s.drop_last(), now).push(s.last().key())
    } else {
        stale_keys(s.drop_last(), now)
    }
}

/// The sequence number after `n`; the numbers wrap around.
pub open spec fn next_seq(n: i32) -> i32 {
    if n == i32::MAX {
        i32::MIN
    } else {
        (n + 1) as i32
    }
}

impl LsdbView {
    /// A database without LSAs.
    pub open spec fn empty(router_id: u32) -> LsdbView {
        LsdbView { entries: Seq::empty(), router_id }
    }

    /// No key occurs twice.
    pub open spec fn wf(self) -> bool {
        forall|i: int, j: int|
            0 <= i < j < self.entries.len() ==> #[trigger] self.entries[i].key()
                != #[trigger] self.entries[j].key()
    }

    /// The entry with key `k`.
    pub open spec fn lookup(self, k: LsaKey) -> Option<LsdbEntryView> {
        match key_pos(self.entries, k, 0) {
            Some(i) => Some(self.entries[i]),
            None => None,
        }
    }

    /// What becomes of `l`.
    pub open spec fn verdict(self, l: lsa::LsaView) -> InstallResult {
        match self.lookup(l.header.spec_key()) {
            None => InstallResult::New,
            Some(e) => match l.header.recency(e.lsa.header) {
                Recency::Newer => InstallResult::Updated,
                Recency::Same => InstallResult::Duplicate,
                Recency::Older => InstallResult::Older,
            },
        }
    }

    /// The entry that stores `l`.
    pub open spec fn entry_for(self, l: lsa::LsaView, now: u64) -> LsdbEntryView {
        LsdbEntryView {
            lsa: l,
            installed_at: now,
            self_originated: l.header.advertising_router == self.router_id,
        }
    }

    /// The database after `l` was offered to it.
    pub open spec fn install(self, l: lsa::LsaView, now: u64) -> LsdbView {
        if !self.verdict(l).stored() {
            self
        } else {
            LsdbView {
                entries: match key_pos(self.entries, l.header.spec_key(), 0) {
                    Some(i) => self.entries.update(i, self.entry_for(l, now)),
                    None => self.entries.push(self.entry_for(l, now)),
                },
                ..self
            }
        }
    }

    /// The database after the sequence number of the entry was raised to `seq`.
    pub open spec fn bump_seq(self, k: LsaKey, seq: i32) -> LsdbView {
        match key_pos(self.entries, k, 0) {
            Some(i) if self.entries[i].lsa.header.ls_sequence_number < seq => {
                let e = self.entries[i];
                LsdbView {
                    entries: self.entries.update(
                        i,
                        LsdbEntryView {
                            lsa: lsa::LsaView {
                                header: LsaHeader { ls_sequence_number: seq, ..e.lsa.header },
                                body: e.lsa.body,
                            },
                            ..e
                        },
                    ),
                    ..self
                }
            },
            _ => self,
        }
    }

    /// The database without the entry for `k`.
    pub open spec fn remove(self, k: LsaKey) -> LsdbView {
        match key_pos(self.entries, k, 0) {
            Some(i) => LsdbView { entries: self.entries.remove(i), ..self },
            None => self,
        }
    }

    /// The sequence number that the next instance of our LSA gets.
    pub open spec fn seq_for(self, k: LsaKey) -> i32 {
        match self.lookup(k) {
            Some(e) => next_seq(e.lsa.header.ls_sequence_number),
            None => INITIAL_SEQUENCE_NUMBER,
        }
    }

    /// The next instance of an LSA of ours with the given body.
    pub open spec fn next_instance(
        self,
        k: LsaKey,
        options: u8,
        body: lsa::LsaBodyView,
    ) -> lsa::LsaView {
        lsa::LsaView {
            header: LsaHeader {
                ls_age: 0,
                options,
                ls_type: k.ls_type,
                link_state_id: k.link_state_id,
                advertising_router: k.advertising_router,
                ls_sequence_number: self.seq_for(k),
                ls_checksum: 0,
                length: ((lsa::LSA_HEADER_LEN + body.bytes().len()) % 65536) as u16,
            },
            body,
        }.sealed()
    }
}

impl Lsdb {
    /// An empty database of the router `router_id`.
    pub fn new(router_id: u32) -> (db: Lsdb)
        ensures
            db@ == LsdbView::empty(router_id),
    {
        let db = Lsdb { entries: Vec::new(), router_id };
        assert(db@.entries =~= Seq::empty());
        db
    }

    /// The position of the entry with key `key`.
    fn position(&self, key: &LsaKey) -> (r: Option<usize>)
        ensures
            match (r, key_pos(self@.entries, *key, 0)) {
                (Some(i), Some(j)) => i == j && i < self.entries@.len(),
                (None, None) => true,
                _ => false,
            },
    {
        let mut i: usize = 0;
        while i < self.entries.len()
            invariant
                i <= self.entries@.len(),
                key_pos(self@.entries, *key, 0) == key_pos(self@.entries, *key, i as int),
            decreases self.entries.len() - i,
        {
            if self.entries[i].lsa.key() == *key {
                return Some(i);
            }
            i = i + 1;
        }
        None
    }

    /// The entry with key `key`.
    pub fn get(&self, key: &LsaKey) -> (r: Option<&LsdbEntry>)
        ensures
            match (r, self@.lookup(*key)) {
                (Some(e), Some(v)) => e@ == v,
                (None, None) => true,
                _ => false,
            },
    {
        match self.position(key) {
            Some(i) => Some(&self.entries[i]),
            None => None,
        }
    }

    /// Raises the sequence number of a stored LSA to `new_seq` and leaves its body alone. When we
    /// restart, others may hold a higher number than the one that we begin with; after this the
    /// next instance that we issue outranks theirs. Says whether the number was raised.
    pub fn bump_seq(&mut self, key: &LsaKey, new_seq: i32) -> (b: bool)
        ensures
            final(self)@ == old(self)@.bump_seq(*key, new_seq),
            b == (old(self)@.lookup(*key) matches Some(e) && e.lsa.header.ls_sequence_number
                < new_seq),
    {
        match self.position(key) {
            Some(i) => {
                if self.entries[i].lsa.header.ls_sequence_number < new_seq {
                    let ghost before = self@;
                    self.entries[i].lsa.header.ls_sequence_number = new_seq;
                    assert(self@.entries =~= before.bump_seq(*key, new_seq).entries);
                    true
                } else {
                    false
                }
            },
            None => false,
        }
    }

    /// The stored entries.
    pub fn all_entries(&self) -> (r: &Vec<LsdbEntry>)
        ensures
            wire::views(r@) == self@.entries,
    {
        &self.entries
    }

    /// The headers of the LSAs that have not expired, with their current age.
    pub fn all_headers(&self, now: u64) -> (r: Vec<LsaHeader>)
        ensures
            r@ == live_headers(self@.entries, now),
    {
        let mut v: Vec<LsaHeader> = Vec::new();
        let mut i: usize = 0;
        let ghost s = self@.entries;
        assert(s.take(0) =~= Seq::empty());
        while i < self.entries.len()
            invariant
                i <= self.entries@.len(),
                s == self@.entries,
                v@ == live_headers(s.take(i as int), now),
            decreases self.entries.len() - i,
        {
            assert(s.take(i + 1).drop_last() =~= s.take(i as int));
            if !self.entries[i].is_max_age(now) {
                v.push(self.entries[i].aged_header(now));
            }
            i = i + 1;
        }
        assert(s.take(i as int) =~= s);
        v
    }

    /// How many LSAs are stored.
    pub fn len(&self) -> (n: usize)
        ensures
            n == self@.entries.len(),
    {
        self.entries.len()
    }

    /// How many LSAs are stored.
    pub fn entries_count(&self) -> (n: usize)
        ensures
            n == self@.entries.len(),
    {
        self.entries.len()
    }

    /// Whether no LSA is stored.
    pub fn is_empty(&self) -> (b: bool)
        ensures
            b == (self@.entries.len() == 0),
    {
        self.entries.len() == 0
    }

    /// Offers an LSA to the database. It is stored if its key is new or if it is newer than the
    /// stored instance.
    pub fn install(&mut self, lsa: Lsa, now: u64) -> (r: InstallResult)
        ensures
            r == old(self)@.verdict(lsa@),
            final(self)@ == old(self)@.install(lsa@, now),
    {
        let key = lsa.key();
        let self_originated = lsa.header.advertising_router == self.router_id;
        match self.position(&key) {
            Some(i) => match lsa.header.is_more_recent_than(&self.entries[i].lsa.header) {
                Recency::Newer => {
                    self.entries.set(i, LsdbEntry { lsa, installed_at: now, self_originated });
                    InstallResult::Updated
                },
                Recency::Same => InstallResult::Duplicate,
                Recency::Older => InstallResult::Older,
            },
            None => {
                self.entries.push(LsdbEntry { lsa, installed_at: now, self_originated });
                InstallResult::New
            },
        }
    }

    /// Takes the entry with key `key` out.
    pub fn remove(&mut self, key: &LsaKey) -> (r: Option<LsdbEntry>)
        ensures
            final(self)@ == old(self)@.remove(*key),
            match (r, old(self)@.lookup(*key)) {
                (Some(e), Some(v)) => e@ == v,
                (None, None) => true,
                _ => false,
            },
    {
        match self.position(key) {
            Some(i) => {
                let ghost before = self@;
                let e = self.entries.remove(i);
                assert(self@.entries =~= before.entries.remove(i as int));
                Some(e)
            },
            None => None,
        }
    }

    /// Takes out the LSAs that reached the maximal age and gives their keys.
    pub fn flush_max_age(&mut self, now: u64) -> (r: Vec<LsaKey>)
        ensures
            final(self)@ == (LsdbView {
                entries: live_entries(old(self)@.entries, now),
                ..old(self)@
            }),
            r@ == expired_keys(old(self)@.entries, now),
    {
        let ghost s = self@.entries;
        let mut gone: Vec<LsaKey> = Vec::new();
        let mut kept: Vec<LsdbEntry> = Vec::new();
        let mut rest: Vec<LsdbEntry> = Vec::new();
        std::mem::swap(&mut rest, &mut self.entries);
        assert(wire::views(rest@) == s);
        let mut backwards: Vec<LsdbEntry> = Vec::new();
        while rest.len() > 0
            invariant
                rest@.len() + backwards@.len() == s.len(),
                wire::views(rest@) == s.take(rest@.len() as int),
                forall|k: int|
                    0 <= k < backwards@.len() ==> (#[trigger] backwards@[k])@ == s[s.len() - 1 - k],
            decreases rest.len(),
        {
            let ghost n = rest@.len();
            let ghost was = wire::views(rest@);
            let e = rest.pop().unwrap();
            assert(e@ == was[n - 1]);
            backwards.push(e);
            assert(wire::views(rest@) =~= s.take(rest@.len() as int));
        }
        assert(s.take(0) =~= Seq::empty());
        assert(wire::views(kept@) =~= live_entries(s.take(0), now));
        while backwards.len() > 0
            invariant
                backwards@.len() <= s.len(),
                forall|k: int|
                    0 <= k < backwards@.len() ==> (#[trigger] backwards@[k])@ == s[s.len() - 1 - k],
                wire::views(kept@) == live_entries(s.take(s.len() - backwards@.len()), now),
                gone@ == expired_keys(s.take(s.len() - backwards@.len()), now),
            decreases backwards.len(),
        {
            let ghost at = s.len() - backwards@.len();
            let e = backwards.pop().unwrap();
            assert(e@ == s[at]);
            assert(s.take(at + 1).drop_last() =~= s.take(at));
            if e.is_max_age(now) {
                gone.push(e.lsa.key());
            } else {
                kept.push(e);
            }
        }
        assert(s.take(s.len() as int) =~= s);
        self.entries = kept;
        gone
    }

    /// The keys of our LSAs that have to be issued again.
    pub fn self_originated_due_for_refresh(&self, now: u64) -> (r: Vec<LsaKey>)
        ensures
            r@ == stale_keys(self@.entries, now),
    {
        let mut v: Vec<LsaKey> = Vec::new();
        let mut i: usize = 0;
        let ghost s = self@.entries;
        assert(s.take(0) =~= Seq::empty());
        while i < self.entries.len()
            invariant
                i <= self.entries@.len(),
                s == self@.entries,
                v@ == stale_keys(s.take(i as int), now),
            decreases self.entries.len() - i,
        {
            assert(s.take(i + 1).drop_last() =~= s.take(i as int));
            if self.entries[i].needs_refresh(now) {
                v.push(self.entries[i].lsa.key());
            }
            i = i + 1;
        }
        assert(s.take(i as int) =~= s);
        v
    }

    /// The LSAs that have not expired, with their current age.
    pub fn as_lsa_map(&self, now: u64) -> (r: Vec<Lsa>)
        ensures
            wire::views(r@) == live_lsas(self@.entries, now),
    {
        let mut v: Vec<Lsa> = Vec::new();
        let mut i: usize = 0;
        let ghost s = self@.entries;
        assert(s.take(0) =~= Seq::empty());
        assert(wire::views(v@) =~= Seq::empty());
        while i < self.entries.len()
            invariant
                i <= self.entries@.len(),
                s == self@.entries,
                wire::views(v@) == live_lsas(s.take(i as int), now),
            decreases self.entries.len() - i,
        {
            assert(s.take(i + 1).drop_last() =~= s.take(i as int));
            if !self.entries[i].is_max_age(now) {
                let mut l = self.entries[i].lsa.duplicate();
                l.header.ls_age = self.entries[i].current_age(now);
                v.push(l);
            }
            i = i + 1;
        }
        assert(s.take(i as int) =~= s);
        v
    }

    /// The next instance of an LSA of ours with the given body. It is not stored.
    pub fn build_next(&self, key: &LsaKey, options: u8, body: LsaBody) -> (l: Lsa)
        ensures
            l@ == self@.next_instance(*key, options, body@),
    {
        let seq: i32 = match self.position(key) {
            Some(i) => self.entries[i].lsa.header.ls_sequence_number.wrapping_add(1),
            None => INITIAL_SEQUENCE_NUMBER,
        };
        let mut buf: Vec<u8> = Vec::new();
        body.encode(&mut buf);
        assert(buf@ =~= body@.bytes());
        let length: u16 = length_field(lsa::LSA_HEADER_LEN, buf.len());
        let l = Lsa {
            header: LsaHeader {
                ls_age: 0,
                options,
                ls_type: key.ls_type,
                link_state_id: key.link_state_id,
                advertising_router: key.advertising_router,
                ls_sequence_number: seq,
                ls_checksum: 0,
                length,
            },
            body,
        };
        l.seal()
    }

    /// Issues our Router-LSA anew: with the next sequence number, stored, and given back for
    /// flooding.
    pub fn originate_router_lsa(
        &mut self,
        router_id: u32,
        _area_id: u32,
        flags: u8,
        links: Vec<RouterLink>,
        options: u8,
        now: u64,
    ) -> (l: Lsa)
        ensures
            l@ == old(self)@.next_instance(
                router_key(router_id),
                options,
                lsa::LsaBodyView::Router { flags, links: links@ },
            ),
            final(self)@ == old(self)@.install(l@, now),
    {
        let key = LsaKey {
            ls_type: LsaType::Router,
            link_state_id: router_id,
            advertising_router: router_id,
        };
        let body = LsaBody::Router(RouterLsa { flags, links });
        let l = self.build_next(&key, options, body);
        let copy = l.duplicate();
        let _r = self.install(copy, now);
        l
    }
}

/// The key of the Router-LSA of `router_id`.
pub open spec fn router_key(router_id: u32) -> LsaKey {
    LsaKey {
        ls_type: LsaType::Router,
        link_state_id: router_id,
        advertising_router: router_id,
    }
}

/// What a search for a key finds.
pub proof fn lemma_key_pos(s: Seq<LsdbEntryView>, k: LsaKey, from: int)
    requires
        0 <= from,
    ensures
        match key_pos(s, k, from) {
            Some(i) => from <= i < s.len() && s[i].key() == k && forall|j: int|
                from <= j < i ==> (#[trigger] s[j]).key() != k,
            None => forall|j: int| from <= j < s.len() ==> (#[trigger] s[j]).key() != k,
        },
    decreases s.len() - from,
{
    if from < s.len() && s[from].key() != k {
        lemma_key_pos(s, k, from + 1);
    }
}

/// Every entry that has not expired is kept, every other one goes.
proof fn lemma_live_entries(s: Seq<LsdbEntryView>, now: u64)
    ensures
        forall|j: int|
            0 <= j < live_entries(s, now).len() ==> exists|i: int|
                j <= i < s.len() && s[i] == #[trigger] live_entries(s, now)[j],
        forall|j: int|
            0 <= j < live_entries(s, now).len() ==> !(#[trigger] live_entries(s, now)[j]).expired(
                now,
            ),
        forall|i: int|
            0 <= i < s.len() && !(#[trigger] s[i]).expired(now) ==> live_entries(s, now).contains(
                s[i],
            ),
        live_entries(s, now).len() <= s.len(),
    decreases s.len(),
{
    if s.len() > 0 {
        let front = s.drop_last();
        lemma_live_entries(front, now);
        let a = live_entries(front, now);
        let b = live_entries(s, now);
        assert forall|j: int| 0 <= j < b.len() implies exists|i: int|
            j <= i < s.len() && s[i] == #[trigger] b[j] by {
            if j < a.len() {
                assert(b[j] == a[j]);
                let i = choose|i: int| j <= i < front.len() && front[i] == a[j];
                assert(s[i] == b[j]);
            } else {
                assert(s[s.len() - 1] == b[j]);
            }
        }
        assert forall|j: int| 0 <= j < b.len() implies !(#[trigger] b[j]).expired(now) by {
            if j < a.len() {
                assert(b[j] == a[j]);
            }
        }
        assert forall|i: int| 0 <= i < s.len() && !(#[trigger] s[i]).expired(
            now,
        ) implies b.contains(s[i]) by {
            if i < front.len() {
                assert(front[i] == s[i]);
                let k = choose|k: int| 0 <= k < a.len() && a[k] == front[i];
                assert(b[k] == s[i]);
            } else {
                assert(b[b.len() - 1] == s[i]);
            }
        }
    }
}

/// Keeping only the live entries keeps the keys distinct.
proof fn lemma_expired_keys(s: Seq<LsdbEntryView>, now: u64)
    ensures
        forall|j: int|
            0 <= j < expired_keys(s, now).len() ==> exists|i: int|
                0 <= i < s.len() && (#[trigger] s[i]).expired(now) && s[i].key()
                    == #[trigger] expired_keys(s, now)[j],
        forall|i: int|
            0 <= i < s.len() && (#[trigger] s[i]).expired(now) ==> expired_keys(s, now).contains(
                s[i].key(),
            ),
        (forall|i: int, j: int|
            0 <= i < j < s.len() ==> #[trigger] s[i].key() != #[trigger] s[j].key())
            ==> expired_keys(s, now).no_duplicates(),
    decreases s.len(),
{
    if s.len() > 0 {
        let front = s.drop_last();
        let a = expired_keys(front, now);
        let b = expired_keys(s, now);
        let last = s.len() - 1;
        lemma_expired_keys(front, now);
        assert forall|j: int| 0 <= j < b.len() implies exists|i: int|
            0 <= i < s.len() && (#[trigger] s[i]).expired(now) && s[i].key() == #[trigger] b[j] by {
            if j < a.len() {
                let i = choose|i: int|
                    0 <= i < front.len() && (#[trigger] front[i]).expired(now) && front[i].key()
                        == a[j];
                assert(s[i] == front[i]);
            } else {
                assert(s[last].key() == b[j]);
            }
        }
        assert forall|i: int| 0 <= i < s.len() && (#[trigger] s[i]).expired(now) implies b.contains(
            s[i].key(),
        ) by {
            if i < last {
                assert(front[i] == s[i]);
                let j = choose|j: int| 0 <= j < a.len() && a[j] == s[i].key();
                assert(b[j] == s[i].key());
            } else {
                assert(b[b.len() - 1] == s[i].key());
            }
        }
        if forall|i: int, j: int|
            0 <= i < j < s.len() ==> #[trigger] s[i].key() != #[trigger] s[j].key() {
            assert forall|i: int, j: int| 0 <= i < j < front.len() implies #[trigger] front[i].key()
                != #[trigger] front[j].key() by {
                assert(front[i] == s[i] && front[j] == s[j]);
            }
            assert forall|j: int| 0 <= j < a.len() implies #[trigger] a[j] != s[last].key() by {
                let i = choose|i: int|
                    0 <= i < front.len() && (#[trigger] front[i]).expired(now) && front[i].key()
                        == a[j];
                assert(s[i].key() == front[i].key());
            }
        }
    }
}

proof fn lemma_live_distinct(s: Seq<LsdbEntryView>, router_id: u32, now: u64)
    requires
        (LsdbView { entries: s, router_id }).wf(),
    ensures
        (LsdbView { entries: live_entries(s, now), router_id }).wf(),
    decreases s.len(),
{
    if s.len() > 0 {
        let front = s.drop_last();
        assert forall|i: int, j: int| 0 <= i < j < front.len() implies #[trigger] front[i].key()
            != #[trigger] front[j].key() by {
            assert(s[i].key() != s[j].key());
        }
        lemma_live_distinct(front, router_id, now);
        lemma_live_entries(front, now);
        let a = live_entries(front, now);
        let b = live_entries(s, now);
        assert forall|i: int, j: int| 0 <= i < j < b.len() implies #[trigger] b[i].key()
            != #[trigger] b[j].key() by {
            assert(b[i] == a[i]);
            if j < a.len() {
                assert(a[i].key() != a[j].key());
            } else {
                let k = choose|k: int| i <= k < front.len() && front[k] == a[i];
                assert(s[k].key() != s[s.len() - 1].key());
            }
        }
    }
}

impl LsdbView {
    /// The keys stay distinct, whatever is done to the database.
    pub proof fn lemma_wf_kept(self, l: lsa::LsaView, k: LsaKey, seq: i32, now: u64)
        requires
            self.wf(),
        ensures
            LsdbView::empty(self.router_id).wf(),
            self.install(l, now).wf(),
            self.bump_seq(k, seq).wf(),
            self.remove(k).wf(),
            (LsdbView { entries: live_entries(self.entries, now), ..self }).wf(),
    {
        lemma_key_pos(self.entries, l.header.spec_key(), 0);
        lemma_key_pos(self.entries, k, 0);
        lemma_live_distinct(self.entries, self.router_id, now);
        match key_pos(self.entries, k, 0) {
            Some(i) => {
                let t = self.bump_seq(k, seq);
                assert forall|a: int, b: int| 0 <= a < b < t.entries.len() implies #[trigger]
                t.entries[a].key() != #[trigger] t.entries[b].key() by {
                    assert(t.entries[a].key() == self.entries[a].key());
                    assert(t.entries[b].key() == self.entries[b].key());
                }
                let u = self.remove(k);
                assert forall|a: int, b: int| 0 <= a < b < u.entries.len() implies #[trigger]
                u.entries[a].key() != #[trigger] u.entries[b].key() by {
                    let a2 = if a < i {
                        a
                    } else {
                        a + 1
                    };
                    let b2 = if b < i {
                        b
                    } else {
                        b + 1
                    };
                    assert(u.entries[a] == self.entries[a2]);
                    assert(u.entries[b] == self.entries[b2]);
                    assert(self.entries[a2].key() != self.entries[b2].key());
                }
            },
            None => {},
        }
    }

    /// After an LSA was offered, the database holds an instance of it that is not older; another
    /// key is not touched.
    pub proof fn lemma_get_after_install(self, l: lsa::LsaView, k: LsaKey, now: u64)
        ensures
            self.install(l, now).lookup(l.header.spec_key()) matches Some(e) && !(l.header.recency(
                e.lsa.header,
            ) is Newer) && (self.verdict(l).stored() ==> e == self.entry_for(l, now)),
            k != l.header.spec_key() ==> self.install(l, now).lookup(k) == self.lookup(k),
    {
        let key = l.header.spec_key();
        let after = self.install(l, now);
        lemma_key_pos(self.entries, key, 0);
        lemma_key_pos(after.entries, key, 0);
        lemma_key_pos(self.entries, k, 0);
        lemma_key_pos(after.entries, k, 0);
        l.header.lemma_recency_antisymmetric(l.header);
        if self.verdict(l).stored() {
            match key_pos(self.entries, key, 0) {
                Some(i) => {
                    assert(after.entries[i] == self.entry_for(l, now));
                },
                None => {
                    assert(after.entries[self.entries.len() as int] == self.entry_for(l, now));
                },
            }
            if k != key {
                match key_pos(self.entries, k, 0) {
                    Some(j) => {
                        assert(after.entries[j] == self.entries[j]);
                    },
                    None => {},
                }
                match key_pos(after.entries, k, 0) {
                    Some(j) => {
                        assert(after.entries[j].key() == k);
                        assert(j < self.entries.len());
                        assert(self.entries[j] == after.entries[j]);
                    },
                    None => {},
                }
            }
        }
    }

    /// An LSA that was stored is a duplicate when it is offered again.
    pub proof fn lemma_install_twice(self, l: lsa::LsaView, now: u64, later: u64)
        requires
            self.verdict(l).stored(),
        ensures
            self.install(l, now).verdict(l) == InstallResult::Duplicate,
            self.install(l, now).install(l, later) == self.install(l, now),
    {
        self.lemma_get_after_install(l, l.header.spec_key(), now);
        l.header.lemma_recency_antisymmetric(l.header);
    }

    /// What becomes of an LSA that is offered: it is new exactly where its key was absent, else its
    /// recency over the stored instance decides. If it is stored, the entry at its key holds it, and
    /// is marked as ours exactly where we are its advertising router; if not, the database is as it
    /// was, times of arrival included. No other key is touched.
    pub proof fn lemma_install_exact(self, l: lsa::LsaView, k: LsaKey, now: u64)
        ensures
            ({
                let key = l.header.spec_key();
                let v = self.verdict(l);
                let after = self.install(l, now);
                &&& v is New <==> self.lookup(key) is None
                &&& v is Updated <==> (self.lookup(key) matches Some(e) && l.header.recency(
                    e.lsa.header,
                ) is Newer)
                &&& v is Duplicate <==> (self.lookup(key) matches Some(e) && l.header.recency(
                    e.lsa.header,
                ) is Same)
                &&& v is Older <==> (self.lookup(key) matches Some(e) && l.header.recency(
                    e.lsa.header,
                ) is Older)
                &&& v.stored() <==> v is New || v is Updated
                &&& v.stored() ==> after.lookup(key) == Some(
                    LsdbEntryView {
                        lsa: l,
                        installed_at: now,
                        self_originated: l.header.advertising_router == self.router_id,
                    },
                )
                &&& !v.stored() ==> after == self
                &&& k != key ==> after.lookup(k) == self.lookup(k)
                &&& after.router_id == self.router_id
            }),
    {
        self.lemma_get_after_install(l, k, now);
    }

    /// The next instance of an LSA of ours is stored in place of the one before, unless the
    /// sequence numbers are used up.
    pub proof fn lemma_next_instance_stored(
        self,
        k: LsaKey,
        options: u8,
        body: lsa::LsaBodyView,
        now: u64,
    )
        requires
            self.lookup(k) matches Some(e) ==> e.lsa.header.ls_sequence_number < i32::MAX,
        ensures
            ({
                let l = self.next_instance(k, options, body);
                &&& self.verdict(l).stored()
                &&& self.install(l, now).lookup(k) == Some(self.entry_for(l, now))
            }),
    {
        let l = self.next_instance(k, options, body);
        assert(l.header.spec_key() == k);
        self.lemma_get_after_install(l, k, now);
    }

    /// After a restart: once the number that others remember was taken over, the next instance
    /// outranks theirs.
    pub proof fn lemma_recovery_outranks(
        self,
        k: LsaKey,
        options: u8,
        body: lsa::LsaBodyView,
        theirs: LsaHeader,
    )
        requires
            self.lookup(k) is Some,
            theirs.ls_sequence_number < i32::MAX,
            self.lookup(k)->0.lsa.header.ls_sequence_number < i32::MAX,
        ensures
            self.bump_seq(k, theirs.ls_sequence_number).next_instance(
                k,
                options,
                body,
            ).header.recency(theirs) is Newer,
    {
        let b = self.bump_seq(k, theirs.ls_sequence_number);
        lemma_key_pos(self.entries, k, 0);
        lemma_key_pos(b.entries, k, 0);
        let i = key_pos(self.entries, k, 0)->0;
        assert(b.entries[i].key() == k);
        let j = key_pos(b.entries, k, 0)->0;
        assert(j <= i);
        if j < i {
            assert(b.entries[j] == self.entries[j]);
        }
    }

    /// Flushing hands out the keys of exactly the LSAs that reached the maximal age, each once, and
    /// none of these keys is found afterwards.
    pub proof fn lemma_flushed_keys(self, now: u64)
        requires
            self.wf(),
        ensures
            ({
                let gone = expired_keys(self.entries, now);
                let after = LsdbView { entries: live_entries(self.entries, now), ..self };
                &&& gone.no_duplicates()
                &&& forall|k: LsaKey|
                    gone.contains(k) <==> (#[trigger] self.lookup(k) matches Some(e) && e.expired(
                        now,
                    ))
                &&& forall|k: LsaKey| gone.contains(k) ==> #[trigger] after.lookup(k) is None
            }),
    {
        let s = self.entries;
        let gone = expired_keys(s, now);
        let after = LsdbView { entries: live_entries(s, now), ..self };
        lemma_expired_keys(s, now);
        lemma_live_entries(s, now);
        assert forall|k: LsaKey| gone.contains(k) <==> (#[trigger] self.lookup(k) matches Some(e)
            && e.expired(now)) by {
            lemma_key_pos(s, k, 0);
            if gone.contains(k) {
                let j = choose|j: int| 0 <= j < gone.len() && gone[j] == k;
                let i = choose|i: int|
                    0 <= i < s.len() && (#[trigger] s[i]).expired(now) && s[i].key() == gone[j];
                let p = key_pos(s, k, 0)->0;
                assert(s[i].key() == s[p].key());
            }
        }
        assert forall|k: LsaKey| gone.contains(k) implies #[trigger] after.lookup(k) is None by {
            lemma_key_pos(after.entries, k, 0);
            if let Some(j) = key_pos(after.entries, k, 0) {
                let i = choose|i: int| j <= i < s.len() && s[i] == after.entries[j];
                lemma_key_pos(s, k, 0);
                assert(self.lookup(k) is Some);
                let p = key_pos(s, k, 0)->0;
                assert(s[i].key() == s[p].key());
            }
        }
    }

    /// Flushing removes exactly the LSAs that reached the maximal age.
    pub proof fn lemma_flush_exact(self, now: u64)
        ensures
            ({
                let kept = live_entries(self.entries, now);
                &&& forall|i: int|
                    0 <= i < self.entries.len() ==> (kept.contains(#[trigger] self.entries[i])
                        <==> !self.entries[i].expired(now))
                &&& forall|j: int|
                    0 <= j < kept.len() ==> self.entries.contains(#[trigger] kept[j])
            }),
    {
        lemma_live_entries(self.entries, now);
        let kept = live_entries(self.entries, now);
        assert forall|j: int| 0 <= j < kept.len() implies self.entries.contains(
            #[trigger] kept[j],
        ) by {
            let i = choose|i: int| j <= i < self.entries.len() && self.entries[i] == kept[j];
            assert(self.entries[i] == kept[j]);
        }
    }
}

impl LsdbEntryView {
    /// The age is the age on arrival and the seconds since, cut off at the maximal age, however long
    /// ago the LSA arrived. Ages never run backwards, and once at the maximal age they stay there.
    pub proof fn lemma_age_exact(self, now: u64, later: u64)
        requires
            now <= later,
        ensures
            self.age(now) == vstd::math::min(
                self.lsa.header.ls_age + seconds_since(self.installed_at, now),
                MAX_AGE as int,
            ),
            self.age(now) <= self.age(later),
            self.age(now) == MAX_AGE ==> self.age(later) == MAX_AGE,
    {
    }

    /// Ages never run backwards and stop at the maximal age.
    pub proof fn lemma_age_grows(self, now: u64, later: u64)
        requires
            now <= later,
        ensures
            self.age(now) <= self.age(later) <= MAX_AGE,
            self.expired(now) ==> self.expired(later),
    {
    }
}

} // verus!
