//! Flooding, requests and updates.
use vstd::prelude::*;

use crate::area::AreaType;
use crate::instance_v3;
use crate::instance_v3::{
    InstanceV3, InstanceV3View, InterfaceV3, InterfaceV3View, NeighborStateV3, NeighborV3View,
};
use crate::lsdb_v3::{LsaEntryV3, LsaEntryV3View, LsaKeyV3, LsdbV3View};
use crate::packet_v3::lsack::LsAckV3Packet;
use crate::packet_v3::lsr::{LsRequestV3, LsRequestV3Packet};
use crate::packet_v3::lsu::{LsUpdateV3Packet, LsaV3Raw, LsaV3RawView};
use crate::packet_v3::{LsaV3Header, LsaV3Type};
use crate::wire;
use crate::wire::copy_bytes;

verus! {

broadcast use {wire::lemma_views_push, wire::lemma_views_update};

/// The scope under which an LSA of the given type is kept when it belongs to `area`.
pub open spec fn scope_of(ls_type: LsaV3Type, area: u32) -> Option<u32> {
    if ls_type == LsaV3Type::AsExternal {
        None
    } else {
        Some(area)
    }
}

/// The scope under which an LSA of the given type is kept when it belongs to `area`.
pub fn scope_for(ls_type: LsaV3Type, area: u32) -> (r: Option<u32>)
    ensures
        r == scope_of(ls_type, area),
{
    if ls_type == LsaV3Type::AsExternal {
        None
    } else {
        Some(area)
    }
}

impl LsaEntryV3View {
    /// The entry as an update packet carries it.
    pub open spec fn on_wire(self) -> LsaV3RawView {
        LsaV3RawView { header: self.header, raw: self.raw }
    }

    /// Whether the LSA is flooded on an interface in `area`, which is of the given type:
    /// AS-external LSAs only into normal areas, NSSA ones only into NSSAs, and all of area scope
    /// only into their own area.
    pub open spec fn floods_into(self, area: u32, area_type: AreaType) -> bool {
        &&& self.header.ls_type == LsaV3Type::AsExternal ==> area_type == AreaType::Normal
        &&& self.header.ls_type == LsaV3Type::Nssa ==> area_type == AreaType::Nssa
        &&& (self.area matches Some(a) ==> self.header.ls_type == LsaV3Type::AsExternal
            || self.header.ls_type == LsaV3Type::Link || area == a)
    }
}

impl NeighborV3View {
    /// The neighbor with an LSA queued for it.
    pub open spec fn queue(self, lsa: LsaEntryV3View) -> NeighborV3View {
        NeighborV3View { pending_lsu: self.pending_lsu.push(lsa.on_wire()), ..self }
    }
}

impl InterfaceV3View {
    /// Whether the neighbor gets a flooded LSA: it is Full and not the one the LSA came from.
    pub open spec fn flood_target(self, n: NeighborV3View, exclude: Option<(u32, u32)>) -> bool {
        n.state == NeighborStateV3::Full && exclude != Some((self.io.sw_if_index, n.router_id))
    }

    /// The interface with an LSA queued for the neighbors that get it.
    pub open spec fn flooded(
        self,
        lsa: LsaEntryV3View,
        area_type: AreaType,
        exclude: Option<(u32, u32)>,
    ) -> InterfaceV3View {
        if lsa.floods_into(self.area_id, area_type) {
            self.flooded_here(lsa, exclude)
        } else {
            self
        }
    }

    /// The interface with an LSA queued for its Full neighbors but the excluded one.
    pub open spec fn flooded_here(self, lsa: LsaEntryV3View, exclude: Option<(u32, u32)>) -> InterfaceV3View {
        InterfaceV3View {
            neighbors: Seq::new(
                self.neighbors.len(),
                |i: int|
                    if self.flood_target(self.neighbors[i], exclude) {
                        self.neighbors[i].queue(lsa)
                    } else {
                        self.neighbors[i]
                    },
            ),
            ..self
        }
    }
}

/// Whether one of `hs` names the same LSA as `h`.
pub open spec fn named_in(hs: Seq<LsaV3Header>, h: LsaV3Header) -> bool {
    exists|i: int| 0 <= i < hs.len() && h.same_lsa(#[trigger] hs[i])
}

/// The headers of `list` that none of `answered` names.
pub open spec fn unanswered(list: Seq<LsaV3Header>, answered: Seq<LsaV3Header>) -> Seq<LsaV3Header>
    decreases list.len(),
{
    if list.len() == 0 {
        Seq::empty()
    } else {
        let front = unanswered(list.drop_last(), answered);
        if named_in(answered, list.last()) {
            front
        } else {
            front.push(list.last())
        }
    }
}

/// Whether an area of the given type takes LSAs of the type: stub areas and NSSAs take no AS-external
/// LSAs, everything else is taken everywhere.
pub open spec fn takes(area_type: AreaType, ls_type: LsaV3Type) -> bool {
    ls_type == LsaV3Type::AsExternal ==> area_type == AreaType::Normal
}

/// The entries that an update received in `area` installs; LSAs that its type does not take are
/// dropped.
pub open spec fn installed(lsas: Seq<LsaV3RawView>, area: u32, area_type: AreaType) -> Seq<
    LsaEntryV3View,
>
    decreases lsas.len(),
{
    if lsas.len() == 0 {
        Seq::empty()
    } else {
        let front = installed(lsas.drop_last(), area, area_type);
        let l = lsas.last();
        if !takes(area_type, l.header.ls_type) {
            front
        } else {
            front.push(
                LsaEntryV3View {
                    header: l.header,
                    raw: l.raw,
                    area: scope_of(l.header.ls_type, area),
                },
            )
        }
    }
}

/// The database after the entries were stored, in order.
pub open spec fn stored(db: LsdbV3View, es: Seq<LsaEntryV3View>) -> LsdbV3View
    decreases es.len(),
{
    if es.len() == 0 {
        db
    } else {
        stored(db, es.drop_last()).insert(es.last())
    }
}

/// The headers of the entries.
pub open spec fn headers_of(es: Seq<LsaEntryV3View>) -> Seq<LsaV3Header> {
    Seq::new(es.len(), |i: int| es[i].header)
}

impl InstanceV3View {
    /// The instance with an LSA queued for all neighbors that get it.
    pub open spec fn flooded(self, lsa: LsaEntryV3View, exclude: Option<(u32, u32)>) -> InstanceV3View {
        InstanceV3View {
            interfaces: Seq::new(
                self.interfaces.len(),
                |i: int|
                    self.interfaces[i].flooded(
                        lsa,
                        self.area_type(self.interfaces[i].area_id),
                        exclude,
                    ),
            ),
            ..self
        }
    }

    /// The instance with an LSA passed on that came in on the interface `from.0` from the router
    /// `from.1`. A Link-LSA stays on its link.
    pub open spec fn passed_on(self, lsa: LsaEntryV3View, from: (u32, u32)) -> InstanceV3View {
        if lsa.header.ls_type == LsaV3Type::Link {
            self.flooded_on_link(lsa, from.0, Some(from))
        } else {
            self.flooded(lsa, Some(from))
        }
    }

    /// The instance with several LSAs passed on, in order.
    pub open spec fn passed_on_all(self, es: Seq<LsaEntryV3View>, from: (u32, u32)) -> InstanceV3View
        decreases es.len(),
    {
        if es.len() == 0 {
            self
        } else {
            self.passed_on_all(es.drop_last(), from).passed_on(es.last(), from)
        }
    }

    /// The instance with an LSA queued for the Full neighbors of one interface but the excluded one.
    pub open spec fn flooded_on_link(
        self,
        lsa: LsaEntryV3View,
        sw_if_index: u32,
        exclude: Option<(u32, u32)>,
    ) -> InstanceV3View {
        match instance_v3::iface_pos(self.interfaces, sw_if_index, 0) {
            None => self,
            Some(i) => InstanceV3View {
                interfaces: self.interfaces.update(
                    i,
                    self.interfaces[i].flooded_here(lsa, exclude),
                ),
                ..self
            },
        }
    }

    /// The area of an interface, the backbone for an unknown one.
    pub open spec fn area_of(self, sw_if_index: u32) -> u32 {
        match instance_v3::iface_pos(self.interfaces, sw_if_index, 0) {
            Some(i) => self.interfaces[i].area_id,
            None => 0,
        }
    }

    /// The LSAs that answer the requests received in `area`.
    pub open spec fn answers(self, reqs: Seq<LsRequestV3>, area: u32) -> Seq<LsaV3RawView>
        decreases reqs.len(),
    {
        if reqs.len() == 0 {
            Seq::empty()
        } else {
            let front = self.answers(reqs.drop_last(), area);
            let r = reqs.last();
            match self.lsdb.lookup(
                LsaKeyV3 {
                    area: scope_of(r.ls_type, area),
                    ls_type: r.ls_type,
                    link_state_id: r.link_state_id,
                    advertising_router: r.advertising_router,
                },
            ) {
                Some(e) => front.push(e.on_wire()),
                None => front,
            }
        }
    }

    /// The instance with neighbor `j` of interface `i` replaced by `n`.
    pub open spec fn with_neighbor(self, i: int, j: int, n: NeighborV3View) -> InstanceV3View {
        InstanceV3View {
            interfaces: self.interfaces.update(
                i,
                InterfaceV3View {
                    neighbors: self.interfaces[i].neighbors.update(j, n),
                    ..self.interfaces[i]
                },
            ),
            ..self
        }
    }

    /// The instance after a request packet: the answers are queued for the sender.
    pub open spec fn requested(self, sw_if_index: u32, src: u32, reqs: Seq<LsRequestV3>) -> InstanceV3View {
        match instance_v3::iface_pos(self.interfaces, sw_if_index, 0) {
            None => self,
            Some(i) => match instance_v3::neighbor_pos(self.interfaces[i].neighbors, src, 0) {
                None => self,
                Some(j) => {
                    let n = self.interfaces[i].neighbors[j];
                    self.with_neighbor(
                        i,
                        j,
                        NeighborV3View {
                            pending_lsu: n.pending_lsu + self.answers(
                                reqs,
                                self.interfaces[i].area_id,
                            ),
                            ..n
                        },
                    )
                },
            },
        }
    }

    /// The instance after the entries of an update were acknowledged by `src` at `(i, j)`.
    pub open spec fn update_settled(self, i: int, j: int, hs: Seq<LsaV3Header>) -> InstanceV3View {
        let n = self.interfaces[i].neighbors[j];
        let left = unanswered(n.request_list, hs);
        let loaded = n.state == NeighborStateV3::Loading && left.len() == 0;
        let m = NeighborV3View {
            request_list: left,
            pending_acks: n.pending_acks + hs,
            state: if loaded {
                NeighborStateV3::Full
            } else {
                n.state
            },
            ..n
        };
        InstanceV3View {
            interfaces: self.interfaces.update(
                i,
                InterfaceV3View {
                    neighbors: self.interfaces[i].neighbors.update(j, m),
                    needs_router_lsa_refresh: self.interfaces[i].needs_router_lsa_refresh || loaded,
                    ..self.interfaces[i]
                },
            ),
            ..self
        }
    }

    /// The instance after an update packet.
    pub open spec fn updated(self, sw_if_index: u32, src: u32, lsas: Seq<LsaV3RawView>) -> InstanceV3View {
        let area = self.area_of(sw_if_index);
        let es = installed(lsas, area, self.area_type(area));
        let spread = (InstanceV3View { lsdb: stored(self.lsdb, es), ..self }).passed_on_all(
            es,
            (sw_if_index, src),
        );
        match instance_v3::iface_pos(spread.interfaces, sw_if_index, 0) {
            None => spread,
            Some(i) => match instance_v3::neighbor_pos(spread.interfaces[i].neighbors, src, 0) {
                None => spread,
                Some(j) => spread.update_settled(i, j, headers_of(es)),
            },
        }
    }
}

impl InterfaceV3 {
    /// Queues an LSA for the Full neighbors but the excluded one.
    pub fn queue_flood(&mut self, lsa: &LsaEntryV3, exclude: Option<(u32, u32)>)
        ensures
            final(self)@ == old(self)@.flooded_here(lsa@, exclude),
    {
        let ghost me = self@;
        let ghost ns = me.neighbors;
        let idx: u32 = self.io.sw_if_index;
        let mut i: usize = 0;
        while i < self.neighbors.len()
            invariant
                i <= self.neighbors@.len(),
                ns == me.neighbors,
                idx == me.io.sw_if_index,
                self.neighbors@.len() == ns.len(),
                self@ == (InterfaceV3View { neighbors: self@.neighbors, ..me }),
                forall|k: int|
                    0 <= k < i ==> (#[trigger] self.neighbors@[k])@ == (if me.flood_target(
                        ns[k],
                        exclude,
                    ) {
                        ns[k].queue(lsa@)
                    } else {
                        ns[k]
                    }),
                forall|k: int| i <= k < ns.len() ==> (#[trigger] self.neighbors@[k])@ == ns[k],
            decreases self.neighbors.len() - i,
        {
            assert(self.neighbors@[i as int]@ == ns[i as int]);
            let excluded = match exclude {
                Some(x) => x.0 == idx && x.1 == self.neighbors[i].router_id,
                None => false,
            };
            if self.neighbors[i].state == NeighborStateV3::Full && !excluded {
                let copy = LsaV3Raw { header: lsa.header, raw: copy_bytes(&lsa.raw) };
                self.neighbors[i].pending_lsu.push(copy);
                assert(self.neighbors@[i as int]@ == ns[i as int].queue(lsa@));
            }
            i = i + 1;
        }
        assert(self@.neighbors =~= me.flooded_here(lsa@, exclude).neighbors);
    }
}

/// Whether the LSA is flooded on an interface in `area`, which is of the given type.
fn floods(lsa: &LsaEntryV3, area: u32, area_type: AreaType) -> (r: bool)
    ensures
        r == lsa@.floods_into(area, area_type),
{
    let ls_type = lsa.header.ls_type;
    if ls_type == LsaV3Type::AsExternal && area_type != AreaType::Normal {
        return false;
    }
    if ls_type == LsaV3Type::Nssa && area_type != AreaType::Nssa {
        return false;
    }
    match lsa.area {
        Some(a) => ls_type == LsaV3Type::AsExternal || ls_type == LsaV3Type::Link || area == a,
        None => true,
    }
}

/// Whether an area of the given type takes LSAs of the type.
fn is_taken(area_type: AreaType, ls_type: LsaV3Type) -> (r: bool)
    ensures
        r == takes(area_type, ls_type),
{
    ls_type != LsaV3Type::AsExternal || area_type == AreaType::Normal
}

/// Whether one of `hs` names the same LSA as `h`.
fn is_named(hs: &Vec<LsaV3Header>, h: &LsaV3Header) -> (r: bool)
    ensures
        r == named_in(hs@, *h),
{
    let mut i: usize = 0;
    while i < hs.len()
        invariant
            i <= hs@.len(),
            forall|k: int| 0 <= k < i ==> !h.same_lsa(#[trigger] hs@[k]),
        decreases hs.len() - i,
    {
        if h.names_same(&hs[i]) {
            return true;
        }
        i = i + 1;
    }
    false
}

impl InstanceV3 {
    /// Queues an LSA for all Full neighbors that may get it, but not for the one it came from.
    pub fn flood_lsa(&mut self, lsa: &LsaEntryV3, exclude: Option<(u32, u32)>)
        ensures
            final(self)@ == old(self)@.flooded(lsa@, exclude),
            final(self).interfaces@.len() == old(self).interfaces@.len(),
    {
        let ghost me = self@;
        let ghost ifs = me.interfaces;
        let mut i: usize = 0;
        while i < self.interfaces.len()
            invariant
                i <= self.interfaces@.len(),
                ifs == me.interfaces,
                self.interfaces@.len() == ifs.len(),
                self@ == (InstanceV3View { interfaces: self@.interfaces, ..me }),
                forall|k: int|
                    0 <= k < i ==> (#[trigger] self.interfaces@[k])@ == ifs[k].flooded(
                        lsa@,
                        me.area_type(ifs[k].area_id),
                        exclude,
                    ),
                forall|k: int| i <= k < ifs.len() ==> (#[trigger] self.interfaces@[k])@ == ifs[k],
            decreases self.interfaces.len() - i,
        {
            assert(self.interfaces@[i as int]@ == ifs[i as int]);
            let area: u32 = self.interfaces[i].area_id;
            let area_type = self.area_type(area);
            if floods(lsa, area, area_type) {
                self.interfaces[i].queue_flood(lsa, exclude);
            }
            i = i + 1;
        }
        assert(self@.interfaces =~= me.flooded(lsa@, exclude).interfaces);
    }

    /// Queues a link-scope LSA for the Full neighbors of one interface.
    pub fn flood_lsa_link_scope(&mut self, lsa: &LsaEntryV3, sw_if_index: u32)
        ensures
            final(self)@ == old(self)@.flooded_on_link(lsa@, sw_if_index, None),
    {
        self.flood_on_link(lsa, sw_if_index, None);
    }

    /// Queues an LSA for the Full neighbors of one interface but the excluded one.
    fn flood_on_link(&mut self, lsa: &LsaEntryV3, sw_if_index: u32, exclude: Option<(u32, u32)>)
        ensures
            final(self)@ == old(self)@.flooded_on_link(lsa@, sw_if_index, exclude),
    {
        if let Some(i) = self.find_interface(sw_if_index) {
            self.interfaces[i].queue_flood(lsa, exclude);
        }
    }

    /// Passes an LSA on that came in on an interface from `src`. A Link-LSA stays on its link.
    fn pass_on(&mut self, lsa: &LsaEntryV3, sw_if_index: u32, src: u32)
        ensures
            final(self)@ == old(self)@.passed_on(lsa@, (sw_if_index, src)),
    {
        if lsa.header.ls_type == LsaV3Type::Link {
            self.flood_on_link(lsa, sw_if_index, Some((sw_if_index, src)));
        } else {
            self.flood_lsa(lsa, Some((sw_if_index, src)));
        }
    }

    /// The area of an interface, the backbone for an unknown one.
    pub fn interface_area(&self, sw_if_index: u32) -> (r: u32)
        ensures
            r == self@.area_of(sw_if_index),
    {
        match self.find_interface(sw_if_index) {
            Some(i) => self.interfaces[i].area_id,
            None => 0,
        }
    }

    /// Queues the requested LSAs that we hold for the neighbor that asked.
    pub fn process_lsr(&mut self, sw_if_index: u32, src: u32, pkt: &LsRequestV3Packet)
        ensures
            final(self)@ == old(self)@.requested(sw_if_index, src, pkt@),
    {
        let ghost me = self@;
        let i: usize = match self.find_interface(sw_if_index) {
            None => {
                return ;
            },
            Some(i) => i,
        };
        assert(self.interfaces@[i as int]@ == me.interfaces[i as int]);
        let j: usize = match self.interfaces[i].find_neighbor(src) {
            None => {
                return ;
            },
            Some(j) => j,
        };
        let area: u32 = self.interfaces[i].area_id;
        let ghost n = me.interfaces[i as int].neighbors[j as int];
        assert(self.interfaces@[i as int].neighbors@[j as int]@ == n);
        let ghost reqs = pkt@;
        let mut k: usize = 0;
        assert(reqs.take(0) =~= Seq::empty());
        let mut lsas: Vec<LsaV3Raw> = Vec::new();
        assert(wire::views(lsas@) =~= Seq::empty());
        while k < pkt.requests.len()
            invariant
                k <= pkt.requests@.len(),
                reqs == pkt.requests@,
                me == self@,
                wire::views(lsas@) == me.answers(reqs.take(k as int), area),
            decreases pkt.requests.len() - k,
        {
            assert(reqs.take(k + 1).drop_last() =~= reqs.take(k as int));
            let r = pkt.requests[k];
            let key = LsaKeyV3 {
                area: scope_for(r.ls_type, area),
                ls_type: r.ls_type,
                link_state_id: r.link_state_id,
                advertising_router: r.advertising_router,
            };
            if let Some(e) = self.lsdb.get(&key) {
                let copy = LsaV3Raw { header: e.header, raw: copy_bytes(&e.raw) };
                lsas.push(copy);
            }
            k = k + 1;
        }
        assert(reqs.take(k as int) =~= reqs);
        let ghost queued = wire::views(self.interfaces@[i as int].neighbors@[j as int].pending_lsu@);
        let ghost added = wire::views(lsas@);
        let ghost q0 = self.interfaces@[i as int].neighbors@[j as int].pending_lsu@;
        let ghost l0 = lsas@;
        self.interfaces[i].neighbors[j].pending_lsu.append(&mut lsas);
        proof {
            let n2 = self.interfaces@[i as int].neighbors@[j as int];
            assert(n2.pending_lsu@ =~= q0 + l0);
            assert(wire::views(n2.pending_lsu@) =~= queued + added);
            assert(n2@ == (NeighborV3View { pending_lsu: queued + added, ..n }));
            assert(wire::views(self.interfaces@[i as int].neighbors@) =~= me.interfaces[i as int].neighbors.update(j as int, n2@));
            assert(wire::views(self.interfaces@) =~= me.interfaces.update(
                i as int,
                self.interfaces@[i as int]@,
            ));
        }
    }

    /// Stores the LSAs of an update, floods them on, and settles them with the neighbor they came
    /// from: what it was asked for is struck off, all are to be acknowledged, and a neighbor that
    /// was only waiting for them becomes Full. AS-external LSAs are stored in normal areas only.
    pub fn process_lsu(&mut self, sw_if_index: u32, src: u32, pkt: LsUpdateV3Packet)
        ensures
            final(self)@ == old(self)@.updated(sw_if_index, src, pkt@),
    {
        let ghost me = self@;
        let area: u32 = self.interface_area(sw_if_index);
        let area_type = self.area_type(area);
        let ghost lsas = pkt@;
        let mut headers: Vec<LsaV3Header> = Vec::new();
        let mut entries: Vec<LsaEntryV3> = Vec::new();
        let mut k: usize = 0;
        assert(lsas.take(0) =~= Seq::empty());
        assert(wire::views(entries@) =~= Seq::empty());
        assert(headers@ =~= headers_of(wire::views(entries@)));
        while k < pkt.lsas.len()
            invariant
                k <= pkt.lsas@.len(),
                lsas == wire::views(pkt.lsas@),
                wire::views(entries@) == installed(lsas.take(k as int), area, area_type),
                headers@ == headers_of(wire::views(entries@)),
                self@ == (InstanceV3View { lsdb: stored(me.lsdb, wire::views(entries@)), ..me }),
            decreases pkt.lsas.len() - k,
        {
            assert(lsas.take(k + 1).drop_last() =~= lsas.take(k as int));
            let l = &pkt.lsas[k];
            assert(l@ == lsas[k as int]);
            if is_taken(area_type, l.header.ls_type) {
                let entry = LsaEntryV3 {
                    header: l.header,
                    raw: copy_bytes(&l.raw),
                    area: scope_for(l.header.ls_type, area),
                };
                let ghost before = wire::views(entries@);
                let ghost e = entry@;
                self.lsdb.insert(entry.duplicate());
                headers.push(entry.header);
                entries.push(entry);
                assert(wire::views(entries@) == before.push(e));
                assert(before.push(e).drop_last() =~= before);
                assert(headers@ =~= headers_of(wire::views(entries@)));
            }
            k = k + 1;
        }
        assert(lsas.take(k as int) =~= lsas);
        let ghost es = wire::views(entries@);
        let ghost mid = self@;
        let mut f: usize = 0;
        assert(es.take(0) =~= Seq::empty());
        while f < entries.len()
            invariant
                f <= entries@.len(),
                es == wire::views(entries@),
                self@ == mid.passed_on_all(es.take(f as int), (sw_if_index, src)),
            decreases entries.len() - f,
        {
            assert(es.take(f + 1).drop_last() =~= es.take(f as int));
            self.pass_on(&entries[f], sw_if_index, src);
            f = f + 1;
        }
        assert(es.take(f as int) =~= es);
        let ghost spread = self@;
        let i: usize = match self.find_interface(sw_if_index) {
            None => {
                return ;
            },
            Some(i) => i,
        };
        assert(self.interfaces@[i as int]@ == spread.interfaces[i as int]);
        let j: usize = match self.interfaces[i].find_neighbor(src) {
            None => {
                return ;
            },
            Some(j) => j,
        };
        let ghost n = spread.interfaces[i as int].neighbors[j as int];
        assert(self.interfaces@[i as int].neighbors@[j as int]@ == n);
        let mut left: Vec<LsaV3Header> = Vec::new();
        let mut r: usize = 0;
        assert(n.request_list.take(0) =~= Seq::empty());
        while r < self.interfaces[i].neighbors[j].request_list.len()
            invariant
                i < self.interfaces@.len(),
                j < self.interfaces@[i as int].neighbors@.len(),
                n.request_list == self.interfaces@[i as int].neighbors@[j as int].request_list@,
                r <= n.request_list.len(),
                left@ == unanswered(n.request_list.take(r as int), headers@),
            decreases n.request_list.len() - r,
        {
            assert(n.request_list.take(r + 1).drop_last() =~= n.request_list.take(r as int));
            let h = self.interfaces[i].neighbors[j].request_list[r];
            if !is_named(&headers, &h) {
                left.push(h);
            }
            r = r + 1;
        }
        assert(n.request_list.take(r as int) =~= n.request_list);
        let loaded = self.interfaces[i].neighbors[j].state == NeighborStateV3::Loading && left.len()
            == 0;
        self.interfaces[i].neighbors[j].request_list = left;
        let ghost hs = headers@;
        self.interfaces[i].neighbors[j].pending_acks.append(&mut headers);
        if loaded {
            self.interfaces[i].neighbors[j].state = NeighborStateV3::Full;
            self.interfaces[i].needs_router_lsa_refresh = true;
        }
        proof {
            let want = spread.update_settled(i as int, j as int, hs);
            let n2 = self.interfaces@[i as int].neighbors@[j as int];
            assert(n2.pending_acks@ =~= n.pending_acks + hs);
            assert(n2@ == want.interfaces[i as int].neighbors[j as int]);
            assert(wire::views(self.interfaces@[i as int].neighbors@)
                =~= want.interfaces[i as int].neighbors);
            assert(self.interfaces@[i as int]@ == want.interfaces[i as int]);
            assert(wire::views(self.interfaces@) =~= want.interfaces);
        }
    }

    /// Takes in an acknowledgment; nothing is retransmitted, so nothing has to be struck off.
    pub fn process_lsack(&mut self, _sw_if_index: u32, _src: u32, _pkt: &LsAckV3Packet)
        ensures
            final(self)@ == old(self)@,
    {
    }
}

} // verus!
