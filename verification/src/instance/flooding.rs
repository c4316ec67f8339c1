//! Link state updates and flooding.
use vstd::prelude::*;

use crate::area;
use crate::area::AreaType;
use crate::instance;
use crate::instance::exchange;
use crate::instance::{OspfInstance, OspfInstanceView, Outgoing};
use crate::lsdb::InstallResult;
use crate::packet;
use crate::packet::lsa;
use crate::packet::lsa::{Lsa, LsaHeader, LsaKey, LsaType};
use crate::packet::lsu::LsUpdatePacket;
use crate::packet::{LsAckPacket, OspfHeader, OspfPacket, OspfPacketType, ALL_SPF_ROUTERS};
use crate::proto::interface;
use crate::proto::interface::{InterfaceState, OspfInterface};
use crate::proto::neighbor;
use crate::proto::neighbor::{Neighbor, NeighborEvent, NeighborState};
use crate::wire;

verus! {

broadcast use {wire::lemma_views_push, wire::lemma_views_update};

/// The LSAs that may enter an area; `external` says whether AS-external ones may.
pub open spec fn admitted(ls: Seq<lsa::LsaView>, external: bool) -> Seq<lsa::LsaView>
    decreases ls.len(),
{
    if ls.len() == 0 {
        Seq::empty()
    } else if external || ls.last().header.ls_type != LsaType::AsExternal {
        admitted(ls.drop_last(), external).push(ls.last())
    } else {
        admitted(ls.drop_last(), external)
    }
}

/// The keys without `k`.
pub open spec fn without(ks: Seq<LsaKey>, k: LsaKey) -> Seq<LsaKey>
    decreases ks.len(),
{
    if ks.len() == 0 {
        Seq::empty()
    } else if ks.last() == k {
        without(ks.drop_last(), k)
    } else {
        without(ks.drop_last(), k).push(ks.last())
    }
}

impl interface::OspfInterfaceView {
    /// Whether a neighbor other than `from` exchanges its database with us or has done so.
    pub open spec fn listens(self, from: u32) -> bool {
        exists|k: int|
            0 <= k < self.neighbors.len() && (#[trigger] self.neighbors[k]).state.at_least(
                NeighborState::Exchange,
            ) && self.neighbors[k].router_id != from
    }
}

impl neighbor::NeighborView {
    /// The neighbor after the LSA with key `k` arrived, and whether that made it Full: the LSA is
    /// no longer requested, and the last one that was completes the adjacency.
    pub open spec fn supplied(self, k: LsaKey, now: u64) -> (neighbor::NeighborView, bool) {
        let n = neighbor::NeighborView {
            ls_request_list: without(self.ls_request_list, k),
            ..self
        };
        if n.state == NeighborState::Loading && n.ls_request_list.len() == 0 {
            (n.after(NeighborEvent::LoadingDone, true, now), true)
        } else {
            (n, false)
        }
    }
}

/// How far an update has been worked off.
pub struct LsuProgress {
    pub inst: OspfInstanceView,
    /// What is to be acknowledged.
    pub acks: Seq<LsaHeader>,
    /// What is to be flooded on.
    pub flood: Seq<lsa::LsaView>,
    /// Whether routes have to be computed.
    pub spf: bool,
    /// Whether the neighbor became Full.
    pub full: bool,
    /// What is sent back to the neighbor.
    pub replies: Seq<instance::OutgoingView>,
}

/// Whether a change of an LSA of this type calls for a route computation.
pub open spec fn moves_routes(t: LsaType) -> bool {
    t == LsaType::Router || t == LsaType::Network || t == LsaType::SummaryNetwork
}

impl OspfInstanceView {
    /// Whether the area takes AS-external LSAs; one that is not known does.
    pub open spec fn takes_externals(self, id: u32) -> bool {
        match instance::area_pos(self.areas, id, 0) {
            Some(a) => self.areas[a].area_type == AreaType::Normal,
            None => true,
        }
    }

    /// The updates that flood `ls` on the interfaces `is`: on each that is up, is not the one at
    /// position `skip` and has a listening neighbor other than `from`. AS-external LSAs stay out of
    /// areas that do not take them.
    pub open spec fn flood_on(
        self,
        is: Seq<interface::OspfInterfaceView>,
        skip: usize,
        from: u32,
        ls: Seq<lsa::LsaView>,
    ) -> Seq<instance::OutgoingView>
        decreases is.len(),
    {
        if is.len() == 0 {
            Seq::empty()
        } else {
            let front = self.flood_on(is.drop_last(), skip, from, ls);
            let f = is.last();
            let out = admitted(ls, self.takes_externals(f.area_id));
            if f.state == InterfaceState::Down || is.len() - 1 == skip || !f.listens(from)
                || out.len() == 0 {
                front
            } else {
                front.push(
                    (
                        f.sw_if_index,
                        ALL_SPF_ROUTERS,
                        exchange::lsu_packet(self.router_id, f.area_id, out),
                    ),
                )
            }
        }
    }

    /// The updates that flood `ls`.
    pub open spec fn flood(self, skip: usize, from: u32, ls: Seq<lsa::LsaView>) -> Seq<
        instance::OutgoingView,
    > {
        self.flood_on(self.interfaces, skip, from, ls)
    }

    /// The updates that flood LSAs of ours, each on its own.
    pub open spec fn flood_own(self, xs: Seq<(u32, lsa::LsaView)>) -> Seq<instance::OutgoingView>
        decreases xs.len(),
    {
        if xs.len() == 0 {
            Seq::empty()
        } else {
            self.flood_own(xs.drop_last()) + self.flood(
                usize::MAX,
                self.router_id,
                seq![xs.last().1],
            )
        }
    }

    /// What becomes of an LSA that arrives in the area; nothing if the area is not known.
    pub open spec fn verdict_in(self, area_id: u32, l: lsa::LsaView) -> Option<InstallResult> {
        if l.header.ls_type == LsaType::AsExternal {
            Some(self.as_external_lsdb.verdict(l))
        } else {
            match instance::area_pos(self.areas, area_id, 0) {
                Some(a) => Some(self.areas[a].lsdb.verdict(l)),
                None => None,
            }
        }
    }

    /// The instance after an LSA arrived in the area.
    pub open spec fn installed_in(self, area_id: u32, l: lsa::LsaView, now: u64) -> OspfInstanceView {
        if l.header.ls_type == LsaType::AsExternal {
            OspfInstanceView { as_external_lsdb: self.as_external_lsdb.install(l, now), ..self }
        } else {
            match instance::area_pos(self.areas, area_id, 0) {
                Some(a) => OspfInstanceView {
                    areas: self.areas.update(
                        a,
                        area::AreaView {
                            lsdb: self.areas[a].lsdb.install(l, now),
                            ..self.areas[a]
                        },
                    ),
                    ..self
                },
                None => self,
            }
        }
    }

    /// The instance after `peer` supplied the LSA with key `k` on the interface at position `i`, and
    /// whether that made it Full.
    pub open spec fn supplied(self, i: int, peer: u32, k: LsaKey, now: u64) -> (
        OspfInstanceView,
        bool,
    ) {
        let f = self.interfaces[i];
        match interface::neighbor_pos(f.neighbors, peer, 0) {
            None => (self, false),
            Some(j) => {
                let r = f.neighbors[j].supplied(k, now);
                (
                    self.with_iface(
                        i,
                        interface::OspfInterfaceView {
                            neighbors: f.neighbors.update(j, r.0),
                            ..f
                        },
                    ),
                    r.1,
                )
            },
        }
    }
}

impl LsuProgress {
    /// One more LSA of the update. AS-external LSAs are dropped where the area does not take them.
    /// A new instance is stored, acknowledged, flooded on and no longer requested; a known one is
    /// acknowledged; an old one is answered with ours.
    pub open spec fn step(
        self,
        i: int,
        src: u32,
        peer: u32,
        area_id: u32,
        external: bool,
        l: lsa::LsaView,
        now: u64,
    ) -> LsuProgress {
        if l.header.ls_type == LsaType::AsExternal && !external {
            self
        } else {
            match self.inst.verdict_in(area_id, l) {
                None => self,
                Some(InstallResult::New) | Some(InstallResult::Updated) => {
                    let r = self.inst.installed_in(area_id, l, now).supplied(
                        i,
                        peer,
                        l.header.spec_key(),
                        now,
                    );
                    LsuProgress {
                        inst: r.0,
                        acks: self.acks.push(l.header),
                        flood: self.flood.push(l),
                        spf: self.spf || moves_routes(l.header.ls_type),
                        full: self.full || r.1,
                        ..self
                    }
                },
                Some(InstallResult::Duplicate) => LsuProgress {
                    acks: self.acks.push(l.header),
                    ..self
                },
                Some(InstallResult::Older) => match self.inst.stored(area_id, l.header.spec_key()) {
                    None => self,
                    Some(ours) => LsuProgress {
                        replies: self.replies.push(
                            (
                                self.inst.interfaces[i].sw_if_index,
                                src,
                                exchange::lsu_packet(self.inst.router_id, area_id, seq![ours.lsa]),
                            ),
                        ),
                        ..self
                    },
                },
            }
        }
    }
}

impl OspfInstanceView {
    /// The LSAs `ls` of an update worked off.
    pub open spec fn lsu_progress(
        self,
        i: int,
        src: u32,
        peer: u32,
        ls: Seq<lsa::LsaView>,
        now: u64,
    ) -> LsuProgress
        decreases ls.len(),
    {
        if ls.len() == 0 {
            LsuProgress {
                inst: self,
                acks: Seq::empty(),
                flood: Seq::empty(),
                spf: false,
                full: false,
                replies: Seq::empty(),
            }
        } else {
            let id = self.interfaces[i].area_id;
            self.lsu_progress(i, src, peer, ls.drop_last(), now).step(
                i,
                src,
                peer,
                id,
                self.takes_externals(id),
                ls.last(),
                now,
            )
        }
    }

    /// The instance after our Router-LSAs and Network-LSAs were issued anew, and the updates that
    /// flood them.
    pub open spec fn reissued(self, now: u64) -> (OspfInstanceView, Seq<instance::OutgoingView>) {
        let r = self.with_router_lsas(now);
        let n = r.network_lsas(r.interfaces, now);
        (n.0, r.flood_own(self.router_lsas(self.areas)) + n.0.flood_own(n.1))
    }

    /// The instance after an update of `peer` on the interface at position `i`, the packets that it
    /// causes, and whether the routes between areas have to be announced anew.
    pub open spec fn after_lsu(
        self,
        i: int,
        src: u32,
        peer: u32,
        ls: Seq<lsa::LsaView>,
        now: u64,
    ) -> (OspfInstanceView, Seq<instance::OutgoingView>, bool) {
        let f = self.interfaces[i];
        let p = self.lsu_progress(i, src, peer, ls, now);
        let ack = if p.acks.len() == 0 {
            Seq::empty()
        } else {
            seq![
                (
                    f.sw_if_index,
                    src,
                    packet::OspfPacketView::LinkStateAck(
                        OspfHeader::fresh(OspfPacketType::LinkStateAck, self.router_id, f.area_id),
                        p.acks,
                    ),
                ),
            ]
        };
        let on = if p.flood.len() == 0 {
            Seq::empty()
        } else {
            p.inst.flood(i as usize, peer, p.flood)
        };
        let again = if p.full {
            p.inst.reissued(now)
        } else {
            (p.inst, Seq::empty())
        };
        (
            if p.spf || p.full {
                again.0.scheduled(now)
            } else {
                again.0
            },
            p.replies + ack + on + again.1,
            p.full && self.border(),
        )
    }
}

impl OspfInterface {
    /// Whether a neighbor other than `from` exchanges its database with us or has done so.
    fn has_listener(&self, from: u32) -> (r: bool)
        ensures
            r == self@.listens(from),
    {
        let mut i: usize = 0;
        while i < self.neighbors.len()
            invariant
                i <= self.neighbors@.len(),
                forall|k: int|
                    0 <= k < i ==> !((#[trigger] self@.neighbors[k]).state.at_least(
                        NeighborState::Exchange,
                    ) && self@.neighbors[k].router_id != from),
            decreases self.neighbors.len() - i,
        {
            assert(self@.neighbors[i as int] == self.neighbors@[i as int]@);
            if self.neighbors[i].state.reached(NeighborState::Exchange)
                && self.neighbors[i].router_id != from {
                return true;
            }
            i = i + 1;
        }
        false
    }
}

impl Neighbor {
    /// Takes note that the LSA with key `k` arrived. Says whether that made the neighbor Full.
    pub fn take_supply(&mut self, k: &LsaKey, now: u64) -> (full: bool)
        ensures
            (final(self)@, full) == old(self)@.supplied(*k, now),
    {
        let ghost ks = self.ls_request_list@;
        let mut rest: Vec<LsaKey> = Vec::new();
        let mut i: usize = 0;
        let ghost me = self@;
        assert(ks.take(0) =~= Seq::empty());
        while i < self.ls_request_list.len()
            invariant
                i <= self.ls_request_list@.len(),
                ks == self.ls_request_list@,
                self@ == me,
                rest@ == without(ks.take(i as int), *k),
            decreases self.ls_request_list.len() - i,
        {
            assert(ks.take(i + 1).drop_last() =~= ks.take(i as int));
            if self.ls_request_list[i] != *k {
                rest.push(self.ls_request_list[i]);
            }
            i = i + 1;
        }
        assert(ks.take(i as int) =~= ks);
        self.ls_request_list = rest;
        if self.state == NeighborState::Loading && self.ls_request_list.len() == 0 {
            let _s = self.handle_event(NeighborEvent::LoadingDone, true, now);
            true
        } else {
            false
        }
    }
}

/// The LSAs that may enter an area.
fn select(ls: &Vec<Lsa>, external: bool) -> (r: Vec<Lsa>)
    ensures
        wire::views(r@) == admitted(wire::views(ls@), external),
{
    let ghost s = wire::views(ls@);
    let mut v: Vec<Lsa> = Vec::new();
    let mut i: usize = 0;
    assert(s.take(0) =~= Seq::empty());
    assert(wire::views(v@) =~= Seq::empty());
    while i < ls.len()
        invariant
            i <= ls@.len(),
            s == wire::views(ls@),
            wire::views(v@) == admitted(s.take(i as int), external),
        decreases ls.len() - i,
    {
        assert(s.take(i + 1).drop_last() =~= s.take(i as int));
        assert(s[i as int] == ls@[i as int]@);
        if external || ls[i].header.ls_type != LsaType::AsExternal {
            v.push(ls[i].duplicate());
        }
        i = i + 1;
    }
    assert(s.take(i as int) =~= s);
    v
}

impl OspfInstance {
    /// Whether the area takes AS-external LSAs.
    fn area_takes_externals(&self, id: u32) -> (r: bool)
        ensures
            r == self@.takes_externals(id),
    {
        match self.find_area(id) {
            Some(a) => {
                assert(self.areas@[a as int]@ == self@.areas[a as int]);
                self.areas[a].accepts_as_external()
            },
            None => true,
        }
    }

    /// Appends the updates that flood LSAs: on each interface that is up and has a neighbor other
    /// than `from_router` that exchanges its database with us or has done so, but not on the one at
    /// position `input_iface_idx`, which the LSAs came from. LSAs of our own come from none: its
    /// position is then `usize::MAX`.
    pub fn flood_lsas_to_others(
        &self,
        input_iface_idx: usize,
        from_router: u32,
        lsas: &Vec<Lsa>,
        out: &mut Vec<Outgoing>,
    )
        ensures
            wire::views(final(out)@) == wire::views(old(out)@) + self@.flood(
                input_iface_idx,
                from_router,
                wire::views(lsas@),
            ),
    {
        let ghost is = self@.interfaces;
        let ghost ls = wire::views(lsas@);
        let ghost sent = wire::views(out@);
        let mut i: usize = 0;
        assert(is.take(0) =~= Seq::empty());
        assert(sent + Seq::<instance::OutgoingView>::empty() =~= sent);
        while i < self.interfaces.len()
            invariant
                i <= self.interfaces@.len(),
                is == self@.interfaces,
                ls == wire::views(lsas@),
                wire::views(out@) == sent + self@.flood_on(
                    is.take(i as int),
                    input_iface_idx,
                    from_router,
                    ls,
                ),
            decreases self.interfaces.len() - i,
        {
            assert(is.take(i + 1).drop_last() =~= is.take(i as int));
            assert(self.interfaces@[i as int]@ == is[i as int]);
            let f = &self.interfaces[i];
            if f.state != InterfaceState::Down && i != input_iface_idx && f.has_listener(
                from_router,
            ) {
                let external = self.area_takes_externals(f.area_id);
                let sel = select(lsas, external);
                if sel.len() > 0 {
                    let p = OspfPacket::LinkStateUpdate(
                        OspfHeader::new(
                            OspfPacketType::LinkStateUpdate,
                            self.router_id,
                            f.area_id,
                        ),
                        LsUpdatePacket { lsas: sel },
                    );
                    out.push((f.sw_if_index, ALL_SPF_ROUTERS, p));
                    assert(wire::views(out@) =~= sent + self@.flood_on(
                        is.take(i + 1),
                        input_iface_idx,
                        from_router,
                        ls,
                    ));
                }
            }
            i = i + 1;
        }
        assert(is.take(i as int) =~= is);
    }

    /// Appends the updates that flood LSAs of ours, each on its own.
    pub fn flood_own_lsas(&self, xs: &Vec<(u32, Lsa)>, out: &mut Vec<Outgoing>)
        ensures
            wire::views(final(out)@) == wire::views(old(out)@) + self@.flood_own(
                wire::views(xs@),
            ),
    {
        let ghost s = wire::views(xs@);
        let ghost sent = wire::views(out@);
        let mut i: usize = 0;
        assert(s.take(0) =~= Seq::empty());
        assert(sent + Seq::<instance::OutgoingView>::empty() =~= sent);
        while i < xs.len()
            invariant
                i <= xs@.len(),
                s == wire::views(xs@),
                wire::views(out@) == sent + self@.flood_own(s.take(i as int)),
            decreases xs.len() - i,
        {
            assert(s.take(i + 1).drop_last() =~= s.take(i as int));
            assert(s[i as int] == xs@[i as int]@);
            let mut one: Vec<Lsa> = Vec::new();
            one.push(xs[i].1.duplicate());
            assert(wire::views(one@) =~= seq![s[i as int].1]);
            let ghost before = wire::views(out@);
            self.flood_lsas_to_others(usize::MAX, self.router_id, &one, out);
            assert(wire::views(out@) =~= sent + self@.flood_own(s.take(i + 1)));
            i = i + 1;
        }
        assert(s.take(i as int) =~= s);
    }

    /// Offers an LSA to the database that it belongs to; nothing if its area is not known.
    fn install_in(&mut self, area_id: u32, l: Lsa, now: u64) -> (r: Option<InstallResult>)
        ensures
            r == old(self)@.verdict_in(area_id, l@),
            final(self)@ == old(self)@.installed_in(area_id, l@, now),
    {
        let ghost me = self@;
        if l.header.ls_type == LsaType::AsExternal {
            Some(self.as_external_lsdb.install(l, now))
        } else {
            match self.find_area(area_id) {
                Some(a) => {
                    assert(self.areas@[a as int]@ == me.areas[a as int]);
                    let r = self.areas[a].lsdb.install(l, now);
                    assert(self@.areas =~= me.installed_in(area_id, l@, now).areas);
                    Some(r)
                },
                None => None,
            }
        }
    }

    /// Takes note that `peer` supplied the LSA with key `k`. Says whether that made it Full.
    fn note_supply(&mut self, i: usize, peer: u32, k: &LsaKey, now: u64) -> (full: bool)
        requires
            i < old(self)@.interfaces.len(),
        ensures
            (final(self)@, full) == old(self)@.supplied(i as int, peer, *k, now),
    {
        let ghost me = self@;
        let ghost f = me.interfaces[i as int];
        assert(self.interfaces@[i as int]@ == f);
        match self.interfaces[i].find_neighbor(peer) {
            None => false,
            Some(j) => {
                assert(f.neighbors[j as int] == self.interfaces@[i as int].neighbors@[j as int]@);
                let full = self.interfaces[i].neighbors[j].take_supply(k, now);
                let ghost r = f.neighbors[j as int].supplied(*k, now);
                assert(self@.interfaces[i as int].neighbors =~= f.neighbors.update(
                    j as int,
                    r.0,
                ));
                assert(self@.interfaces =~= me.supplied(i as int, peer, *k, now).0.interfaces);
                full
            },
        }
    }

    /// Takes an update of the router `peer` in and appends the packets that it causes. Says whether
    /// the routes between areas have to be announced anew (`originate_summary_lsas`): that is so
    /// when the neighbor became Full and we are a border router.
    pub fn process_lsu(
        &mut self,
        i: usize,
        src: u32,
        peer: u32,
        u: &LsUpdatePacket,
        now: u64,
        out: &mut Vec<Outgoing>,
    ) -> (summaries_due: bool)
        requires
            i < old(self)@.interfaces.len(),
        ensures
            final(self)@ == old(self)@.after_lsu(i as int, src, peer, u@, now).0,
            wire::views(final(out)@) == wire::views(old(out)@) + old(self)@.after_lsu(
                i as int,
                src,
                peer,
                u@,
                now,
            ).1,
            summaries_due == old(self)@.after_lsu(i as int, src, peer, u@, now).2,
    {
        let ghost me = self@;
        let ghost sent = wire::views(out@);
        let ghost f = me.interfaces[i as int];
        assert(self.interfaces@[i as int]@ == f);
        let area_id: u32 = self.interfaces[i].area_id;
        let sw_if_index: u32 = self.interfaces[i].sw_if_index;
        let rid: u32 = self.router_id;
        let external = self.area_takes_externals(area_id);
        let border = self.is_abr();
        let mut acks: Vec<LsaHeader> = Vec::new();
        let mut flood: Vec<Lsa> = Vec::new();
        let mut spf = false;
        let mut full = false;
        let mut k: usize = 0;
        assert(u@.take(0) =~= Seq::empty());
        assert(wire::views(flood@) =~= Seq::empty());
        assert(sent + Seq::<instance::OutgoingView>::empty() =~= sent);
        while k < u.lsas.len()
            invariant
                k <= u.lsas@.len(),
                i < me.interfaces.len(),
                f == me.interfaces[i as int],
                area_id == f.area_id,
                sw_if_index == f.sw_if_index,
                rid == me.router_id,
                external == me.takes_externals(area_id),
                ({
                    let p = me.lsu_progress(i as int, src, peer, u@.take(k as int), now);
                    &&& self@ == p.inst
                    &&& acks@ == p.acks
                    &&& wire::views(flood@) == p.flood
                    &&& spf == p.spf
                    &&& full == p.full
                    &&& wire::views(out@) == sent + p.replies
                }),
                same_wiring(self@, me),
            decreases u.lsas.len() - k,
        {
            assert(u@.take(k + 1).drop_last() =~= u@.take(k as int));
            let ghost p = me.lsu_progress(i as int, src, peer, u@.take(k as int), now);
            let l = &u.lsas[k];
            assert(u@[k as int] == l@);
            assert(u@.take(k + 1).last() == l@);
            let ghost q = p.step(i as int, src, peer, area_id, external, l@, now);
            assert(me.lsu_progress(i as int, src, peer, u@.take(k + 1), now) == q);
            if l.header.ls_type != LsaType::AsExternal || external {
                let key = l.key();
                let ghost before = self@;
                let r = self.install_in(area_id, l.duplicate(), now);
                proof {
                    lemma_install_wiring(before, area_id, l@, now);
                }
                match r {
                    None => {},
                    Some(InstallResult::New) | Some(InstallResult::Updated) => {
                        let ghost mid = self@;
                        acks.push(l.header);
                        let done = self.note_supply(i, peer, &key, now);
                        proof {
                            lemma_supply_wiring(mid, i as int, peer, key, now);
                        }
                        if done {
                            full = true;
                        }
                        if l.header.ls_type == LsaType::Router || l.header.ls_type
                            == LsaType::Network || l.header.ls_type == LsaType::SummaryNetwork {
                            spf = true;
                        }
                        flood.push(l.duplicate());
                    },
                    Some(InstallResult::Duplicate) => {
                        proof {
                            lemma_not_stored(before, area_id, l@, now);
                        }
                        acks.push(l.header);
                    },
                    Some(InstallResult::Older) => {
                        proof {
                            lemma_not_stored(before, area_id, l@, now);
                        }
                        if let Some(ours) = self.stored_lsa(area_id, &key) {
                            let mut one: Vec<Lsa> = Vec::new();
                            let ghost ov = ours@;
                            one.push(ours);
                            assert(wire::views(one@) =~= seq![ov]);
                            let pkt = OspfPacket::LinkStateUpdate(
                                OspfHeader::new(OspfPacketType::LinkStateUpdate, rid, area_id),
                                LsUpdatePacket { lsas: one },
                            );
                            out.push((sw_if_index, src, pkt));
                            assert(wire::views(out@) =~= sent + q.replies);
                        }
                    },
                }
            }
            k = k + 1;
        }
        assert(u@.take(k as int) =~= u@);
        let ghost p = me.lsu_progress(i as int, src, peer, u@, now);
        let ghost want = me.after_lsu(i as int, src, peer, u@, now);
        self.finish_lsu(i, src, peer, acks, &flood, spf, full, now, out);
        proof {
            lemma_same_border(p.inst, me);
        }
        assert(wire::views(out@) =~= sent + want.1);
        full && border
    }

    /// Acknowledges and floods what an update brought, and issues our LSAs anew if the neighbor
    /// became Full.
    fn finish_lsu(
        &mut self,
        i: usize,
        src: u32,
        peer: u32,
        acks: Vec<LsaHeader>,
        flood: &Vec<Lsa>,
        spf: bool,
        full: bool,
        now: u64,
        out: &mut Vec<Outgoing>,
    )
        requires
            i < old(self)@.interfaces.len(),
        ensures
            ({
                let s = old(self)@;
                let f = s.interfaces[i as int];
                let again = if full {
                    s.reissued(now)
                } else {
                    (s, Seq::empty())
                };
                &&& final(self)@ == (if spf || full {
                    again.0.scheduled(now)
                } else {
                    again.0
                })
                &&& wire::views(final(out)@) == wire::views(old(out)@) + (if acks@.len() == 0 {
                    Seq::empty()
                } else {
                    seq![
                        (
                            f.sw_if_index,
                            src,
                            packet::OspfPacketView::LinkStateAck(
                                OspfHeader::fresh(
                                    OspfPacketType::LinkStateAck,
                                    s.router_id,
                                    f.area_id,
                                ),
                                acks@,
                            ),
                        ),
                    ]
                }) + (if flood@.len() == 0 {
                    Seq::empty()
                } else {
                    s.flood(i, peer, wire::views(flood@))
                }) + again.1
            }),
    {
        let ghost sent = wire::views(out@);
        let ghost s = self@;
        assert(self.interfaces@[i as int]@ == s.interfaces[i as int]);
        let ghost a = if acks@.len() == 0 {
            Seq::empty()
        } else {
            seq![
                (
                    s.interfaces[i as int].sw_if_index,
                    src,
                    packet::OspfPacketView::LinkStateAck(
                        OspfHeader::fresh(
                            OspfPacketType::LinkStateAck,
                            s.router_id,
                            s.interfaces[i as int].area_id,
                        ),
                        acks@,
                    ),
                ),
            ]
        };
        if acks.len() > 0 {
            let pkt = OspfPacket::LinkStateAck(
                OspfHeader::new(
                    OspfPacketType::LinkStateAck,
                    self.router_id,
                    self.interfaces[i].area_id,
                ),
                LsAckPacket { headers: acks },
            );
            out.push((self.interfaces[i].sw_if_index, src, pkt));
        }
        assert(wire::views(out@) =~= sent + a);
        let ghost b = if flood@.len() == 0 {
            Seq::empty()
        } else {
            s.flood(i, peer, wire::views(flood@))
        };
        if flood.len() > 0 {
            self.flood_lsas_to_others(i, peer, flood, out);
        }
        assert(wire::views(out@) =~= sent + a + b);
        if full {
            self.reissue(now, out);
        } else {
            assert(sent + a + b + Seq::<instance::OutgoingView>::empty() =~= sent + a + b);
        }
        if spf || full {
            self.schedule_spf(now);
        }
    }

    /// Issues our Router-LSAs and Network-LSAs anew and appends the updates that flood them.
    fn reissue(&mut self, now: u64, out: &mut Vec<Outgoing>)
        ensures
            final(self)@ == old(self)@.reissued(now).0,
            wire::views(final(out)@) == wire::views(old(out)@) + old(self)@.reissued(now).1,
    {
        let ghost sent = wire::views(out@);
        let rs = self.originate_router_lsas(now);
        self.flood_own_lsas(&rs, out);
        let ns = self.originate_network_lsas(now);
        self.flood_own_lsas(&ns, out);
        assert(wire::views(out@) =~= sent + old(self)@.reissued(now).1);
    }
}

/// Whether the two differ in nothing that decides where packets go: the areas and their types, and
/// the interfaces but for their neighbors.
pub open spec fn same_wiring(a: OspfInstanceView, b: OspfInstanceView) -> bool {
    &&& a.router_id == b.router_id
    &&& a.redistribute == b.redistribute
    &&& a.areas.len() == b.areas.len()
    &&& forall|k: int|
        0 <= k < a.areas.len() ==> (#[trigger] a.areas[k]).area_id == b.areas[k].area_id
            && a.areas[k].area_type == b.areas[k].area_type && a.areas[k].default_cost
            == b.areas[k].default_cost
    &&& a.interfaces.len() == b.interfaces.len()
    &&& forall|k: int|
        0 <= k < a.interfaces.len() ==> #[trigger] a.interfaces[k] == (
        interface::OspfInterfaceView { neighbors: a.interfaces[k].neighbors, ..b.interfaces[k] })
}

/// Searching for an area finds what is there.
pub proof fn lemma_area_pos(s: Seq<area::AreaView>, id: u32, from: int)
    requires
        0 <= from,
    ensures
        match instance::area_pos(s, id, from) {
            Some(i) => from <= i < s.len() && s[i].area_id == id && forall|j: int|
                from <= j < i ==> (#[trigger] s[j]).area_id != id,
            None => forall|j: int| from <= j < s.len() ==> (#[trigger] s[j]).area_id != id,
        },
    decreases s.len() - from,
{
    if from < s.len() && s[from].area_id != id {
        lemma_area_pos(s, id, from + 1);
    }
}

/// Storing an LSA leaves the wiring alone.
proof fn lemma_install_wiring(s: OspfInstanceView, area_id: u32, l: lsa::LsaView, now: u64)
    ensures
        same_wiring(s.installed_in(area_id, l, now), s),
        s.installed_in(area_id, l, now).interfaces == s.interfaces,
{
    lemma_area_pos(s.areas, area_id, 0);
}

/// Supplying an LSA leaves the wiring alone.
proof fn lemma_supply_wiring(s: OspfInstanceView, i: int, peer: u32, k: LsaKey, now: u64)
    requires
        0 <= i < s.interfaces.len(),
    ensures
        same_wiring(s.supplied(i, peer, k, now).0, s),
{
}

/// An LSA that is not stored changes nothing.
proof fn lemma_not_stored(s: OspfInstanceView, area_id: u32, l: lsa::LsaView, now: u64)
    requires
        s.verdict_in(area_id, l) matches Some(r) && !r.stored(),
    ensures
        s.installed_in(area_id, l, now) == s,
{
    lemma_area_pos(s.areas, area_id, 0);
    match instance::area_pos(s.areas, area_id, 0) {
        Some(a) => {
            assert(s.areas.update(a, s.areas[a]) =~= s.areas);
        },
        None => {},
    }
}

/// With the same wiring, both border the backbone or neither does.
pub proof fn lemma_same_border(a: OspfInstanceView, b: OspfInstanceView)
    requires
        same_wiring(a, b),
    ensures
        a.border() == b.border(),
{
    assert forall|k: int| 0 <= k < a.interfaces.len() implies (#[trigger] a.interfaces[k]).area_id
        == b.interfaces[k].area_id by {}
    assert forall|k: int| 0 <= k < b.interfaces.len() implies (#[trigger] b.interfaces[k]).area_id
        == a.interfaces[k].area_id by {
        assert(a.interfaces[k].area_id == b.interfaces[k].area_id);
    }
}

} // verus!
