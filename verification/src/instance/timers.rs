//! Incoming packets, timers and the state of interfaces.
use vstd::prelude::*;

use crate::area;
use crate::instance;
use crate::instance::exchange::millis_since;
use crate::instance::{OspfInstance, OspfInstanceView, Outgoing};
use crate::lsdb;
use crate::packet;
use crate::packet::OspfPacket;
use crate::proto::interface;
use crate::proto::interface::{InterfaceEvent, InterfaceState, OspfInterface};
use crate::proto::neighbor;
use crate::proto::neighbor::{NeighborEvent, NeighborState};
use crate::wire;

verus! {

broadcast use {wire::lemma_views_push, wire::lemma_views_update};

/// The ids of the neighbors that were silent for `dead` milliseconds.
pub open spec fn silent_ids(ns: Seq<neighbor::NeighborView>, dead: int, now: u64) -> Seq<u32>
    decreases ns.len(),
{
    if ns.len() == 0 {
        Seq::empty()
    } else if ns.last().state != NeighborState::Down && instance::elapsed(now, ns.last().last_heard)
        >= dead {
        silent_ids(ns.drop_last(), dead, now).push(ns.last().router_id)
    } else {
        silent_ids(ns.drop_last(), dead, now)
    }
}

impl interface::OspfInterfaceView {
    /// The interface after the neighbor `id` fell silent. If it was more than heard of, the
    /// designated router is elected anew.
    pub open spec fn lost(self, id: u32, now: u64) -> interface::OspfInterfaceView {
        match interface::neighbor_pos(self.neighbors, id, 0) {
            None => self,
            Some(j) => {
                let n = self.neighbors[j];
                let t = interface::OspfInterfaceView {
                    neighbors: self.neighbors.update(
                        j,
                        n.after(NeighborEvent::InactivityTimer, false, now),
                    ),
                    ..self
                };
                if n.state.at_least(NeighborState::TwoWay) {
                    t.after(InterfaceEvent::NeighborChange, now)
                } else {
                    t
                }
            },
        }
    }

    /// The interface after the neighbors `ids` fell silent.
    pub open spec fn lost_all(self, ids: Seq<u32>, now: u64) -> interface::OspfInterfaceView
        decreases ids.len(),
    {
        if ids.len() == 0 {
            self
        } else {
            self.lost_all(ids.drop_last(), now).lost(ids.last(), now)
        }
    }

    /// The ids of the neighbors that were silent for the dead interval.
    pub open spec fn silent(self, now: u64) -> Seq<u32> {
        silent_ids(self.neighbors, interface::millis(self.dead_interval), now)
    }

    /// The interface with a fresh address and state of the link. Coming up and going down are
    /// events of the state machine.
    pub open spec fn refreshed(self, address: u32, mask: u32, up: bool, now: u64) -> (
        interface::OspfInterfaceView,
        bool,
    ) {
        let t = interface::OspfInterfaceView { address, mask, ..self };
        let was_up = self.state != InterfaceState::Down;
        (
            if up && !was_up {
                t.after(InterfaceEvent::InterfaceUp, now)
            } else if !up && was_up {
                t.after(InterfaceEvent::InterfaceDown, now)
            } else {
                t
            },
            self.address != address || self.mask != mask || up != was_up,
        )
    }
}

/// The area without the LSAs that reached the maximal age.
pub open spec fn purged_area(a: area::AreaView, now: u64) -> area::AreaView {
    area::AreaView {
        lsdb: lsdb::LsdbView { entries: lsdb::live_entries(a.lsdb.entries, now), ..a.lsdb },
        ..a
    }
}

impl OspfInstanceView {
    /// The instance after a packet from `src` on the interface with index `idx`, the packets that it
    /// causes, and whether the routes between areas have to be announced anew. A packet on an
    /// unknown interface or of another area is ignored, and an acknowledgment asks for nothing.
    pub open spec fn after_packet(
        self,
        idx: u32,
        src: u32,
        p: packet::OspfPacketView,
        now: u64,
    ) -> (OspfInstanceView, Seq<instance::OutgoingView>, bool) {
        match instance::iface_pos(self.interfaces, idx, 0) {
            None => (self, Seq::empty(), false),
            Some(i) => if p.header().area_id != self.interfaces[i].area_id {
                (self, Seq::empty(), false)
            } else {
                match p {
                    packet::OspfPacketView::Hello(h, b) => (
                        self.with_iface(
                            i,
                            self.interfaces[i].after_hello(
                                self.router_id,
                                src,
                                h.router_id,
                                b,
                                now,
                            ),
                        ),
                        Seq::empty(),
                        false,
                    ),
                    packet::OspfPacketView::DatabaseDescription(h, b) => {
                        let r = self.after_dd(i, src, h.router_id, b, now);
                        (r.0, r.1, false)
                    },
                    packet::OspfPacketView::LinkStateRequest(h, b) => {
                        let r = self.after_lsr(i, src, h.router_id, b, now);
                        (r.0, r.1, false)
                    },
                    packet::OspfPacketView::LinkStateUpdate(h, b) => self.after_lsu(
                        i,
                        src,
                        h.router_id,
                        b,
                        now,
                    ),
                    packet::OspfPacketView::LinkStateAck(_, _) => (self, Seq::empty(), false),
                }
            },
        }
    }

    /// The instance after silent neighbors were given up.
    pub open spec fn after_silence(self, now: u64) -> OspfInstanceView {
        OspfInstanceView {
            interfaces: Seq::new(
                self.interfaces.len(),
                |k: int| self.interfaces[k].lost_all(self.interfaces[k].silent(now), now),
            ),
            ..self
        }
    }

    /// Whether a neighbor was silent for the dead interval.
    pub open spec fn has_silent(self, now: u64) -> bool {
        exists|k: int|
            0 <= k < self.interfaces.len() && (#[trigger] self.interfaces[k]).silent(now).len() > 0
    }

    /// Whether an LSA of ours in an area has to be issued again.
    pub open spec fn refresh_due(self, now: u64) -> bool {
        exists|k: int|
            0 <= k < self.areas.len() && lsdb::stale_keys(
                (#[trigger] self.areas[k]).lsdb.entries,
                now,
            ).len() > 0
    }

    /// The instance without the LSAs that reached the maximal age.
    pub open spec fn purged(self, now: u64) -> OspfInstanceView {
        OspfInstanceView {
            areas: Seq::new(self.areas.len(), |k: int| purged_area(self.areas[k], now)),
            as_external_lsdb: lsdb::LsdbView {
                entries: lsdb::live_entries(self.as_external_lsdb.entries, now),
                ..self.as_external_lsdb
            },
            ..self
        }
    }

    /// Whether an LSA reached the maximal age.
    pub open spec fn has_expired(self, now: u64) -> bool {
        lsdb::expired_keys(self.as_external_lsdb.entries, now).len() > 0 || exists|k: int|
            0 <= k < self.areas.len() && lsdb::expired_keys(
                (#[trigger] self.areas[k]).lsdb.entries,
                now,
            ).len() > 0
    }

    /// The instance after its databases were looked through, the updates that it causes and whether
    /// anything changed.
    pub open spec fn maintained(self, now: u64) -> (
        OspfInstanceView,
        Seq<instance::OutgoingView>,
        bool,
    ) {
        let t = if self.refresh_due(now) {
            self.with_router_lsas(now)
        } else {
            self
        };
        (
            t.purged(now),
            if self.refresh_due(now) {
                t.flood_own(self.router_lsas(self.areas))
            } else {
                Seq::empty()
            },
            self.refresh_due(now) || t.has_expired(now),
        )
    }
}

impl OspfInterface {
    /// Gives up the neighbor `id`, which fell silent.
    fn lose(&mut self, id: u32, now: u64)
        ensures
            final(self)@ == old(self)@.lost(id, now),
    {
        let ghost me = self@;
        match self.find_neighbor(id) {
            None => {},
            Some(j) => {
                assert(self.neighbors@[j as int]@ == me.neighbors[j as int]);
                let crossed = self.neighbors[j].state.reached(NeighborState::TwoWay);
                let _s = self.neighbors[j].handle_event(NeighborEvent::InactivityTimer, false, now);
                assert(self@.neighbors =~= me.neighbors.update(
                    j as int,
                    me.neighbors[j as int].after(NeighborEvent::InactivityTimer, false, now),
                ));
                if crossed {
                    self.handle_event(InterfaceEvent::NeighborChange, now);
                }
            },
        }
    }

    /// Gives up the neighbors that were silent for the dead interval. Says whether there are any.
    pub fn drop_silent(&mut self, now: u64) -> (changed: bool)
        ensures
            final(self)@ == old(self)@.lost_all(old(self)@.silent(now), now),
            changed == (old(self)@.silent(now).len() > 0),
    {
        let ghost me = self@;
        let ghost ns = me.neighbors;
        let dead: u64 = self.dead_duration();
        let mut ids: Vec<u32> = Vec::new();
        let mut i: usize = 0;
        assert(ns.take(0) =~= Seq::empty());
        while i < self.neighbors.len()
            invariant
                i <= self.neighbors@.len(),
                self@ == me,
                ns == me.neighbors,
                ids@ == silent_ids(ns.take(i as int), dead as int, now),
            decreases self.neighbors.len() - i,
        {
            assert(ns.take(i + 1).drop_last() =~= ns.take(i as int));
            assert(self.neighbors@[i as int]@ == ns[i as int]);
            if self.neighbors[i].state != NeighborState::Down && millis_since(
                now,
                self.neighbors[i].last_heard,
            ) >= dead {
                ids.push(self.neighbors[i].router_id);
            }
            i = i + 1;
        }
        assert(ns.take(i as int) =~= ns);
        let mut k: usize = 0;
        assert(ids@.take(0) =~= Seq::empty());
        while k < ids.len()
            invariant
                k <= ids@.len(),
                self@ == me.lost_all(ids@.take(k as int), now),
            decreases ids.len() - k,
        {
            assert(ids@.take(k + 1).drop_last() =~= ids@.take(k as int));
            self.lose(ids[k], now);
            k = k + 1;
        }
        assert(ids@.take(k as int) =~= ids@);
        ids.len() > 0
    }
}

impl OspfInstance {
    /// Takes a packet from `src_addr` on the interface with the given index in. Gives the packets
    /// that it causes and whether the routes between areas have to be announced anew
    /// (`originate_summary_lsas`).
    pub fn process_packet(
        &mut self,
        sw_if_index: u32,
        src_addr: u32,
        packet: &OspfPacket,
        now: u64,
    ) -> (r: (Vec<Outgoing>, bool))
        ensures
            (final(self)@, wire::views(r.0@), r.1) == old(self)@.after_packet(
                sw_if_index,
                src_addr,
                packet@,
                now,
            ),
    {
        let ghost me = self@;
        let mut out: Vec<Outgoing> = Vec::new();
        assert(wire::views(out@) =~= Seq::empty());
        let i: usize = match self.find_interface(sw_if_index) {
            None => {
                return (out, false);
            },
            Some(i) => i,
        };
        assert(self.interfaces@[i as int]@ == me.interfaces[i as int]);
        if packet.header().area_id != self.interfaces[i].area_id {
            return (out, false);
        }
        let ghost want = me.after_packet(sw_if_index, src_addr, packet@, now);
        match packet {
            OspfPacket::Hello(h, b) => {
                let rid: u32 = self.router_id;
                self.interfaces[i].process_hello(rid, src_addr, h.router_id, b, now);
                assert(self@.interfaces =~= want.0.interfaces);
                (out, false)
            },
            OspfPacket::DatabaseDescription(h, b) => {
                self.process_dd(i, src_addr, h.router_id, b, now, &mut out);
                assert(wire::views(out@) =~= want.1);
                (out, false)
            },
            OspfPacket::LinkStateRequest(h, b) => {
                self.process_lsr(i, src_addr, h.router_id, b, now, &mut out);
                assert(wire::views(out@) =~= want.1);
                (out, false)
            },
            OspfPacket::LinkStateUpdate(h, b) => {
                let due = self.process_lsu(i, src_addr, h.router_id, b, now, &mut out);
                assert(wire::views(out@) =~= want.1);
                (out, due)
            },
            OspfPacket::LinkStateAck(_, _) => (out, false),
        }
    }

    /// Takes over the address, mask and state of the interface with the given index. Says whether
    /// our LSAs have to be issued anew.
    pub fn refresh_interface_state(
        &mut self,
        sw_if_index: u32,
        new_address: u32,
        new_mask: u32,
        oper_up: bool,
        now: u64,
    ) -> (changed: bool)
        ensures
            match instance::iface_pos(old(self)@.interfaces, sw_if_index, 0) {
                None => final(self)@ == old(self)@ && !changed,
                Some(i) => {
                    let r = old(self)@.interfaces[i].refreshed(new_address, new_mask, oper_up, now);
                    final(self)@ == old(self)@.with_iface(i, r.0) && changed == r.1
                },
            },
    {
        let ghost me = self@;
        let i: usize = match self.find_interface(sw_if_index) {
            None => {
                return false;
            },
            Some(i) => i,
        };
        let ghost f = me.interfaces[i as int];
        assert(self.interfaces@[i as int]@ == f);
        let mut changed = false;
        if self.interfaces[i].address != new_address || self.interfaces[i].mask != new_mask {
            self.interfaces[i].address = new_address;
            self.interfaces[i].mask = new_mask;
            changed = true;
        }
        let was_up = self.interfaces[i].state != InterfaceState::Down;
        if oper_up && !was_up {
            self.interfaces[i].handle_event(InterfaceEvent::InterfaceUp, now);
            changed = true;
        } else if !oper_up && was_up {
            self.interfaces[i].handle_event(InterfaceEvent::InterfaceDown, now);
            changed = true;
        }
        let ghost r = f.refreshed(new_address, new_mask, oper_up, now);
        assert(self.interfaces@[i as int]@ == r.0);
        assert(self@.interfaces =~= me.interfaces.update(i as int, r.0));
        changed
    }

    /// Gives up the neighbors that were silent for the dead interval. Says whether there are any.
    pub fn check_neighbor_timers(&mut self, now: u64) -> (changed: bool)
        ensures
            final(self)@ == old(self)@.after_silence(now),
            changed == old(self)@.has_silent(now),
    {
        let ghost me = self@;
        let ghost is = me.interfaces;
        let mut changed = false;
        let mut i: usize = 0;
        while i < self.interfaces.len()
            invariant
                i <= self.interfaces@.len(),
                self.interfaces@.len() == is.len(),
                is == me.interfaces,
                self@ == (OspfInstanceView { interfaces: self@.interfaces, ..me }),
                forall|k: int|
                    0 <= k < i ==> (#[trigger] self.interfaces@[k])@ == is[k].lost_all(
                        is[k].silent(now),
                        now,
                    ),
                forall|k: int| i <= k < is.len() ==> (#[trigger] self.interfaces@[k])@ == is[k],
                changed == exists|k: int| 0 <= k < i && (#[trigger] is[k]).silent(now).len() > 0,
            decreases self.interfaces.len() - i,
        {
            assert(self.interfaces@[i as int]@ == is[i as int]);
            let c = self.interfaces[i].drop_silent(now);
            if c {
                changed = true;
            }
            i = i + 1;
        }
        assert(self@.interfaces =~= me.after_silence(now).interfaces);
        changed
    }

    /// Whether an LSA of ours in an area has to be issued again.
    fn any_refresh_due(&self, now: u64) -> (r: bool)
        ensures
            r == self@.refresh_due(now),
    {
        let mut i: usize = 0;
        while i < self.areas.len()
            invariant
                i <= self.areas@.len(),
                forall|k: int|
                    0 <= k < i ==> lsdb::stale_keys(
                        (#[trigger] self@.areas[k]).lsdb.entries,
                        now,
                    ).len() == 0,
            decreases self.areas.len() - i,
        {
            assert(self@.areas[i as int] == self.areas@[i as int]@);
            if self.areas[i].lsdb.self_originated_due_for_refresh(now).len() > 0 {
                return true;
            }
            i = i + 1;
        }
        false
    }

    /// Takes out the LSAs that reached the maximal age. Says whether there are any.
    fn purge(&mut self, now: u64) -> (any: bool)
        ensures
            final(self)@ == old(self)@.purged(now),
            any == old(self)@.has_expired(now),
    {
        let ghost me = self@;
        let ghost s = me.areas;
        let mut any = false;
        let mut i: usize = 0;
        while i < self.areas.len()
            invariant
                i <= self.areas@.len(),
                self.areas@.len() == s.len(),
                s == me.areas,
                self@ == (OspfInstanceView { areas: self@.areas, ..me }),
                forall|k: int|
                    0 <= k < i ==> (#[trigger] self.areas@[k])@ == purged_area(s[k], now),
                forall|k: int| i <= k < s.len() ==> (#[trigger] self.areas@[k])@ == s[k],
                any == exists|k: int|
                    0 <= k < i && lsdb::expired_keys((#[trigger] s[k]).lsdb.entries, now).len() > 0,
            decreases self.areas.len() - i,
        {
            assert(self.areas@[i as int]@ == s[i as int]);
            let gone = self.areas[i].lsdb.flush_max_age(now);
            if gone.len() > 0 {
                any = true;
            }
            i = i + 1;
        }
        let gone = self.as_external_lsdb.flush_max_age(now);
        assert(self@.areas =~= me.purged(now).areas);
        any || gone.len() > 0
    }

    /// Looks through the databases: issues our Router-LSAs again when an LSA of ours is due for it,
    /// appends the updates that flood them, and takes out LSAs that reached the maximal age. Says
    /// whether anything changed.
    pub fn periodic_maintenance(&mut self, now: u64, out: &mut Vec<Outgoing>) -> (changed: bool)
        ensures
            final(self)@ == old(self)@.maintained(now).0,
            wire::views(final(out)@) == wire::views(old(out)@) + old(self)@.maintained(now).1,
            changed == old(self)@.maintained(now).2,
    {
        let ghost me = self@;
        let ghost sent = wire::views(out@);
        let due = self.any_refresh_due(now);
        if due {
            let ls = self.originate_router_lsas(now);
            self.flood_own_lsas(&ls, out);
        } else {
            assert(sent + Seq::<instance::OutgoingView>::empty() =~= sent);
        }
        let gone = self.purge(now);
        due || gone
    }

    /// Whether an AS-external LSA of ours has to be issued again.
    pub fn as_external_refresh_due(&self, now: u64) -> (r: bool)
        ensures
            r == (lsdb::stale_keys(self@.as_external_lsdb.entries, now).len() > 0),
    {
        self.as_external_lsdb.self_originated_due_for_refresh(now).len() > 0
    }
}

} // verus!
