//! What the event loop of an instance does at each event.
use vstd::prelude::*;

use crate::instance;
use crate::instance::exchange;
use crate::instance::{OspfInstance, OspfInstanceView, Outgoing};
use crate::io;
use crate::io::{RxPacket, TxPacket};
use crate::lsdb;
use crate::packet;
use crate::packet::auth;
use crate::packet::auth::verify_auth;
use crate::packet::{OspfHeader, OspfPacket, OspfPacketType, PacketError, ALL_SPF_ROUTERS};
use crate::prefix;
use crate::prefix::prefix_len_to_mask;
use crate::proto::interface;
use crate::proto::interface::{
    seconds_after, InterfaceEvent, InterfaceState, NetworkType, OspfInterface,
};
use crate::wire;

verus! {

broadcast use {wire::lemma_views_push, wire::lemma_views_update};

/// A Hello that is due: one packet for every destination.
#[derive(Debug)]
pub struct DueHello {
    /// The position of the interface.
    pub interface: usize,
    pub sw_if_index: u32,
    pub src_addr: u32,
    /// The packet without authentication.
    pub data: Vec<u8>,
    pub destinations: Vec<u32>,
    /// The number under which a keyed digest goes out.
    pub crypto_seq: u32,
}

/// What a due Hello is.
pub struct DueHelloView {
    pub interface: usize,
    pub sw_if_index: u32,
    pub src_addr: u32,
    pub data: Seq<u8>,
    pub destinations: Seq<u32>,
    pub crypto_seq: u32,
}

impl View for DueHello {
    type V = DueHelloView;

    open spec fn view(&self) -> DueHelloView {
        DueHelloView {
            interface: self.interface,
            sw_if_index: self.sw_if_index,
            src_addr: self.src_addr,
            data: self.data@,
            destinations: self.destinations@,
            crypto_seq: self.crypto_seq,
        }
    }
}

/// A packet that goes out of the interface at a position, without authentication.
#[derive(Debug)]
pub struct Departure {
    /// The position of the interface.
    pub interface: usize,
    pub packet: TxPacket,
    /// The number under which a keyed digest goes out.
    pub crypto_seq: u32,
}

/// What goes out.
pub struct DepartureView {
    pub interface: usize,
    pub packet: io::TxPacketView,
    pub crypto_seq: u32,
}

impl View for Departure {
    type V = DepartureView;

    open spec fn view(&self) -> DepartureView {
        DepartureView {
            interface: self.interface,
            packet: self.packet@,
            crypto_seq: self.crypto_seq,
        }
    }
}

impl interface::OspfInterfaceView {
    /// Whether a Hello is due; a passive interface sends none.
    pub open spec fn hello_due(self, now: u64) -> bool {
        !self.passive && self.state != InterfaceState::Down && now >= self.next_hello
    }

    /// Where Hellos go: to each configured neighbor of a non-broadcast network, else to the group
    /// of all OSPF routers.
    pub open spec fn hello_destinations(self) -> Seq<u32> {
        if self.network_type == NetworkType::NonBroadcast {
            Seq::new(self.static_neighbors.len(), |k: int| self.static_neighbors[k].address)
        } else {
            seq![ALL_SPF_ROUTERS]
        }
    }

    /// The interface after an authenticated packet went out.
    pub open spec fn counted(self) -> interface::OspfInterfaceView {
        interface::OspfInterfaceView {
            crypto_seq: if self.crypto_seq == u32::MAX {
                0
            } else {
                (self.crypto_seq + 1) as u32
            },
            ..self
        }
    }

    /// The interface after its Hello went out, if one was due.
    pub open spec fn greeting(self, now: u64) -> interface::OspfInterfaceView {
        if self.hello_due(now) {
            interface::OspfInterfaceView {
                next_hello: interface::later(now, self.hello_interval as u32),
                ..self.counted()
            }
        } else {
            self
        }
    }

    /// The interface after its waiting ended, if it is over.
    pub open spec fn waited(self, now: u64) -> interface::OspfInterfaceView {
        match self.wait_until {
            Some(t) if now >= t => self.after(InterfaceEvent::WaitTimer, now),
            _ => self,
        }
    }
}

/// The Hello of the interface at position `k`.
pub open spec fn due_hello(f: interface::OspfInterfaceView, k: int, me: u32) -> DueHelloView {
    DueHelloView {
        interface: k as usize,
        sw_if_index: f.sw_if_index,
        src_addr: f.address,
        data: packet::OspfPacketView::Hello(
            OspfHeader::fresh(OspfPacketType::Hello, me, f.area_id),
            f.hello(),
        ).bytes(),
        destinations: f.hello_destinations(),
        crypto_seq: f.counted().crypto_seq,
    }
}

/// The Hellos that are due.
pub open spec fn due_hellos(is: Seq<interface::OspfInterfaceView>, me: u32, now: u64) -> Seq<
    DueHelloView,
>
    decreases is.len(),
{
    if is.len() == 0 {
        Seq::empty()
    } else {
        let front = due_hellos(is.drop_last(), me, now);
        if is.last().hello_due(now) {
            front.push(due_hello(is.last(), is.len() - 1, me))
        } else {
            front
        }
    }
}

impl OspfInstanceView {
    /// The instance after the due Hellos went out.
    pub open spec fn greeted_all(self, now: u64) -> OspfInstanceView {
        OspfInstanceView {
            interfaces: Seq::new(self.interfaces.len(), |k: int| self.interfaces[k].greeting(now)),
            ..self
        }
    }

    /// The instance after waiting ended on the interfaces on which it is over.
    pub open spec fn waited_all(self, now: u64) -> OspfInstanceView {
        OspfInstanceView {
            interfaces: Seq::new(self.interfaces.len(), |k: int| self.interfaces[k].waited(now)),
            ..self
        }
    }

    /// The instance after first packets of exchanges went out.
    pub open spec fn opened_all(self, now: u64) -> OspfInstanceView {
        OspfInstanceView {
            interfaces: Seq::new(
                self.interfaces.len(),
                |k: int| self.interfaces[k].after_openings(now),
            ),
            ..self
        }
    }

    /// The instance after unanswered requests went out again.
    pub open spec fn requested_all(self, now: u64) -> OspfInstanceView {
        OspfInstanceView {
            interfaces: Seq::new(
                self.interfaces.len(),
                |k: int| self.interfaces[k].after_requests(now),
            ),
            ..self
        }
    }

    /// The packets as they go out, each counted on its interface. A packet for an unknown interface
    /// is dropped.
    pub open spec fn departing(self, outs: Seq<instance::OutgoingView>) -> (
        OspfInstanceView,
        Seq<DepartureView>,
    )
        decreases outs.len(),
    {
        if outs.len() == 0 {
            (self, Seq::empty())
        } else {
            let front = self.departing(outs.drop_last());
            let o = outs.last();
            match instance::iface_pos(front.0.interfaces, o.0, 0) {
                None => front,
                Some(i) => (
                    front.0.with_iface(i, front.0.interfaces[i].counted()),
                    front.1.push(
                        DepartureView {
                            interface: i as usize,
                            packet: io::TxPacketView {
                                sw_if_index: o.0,
                                src_addr: front.0.interfaces[i].address,
                                dst_addr: o.1,
                                data: o.2.bytes(),
                            },
                            crypto_seq: front.0.interfaces[i].counted().crypto_seq,
                        },
                    ),
                ),
            }
        }
    }

    /// The instance after it looked for silent neighbors. If there were any, our Router-LSAs are
    /// issued anew and routes have to be computed.
    pub open spec fn after_neighbor_tick(self, now: u64) -> OspfInstanceView {
        let t = self.after_silence(now);
        if self.has_silent(now) {
            t.with_router_lsas(now).scheduled(now)
        } else {
            t
        }
    }

    /// The instance after its databases were looked through.
    pub open spec fn after_lsdb_tick(self, now: u64) -> OspfInstanceView {
        let m = self.maintained(now);
        if m.2 {
            m.0.scheduled(now)
        } else {
            m.0
        }
    }
}

impl OspfInterface {
    /// Where Hellos go.
    fn destinations(&self) -> (r: Vec<u32>)
        ensures
            r@ == self@.hello_destinations(),
    {
        let mut v: Vec<u32> = Vec::new();
        if self.network_type == NetworkType::NonBroadcast {
            let mut i: usize = 0;
            while i < self.static_neighbors.len()
                invariant
                    i <= self.static_neighbors@.len(),
                    v@ =~= Seq::new(i as nat, |k: int| self.static_neighbors@[k].address),
                decreases self.static_neighbors.len() - i,
            {
                v.push(self.static_neighbors[i].address);
                i = i + 1;
            }
        } else {
            v.push(ALL_SPF_ROUTERS);
        }
        assert(v@ =~= self@.hello_destinations());
        v
    }

    /// Counts a packet that went out.
    fn count_packet(&mut self)
        ensures
            final(self)@ == old(self)@.counted(),
    {
        self.crypto_seq = if self.crypto_seq == u32::MAX {
            0
        } else {
            self.crypto_seq + 1
        };
    }
}

/// What came of an arriving packet.
#[derive(Debug)]
pub enum Reception {
    /// It arrived on an unknown interface or its authentication is wrong.
    Refused,
    /// It cannot be read.
    Invalid(PacketError),
    /// It was taken in: the packets that it causes, and whether the routes between areas have to
    /// be announced anew.
    Taken(Vec<Outgoing>, bool),
}

/// What came of an arriving packet.
pub enum ReceptionView {
    Refused,
    Invalid(PacketError),
    Taken(Seq<instance::OutgoingView>, bool),
}

impl View for Reception {
    type V = ReceptionView;

    open spec fn view(&self) -> ReceptionView {
        match *self {
            Reception::Refused => ReceptionView::Refused,
            Reception::Invalid(e) => ReceptionView::Invalid(e),
            Reception::Taken(outs, due) => ReceptionView::Taken(wire::views(outs@), due),
        }
    }
}

impl OspfInstanceView {
    /// Whether the authentication of a packet is right. `digest` says so for keyed digests.
    pub open spec fn trusts(self, p: io::RxPacketView, digest: bool) -> bool {
        match instance::iface_pos(self.interfaces, p.sw_if_index, 0) {
            None => false,
            Some(i) => match auth::authentic(p.data, self.interfaces[i].auth_key) {
                Some(b) => b,
                None => digest,
            },
        }
    }

    /// The instance after an arriving packet and what came of it.
    pub open spec fn receiving(self, p: io::RxPacketView, digest: bool, now: u64) -> (
        OspfInstanceView,
        ReceptionView,
    ) {
        if !self.trusts(p, digest) {
            (self, ReceptionView::Refused)
        } else {
            match packet::OspfPacketView::spec_parse(p.data) {
                Err(e) => (self, ReceptionView::Invalid(e)),
                Ok(q) => {
                    let r = self.after_packet(p.sw_if_index, p.src_addr, q, now);
                    (r.0, ReceptionView::Taken(r.1, r.2))
                },
            }
        }
    }
}

/// Address and state of an interface as the forwarder reports them.
#[derive(Clone, Copy, Debug)]
pub struct Snapshot {
    pub sw_if_index: u32,
    /// The first address and the length of its prefix.
    pub address: Option<(u32, u8)>,
    pub up: bool,
}

impl Snapshot {
    /// Address, mask and state to take over. An interface without an address counts as down.
    pub open spec fn settings(self) -> (u32, u32, bool) {
        match self.address {
            Some(a) => (a.0, prefix::mask_v4(a.1 as int), self.up),
            None => (0, 0, false),
        }
    }
}

impl OspfInstanceView {
    /// The instance after a snapshot and whether it changed anything.
    pub open spec fn snapped(self, s: Snapshot, now: u64) -> (OspfInstanceView, bool) {
        match instance::iface_pos(self.interfaces, s.sw_if_index, 0) {
            None => (self, false),
            Some(i) => {
                let t = s.settings();
                let r = self.interfaces[i].refreshed(t.0, t.1, t.2, now);
                (self.with_iface(i, r.0), r.1)
            },
        }
    }

    /// The instance after snapshots and whether any changed anything.
    pub open spec fn snapped_all(self, ss: Seq<Snapshot>, now: u64) -> (OspfInstanceView, bool)
        decreases ss.len(),
    {
        if ss.len() == 0 {
            (self, false)
        } else {
            let front = self.snapped_all(ss.drop_last(), now);
            let r = front.0.snapped(ss.last(), now);
            (r.0, front.1 || r.1)
        }
    }

    /// The instance after the interfaces were looked at. After a change our Router-LSAs are issued
    /// anew and routes have to be computed.
    pub open spec fn after_refresh(self, ss: Seq<Snapshot>, now: u64) -> OspfInstanceView {
        let r = self.snapped_all(ss, now);
        if r.1 {
            r.0.with_router_lsas(now).scheduled(now)
        } else {
            r.0
        }
    }
}

impl OspfInstance {
    /// The Hellos that are due, each counted on its interface; the next one follows after the Hello
    /// interval.
    pub fn hello_tick(&mut self, now: u64) -> (out: Vec<DueHello>)
        ensures
            final(self)@ == old(self)@.greeted_all(now),
            wire::views(out@) == due_hellos(old(self)@.interfaces, old(self)@.router_id, now),
    {
        let ghost start = self@;
        let ghost is = start.interfaces;
        let mut out: Vec<DueHello> = Vec::new();
        let mut i: usize = 0;
        assert(is.take(0) =~= Seq::empty());
        assert(wire::views(out@) =~= Seq::empty());
        while i < self.interfaces.len()
            invariant
                i <= self.interfaces@.len(),
                self.interfaces@.len() == is.len(),
                is == start.interfaces,
                self@ == (OspfInstanceView { interfaces: self@.interfaces, ..start }),
                forall|k: int|
                    0 <= k < i ==> (#[trigger] self.interfaces@[k])@ == is[k].greeting(now),
                forall|k: int| i <= k < is.len() ==> (#[trigger] self.interfaces@[k])@ == is[k],
                wire::views(out@) == due_hellos(is.take(i as int), start.router_id, now),
            decreases self.interfaces.len() - i,
        {
            assert(is.take(i + 1).drop_last() =~= is.take(i as int));
            assert(self.interfaces@[i as int]@ == is[i as int]);
            if !self.interfaces[i].passive && self.interfaces[i].state != InterfaceState::Down && now
                >= self.interfaces[i].next_hello {
                let f = &self.interfaces[i];
                out.push(
                    DueHello {
                        interface: i,
                        sw_if_index: f.sw_if_index,
                        src_addr: f.address,
                        data: self.build_hello(f).encode(),
                        destinations: f.destinations(),
                        crypto_seq: f.crypto_seq.wrapping_add(1),
                    },
                );
                let next: u64 = seconds_after(now, f.hello_interval as u32);
                self.interfaces[i].count_packet();
                self.interfaces[i].next_hello = next;
            }
            i = i + 1;
        }
        assert(is.take(i as int) =~= is);
        assert(self@.interfaces =~= start.greeted_all(now).interfaces);
        out
    }

    /// Ends waiting on the interfaces on which it is over.
    pub fn wait_tick(&mut self, now: u64)
        ensures
            final(self)@ == old(self)@.waited_all(now),
    {
        let ghost start = self@;
        let ghost is = start.interfaces;
        let mut i: usize = 0;
        while i < self.interfaces.len()
            invariant
                i <= self.interfaces@.len(),
                self.interfaces@.len() == is.len(),
                is == start.interfaces,
                self@ == (OspfInstanceView { interfaces: self@.interfaces, ..start }),
                forall|k: int|
                    0 <= k < i ==> (#[trigger] self.interfaces@[k])@ == is[k].waited(now),
                forall|k: int| i <= k < is.len() ==> (#[trigger] self.interfaces@[k])@ == is[k],
            decreases self.interfaces.len() - i,
        {
            assert(self.interfaces@[i as int]@ == is[i as int]);
            let over = match self.interfaces[i].wait_until {
                Some(t) => now >= t,
                None => false,
            };
            if over {
                self.interfaces[i].handle_event(InterfaceEvent::WaitTimer, now);
            }
            i = i + 1;
        }
        assert(self@.interfaces =~= start.waited_all(now).interfaces);
    }

    /// What happens every second: due Hellos, the end of waiting, and the packets of exchanges that
    /// have to be sent or sent again.
    pub fn on_hello_tick(&mut self, now: u64) -> (r: (Vec<DueHello>, Vec<Outgoing>))
        ensures
            ({
                let a = old(self)@.greeted_all(now).waited_all(now);
                let b = a.opened_all(now);
                &&& final(self)@ == b.requested_all(now)
                &&& wire::views(r.0@) == due_hellos(
                    old(self)@.interfaces,
                    old(self)@.router_id,
                    now,
                )
                &&& wire::views(r.1@) == exchange::all_opening_packets(
                    a.interfaces,
                    a.router_id,
                    now,
                ) + exchange::all_repeated_requests(b.interfaces, b.router_id, now)
            }),
    {
        let hellos = self.hello_tick(now);
        self.wait_tick(now);
        let mut out = self.emit_pending_dds(now);
        let ghost first = wire::views(out@);
        let mut more = self.emit_pending_lsrs(now);
        let ghost second = wire::views(more@);
        let ghost front = out@;
        let ghost back = more@;
        out.append(&mut more);
        assert(out@ =~= front + back);
        assert(wire::views(out@) =~= first + second);
        (hellos, out)
    }

    /// The packets as they go out, each counted on its interface.
    pub fn depart(&mut self, outs: Vec<Outgoing>) -> (r: Vec<Departure>)
        ensures
            (final(self)@, wire::views(r@)) == old(self)@.departing(wire::views(outs@)),
    {
        let ghost start = self@;
        let ghost s = wire::views(outs@);
        let mut r: Vec<Departure> = Vec::new();
        let mut i: usize = 0;
        assert(s.take(0) =~= Seq::empty());
        assert(wire::views(r@) =~= Seq::empty());
        while i < outs.len()
            invariant
                i <= outs@.len(),
                s == wire::views(outs@),
                (self@, wire::views(r@)) == start.departing(s.take(i as int)),
            decreases outs.len() - i,
        {
            assert(s.take(i + 1).drop_last() =~= s.take(i as int));
            let o = &outs[i];
            assert(s.take(i + 1).last() == o@);
            let ghost me = self@;
            match self.find_interface(o.0) {
                None => {},
                Some(k) => {
                    assert(self.interfaces@[k as int]@ == me.interfaces[k as int]);
                    let packet = TxPacket {
                        sw_if_index: o.0,
                        src_addr: self.interfaces[k].address,
                        dst_addr: o.1,
                        data: o.2.encode(),
                    };
                    self.interfaces[k].count_packet();
                    assert(self@.interfaces =~= me.interfaces.update(
                        k as int,
                        me.interfaces[k as int].counted(),
                    ));
                    r.push(Departure { interface: k, packet, crypto_seq: self.interfaces[k].crypto_seq });
                },
            }
            i = i + 1;
        }
        assert(s.take(i as int) =~= s);
        r
    }

    /// Looks for silent neighbors.
    pub fn on_neighbor_tick(&mut self, now: u64)
        ensures
            final(self)@ == old(self)@.after_neighbor_tick(now),
    {
        if self.check_neighbor_timers(now) {
            let _l = self.originate_router_lsa(now);
            self.schedule_spf(now);
        }
    }

    /// Looks through the databases. Gives the updates that have to be sent, and whether the
    /// AS-external LSAs have to be issued again.
    pub fn on_lsdb_tick(&mut self, now: u64) -> (r: (Vec<Outgoing>, bool))
        ensures
            final(self)@ == old(self)@.after_lsdb_tick(now),
            wire::views(r.0@) == old(self)@.maintained(now).1,
            r.1 == (lsdb::stale_keys(old(self)@.as_external_lsdb.entries, now).len() > 0),
    {
        let externals = self.as_external_refresh_due(now);
        let mut out: Vec<Outgoing> = Vec::new();
        assert(wire::views(out@) =~= Seq::empty());
        if self.periodic_maintenance(now, &mut out) {
            self.schedule_spf(now);
        }
        assert(wire::views(out@) =~= old(self)@.maintained(now).1);
        (out, externals)
    }

    /// Takes an arriving packet in if its authentication is right. `digest_ok` says so for keyed
    /// digests.
    pub fn receive(&mut self, rx: &RxPacket, digest_ok: bool, now: u64) -> (r: Reception)
        ensures
            (final(self)@, r@) == old(self)@.receiving(rx@, digest_ok, now),
    {
        let trusted = match self.find_interface(rx.sw_if_index) {
            None => false,
            Some(i) => {
                assert(self.interfaces@[i as int]@ == self@.interfaces[i as int]);
                match verify_auth(rx.data.as_slice(), &self.interfaces[i].auth_key) {
                    Some(b) => b,
                    None => digest_ok,
                }
            },
        };
        if !trusted {
            return Reception::Refused;
        }
        match OspfPacket::parse(rx.data.as_slice()) {
            Err(e) => Reception::Invalid(e),
            Ok(p) => {
                let r = self.process_packet(rx.sw_if_index, rx.src_addr, &p, now);
                Reception::Taken(r.0, r.1)
            },
        }
    }

    /// The indices of the interfaces that the forwarder knows.
    pub fn resolved_indices(&self) -> (r: Vec<u32>)
        ensures
            r@ == known_indices(self@.interfaces),
    {
        let ghost s = self@.interfaces;
        let mut v: Vec<u32> = Vec::new();
        let mut i: usize = 0;
        assert(s.take(0) =~= Seq::empty());
        while i < self.interfaces.len()
            invariant
                i <= self.interfaces@.len(),
                s == self@.interfaces,
                v@ == known_indices(s.take(i as int)),
            decreases self.interfaces.len() - i,
        {
            assert(s.take(i + 1).drop_last() =~= s.take(i as int));
            assert(s.take(i + 1).last() == self.interfaces@[i as int]@);
            if self.interfaces[i].sw_if_index != 0 {
                v.push(self.interfaces[i].sw_if_index);
            }
            i = i + 1;
        }
        assert(s.take(i as int) =~= s);
        v
    }

    /// Takes over what the forwarder reports of the interfaces.
    pub fn on_interface_refresh(&mut self, snapshots: &Vec<Snapshot>, now: u64)
        requires
            forall|k: int|
                0 <= k < snapshots@.len() ==> ((#[trigger] snapshots@[k]).address matches Some(a)
                    ==> a.1 <= 32),
        ensures
            final(self)@ == old(self)@.after_refresh(snapshots@, now),
    {
        let ghost start = self@;
        let mut any = false;
        let mut i: usize = 0;
        assert(snapshots@.take(0) =~= Seq::empty());
        while i < snapshots.len()
            invariant
                i <= snapshots@.len(),
                forall|k: int|
                    0 <= k < snapshots@.len() ==> ((#[trigger] snapshots@[k]).address matches Some(
                        a,
                    ) ==> a.1 <= 32),
                (self@, any) == start.snapped_all(snapshots@.take(i as int), now),
            decreases snapshots.len() - i,
        {
            assert(snapshots@.take(i + 1).drop_last() =~= snapshots@.take(i as int));
            let s = snapshots[i];
            let changed = match s.address {
                Some(a) => self.refresh_interface_state(
                    s.sw_if_index,
                    a.0,
                    prefix_len_to_mask(a.1),
                    s.up,
                    now,
                ),
                None => self.refresh_interface_state(s.sw_if_index, 0, 0, false, now),
            };
            if changed {
                any = true;
            }
            i = i + 1;
        }
        assert(snapshots@.take(i as int) =~= snapshots@);
        if any {
            let _l = self.originate_router_lsa(now);
            self.schedule_spf(now);
        }
    }
}

/// The indices that are not zero.
pub open spec fn known_indices(s: Seq<interface::OspfInterfaceView>) -> Seq<u32>
    decreases s.len(),
{
    if s.len() == 0 {
        Seq::empty()
    } else if s.last().sw_if_index != 0 {
        known_indices(s.drop_last()).push(s.last().sw_if_index)
    } else {
        known_indices(s.drop_last())
    }
}

/// When each peer was last warned of.
#[derive(Debug)]
pub struct AuthWarnings {
    /// Interface index, source address and time of each warning.
    pub last: Vec<(u32, u32, u64)>,
}

/// The position of the warning of a peer at or behind `from`.
pub open spec fn warning_pos(s: Seq<(u32, u32, u64)>, idx: u32, src: u32, from: int) -> Option<int>
    decreases s.len() - from,
{
    if from < 0 || from >= s.len() {
        None
    } else if s[from].0 == idx && s[from].1 == src {
        Some(from)
    } else {
        warning_pos(s, idx, src, from + 1)
    }
}

/// The warnings after a failure of a peer at `now`, and whether to warn: at most once a minute of
/// each peer.
pub open spec fn warned(s: Seq<(u32, u32, u64)>, idx: u32, src: u32, now: u64) -> (
    Seq<(u32, u32, u64)>,
    bool,
) {
    match warning_pos(s, idx, src, 0) {
        None => (s.push((idx, src, now)), true),
        Some(i) => if instance::elapsed(now, s[i].2) >= 60000 {
            (s.update(i, (idx, src, now)), true)
        } else {
            (s, false)
        },
    }
}

impl AuthWarnings {
    /// No warnings yet.
    pub fn new() -> (r: AuthWarnings)
        ensures
            r.last@ == Seq::<(u32, u32, u64)>::empty(),
    {
        AuthWarnings { last: Vec::new() }
    }

    /// Whether to warn of a failed authentication. Further failures of the same peer are passed
    /// over for a minute.
    pub fn should_warn(&mut self, sw_if_index: u32, src_addr: u32, now: u64) -> (b: bool)
        ensures
            (final(self).last@, b) == warned(old(self).last@, sw_if_index, src_addr, now),
    {
        let mut i: usize = 0;
        while i < self.last.len()
            invariant
                i <= self.last@.len(),
                self.last@ == old(self).last@,
                warning_pos(self.last@, sw_if_index, src_addr, 0) == warning_pos(
                    self.last@,
                    sw_if_index,
                    src_addr,
                    i as int,
                ),
            decreases self.last.len() - i,
        {
            let w: (u32, u32, u64) = self.last[i];
            if w.0 == sw_if_index && w.1 == src_addr {
                if exchange::millis_since(now, w.2) >= 60000 {
                    self.last[i] = (sw_if_index, src_addr, now);
                    return true;
                }
                return false;
            }
            i = i + 1;
        }
        self.last.push((sw_if_index, src_addr, now));
        true
    }
}

} // verus!
