//! Dispatch of received packets.
use vstd::prelude::*;

use crate::instance_v3;
use crate::instance_v3::{InstanceV3, InstanceV3View, InterfaceV3View};
use crate::io_v3::RxPacketV3;
use crate::lsdb_v3::{LsaEntryV3View, LsaKeyV3};
use crate::packet_v3;
use crate::packet_v3::dd::{DbDescV3Packet, DbDescV3View};
use crate::packet_v3::hello::{HelloV3Packet, HelloV3View};
use crate::packet_v3::lsack::LsAckV3Packet;
use crate::packet_v3::lsr;
use crate::packet_v3::lsr::LsRequestV3Packet;
use crate::packet_v3::lsu;
use crate::packet_v3::lsu::LsUpdateV3Packet;
use crate::packet_v3::{LsaV3Header, LsaV3Type, Ospfv3Header, Ospfv3PacketType, PacketV3Error};
use crate::packet_v3::OSPFV3_HEADER_LEN;
use crate::wire;
use crate::wire::copy_range;

verus! {

broadcast use {wire::lemma_views_push, wire::lemma_views_update};

/// Whether an LSA is described on an interface: link-scope ones only on their own link, area-scope
/// ones only in their own area, AS-scope ones everywhere.
pub open spec fn described_on(e: LsaEntryV3View, interface_id: u32, area: u32) -> bool {
    if e.header.ls_type == LsaV3Type::Link {
        e.header.link_state_id == interface_id
    } else if e.header.ls_type == LsaV3Type::AsExternal {
        true
    } else {
        e.area == Some(area)
    }
}

/// The headers of the LSAs that are described on an interface.
pub open spec fn describable(es: Seq<LsaEntryV3View>, interface_id: u32, area: u32) -> Seq<LsaV3Header>
    decreases es.len(),
{
    if es.len() == 0 {
        Seq::empty()
    } else {
        let front = describable(es.drop_last(), interface_id, area);
        if described_on(es.last(), interface_id, area) {
            front.push(es.last().header)
        } else {
            front
        }
    }
}

impl InstanceV3View {
    /// The key of an LSA of ours that a peer described in `area`.
    pub open spec fn own_key(self, h: LsaV3Header, area: u32) -> LsaKeyV3 {
        LsaKeyV3 {
            area: instance_v3::flooding::scope_of(h.ls_type, area),
            ls_type: h.ls_type,
            link_state_id: h.link_state_id,
            advertising_router: self.router_id,
        }
    }

    /// The instance with every interface asking for our LSAs to be originated anew.
    pub open spec fn all_dirty(self) -> InstanceV3View {
        InstanceV3View {
            interfaces: Seq::new(
                self.interfaces.len(),
                |i: int|
                    InterfaceV3View { needs_router_lsa_refresh: true, ..self.interfaces[i] },
            ),
            ..self
        }
    }

    /// The instance after a peer described `h`. A copy of an LSA of ours that is at least as new
    /// as ours makes us continue from its sequence number.
    pub open spec fn outranked_by(self, h: LsaV3Header, area: u32) -> InstanceV3View {
        if h.advertising_router != self.router_id {
            self
        } else {
            match self.lsdb.lookup(self.own_key(h, area)) {
                None => self,
                Some(e) => if h.ls_sequence_number >= e.header.ls_sequence_number {
                    (InstanceV3View {
                        lsdb: self.lsdb.insert(
                            LsaEntryV3View {
                                header: LsaV3Header {
                                    ls_sequence_number: h.ls_sequence_number,
                                    ..e.header
                                },
                                ..e
                            },
                        ),
                        ..self
                    }).all_dirty()
                } else {
                    self
                },
            }
        }
    }

    /// The instance after a peer described `hs`, in order.
    pub open spec fn outranked_by_all(self, hs: Seq<LsaV3Header>, area: u32) -> InstanceV3View
        decreases hs.len(),
    {
        if hs.len() == 0 {
            self
        } else {
            self.outranked_by_all(hs.drop_last(), area).outranked_by(hs.last(), area)
        }
    }

    /// The instance after a Hello on interface `i`.
    pub open spec fn hello_on(self, i: int, src: u32, src_addr: u128, h: HelloV3View, now: u64) -> InstanceV3View {
        InstanceV3View {
            interfaces: self.interfaces.update(
                i,
                self.interfaces[i].hello_received(self.router_id, src, src_addr, h, now),
            ),
            ..self
        }
    }

    /// The instance after a description packet on interface `i`.
    pub open spec fn dd_on(self, i: int, src: u32, dd: DbDescV3View) -> InstanceV3View {
        let iface = self.interfaces[i];
        let ours = describable(self.lsdb.entries, iface.interface_id, iface.area_id);
        let mid = self.outranked_by_all(dd.lsa_headers, iface.area_id);
        InstanceV3View {
            interfaces: mid.interfaces.update(
                i,
                mid.interfaces[i].dd_received(self.router_id, src, dd, ours),
            ),
            ..mid
        }
    }

    /// The instance after the body of a packet of the given type was taken in on interface `i`.
    pub open spec fn body_received(
        self,
        i: int,
        packet_type: Ospfv3PacketType,
        src: u32,
        src_addr: u128,
        body: Seq<u8>,
        now: u64,
    ) -> (InstanceV3View, Result<(), PacketV3Error>) {
        let idx = self.interfaces[i].io.sw_if_index;
        match packet_type {
            Ospfv3PacketType::Hello => match HelloV3View::spec_parse(body) {
                Ok(h) => (self.hello_on(i, src, src_addr, h, now), Ok(())),
                Err(e) => (self, Err(e)),
            },
            Ospfv3PacketType::DatabaseDescription => match DbDescV3View::spec_parse(body) {
                Ok(d) => (self.dd_on(i, src, d), Ok(())),
                Err(e) => (self, Err(e)),
            },
            Ospfv3PacketType::LinkStateRequest => match lsr::requests_from(body, 0) {
                Ok(r) => (self.requested(idx, src, r), Ok(())),
                Err(e) => (self, Err(e)),
            },
            Ospfv3PacketType::LinkStateUpdate => match lsu::update_parse(body) {
                Ok(u) => (self.updated(idx, src, u), Ok(())),
                Err(e) => (self, Err(e)),
            },
            Ospfv3PacketType::LinkStateAck => match packet_v3::headers_from(body, 0) {
                Ok(_) => (self, Ok(())),
                Err(e) => (self, Err(e)),
            },
        }
    }

    /// The instance after a packet, and what is reported. Packets of our own, on unknown
    /// interfaces, or of another area or instance are ignored.
    pub open spec fn received(
        self,
        sw_if_index: u32,
        src_addr: u128,
        data: Seq<u8>,
        now: u64,
    ) -> (InstanceV3View, Result<(), PacketV3Error>) {
        match Ospfv3Header::spec_parse(data) {
            Err(e) => (self, Err(e)),
            Ok(hdr) => if hdr.router_id == self.router_id {
                (self, Ok(()))
            } else {
                match instance_v3::iface_pos(self.interfaces, sw_if_index, 0) {
                    None => (self, Ok(())),
                    Some(i) => if hdr.area_id != self.interfaces[i].area_id || hdr.instance_id
                        != self.interfaces[i].instance_id {
                        (self, Ok(()))
                    } else {
                        let end = if hdr.packet_length <= data.len() {
                            hdr.packet_length as int
                        } else {
                            data.len() as int
                        };
                        self.body_received(
                            i,
                            hdr.packet_type,
                            hdr.router_id,
                            src_addr,
                            data.subrange(OSPFV3_HEADER_LEN as int, end),
                            now,
                        )
                    },
                }
            },
        }
    }
}

impl InstanceV3 {
    /// The headers of the LSAs that are described on an interface.
    fn headers_for(&self, interface_id: u32, area: u32) -> (r: Vec<LsaV3Header>)
        ensures
            r@ == describable(self@.lsdb.entries, interface_id, area),
    {
        let mut v: Vec<LsaV3Header> = Vec::new();
        let ghost es = self@.lsdb.entries;
        let mut i: usize = 0;
        assert(es.take(0) =~= Seq::empty());
        while i < self.lsdb.len()
            invariant
                i <= es.len(),
                es == self@.lsdb.entries,
                v@ == describable(es.take(i as int), interface_id, area),
            decreases es.len() - i,
        {
            assert(es.take(i + 1).drop_last() =~= es.take(i as int));
            let e = self.lsdb.entry(i);
            let wanted = if e.header.ls_type == LsaV3Type::Link {
                e.header.link_state_id == interface_id
            } else if e.header.ls_type == LsaV3Type::AsExternal {
                true
            } else {
                match e.area {
                    Some(a) => a == area,
                    None => false,
                }
            };
            if wanted {
                v.push(e.header);
            }
            i = i + 1;
        }
        assert(es.take(i as int) =~= es);
        v
    }

    /// Asks on every interface for our LSAs to be originated anew.
    fn mark_all_dirty(&mut self)
        ensures
            final(self)@ == old(self)@.all_dirty(),
            final(self).interfaces@.len() == old(self).interfaces@.len(),
    {
        let ghost me = self@;
        let ghost ifs = me.interfaces;
        let mut i: usize = 0;
        while i < self.interfaces.len()
            invariant
                i <= self.interfaces@.len(),
                ifs == me.interfaces,
                self.interfaces@.len() == ifs.len(),
                self@ == (InstanceV3View { interfaces: self@.interfaces, ..me }),
                forall|k: int|
                    0 <= k < i ==> (#[trigger] self.interfaces@[k])@ == (InterfaceV3View {
                        needs_router_lsa_refresh: true,
                        ..ifs[k]
                    }),
                forall|k: int| i <= k < ifs.len() ==> (#[trigger] self.interfaces@[k])@ == ifs[k],
            decreases self.interfaces.len() - i,
        {
            self.interfaces[i].needs_router_lsa_refresh = true;
            i = i + 1;
        }
        assert(self@.interfaces =~= me.all_dirty().interfaces);
    }

    /// Continues from the sequence numbers of LSAs of ours that a peer described as newer.
    fn recover_sequences(&mut self, hs: &Vec<LsaV3Header>, area: u32)
        ensures
            final(self)@ == old(self)@.outranked_by_all(hs@, area),
            final(self).interfaces@.len() == old(self).interfaces@.len(),
    {
        let ghost me = self@;
        let ghost n = self.interfaces@.len();
        let mut i: usize = 0;
        assert(hs@.take(0) =~= Seq::empty());
        while i < hs.len()
            invariant
                i <= hs@.len(),
                self@ == me.outranked_by_all(hs@.take(i as int), area),
                self.interfaces@.len() == n,
            decreases hs.len() - i,
        {
            assert(hs@.take(i + 1).drop_last() =~= hs@.take(i as int));
            let h = hs[i];
            if h.advertising_router == self.router_id {
                let key = LsaKeyV3 {
                    area: instance_v3::flooding::scope_for(h.ls_type, area),
                    ls_type: h.ls_type,
                    link_state_id: h.link_state_id,
                    advertising_router: self.router_id,
                };
                let found = match self.lsdb.get(&key) {
                    Some(e) => Some(e.duplicate()),
                    None => None,
                };
                if let Some(mut bumped) = found {
                    if h.ls_sequence_number >= bumped.header.ls_sequence_number {
                        bumped.header.ls_sequence_number = h.ls_sequence_number;
                        self.lsdb.insert(bumped);
                        self.mark_all_dirty();
                    }
                }
            }
            i = i + 1;
        }
        assert(hs@.take(i as int) =~= hs@);
    }

    /// Takes in a description packet on the interface at `i`.
    fn receive_dd(&mut self, i: usize, src: u32, dd: &DbDescV3Packet)
        requires
            i < old(self).interfaces@.len(),
        ensures
            final(self)@ == old(self)@.dd_on(i as int, src, dd@),
    {
        let ghost me = self@;
        assert(self.interfaces@[i as int]@ == me.interfaces[i as int]);
        let area: u32 = self.interfaces[i].area_id;
        let interface_id: u32 = self.interfaces[i].interface_id;
        let ours = self.headers_for(interface_id, area);
        self.recover_sequences(&dd.lsa_headers, area);
        let router_id: u32 = self.router_id;
        proof {
            lemma_recovery_keeps_id(me, dd@.lsa_headers, area);
        }
        self.interfaces[i].process_dd(router_id, src, dd, &ours);
    }

    /// Takes in a packet. An undecodable packet is reported; one of our own, on an unknown
    /// interface, or of another area or instance is ignored.
    pub fn handle_rx(&mut self, rx: RxPacketV3, now: u64) -> (r: Result<(), PacketV3Error>)
        ensures
            (final(self)@, r) == old(self)@.received(rx.sw_if_index, rx.src_addr, rx.data@, now),
    {
        let hdr = match Ospfv3Header::parse(rx.data.as_slice()) {
            Err(e) => {
                return Err(e);
            },
            Ok(h) => h,
        };
        if hdr.router_id == self.router_id {
            return Ok(());
        }
        let i: usize = match self.find_interface(rx.sw_if_index) {
            None => {
                return Ok(());
            },
            Some(i) => i,
        };
        assert(self.interfaces@[i as int]@ == self@.interfaces[i as int]);
        if hdr.area_id != self.interfaces[i].area_id || hdr.instance_id
            != self.interfaces[i].instance_id {
            return Ok(());
        }
        let end: usize = if hdr.packet_length as usize <= rx.data.len() {
            hdr.packet_length as usize
        } else {
            rx.data.len()
        };
        let body = copy_range(rx.data.as_slice(), OSPFV3_HEADER_LEN, end);
        let src: u32 = hdr.router_id;
        let idx: u32 = rx.sw_if_index;
        proof {
            instance_v3::lemma_iface_pos(self@.interfaces, idx, 0);
        }
        match hdr.packet_type {
            Ospfv3PacketType::Hello => match HelloV3Packet::parse(body.as_slice()) {
                Err(e) => Err(e),
                Ok(hello) => {
                    let router_id: u32 = self.router_id;
                    self.interfaces[i].process_hello(router_id, src, rx.src_addr, &hello, now);
                    Ok(())
                },
            },
            Ospfv3PacketType::DatabaseDescription => match DbDescV3Packet::parse(body.as_slice()) {
                Err(e) => Err(e),
                Ok(dd) => {
                    self.receive_dd(i, src, &dd);
                    Ok(())
                },
            },
            Ospfv3PacketType::LinkStateRequest => match LsRequestV3Packet::parse(body.as_slice()) {
                Err(e) => Err(e),
                Ok(pkt) => {
                    self.process_lsr(idx, src, &pkt);
                    Ok(())
                },
            },
            Ospfv3PacketType::LinkStateUpdate => match LsUpdateV3Packet::parse(body.as_slice()) {
                Err(e) => Err(e),
                Ok(pkt) => {
                    self.process_lsu(idx, src, pkt);
                    Ok(())
                },
            },
            Ospfv3PacketType::LinkStateAck => match LsAckV3Packet::parse(body.as_slice()) {
                Err(e) => Err(e),
                Ok(pkt) => {
                    self.process_lsack(idx, src, &pkt);
                    Ok(())
                },
            },
        }
    }
}

proof fn lemma_recovery_keeps_id(inst: InstanceV3View, hs: Seq<LsaV3Header>, area: u32)
    ensures
        inst.outranked_by_all(hs, area).router_id == inst.router_id,
    decreases hs.len(),
{
    if hs.len() > 0 {
        lemma_recovery_keeps_id(inst, hs.drop_last(), area);
    }
}

} // verus!
