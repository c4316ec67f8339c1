//! Hellos received, and the database exchange with each neighbor.
use vstd::prelude::*;

use crate::instance_v3;
use crate::instance_v3::{
    InstanceV3, InstanceV3View, InterfaceStateV3, InterfaceV3, InterfaceV3View, NeighborStateV3,
    NeighborV3, NeighborV3View,
};
use crate::io_v3::{TxPacketV3, TxPacketV3View};
use crate::lsdb_v3;
use crate::packet_v3;
use crate::packet_v3::dd::{DbDescV3Packet, DbDescV3View};
use crate::packet_v3::hello::{HelloV3Packet, HelloV3View};
use crate::packet_v3::lsack::LsAckV3Packet;
use crate::packet_v3::lsr;
use crate::packet_v3::lsr::{LsRequestV3, LsRequestV3Packet};
use crate::packet_v3::lsu;
use crate::packet_v3::lsu::{LsUpdateV3Packet, LsaV3Raw};
use crate::packet_v3::{frame, LsaV3Header, Options, Ospfv3PacketType};
use crate::wire;

verus! {

broadcast use {wire::lemma_views_push, wire::lemma_views_update};

/// The first of `ours` at or behind `from` that names the same LSA as `h`.
pub open spec fn find_header(ours: Seq<LsaV3Header>, h: LsaV3Header, from: int) -> Option<LsaV3Header>
    decreases ours.len() - from,
{
    if from < 0 || from >= ours.len() {
        None
    } else if ours[from].same_lsa(h) {
        Some(ours[from])
    } else {
        find_header(ours, h, from + 1)
    }
}

/// Whether the LSA that a peer described as `h` has to be requested: we lack it or hold an older
/// one.
pub open spec fn needed(ours: Seq<LsaV3Header>, h: LsaV3Header) -> bool {
    match find_header(ours, h, 0) {
        None => true,
        Some(o) => h.ls_sequence_number > o.ls_sequence_number,
    }
}

/// The headers among `described` that have to be requested, in order.
pub open spec fn requests_for(ours: Seq<LsaV3Header>, described: Seq<LsaV3Header>) -> Seq<LsaV3Header>
    decreases described.len(),
{
    if described.len() == 0 {
        Seq::empty()
    } else {
        let front = requests_for(ours, described.drop_last());
        if needed(ours, described.last()) {
            front.push(described.last())
        } else {
            front
        }
    }
}

/// How many headers fit into a description packet of `mtu` octets.
pub open spec fn headers_per_packet(mtu: u16) -> int {
    if mtu > 28 {
        (mtu - 28) / 20
    } else {
        0
    }
}

impl NeighborV3View {
    /// A neighbor at its first Hello, before the Hello is looked at.
    pub open spec fn fresh(
        src_router_id: u32,
        src_addr: u128,
        hello: HelloV3View,
        now: u64,
    ) -> NeighborV3View {
        NeighborV3View {
            router_id: src_router_id,
            interface_id: hello.interface_id,
            link_local: src_addr,
            priority: hello.router_priority,
            dr: hello.designated_router_id,
            bdr: hello.backup_designated_router_id,
            state: NeighborStateV3::Down,
            last_hello: now,
            dd_master: false,
            dd_seq: 0,
            dd_summary_recv: Seq::empty(),
            dd_summary_tx: Seq::empty(),
            last_dd_tx: None,
            last_dd_sent: instance_v3::hour_before(now),
            dd_response_pending: false,
            request_list: Seq::empty(),
            pending_acks: Seq::empty(),
            pending_lsu: Seq::empty(),
            lsr_pending: false,
            dd_send_final: false,
            dd_peer_done: false,
        }
    }

    /// The neighbor after a Hello that does or does not list us.
    pub open spec fn heard(self, src_addr: u128, hello: HelloV3View, listed: bool, now: u64) -> NeighborV3View {
        let up = if self.state == NeighborStateV3::Down {
            NeighborStateV3::Init
        } else {
            self.state
        };
        NeighborV3View {
            last_hello: now,
            interface_id: hello.interface_id,
            link_local: src_addr,
            priority: hello.router_priority,
            dr: hello.designated_router_id,
            bdr: hello.backup_designated_router_id,
            state: if listed {
                if up == NeighborStateV3::Init {
                    NeighborStateV3::TwoWay
                } else {
                    up
                }
            } else if up.level() >= NeighborStateV3::TwoWay.level() {
                NeighborStateV3::Init
            } else {
                up
            },
            ..self
        }
    }

    /// The neighbor with an exchange about to be negotiated.
    pub open spec fn exchange_start(self, seq: u32) -> NeighborV3View {
        NeighborV3View { state: NeighborStateV3::ExStart, dd_seq: seq, ..self }
    }

    /// The neighbor after a description packet that may restart the exchange.
    pub open spec fn maybe_restarted(self, router_id: u32, dd: DbDescV3View) -> NeighborV3View {
        if dd.is_fresh_init() && self.state.level() > NeighborStateV3::ExStart.level() {
            NeighborV3View {
                dd_master: router_id > self.router_id,
                dd_summary_tx: Seq::empty(),
                dd_summary_recv: Seq::empty(),
                dd_peer_done: false,
                dd_send_final: false,
                request_list: Seq::empty(),
                ..self.exchange_start(1)
            }
        } else if self.state == NeighborStateV3::TwoWay {
            NeighborV3View { dd_master: router_id > self.router_id, ..self.exchange_start(1) }
        } else {
            self
        }
    }

    /// Whether the packet makes us slave.
    pub open spec fn becomes_slave(self, router_id: u32, dd: DbDescV3View) -> bool {
        self.state == NeighborStateV3::ExStart && self.router_id > router_id && dd.is_fresh_init()
    }

    /// Whether the packet makes us master.
    pub open spec fn becomes_master(self, router_id: u32, dd: DbDescV3View) -> bool {
        self.state == NeighborStateV3::ExStart && self.router_id < router_id && !dd.is_init()
            && !dd.is_master() && dd.dd_sequence_number == self.dd_seq
    }

    /// The neighbor after the roles were negotiated, if they were.
    pub open spec fn negotiated(self, router_id: u32, dd: DbDescV3View, ours: Seq<LsaV3Header>) -> NeighborV3View {
        if self.becomes_slave(router_id, dd) {
            NeighborV3View {
                dd_master: false,
                dd_seq: dd.dd_sequence_number,
                state: NeighborStateV3::Exchange,
                dd_summary_tx: ours,
                dd_response_pending: true,
                ..self
            }
        } else if self.becomes_master(router_id, dd) {
            NeighborV3View {
                dd_master: true,
                state: NeighborStateV3::Exchange,
                dd_summary_tx: ours,
                dd_response_pending: true,
                ..self
            }
        } else {
            self
        }
    }

    /// The neighbor after the headers of a packet were taken in; only an exchange takes any.
    pub open spec fn absorbed(self, dd: DbDescV3View) -> NeighborV3View {
        if self.state == NeighborStateV3::Exchange {
            NeighborV3View {
                dd_summary_recv: self.dd_summary_recv + dd.lsa_headers,
                dd_peer_done: self.dd_peer_done || !dd.has_more(),
                dd_seq: if self.dd_master {
                    if self.dd_seq == u32::MAX {
                        0
                    } else {
                        (self.dd_seq + 1) as u32
                    }
                } else {
                    dd.dd_sequence_number
                },
                dd_response_pending: true,
                ..self
            }
        } else {
            self
        }
    }

    /// The neighbor after a description packet.
    pub open spec fn described(self, router_id: u32, dd: DbDescV3View, ours: Seq<LsaV3Header>) -> NeighborV3View {
        self.maybe_restarted(router_id, dd).negotiated(router_id, dd, ours).absorbed(dd)
    }

    /// The neighbor at the end of the exchange: Loading with what has to be requested, Full if
    /// that is nothing.
    pub open spec fn finished(self, ours: Seq<LsaV3Header>) -> NeighborV3View {
        let wanted = requests_for(ours, self.dd_summary_recv);
        if wanted.len() == 0 {
            NeighborV3View { request_list: wanted, state: NeighborStateV3::Full, ..self }
        } else {
            NeighborV3View {
                request_list: wanted,
                state: NeighborStateV3::Loading,
                lsr_pending: true,
                ..self
            }
        }
    }

    /// How many headers go into the next description packet.
    pub open spec fn chunk(self, mtu: u16) -> int {
        if self.state != NeighborStateV3::Exchange {
            0
        } else if self.dd_summary_tx.len() <= headers_per_packet(mtu) {
            self.dd_summary_tx.len() as int
        } else {
            headers_per_packet(mtu)
        }
    }

    /// The flags of the next description packet.
    pub open spec fn dd_flags(self, mtu: u16) -> u8 {
        if self.state == NeighborStateV3::ExStart {
            7
        } else if self.state == NeighborStateV3::Exchange {
            if self.chunk(mtu) < self.dd_summary_tx.len() {
                if self.dd_master {
                    3
                } else {
                    2
                }
            } else if self.dd_master {
                1
            } else {
                0
            }
        } else {
            0
        }
    }

    /// The next description packet.
    pub open spec fn next_dd(self, mtu: u16) -> DbDescV3View {
        DbDescV3View {
            options: Options::spec_standard().0,
            interface_mtu: mtu,
            flags: self.dd_flags(mtu),
            dd_sequence_number: self.dd_seq,
            lsa_headers: self.dd_summary_tx.take(self.chunk(mtu)),
        }
    }

    /// The neighbor after the next description packet went out.
    pub open spec fn after_dd(self, mtu: u16, now: u64) -> NeighborV3View {
        NeighborV3View {
            dd_summary_tx: self.dd_summary_tx.skip(self.chunk(mtu)),
            dd_send_final: false,
            last_dd_tx: Some(self.next_dd(mtu)),
            last_dd_sent: now,
            dd_response_pending: false,
            ..self
        }
    }

    /// Whether a description packet is due: the first one or its repetition, the next one of an
    /// exchange, or the last echo of a slave.
    pub open spec fn dd_due(self, now: u64) -> bool {
        match self.state {
            NeighborStateV3::ExStart => self.last_dd_tx is None || instance_v3::elapsed(
                now,
                self.last_dd_sent,
            ) >= 5000,
            NeighborStateV3::Exchange => self.dd_response_pending || (self.dd_master
                && self.dd_summary_tx.len() > 0) || instance_v3::elapsed(now, self.last_dd_sent)
                >= 5000,
            NeighborStateV3::Loading | NeighborStateV3::Full => self.dd_send_final,
            _ => false,
        }
    }

    /// The neighbor with a nonzero sequence number for the packet that opens an exchange.
    pub open spec fn numbered(self) -> NeighborV3View {
        if self.state == NeighborStateV3::ExStart && self.dd_seq == 0 {
            NeighborV3View { dd_seq: 1, ..self }
        } else {
            self
        }
    }

    /// Whether both sides have described everything.
    pub open spec fn exchange_over(self) -> bool {
        self.state == NeighborStateV3::Exchange && self.dd_peer_done && self.dd_summary_tx.len() == 0
    }

    /// The neighbor after the description packets of `now`, and whether its exchange ended.
    pub open spec fn dd_step(self, ours: Seq<LsaV3Header>, now: u64) -> (NeighborV3View, bool) {
        if self.dd_due(now) {
            let sent = self.numbered().after_dd(1500, now);
            if sent.exchange_over() {
                (sent.finished(ours), true)
            } else {
                (sent, false)
            }
        } else {
            (self, false)
        }
    }

    /// The neighbor after its queues were emptied.
    pub open spec fn flushed(self) -> NeighborV3View {
        if self.state.level() < NeighborStateV3::Exchange.level() {
            self
        } else {
            NeighborV3View {
                lsr_pending: self.lsr_pending && self.request_list.len() == 0,
                pending_lsu: Seq::empty(),
                pending_acks: Seq::empty(),
                ..self
            }
        }
    }
}

/// The requests for the LSAs that the headers name.
pub open spec fn requests_of(hs: Seq<LsaV3Header>) -> Seq<LsRequestV3> {
    Seq::new(hs.len(), |i: int| LsRequestV3::of_header(hs[i]))
}

/// The neighbors after the description packets of `now`.
pub open spec fn dd_stepped(ns: Seq<NeighborV3View>, ours: Seq<LsaV3Header>, now: u64) -> Seq<
    NeighborV3View,
> {
    Seq::new(ns.len(), |i: int| ns[i].dd_step(ours, now).0)
}

/// Whether the step from `before` to `after` takes an adjacency down.
pub open spec fn adjacency_lost(before: NeighborV3View, after: NeighborV3View) -> bool {
    before.state == NeighborStateV3::Full && after.state != NeighborStateV3::Full
}

impl InterfaceV3View {
    /// Whether an adjacency with `n` is wanted: always off multi-access networks, else if either
    /// side holds an office.
    pub open spec fn wants_adjacency(self, router_id: u32, n: NeighborV3View) -> bool {
        !self.network_type.spec_elects() || self.state == InterfaceStateV3::DR || self.state
            == InterfaceStateV3::Backup || n.dr == n.router_id || n.bdr == n.router_id || n.dr
            == router_id || n.bdr == router_id
    }

    /// The interface with the exchange started with the neighbor at `i`, if that is wanted.
    pub open spec fn adjacency_checked(self, router_id: u32, i: int) -> InterfaceV3View {
        let n = self.neighbors[i];
        if self.wants_adjacency(router_id, n) && n.state == NeighborStateV3::TwoWay {
            InterfaceV3View { neighbors: self.neighbors.update(i, n.exchange_start(0)), ..self }
        } else {
            self
        }
    }

    /// Whether a Hello is looked at: the interface is up and the intervals agree.
    pub open spec fn accepts_hello(self, hello: HelloV3View) -> bool {
        self.state != InterfaceStateV3::Down && hello.hello_interval == self.hello_interval
            && hello.router_dead_interval == self.dead_interval
    }

    /// The interface after a Hello. An adjacency that it takes down asks for our Router-LSA to be
    /// originated anew.
    pub open spec fn hello_received(
        self,
        router_id: u32,
        src_router_id: u32,
        src_addr: u128,
        hello: HelloV3View,
        now: u64,
    ) -> InterfaceV3View {
        if !self.accepts_hello(hello) {
            self
        } else {
            let listed = hello.neighbors.contains(router_id);
            let pos = instance_v3::neighbor_pos(self.neighbors, src_router_id, 0);
            let known = match pos {
                Some(i) => self.neighbors[i],
                None => NeighborV3View::fresh(src_router_id, src_addr, hello, now),
            };
            let n = known.heard(src_addr, hello, listed, now);
            let at = match pos {
                Some(i) => i,
                None => self.neighbors.len() as int,
            };
            let listed_iface = InterfaceV3View {
                neighbors: match pos {
                    Some(i) => self.neighbors.update(i, n),
                    None => self.neighbors.push(n),
                },
                needs_router_lsa_refresh: self.needs_router_lsa_refresh || adjacency_lost(known, n),
                ..self
            };
            let elected = if self.network_type.spec_elects() {
                listed_iface.elected(router_id)
            } else {
                listed_iface
            };
            elected.adjacency_checked(router_id, at)
        }
    }

    /// The interface after a description packet from `src`; a router that is no neighbor is
    /// ignored. An adjacency that it restarts asks for our Router-LSA to be originated anew.
    pub open spec fn dd_received(
        self,
        router_id: u32,
        src: u32,
        dd: DbDescV3View,
        ours: Seq<LsaV3Header>,
    ) -> InterfaceV3View {
        match instance_v3::neighbor_pos(self.neighbors, src, 0) {
            None => self,
            Some(i) => InterfaceV3View {
                neighbors: self.neighbors.update(
                    i,
                    self.neighbors[i].described(router_id, dd, ours),
                ),
                needs_router_lsa_refresh: self.needs_router_lsa_refresh || adjacency_lost(
                    self.neighbors[i],
                    self.neighbors[i].described(router_id, dd, ours),
                ),
                ..self
            },
        }
    }

    /// A packet of the interface to `dst`.
    pub open spec fn packet_to(
        self,
        packet_type: Ospfv3PacketType,
        router_id: u32,
        dst: u128,
        body: Seq<u8>,
    ) -> TxPacketV3View {
        TxPacketV3View {
            sw_if_index: self.io.sw_if_index,
            src_addr: self.io.link_local,
            dst_addr: dst,
            data: packet_v3::framed(packet_type, router_id, self.area_id, self.instance_id, body),
        }
    }

    /// The description packets that go to the neighbors among `ns` at `now`.
    pub open spec fn dds_for(self, ns: Seq<NeighborV3View>, router_id: u32, now: u64) -> Seq<TxPacketV3View>
        decreases ns.len(),
    {
        if ns.len() == 0 {
            Seq::empty()
        } else {
            let front = self.dds_for(ns.drop_last(), router_id, now);
            let n = ns.last();
            if n.dd_due(now) {
                front.push(
                    self.packet_to(
                        Ospfv3PacketType::DatabaseDescription,
                        router_id,
                        n.link_local,
                        n.numbered().next_dd(1500).bytes(),
                    ),
                )
            } else {
                front
            }
        }
    }

    /// Whether an exchange with one of `ns` ends with the packets of `now`.
    pub open spec fn any_finished(ns: Seq<NeighborV3View>, ours: Seq<LsaV3Header>, now: u64) -> bool {
        exists|i: int| 0 <= i < ns.len() && (#[trigger] ns[i]).dd_step(ours, now).1
    }

    /// The interface after the description packets of `now`.
    pub open spec fn after_dds(self, ours: Seq<LsaV3Header>, now: u64) -> InterfaceV3View {
        if self.state == InterfaceStateV3::Down {
            self
        } else {
            InterfaceV3View {
                neighbors: dd_stepped(self.neighbors, ours, now),
                needs_router_lsa_refresh: self.needs_router_lsa_refresh
                    || InterfaceV3View::any_finished(self.neighbors, ours, now),
                ..self
            }
        }
    }

    /// The description packets that the interface sends at `now`.
    pub open spec fn due_dds(self, router_id: u32, now: u64) -> Seq<TxPacketV3View> {
        if self.state == InterfaceStateV3::Down {
            Seq::empty()
        } else {
            self.dds_for(self.neighbors, router_id, now)
        }
    }

    /// The request, update and acknowledgment packets that `n` is owed, in that order.
    pub open spec fn queued_for(self, n: NeighborV3View, router_id: u32) -> Seq<TxPacketV3View> {
        if n.state.level() < NeighborStateV3::Exchange.level() {
            Seq::empty()
        } else {
            (if n.lsr_pending && n.request_list.len() > 0 {
                seq![
                    self.packet_to(
                        Ospfv3PacketType::LinkStateRequest,
                        router_id,
                        n.link_local,
                        lsr::requests_bytes(requests_of(n.request_list)),
                    ),
                ]
            } else {
                Seq::empty()
            }) + (if n.pending_lsu.len() > 0 {
                seq![
                    self.packet_to(
                        Ospfv3PacketType::LinkStateUpdate,
                        router_id,
                        n.link_local,
                        lsu::update_bytes(n.pending_lsu),
                    ),
                ]
            } else {
                Seq::empty()
            }) + (if n.pending_acks.len() > 0 {
                seq![
                    self.packet_to(
                        Ospfv3PacketType::LinkStateAck,
                        router_id,
                        n.link_local,
                        packet_v3::headers_bytes(n.pending_acks),
                    ),
                ]
            } else {
                Seq::empty()
            })
        }
    }

    /// The queued packets of all of `ns`.
    pub open spec fn queued(self, ns: Seq<NeighborV3View>, router_id: u32) -> Seq<TxPacketV3View>
        decreases ns.len(),
    {
        if ns.len() == 0 {
            Seq::empty()
        } else {
            self.queued(ns.drop_last(), router_id) + self.queued_for(ns.last(), router_id)
        }
    }

    /// The queued packets of the interface.
    pub open spec fn due_queued(self, router_id: u32) -> Seq<TxPacketV3View> {
        if self.state == InterfaceStateV3::Down {
            Seq::empty()
        } else {
            self.queued(self.neighbors, router_id)
        }
    }

    /// The interface after the queued packets went out.
    pub open spec fn after_queued(self) -> InterfaceV3View {
        if self.state == InterfaceStateV3::Down {
            self
        } else {
            InterfaceV3View {
                neighbors: Seq::new(self.neighbors.len(), |i: int| self.neighbors[i].flushed()),
                ..self
            }
        }
    }
}

/// The description packets of all of `ifs`.
pub open spec fn all_dds(ifs: Seq<InterfaceV3View>, router_id: u32, now: u64) -> Seq<TxPacketV3View>
    decreases ifs.len(),
{
    if ifs.len() == 0 {
        Seq::empty()
    } else {
        all_dds(ifs.drop_last(), router_id, now) + ifs.last().due_dds(router_id, now)
    }
}

/// The queued packets of all of `ifs`.
pub open spec fn all_queued(ifs: Seq<InterfaceV3View>, router_id: u32) -> Seq<TxPacketV3View>
    decreases ifs.len(),
{
    if ifs.len() == 0 {
        Seq::empty()
    } else {
        all_queued(ifs.drop_last(), router_id) + ifs.last().due_queued(router_id)
    }
}

/// A copy of the headers.
pub fn copy_headers(hs: &Vec<LsaV3Header>) -> (r: Vec<LsaV3Header>)
    ensures
        r@ == hs@,
{
    let mut v: Vec<LsaV3Header> = Vec::new();
    let mut i: usize = 0;
    while i < hs.len()
        invariant
            i <= hs@.len(),
            v@ == hs@.take(i as int),
        decreases hs.len() - i,
    {
        v.push(hs[i]);
        i = i + 1;
        assert(v@ =~= hs@.take(i as int));
    }
    assert(v@ =~= hs@);
    v
}

/// Appends a copy of the headers.
pub fn append_headers(to: &mut Vec<LsaV3Header>, hs: &Vec<LsaV3Header>)
    ensures
        final(to)@ == old(to)@ + hs@,
{
    let mut i: usize = 0;
    assert(to@ =~= old(to)@ + hs@.take(0));
    while i < hs.len()
        invariant
            i <= hs@.len(),
            to@ == old(to)@ + hs@.take(i as int),
        decreases hs.len() - i,
    {
        to.push(hs[i]);
        i = i + 1;
        assert(to@ =~= old(to)@ + hs@.take(i as int));
    }
    assert(hs@.take(i as int) =~= hs@);
}

/// The first of `ours` that names the same LSA as `h`.
fn lookup_header(ours: &Vec<LsaV3Header>, h: &LsaV3Header) -> (r: Option<LsaV3Header>)
    ensures
        r == find_header(ours@, *h, 0),
{
    let mut i: usize = 0;
    while i < ours.len()
        invariant
            i <= ours@.len(),
            find_header(ours@, *h, 0) == find_header(ours@, *h, i as int),
        decreases ours.len() - i,
    {
        if ours[i].names_same(h) {
            return Some(ours[i]);
        }
        i = i + 1;
    }
    None
}

impl NeighborV3 {
    /// A neighbor at its first Hello.
    fn first_heard(src_router_id: u32, src_addr: u128, hello: &HelloV3Packet, now: u64) -> (n: NeighborV3)
        ensures
            n@ == NeighborV3View::fresh(src_router_id, src_addr, hello@, now),
    {
        let n = NeighborV3 {
            router_id: src_router_id,
            interface_id: hello.interface_id,
            link_local: src_addr,
            priority: hello.router_priority,
            dr: hello.designated_router_id,
            bdr: hello.backup_designated_router_id,
            state: NeighborStateV3::Down,
            last_hello: now,
            dd_master: false,
            dd_seq: 0,
            dd_summary_recv: Vec::new(),
            dd_summary_tx: Vec::new(),
            last_dd_tx: None,
            last_dd_sent: now.saturating_sub(3600000),
            dd_response_pending: false,
            request_list: Vec::new(),
            pending_acks: Vec::new(),
            pending_lsu: Vec::new(),
            lsr_pending: false,
            dd_send_final: false,
            dd_peer_done: false,
        };
        assert(n@.pending_lsu =~= Seq::empty());
        n
    }

    /// Takes in a Hello that does or does not list us.
    fn hear(&mut self, src_addr: u128, hello: &HelloV3Packet, listed: bool, now: u64)
        ensures
            final(self)@ == old(self)@.heard(src_addr, hello@, listed, now),
    {
        self.last_hello = now;
        self.interface_id = hello.interface_id;
        self.link_local = src_addr;
        self.priority = hello.router_priority;
        self.dr = hello.designated_router_id;
        self.bdr = hello.backup_designated_router_id;
        if self.state == NeighborStateV3::Down {
            self.state = NeighborStateV3::Init;
        }
        if listed {
            if self.state == NeighborStateV3::Init {
                self.state = NeighborStateV3::TwoWay;
            }
        } else if self.state.reached(NeighborStateV3::TwoWay) {
            self.state = NeighborStateV3::Init;
        }
    }

    /// Takes in a description packet.
    pub fn process_dd(&mut self, router_id: u32, dd: &DbDescV3Packet, ours: &Vec<LsaV3Header>)
        ensures
            final(self)@ == old(self)@.described(router_id, dd@, ours@),
    {
        let fresh_init = dd.is_init() && dd.has_more() && dd.is_master() && dd.lsa_headers.len() == 0;
        if fresh_init && !NeighborStateV3::ExStart.reached(self.state) {
            self.state = NeighborStateV3::ExStart;
            self.dd_seq = 1;
            self.dd_master = router_id > self.router_id;
            self.dd_summary_tx = Vec::new();
            self.dd_summary_recv = Vec::new();
            self.dd_peer_done = false;
            self.dd_send_final = false;
            self.request_list = Vec::new();
        } else if self.state == NeighborStateV3::TwoWay {
            self.state = NeighborStateV3::ExStart;
            self.dd_seq = 1;
            self.dd_master = router_id > self.router_id;
        }
        assert(self@ == old(self)@.maybe_restarted(router_id, dd@));
        if self.state == NeighborStateV3::ExStart {
            if self.router_id > router_id && fresh_init {
                self.dd_master = false;
                self.dd_seq = dd.dd_sequence_number;
                self.state = NeighborStateV3::Exchange;
                self.dd_summary_tx = copy_headers(ours);
                self.dd_response_pending = true;
            } else if self.router_id < router_id && !dd.is_init() && !dd.is_master()
                && dd.dd_sequence_number == self.dd_seq {
                self.dd_master = true;
                self.state = NeighborStateV3::Exchange;
                self.dd_summary_tx = copy_headers(ours);
                self.dd_response_pending = true;
            } else {
                return ;
            }
        }
        assert(self@ == old(self)@.maybe_restarted(router_id, dd@).negotiated(
            router_id,
            dd@,
            ours@,
        ));
        if self.state == NeighborStateV3::Exchange {
            append_headers(&mut self.dd_summary_recv, &dd.lsa_headers);
            if !dd.has_more() {
                self.dd_peer_done = true;
            }
            if self.dd_master {
                self.dd_seq = self.dd_seq.wrapping_add(1);
            } else {
                self.dd_seq = dd.dd_sequence_number;
            }
            self.dd_response_pending = true;
        }
    }

    /// Ends the exchange: lists what has to be requested and moves to Loading, or to Full if that
    /// is nothing. The result says whether the neighbor newly became Full.
    pub fn finish_dd(&mut self, ours: &Vec<LsaV3Header>) -> (newly_full: bool)
        ensures
            final(self)@ == old(self)@.finished(ours@),
            newly_full == (final(self)@.state == NeighborStateV3::Full && old(self)@.state
                != NeighborStateV3::Full),
    {
        let mut req: Vec<LsaV3Header> = Vec::new();
        let ghost recv = self@.dd_summary_recv;
        let mut i: usize = 0;
        assert(recv.take(0) =~= Seq::empty());
        while i < self.dd_summary_recv.len()
            invariant
                i <= self.dd_summary_recv@.len(),
                recv == self.dd_summary_recv@,
                req@ == requests_for(ours@, recv.take(i as int)),
            decreases self.dd_summary_recv.len() - i,
        {
            assert(recv.take(i + 1).drop_last() =~= recv.take(i as int));
            let h = self.dd_summary_recv[i];
            let need = match lookup_header(ours, &h) {
                None => true,
                Some(o) => h.ls_sequence_number > o.ls_sequence_number,
            };
            if need {
                req.push(h);
            }
            i = i + 1;
        }
        assert(recv.take(i as int) =~= recv);
        let nothing = req.len() == 0;
        self.request_list = req;
        if nothing {
            let was = self.state;
            self.state = NeighborStateV3::Full;
            was != NeighborStateV3::Full
        } else {
            self.state = NeighborStateV3::Loading;
            self.lsr_pending = true;
            false
        }
    }

    /// Builds the next description packet and takes its headers off the list.
    pub fn build_dd(&mut self, router_id: u32, area_id: u32, instance_id: u8, mtu: u16, now: u64) -> (r:
        Vec<u8>)
        ensures
            r@ == packet_v3::framed(
                Ospfv3PacketType::DatabaseDescription,
                router_id,
                area_id,
                instance_id,
                old(self)@.next_dd(mtu).bytes(),
            ),
            final(self)@ == old(self)@.after_dd(mtu, now),
    {
        let max_headers: usize = if mtu > 28 {
            ((mtu - 28) / 20) as usize
        } else {
            0
        };
        let mut flags: u8 = 0;
        let mut headers: Vec<LsaV3Header> = Vec::new();
        let ghost tx = self.dd_summary_tx@;
        let mut taken: usize = 0;
        if self.state == NeighborStateV3::ExStart {
            flags = 7;
        } else if self.state == NeighborStateV3::Exchange {
            taken = if self.dd_summary_tx.len() <= max_headers {
                self.dd_summary_tx.len()
            } else {
                max_headers
            };
            let mut i: usize = 0;
            while i < taken
                invariant
                    i <= taken <= tx.len(),
                    tx == self.dd_summary_tx@,
                    headers@ == tx.take(i as int),
                decreases taken - i,
            {
                headers.push(self.dd_summary_tx[i]);
                i = i + 1;
                assert(headers@ =~= tx.take(i as int));
            }
            let rest = self.dd_summary_tx.split_off(taken);
            let more = rest.len() > 0;
            self.dd_summary_tx = rest;
            flags = if more && self.dd_master {
                3
            } else if more {
                2
            } else if self.dd_master {
                1
            } else {
                0
            };
        }
        assert(headers@ =~= tx.take(taken as int));
        assert(self.dd_summary_tx@ =~= tx.skip(taken as int));
        self.dd_send_final = false;
        let dd = DbDescV3Packet {
            options: Options::standard().0,
            interface_mtu: mtu,
            flags,
            dd_sequence_number: self.dd_seq,
            lsa_headers: headers,
        };
        let mut body: Vec<u8> = Vec::new();
        dd.encode(&mut body);
        assert(body@ =~= old(self)@.next_dd(mtu).bytes());
        self.last_dd_tx = Some(dd);
        self.last_dd_sent = now;
        self.dd_response_pending = false;
        frame(Ospfv3PacketType::DatabaseDescription, router_id, area_id, instance_id, &body)
    }

    /// Whether a description packet is due.
    fn wants_dd(&self, now: u64) -> (r: bool)
        ensures
            r == self@.dd_due(now),
    {
        let overdue = now.saturating_sub(self.last_dd_sent) >= 5000;
        match self.state {
            NeighborStateV3::ExStart => self.last_dd_tx.is_none() || overdue,
            NeighborStateV3::Exchange => self.dd_response_pending || (self.dd_master
                && self.dd_summary_tx.len() > 0) || overdue,
            NeighborStateV3::Loading | NeighborStateV3::Full => self.dd_send_final,
            _ => false,
        }
    }
}

impl InterfaceV3 {
    /// Takes in a Hello. The first Hello of a router makes it a neighbor; the designated router is
    /// elected anew, and an adjacency is started where one is wanted.
    pub fn process_hello(
        &mut self,
        router_id: u32,
        src_router_id: u32,
        src_addr: u128,
        hello: &HelloV3Packet,
        now: u64,
    )
        ensures
            final(self)@ == old(self)@.hello_received(
                router_id,
                src_router_id,
                src_addr,
                hello@,
                now,
            ),
    {
        let ghost me = self@;
        if self.state == InterfaceStateV3::Down {
            return ;
        }
        if hello.hello_interval != self.hello_interval || hello.router_dead_interval
            != self.dead_interval {
            return ;
        }
        let listed = instance_v3::contains_u32(&hello.neighbors, router_id);
        let at: usize = match self.find_neighbor(src_router_id) {
            Some(i) => {
                let was_full = self.neighbors[i].state == NeighborStateV3::Full;
                self.neighbors[i].hear(src_addr, hello, listed, now);
                if was_full && self.neighbors[i].state != NeighborStateV3::Full {
                    self.needs_router_lsa_refresh = true;
                }
                i
            },
            None => {
                let mut n = NeighborV3::first_heard(src_router_id, src_addr, hello, now);
                n.hear(src_addr, hello, listed, now);
                let i: usize = self.neighbors.len();
                self.neighbors.push(n);
                i
            },
        };
        if self.network_type.elects() {
            self.dr_election(router_id);
        }
        let ghost mid = self@;
        assert(self.neighbors@[at as int]@ == mid.neighbors[at as int]);
        let wanted = !self.network_type.elects() || self.state == InterfaceStateV3::DR || self.state
            == InterfaceStateV3::Backup || self.neighbors[at].dr == self.neighbors[at].router_id
            || self.neighbors[at].bdr == self.neighbors[at].router_id || self.neighbors[at].dr
            == router_id || self.neighbors[at].bdr == router_id;
        if wanted && self.neighbors[at].state == NeighborStateV3::TwoWay {
            self.neighbors[at].state = NeighborStateV3::ExStart;
            self.neighbors[at].dd_seq = 0;
            assert(wire::views(self.neighbors@) =~= mid.neighbors.update(
                at as int,
                mid.neighbors[at as int].exchange_start(0),
            ));
        }
        assert(self@ == mid.adjacency_checked(router_id, at as int));
    }

    /// Takes in a description packet from `src`.
    pub fn process_dd(
        &mut self,
        router_id: u32,
        src: u32,
        dd: &DbDescV3Packet,
        ours: &Vec<LsaV3Header>,
    )
        ensures
            final(self)@ == old(self)@.dd_received(router_id, src, dd@, ours@),
    {
        if let Some(i) = self.find_neighbor(src) {
            let was_full = self.neighbors[i].state == NeighborStateV3::Full;
            self.neighbors[i].process_dd(router_id, dd, ours);
            if was_full && self.neighbors[i].state != NeighborStateV3::Full {
                self.needs_router_lsa_refresh = true;
            }
        }
    }

    /// A packet of the interface to `dst`.
    fn build_packet(&self, packet_type: Ospfv3PacketType, router_id: u32, dst: u128, body: &Vec<u8>) -> (r:
        TxPacketV3)
        ensures
            r@ == self@.packet_to(packet_type, router_id, dst, body@),
    {
        TxPacketV3 {
            sw_if_index: self.io.sw_if_index,
            src_addr: self.io.link_local,
            dst_addr: dst,
            data: frame(packet_type, router_id, self.area_id, self.instance_id, body),
        }
    }

    /// Sends the description packets of `now`.
    fn dd_tick(&mut self, router_id: u32, ours: &Vec<LsaV3Header>, now: u64, out: &mut Vec<TxPacketV3>)
        ensures
            final(self)@ == old(self)@.after_dds(ours@, now),
            wire::views(final(out)@) == wire::views(old(out)@) + old(self)@.due_dds(router_id, now),
    {
        let ghost me = self@;
        let ghost start = wire::views(out@);
        if self.state == InterfaceStateV3::Down {
            assert(start + Seq::<TxPacketV3View>::empty() =~= start);
            return ;
        }
        let ghost ns = me.neighbors;
        let mut i: usize = 0;
        assert(ns.take(0) =~= Seq::empty());
        assert(start + Seq::<TxPacketV3View>::empty() =~= start);
        while i < self.neighbors.len()
            invariant
                i <= self.neighbors@.len(),
                ns == me.neighbors,
                self.neighbors@.len() == ns.len(),
                self@ == (InterfaceV3View {
                    neighbors: self@.neighbors,
                    needs_router_lsa_refresh: self@.needs_router_lsa_refresh,
                    ..me
                }),
                self.needs_router_lsa_refresh == (me.needs_router_lsa_refresh || exists|k: int|
                    0 <= k < i && (#[trigger] ns[k]).dd_step(ours@, now).1),
                forall|k: int|
                    0 <= k < i ==> (#[trigger] self.neighbors@[k])@ == ns[k].dd_step(ours@, now).0,
                forall|k: int| i <= k < ns.len() ==> (#[trigger] self.neighbors@[k])@ == ns[k],
                wire::views(out@) == start + me.dds_for(ns.take(i as int), router_id, now),
            decreases self.neighbors.len() - i,
        {
            assert(ns.take(i + 1).drop_last() =~= ns.take(i as int));
            assert(self.neighbors@[i as int]@ == ns[i as int]);
            if self.neighbors[i].wants_dd(now) {
                if self.neighbors[i].state == NeighborStateV3::ExStart && self.neighbors[i].dd_seq == 0 {
                    self.neighbors[i].dd_seq = 1;
                }
                assert(self.neighbors@[i as int]@ == ns[i as int].numbered());
                let data = self.neighbors[i].build_dd(
                    router_id,
                    self.area_id,
                    self.instance_id,
                    1500,
                    now,
                );
                let p = TxPacketV3 {
                    sw_if_index: self.io.sw_if_index,
                    src_addr: self.io.link_local,
                    dst_addr: self.neighbors[i].link_local,
                    data,
                };
                out.push(p);
                assert(wire::views(out@) =~= start + me.dds_for(ns.take(i + 1), router_id, now));
                if self.neighbors[i].state == NeighborStateV3::Exchange && self.neighbors[i].dd_peer_done
                    && self.neighbors[i].dd_summary_tx.len() == 0 {
                    self.neighbors[i].finish_dd(ours);
                    self.needs_router_lsa_refresh = true;
                    assert(ns[i as int].dd_step(ours@, now).1);
                }
            }
            i = i + 1;
        }
        assert(ns.take(i as int) =~= ns);
        assert(self@.neighbors =~= dd_stepped(ns, ours@, now));
    }

    /// Sends what `n`, the neighbor at `i`, is owed.
    fn flush_neighbor(&mut self, i: usize, router_id: u32, out: &mut Vec<TxPacketV3>)
        requires
            i < old(self).neighbors@.len(),
        ensures
            final(self)@ == (InterfaceV3View {
                neighbors: old(self)@.neighbors.update(
                    i as int,
                    old(self)@.neighbors[i as int].flushed(),
                ),
                ..old(self)@
            }),
            final(self).neighbors@.len() == old(self).neighbors@.len(),
            wire::views(final(out)@) == wire::views(old(out)@) + old(self)@.queued_for(
                old(self)@.neighbors[i as int],
                router_id,
            ),
    {
        let ghost me = self@;
        let ghost n = self.neighbors@[i as int]@;
        let ghost start = wire::views(out@);
        assert(n == me.neighbors[i as int]);
        if !self.neighbors[i].state.reached(NeighborStateV3::Exchange) {
            assert(start + Seq::<TxPacketV3View>::empty() =~= start);
            assert(me.neighbors.update(i as int, n) =~= me.neighbors);
            return ;
        }
        let dst: u128 = self.neighbors[i].link_local;
        if self.neighbors[i].lsr_pending && self.neighbors[i].request_list.len() > 0 {
            self.neighbors[i].lsr_pending = false;
            let mut requests: Vec<LsRequestV3> = Vec::new();
            let mut k: usize = 0;
            while k < self.neighbors[i].request_list.len()
                invariant
                    i < self.neighbors@.len(),
                    n.request_list == self.neighbors@[i as int].request_list@,
                    k <= n.request_list.len(),
                    requests@ == requests_of(n.request_list).take(k as int),
                decreases n.request_list.len() - k,
            {
                let h = self.neighbors[i].request_list[k];
                requests.push(
                    LsRequestV3 {
                        ls_type: h.ls_type,
                        link_state_id: h.link_state_id,
                        advertising_router: h.advertising_router,
                    },
                );
                k = k + 1;
                assert(requests@ =~= requests_of(n.request_list).take(k as int));
            }
            assert(requests@ =~= requests_of(n.request_list));
            let pkt = LsRequestV3Packet { requests };
            let mut body: Vec<u8> = Vec::new();
            pkt.encode(&mut body);
            assert(body@ =~= lsr::requests_bytes(requests_of(n.request_list)));
            let p = self.build_packet(Ospfv3PacketType::LinkStateRequest, router_id, dst, &body);
            out.push(p);
        }
        let ghost after_lsr = wire::views(out@);
        let mut lsas: Vec<LsaV3Raw> = Vec::new();
        std::mem::swap(&mut lsas, &mut self.neighbors[i].pending_lsu);
        if lsas.len() > 0 {
            let pkt = LsUpdateV3Packet { lsas };
            let mut body: Vec<u8> = Vec::new();
            pkt.encode(&mut body);
            assert(body@ =~= lsu::update_bytes(n.pending_lsu));
            let p = self.build_packet(Ospfv3PacketType::LinkStateUpdate, router_id, dst, &body);
            out.push(p);
        }
        let ghost after_lsu = wire::views(out@);
        let mut headers: Vec<LsaV3Header> = Vec::new();
        std::mem::swap(&mut headers, &mut self.neighbors[i].pending_acks);
        if headers.len() > 0 {
            let pkt = LsAckV3Packet { headers };
            let mut body: Vec<u8> = Vec::new();
            pkt.encode(&mut body);
            assert(body@ =~= packet_v3::headers_bytes(n.pending_acks));
            let p = self.build_packet(Ospfv3PacketType::LinkStateAck, router_id, dst, &body);
            out.push(p);
        }
        assert(wire::views(self.neighbors@[i as int].pending_lsu@) =~= Seq::empty());
        assert(self.neighbors@[i as int]@ == n.flushed());
        assert(wire::views(self.neighbors@) =~= me.neighbors.update(i as int, n.flushed()));
        assert(wire::views(out@) =~= start + me.queued_for(n, router_id));
    }

    /// Sends the queued packets.
    fn flush_queues(&mut self, router_id: u32, out: &mut Vec<TxPacketV3>)
        ensures
            final(self)@ == old(self)@.after_queued(),
            wire::views(final(out)@) == wire::views(old(out)@) + old(self)@.due_queued(router_id),
    {
        let ghost me = self@;
        let ghost start = wire::views(out@);
        let ghost ns = me.neighbors;
        assert(start + Seq::<TxPacketV3View>::empty() =~= start);
        if self.state == InterfaceStateV3::Down {
            return ;
        }
        let mut i: usize = 0;
        assert(ns.take(0) =~= Seq::empty());
        while i < self.neighbors.len()
            invariant
                i <= self.neighbors@.len(),
                ns == me.neighbors,
                self.neighbors@.len() == ns.len(),
                self@ == (InterfaceV3View { neighbors: self@.neighbors, ..me }),
                self@.neighbors == Seq::new(
                    ns.len(),
                    |k: int|
                        if k < i {
                            ns[k].flushed()
                        } else {
                            ns[k]
                        },
                ),
                wire::views(out@) == start + me.queued(ns.take(i as int), router_id),
            decreases self.neighbors.len() - i,
        {
            assert(ns.take(i + 1).drop_last() =~= ns.take(i as int));
            assert(self@.neighbors[i as int] == ns[i as int]);
            let ghost now_me = self@;
            self.flush_neighbor(i, router_id, out);
            assert(now_me.queued_for(ns[i as int], router_id) == me.queued_for(
                ns[i as int],
                router_id,
            ));
            i = i + 1;
            assert(self@.neighbors =~= Seq::new(
                ns.len(),
                |k: int|
                    if k < i {
                        ns[k].flushed()
                    } else {
                        ns[k]
                    },
            ));
            assert(wire::views(out@) =~= start + me.queued(ns.take(i as int), router_id));
        }
        assert(ns.take(i as int) =~= ns);
        assert(self@.neighbors =~= Seq::new(ns.len(), |k: int| ns[k].flushed()));
    }
}

impl InstanceV3 {
    /// Sends the description packets of `now`. A neighbor whose exchange ended with its packet
    /// moves on to Loading or Full, and our LSAs are due to be originated anew.
    pub fn emit_pending_dds(&mut self, now: u64) -> (out: Vec<TxPacketV3>)
        ensures
            wire::views(out@) == all_dds(old(self)@.interfaces, old(self)@.router_id, now),
            final(self)@ == (InstanceV3View {
                interfaces: Seq::new(
                    old(self)@.interfaces.len(),
                    |i: int|
                        old(self)@.interfaces[i].after_dds(
                            lsdb_v3::entry_headers(old(self)@.lsdb.entries),
                            now,
                        ),
                ),
                ..old(self)@
            }),
    {
        let ours = self.lsdb.headers();
        let mut out: Vec<TxPacketV3> = Vec::new();
        let ghost me = self@;
        let ghost ifs = self@.interfaces;
        let router_id: u32 = self.router_id;
        let mut i: usize = 0;
        assert(ifs.take(0) =~= Seq::empty());
        assert(wire::views(out@) =~= Seq::empty());
        while i < self.interfaces.len()
            invariant
                i <= self.interfaces@.len(),
                self.interfaces@.len() == ifs.len(),
                me.interfaces == ifs,
                self@ == (InstanceV3View { interfaces: self@.interfaces, ..me }),
                router_id == me.router_id,
                forall|k: int|
                    0 <= k < i ==> (#[trigger] self.interfaces@[k])@ == ifs[k].after_dds(ours@, now),
                forall|k: int| i <= k < ifs.len() ==> (#[trigger] self.interfaces@[k])@ == ifs[k],
                wire::views(out@) == all_dds(ifs.take(i as int), router_id, now),
            decreases self.interfaces.len() - i,
        {
            assert(ifs.take(i + 1).drop_last() =~= ifs.take(i as int));
            self.interfaces[i].dd_tick(router_id, &ours, now, &mut out);
            i = i + 1;
        }
        assert(ifs.take(i as int) =~= ifs);
        assert(self@.interfaces =~= Seq::new(ifs.len(), |k: int| ifs[k].after_dds(ours@, now)));
        out
    }

    /// Sends the queued requests, updates and acknowledgments of all neighbors.
    pub fn emit_pending_lsdb_packets(&mut self) -> (out: Vec<TxPacketV3>)
        ensures
            wire::views(out@) == all_queued(old(self)@.interfaces, old(self)@.router_id),
            final(self)@ == (InstanceV3View {
                interfaces: Seq::new(
                    old(self)@.interfaces.len(),
                    |i: int| old(self)@.interfaces[i].after_queued(),
                ),
                ..old(self)@
            }),
    {
        let mut out: Vec<TxPacketV3> = Vec::new();
        let ghost me = self@;
        let ghost ifs = self@.interfaces;
        let router_id: u32 = self.router_id;
        let mut i: usize = 0;
        assert(ifs.take(0) =~= Seq::empty());
        assert(wire::views(out@) =~= Seq::empty());
        while i < self.interfaces.len()
            invariant
                i <= self.interfaces@.len(),
                self.interfaces@.len() == ifs.len(),
                me.interfaces == ifs,
                self@ == (InstanceV3View { interfaces: self@.interfaces, ..me }),
                router_id == me.router_id,
                forall|k: int|
                    0 <= k < i ==> (#[trigger] self.interfaces@[k])@ == ifs[k].after_queued(),
                forall|k: int| i <= k < ifs.len() ==> (#[trigger] self.interfaces@[k])@ == ifs[k],
                wire::views(out@) == all_queued(ifs.take(i as int), router_id),
            decreases self.interfaces.len() - i,
        {
            assert(ifs.take(i + 1).drop_last() =~= ifs.take(i as int));
            self.interfaces[i].flush_queues(router_id, &mut out);
            i = i + 1;
        }
        assert(ifs.take(i as int) =~= ifs);
        assert(self@.interfaces =~= Seq::new(ifs.len(), |k: int| ifs[k].after_queued()));
        out
    }
}

} // verus!
