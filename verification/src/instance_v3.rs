//! The OSPFv3 protocol instance: its state, timers and interface events.
//!
//! Times are milliseconds of a monotonic clock whose origin lies at least an hour in the past.
use vstd::prelude::*;

use crate::area::AreaType;
use crate::config;
use crate::config::{ParsedSummaryAddress6, RedistributeConfig, RouteMap};
use crate::election;
use crate::election::{run_election, Candidate};
use crate::io_v3::{IoInterfaceV3, IoInterfaceV3View, TxPacketV3, TxPacketV3View};
use crate::lsdb_v3::{LsdbV3, LsdbV3View};
use crate::packet_v3;
use crate::packet_v3::dd::{DbDescV3Packet, DbDescV3View};
use crate::packet_v3::hello::{HelloV3Packet, HelloV3View};
use crate::packet_v3::lsu::{LsaV3Raw, LsaV3RawView};
use crate::packet_v3::{frame, LsaV3Header, Options, Ospfv3PacketType, ALL_SPF_ROUTERS_V6};
use crate::wire;
use crate::wire::copy_bytes;

pub mod distinct;
pub mod exchange;
pub mod exchange_laws;
pub mod external_laws;
pub mod externals;
pub mod flooding;
pub mod hello_laws;
pub mod link_laws;
pub mod prefix_laws;
pub mod table_laws;
pub mod inter_area;
pub mod inter_area_laws;
pub mod laws;
pub mod originate;
pub mod reload;
pub mod restart;
pub mod routes;
pub mod rx;
pub mod step;

verus! {

broadcast use {wire::lemma_views_push, wire::lemma_views_update};

/// How far an adjacency has come.
#[derive(Clone, Copy, Debug, PartialEq, Eq, PartialOrd, Ord, Structural)]
pub enum NeighborStateV3 {
    Down,
    Init,
    TwoWay,
    ExStart,
    Exchange,
    Loading,
    Full,
}

impl NeighborStateV3 {
    /// The position of the state in the life of an adjacency.
    pub open spec fn level(self) -> int {
        match self {
            NeighborStateV3::Down => 0,
            NeighborStateV3::Init => 1,
            NeighborStateV3::TwoWay => 2,
            NeighborStateV3::ExStart => 3,
            NeighborStateV3::Exchange => 4,
            NeighborStateV3::Loading => 5,
            NeighborStateV3::Full => 6,
        }
    }

    /// Whether the adjacency has come at least as far as `other`.
    pub fn reached(self, other: NeighborStateV3) -> (r: bool)
        ensures
            r == (self.level() >= other.level()),
    {
        self.number() >= other.number()
    }

    fn number(self) -> (n: u8)
        ensures
            n == self.level(),
    {
        match self {
            NeighborStateV3::Down => 0,
            NeighborStateV3::Init => 1,
            NeighborStateV3::TwoWay => 2,
            NeighborStateV3::ExStart => 3,
            NeighborStateV3::Exchange => 4,
            NeighborStateV3::Loading => 5,
            NeighborStateV3::Full => 6,
        }
    }
}

/// A neighbor on one interface.
#[derive(Debug)]
pub struct NeighborV3 {
    pub router_id: u32,
    pub interface_id: u32,
    pub link_local: u128,
    pub priority: u8,
    pub dr: u32,
    pub bdr: u32,
    pub state: NeighborStateV3,
    pub last_hello: u64,
    /// Whether we are master of the database exchange.
    pub dd_master: bool,
    /// Our current exchange sequence number.
    pub dd_seq: u32,
    /// Headers that the peer described.
    pub dd_summary_recv: Vec<LsaV3Header>,
    /// Headers that we have yet to describe.
    pub dd_summary_tx: Vec<LsaV3Header>,
    /// The last description packet that we sent.
    pub last_dd_tx: Option<DbDescV3Packet>,
    pub last_dd_sent: u64,
    /// Whether we owe the peer a description packet.
    pub dd_response_pending: bool,
    /// LSAs that we have yet to get from the peer.
    pub request_list: Vec<LsaV3Header>,
    /// LSAs that we have yet to acknowledge.
    pub pending_acks: Vec<LsaV3Header>,
    /// LSAs that we have yet to send.
    pub pending_lsu: Vec<LsaV3Raw>,
    /// Whether the request list has yet to be sent.
    pub lsr_pending: bool,
    /// Whether a slave has yet to echo the last description packet.
    pub dd_send_final: bool,
    /// Whether the peer has described everything.
    pub dd_peer_done: bool,
}

/// What is known of a neighbor.
pub struct NeighborV3View {
    pub router_id: u32,
    pub interface_id: u32,
    pub link_local: u128,
    pub priority: u8,
    pub dr: u32,
    pub bdr: u32,
    pub state: NeighborStateV3,
    pub last_hello: u64,
    pub dd_master: bool,
    pub dd_seq: u32,
    pub dd_summary_recv: Seq<LsaV3Header>,
    pub dd_summary_tx: Seq<LsaV3Header>,
    pub last_dd_tx: Option<DbDescV3View>,
    pub last_dd_sent: u64,
    pub dd_response_pending: bool,
    pub request_list: Seq<LsaV3Header>,
    pub pending_acks: Seq<LsaV3Header>,
    pub pending_lsu: Seq<LsaV3RawView>,
    pub lsr_pending: bool,
    pub dd_send_final: bool,
    pub dd_peer_done: bool,
}

impl View for NeighborV3 {
    type V = NeighborV3View;

    open spec fn view(&self) -> NeighborV3View {
        NeighborV3View {
            router_id: self.router_id,
            interface_id: self.interface_id,
            link_local: self.link_local,
            priority: self.priority,
            dr: self.dr,
            bdr: self.bdr,
            state: self.state,
            last_hello: self.last_hello,
            dd_master: self.dd_master,
            dd_seq: self.dd_seq,
            dd_summary_recv: self.dd_summary_recv@,
            dd_summary_tx: self.dd_summary_tx@,
            last_dd_tx: match self.last_dd_tx {
                Some(d) => Some(d@),
                None => None,
            },
            last_dd_sent: self.last_dd_sent,
            dd_response_pending: self.dd_response_pending,
            request_list: self.request_list@,
            pending_acks: self.pending_acks@,
            pending_lsu: wire::views(self.pending_lsu@),
            lsr_pending: self.lsr_pending,
            dd_send_final: self.dd_send_final,
            dd_peer_done: self.dd_peer_done,
        }
    }
}

/// The state of an interface.
#[derive(Clone, Copy, Debug, PartialEq, Eq, Structural)]
pub enum InterfaceStateV3 {
    Down,
    Waiting,
    DR,
    Backup,
    DROther,
    PointToPoint,
}

/// The kind of network behind an interface.
#[derive(Clone, Copy, Debug, PartialEq, Eq, Structural)]
pub enum NetworkTypeV3 {
    Broadcast,
    PointToPoint,
    /// Elects a designated router like a broadcast network, but Hellos go to configured
    /// neighbors one by one.
    NonBroadcast,
    /// A set of point-to-point adjacencies; no election.
    PointToMultipoint,
}

impl NetworkTypeV3 {
    /// Whether a designated router is elected.
    pub open spec fn spec_elects(self) -> bool {
        self == NetworkTypeV3::Broadcast || self == NetworkTypeV3::NonBroadcast
    }

    /// Whether a designated router is elected.
    pub fn elects(self) -> (r: bool)
        ensures
            r == self.spec_elects(),
    {
        match self {
            NetworkTypeV3::Broadcast | NetworkTypeV3::NonBroadcast => true,
            NetworkTypeV3::PointToPoint | NetworkTypeV3::PointToMultipoint => false,
        }
    }

    /// The state of an interface of this kind that came up.
    pub open spec fn spec_up_state(self) -> InterfaceStateV3 {
        if self.spec_elects() {
            InterfaceStateV3::Waiting
        } else {
            InterfaceStateV3::PointToPoint
        }
    }

    /// The state of an interface of this kind that came up.
    pub fn up_state(self) -> (r: InterfaceStateV3)
        ensures
            r == self.spec_up_state(),
    {
        if self.elects() {
            InterfaceStateV3::Waiting
        } else {
            InterfaceStateV3::PointToPoint
        }
    }
}

/// A configured neighbor of a non-broadcast network.
#[derive(Clone, Copy, Debug, PartialEq, Eq, Structural)]
pub struct StaticNeighborV3 {
    /// Where Hellos go.
    pub link_local: u128,
    /// Priority until the neighbor is heard.
    pub priority: u8,
}

/// An interface of the instance. Neighbors keep the order in which they were first heard.
pub struct InterfaceV3 {
    pub io: IoInterfaceV3,
    pub area_id: u32,
    pub interface_id: u32,
    pub network_type: NetworkTypeV3,
    pub hello_interval: u16,
    pub dead_interval: u16,
    pub retransmit_interval: u16,
    pub transmit_delay: u16,
    pub priority: u8,
    pub instance_id: u8,
    pub state: InterfaceStateV3,
    pub dr: u32,
    pub bdr: u32,
    pub neighbors: Vec<NeighborV3>,
    pub last_hello_sent: u64,
    /// Whether our own LSAs have to be originated anew.
    pub needs_router_lsa_refresh: bool,
    /// Global prefixes of the link.
    pub global_prefixes: Vec<(u128, u8)>,
    /// Configured neighbors of a non-broadcast network.
    pub static_neighbors: Vec<StaticNeighborV3>,
}

/// What is known of an interface.
pub struct InterfaceV3View {
    pub io: IoInterfaceV3View,
    pub area_id: u32,
    pub interface_id: u32,
    pub network_type: NetworkTypeV3,
    pub hello_interval: u16,
    pub dead_interval: u16,
    pub retransmit_interval: u16,
    pub transmit_delay: u16,
    pub priority: u8,
    pub instance_id: u8,
    pub state: InterfaceStateV3,
    pub dr: u32,
    pub bdr: u32,
    pub neighbors: Seq<NeighborV3View>,
    pub last_hello_sent: u64,
    pub needs_router_lsa_refresh: bool,
    pub global_prefixes: Seq<(u128, u8)>,
    pub static_neighbors: Seq<StaticNeighborV3>,
}

impl View for InterfaceV3 {
    type V = InterfaceV3View;

    open spec fn view(&self) -> InterfaceV3View {
        InterfaceV3View {
            io: self.io@,
            area_id: self.area_id,
            interface_id: self.interface_id,
            network_type: self.network_type,
            hello_interval: self.hello_interval,
            dead_interval: self.dead_interval,
            retransmit_interval: self.retransmit_interval,
            transmit_delay: self.transmit_delay,
            priority: self.priority,
            instance_id: self.instance_id,
            state: self.state,
            dr: self.dr,
            bdr: self.bdr,
            neighbors: wire::views(self.neighbors@),
            last_hello_sent: self.last_hello_sent,
            needs_router_lsa_refresh: self.needs_router_lsa_refresh,
            global_prefixes: self.global_prefixes@,
            static_neighbors: self.static_neighbors@,
        }
    }
}

/// The protocol instance. Interfaces keep the order in which they were added.
pub struct InstanceV3 {
    /// The VRF that the instance serves; nothing for the default one.
    pub vrf_name: Option<String>,
    pub router_id: u32,
    pub interfaces: Vec<InterfaceV3>,
    pub lsdb: LsdbV3,
    /// Area types that were registered; an area that is not listed is normal.
    pub area_types: Vec<(u32, AreaType)>,
    /// Whether routes of other protocols are redistributed.
    pub asbr: bool,
    /// The redistribution rules.
    pub redistribute: Vec<RedistributeConfig>,
    pub summary_addresses: Vec<ParsedSummaryAddress6>,
    /// The route maps that redistribution rules name.
    pub route_maps: Vec<RouteMap>,
}

/// What the instance knows.
pub struct InstanceV3View {
    pub vrf_name: Option<Seq<char>>,
    pub router_id: u32,
    pub interfaces: Seq<InterfaceV3View>,
    pub lsdb: LsdbV3View,
    pub area_types: Seq<(u32, AreaType)>,
    pub asbr: bool,
    pub redistribute: Seq<config::RedistributeConfigView>,
    pub summary_addresses: Seq<ParsedSummaryAddress6>,
    pub route_maps: Seq<config::RouteMapView>,
}

impl View for InstanceV3 {
    type V = InstanceV3View;

    open spec fn view(&self) -> InstanceV3View {
        InstanceV3View {
            vrf_name: match self.vrf_name {
                Some(n) => Some(n@),
                None => None,
            },
            router_id: self.router_id,
            interfaces: wire::views(self.interfaces@),
            lsdb: self.lsdb@,
            area_types: self.area_types@,
            asbr: self.asbr,
            redistribute: wire::views(self.redistribute@),
            summary_addresses: self.summary_addresses@,
            route_maps: wire::views(self.route_maps@),
        }
    }
}

/// Milliseconds between `then` and `now`; 0 if `then` lies ahead.
pub open spec fn elapsed(now: u64, earlier: u64) -> int {
    if now >= earlier {
        now - earlier
    } else {
        0
    }
}

/// The instant an hour before `now`.
pub open spec fn hour_before(now: u64) -> u64 {
    if now >= 3600000 {
        (now - 3600000) as u64
    } else {
        0
    }
}

/// The position of the neighbor with router id `id` at or behind `from`.
pub open spec fn neighbor_pos(s: Seq<NeighborV3View>, id: u32, from: int) -> Option<int>
    decreases s.len() - from,
{
    if from < 0 || from >= s.len() {
        None
    } else if s[from].router_id == id {
        Some(from)
    } else {
        neighbor_pos(s, id, from + 1)
    }
}

/// The position of the interface with index `idx` at or behind `from`.
pub open spec fn iface_pos(s: Seq<InterfaceV3View>, idx: u32, from: int) -> Option<int>
    decreases s.len() - from,
{
    if from < 0 || from >= s.len() {
        None
    } else if s[from].io.sw_if_index == idx {
        Some(from)
    } else {
        iface_pos(s, idx, from + 1)
    }
}

/// The neighbors that take part in the election.
pub open spec fn candidates(ns: Seq<NeighborV3View>) -> Seq<Candidate>
    decreases ns.len(),
{
    if ns.len() == 0 {
        Seq::empty()
    } else {
        let front = candidates(ns.drop_last());
        let n = ns.last();
        if n.state.level() >= NeighborStateV3::TwoWay.level() && n.priority > 0 {
            front.push(
                Candidate {
                    id: n.router_id,
                    router_id: n.router_id,
                    priority: n.priority,
                    declared_dr: n.dr,
                    declared_bdr: n.bdr,
                },
            )
        } else {
            front
        }
    }
}

/// The router ids of the neighbors.
pub open spec fn neighbor_ids(ns: Seq<NeighborV3View>) -> Seq<u32> {
    Seq::new(ns.len(), |i: int| ns[i].router_id)
}

impl InterfaceV3View {
    /// No neighbor occurs twice.
    pub open spec fn wf(self) -> bool {
        forall|i: int, j: int|
            0 <= i < j < self.neighbors.len() ==> (#[trigger] self.neighbors[i]).router_id != (
            #[trigger] self.neighbors[j]).router_id
    }

    /// The interface after an election.
    pub open spec fn elected(self, router_id: u32) -> InterfaceV3View {
        let r = election::outcome(
            candidates(self.neighbors),
            router_id,
            router_id,
            self.priority,
            self.dr,
            self.bdr,
        );
        InterfaceV3View {
            dr: r.0,
            bdr: r.1,
            state: if r.0 == router_id {
                InterfaceStateV3::DR
            } else if r.1 == router_id {
                InterfaceStateV3::Backup
            } else {
                InterfaceStateV3::DROther
            },
            ..self
        }
    }

    /// The interface with its adjacencies torn down.
    pub open spec fn torn_down(self) -> InterfaceV3View {
        InterfaceV3View {
            state: InterfaceStateV3::Down,
            neighbors: Seq::empty(),
            dr: 0,
            bdr: 0,
            ..self
        }
    }

    /// Whether a Hello is due.
    pub open spec fn hello_due(self, now: u64) -> bool {
        self.state != InterfaceStateV3::Down && elapsed(now, self.last_hello_sent)
            >= self.hello_interval * 1000
    }

    /// The Hello that the interface sends.
    pub open spec fn hello(self) -> HelloV3View {
        HelloV3View {
            interface_id: self.interface_id,
            router_priority: self.priority,
            options: Options::spec_standard(),
            hello_interval: self.hello_interval,
            router_dead_interval: self.dead_interval,
            designated_router_id: self.dr,
            backup_designated_router_id: self.bdr,
            neighbors: neighbor_ids(self.neighbors),
        }
    }

    /// The octets of the Hello packet.
    pub open spec fn hello_bytes(self, router_id: u32) -> Seq<u8> {
        packet_v3::framed(
            Ospfv3PacketType::Hello,
            router_id,
            self.area_id,
            self.instance_id,
            self.hello().bytes(),
        )
    }

    /// Where Hellos go: to each configured neighbor of a non-broadcast network, else to the group.
    pub open spec fn hello_destinations(self) -> Seq<u128> {
        if self.network_type == NetworkTypeV3::NonBroadcast {
            Seq::new(self.static_neighbors.len(), |i: int| self.static_neighbors[i].link_local)
        } else {
            seq![ALL_SPF_ROUTERS_V6]
        }
    }

    /// The Hello packets that are due at `now`.
    pub open spec fn hello_packets(self, router_id: u32, now: u64) -> Seq<TxPacketV3View> {
        if self.hello_due(now) {
            let dests = self.hello_destinations();
            Seq::new(
                dests.len(),
                |i: int|
                    TxPacketV3View {
                        sw_if_index: self.io.sw_if_index,
                        src_addr: self.io.link_local,
                        dst_addr: dests[i],
                        data: self.hello_bytes(router_id),
                    },
            )
        } else {
            Seq::empty()
        }
    }

    /// The interface after the Hellos of `now` went out.
    pub open spec fn after_hello(self, now: u64) -> InterfaceV3View {
        if self.hello_due(now) {
            InterfaceV3View { last_hello_sent: now, ..self }
        } else {
            self
        }
    }

    /// Whether the neighbor was heard within the dead interval.
    pub open spec fn alive(self, n: NeighborV3View, now: u64) -> bool {
        elapsed(now, n.last_hello) < self.dead_interval * 1000
    }

    /// The neighbors among `ns` that were heard within the dead interval.
    pub open spec fn survivors(self, ns: Seq<NeighborV3View>, now: u64) -> Seq<NeighborV3View>
        decreases ns.len(),
    {
        if ns.len() == 0 {
            Seq::empty()
        } else {
            let front = self.survivors(ns.drop_last(), now);
            if self.alive(ns.last(), now) {
                front.push(ns.last())
            } else {
                front
            }
        }
    }

    /// Whether an adjacency was lost: a neighbor among `ns` that was Full fell silent.
    pub open spec fn adjacency_expired(self, ns: Seq<NeighborV3View>, now: u64) -> bool {
        exists|i: int|
            0 <= i < ns.len() && (#[trigger] ns[i]).state == NeighborStateV3::Full && !self.alive(
                ns[i],
                now,
            )
    }

    /// The interface without the neighbors that fell silent. A lost adjacency asks for our
    /// Router-LSA to be originated anew.
    pub open spec fn expired(self, router_id: u32, now: u64) -> InterfaceV3View {
        let left = self.survivors(self.neighbors, now);
        let after = InterfaceV3View {
            neighbors: left,
            needs_router_lsa_refresh: self.needs_router_lsa_refresh || self.adjacency_expired(
                self.neighbors,
                now,
            ),
            ..self
        };
        if left.len() != self.neighbors.len() && self.network_type.spec_elects() {
            after.elected(router_id)
        } else {
            after
        }
    }

    /// The interface after the snapshot of its link was reconciled, and whether anything changed.
    pub open spec fn refreshed(
        self,
        link_local: Option<u128>,
        prefixes: Seq<(u128, u8)>,
        oper_up: bool,
    ) -> (InterfaceV3View, bool) {
        let linked = match link_local {
            Some(ll) => InterfaceV3View {
                io: IoInterfaceV3View { link_local: ll, ..self.io },
                ..self
            },
            None => if self.state != InterfaceStateV3::Down {
                self.torn_down()
            } else {
                self
            },
        };
        let link_changed = match link_local {
            Some(ll) => self.io.link_local != ll,
            None => self.state != InterfaceStateV3::Down,
        };
        let prefixed = InterfaceV3View { global_prefixes: prefixes, ..linked };
        let prefixes_changed = self.global_prefixes != prefixes;
        let was_up = prefixed.state != InterfaceStateV3::Down;
        let done = if oper_up && !was_up {
            InterfaceV3View { state: self.network_type.spec_up_state(), ..prefixed }
        } else if !oper_up && was_up {
            prefixed.torn_down()
        } else {
            prefixed
        };
        let changed = link_changed || prefixes_changed || oper_up != was_up;
        (
            InterfaceV3View {
                needs_router_lsa_refresh: self.needs_router_lsa_refresh || changed,
                ..done
            },
            changed,
        )
    }
}

impl InterfaceV3 {
    /// Milliseconds between two instants.
    fn since(now: u64, earlier: u64) -> (r: u64)
        ensures
            r == elapsed(now, earlier),
    {
        now.saturating_sub(earlier)
    }

    /// The position of the neighbor with router id `id`.
    pub fn find_neighbor(&self, id: u32) -> (r: Option<usize>)
        ensures
            match (r, neighbor_pos(self@.neighbors, id, 0)) {
                (Some(i), Some(j)) => i == j && i < self.neighbors@.len(),
                (None, None) => true,
                _ => false,
            },
    {
        let mut i: usize = 0;
        while i < self.neighbors.len()
            invariant
                i <= self.neighbors@.len(),
                neighbor_pos(self@.neighbors, id, 0) == neighbor_pos(self@.neighbors, id, i as int),
            decreases self.neighbors.len() - i,
        {
            if self.neighbors[i].router_id == id {
                return Some(i);
            }
            i = i + 1;
        }
        None
    }

    /// Elects the designated router and its backup anew.
    pub fn dr_election(&mut self, router_id: u32)
        ensures
            final(self)@ == old(self)@.elected(router_id),
    {
        let mut cs: Vec<Candidate> = Vec::new();
        let mut i: usize = 0;
        let ghost ns = self@.neighbors;
        assert(ns.take(0) =~= Seq::empty());
        while i < self.neighbors.len()
            invariant
                i <= self.neighbors@.len(),
                ns == wire::views(self.neighbors@),
                cs@ == candidates(ns.take(i as int)),
            decreases self.neighbors.len() - i,
        {
            assert(ns.take(i + 1).drop_last() =~= ns.take(i as int));
            let n = &self.neighbors[i];
            assert(n@ == ns[i as int]);
            if n.state.reached(NeighborStateV3::TwoWay) && n.priority > 0 {
                cs.push(
                    Candidate {
                        id: n.router_id,
                        router_id: n.router_id,
                        priority: n.priority,
                        declared_dr: n.dr,
                        declared_bdr: n.bdr,
                    },
                );
            }
            i = i + 1;
        }
        assert(ns.take(i as int) =~= ns);
        let r = run_election(&cs, router_id, router_id, self.priority, self.dr, self.bdr);
        self.dr = r.0;
        self.bdr = r.1;
        self.state = if r.0 == router_id {
            InterfaceStateV3::DR
        } else if r.1 == router_id {
            InterfaceStateV3::Backup
        } else {
            InterfaceStateV3::DROther
        };
    }

    /// The octets of the Hello packet that the interface sends.
    pub fn encode_hello(&self, router_id: u32) -> (r: Vec<u8>)
        ensures
            r@ == self@.hello_bytes(router_id),
    {
        let mut ids: Vec<u32> = Vec::new();
        let mut i: usize = 0;
        while i < self.neighbors.len()
            invariant
                i <= self.neighbors@.len(),
                ids@ == neighbor_ids(self@.neighbors).take(i as int),
            decreases self.neighbors.len() - i,
        {
            ids.push(self.neighbors[i].router_id);
            i = i + 1;
            assert(ids@ =~= neighbor_ids(self@.neighbors).take(i as int));
        }
        assert(ids@ =~= neighbor_ids(self@.neighbors));
        let hello = HelloV3Packet {
            interface_id: self.interface_id,
            router_priority: self.priority,
            options: Options::standard(),
            hello_interval: self.hello_interval,
            router_dead_interval: self.dead_interval,
            designated_router_id: self.dr,
            backup_designated_router_id: self.bdr,
            neighbors: ids,
        };
        let mut body: Vec<u8> = Vec::new();
        hello.encode(&mut body);
        assert(body@ =~= self@.hello().bytes());
        frame(Ospfv3PacketType::Hello, router_id, self.area_id, self.instance_id, &body)
    }

    /// Sends the Hellos that are due at `now`.
    fn hello_step(&mut self, router_id: u32, now: u64, out: &mut Vec<TxPacketV3>)
        ensures
            final(self)@ == old(self)@.after_hello(now),
            wire::views(final(out)@) == wire::views(old(out)@) + old(self)@.hello_packets(
                router_id,
                now,
            ),
    {
        let ghost me = self@;
        let ghost start = wire::views(out@);
        if self.state == InterfaceStateV3::Down || InterfaceV3::since(now, self.last_hello_sent) < (
        self.hello_interval as u64) * 1000 {
            assert(start + Seq::<TxPacketV3View>::empty() =~= start);
            return ;
        }
        self.last_hello_sent = now;
        let data = self.encode_hello(router_id);
        if self.network_type == NetworkTypeV3::NonBroadcast {
            let mut i: usize = 0;
            assert(wire::views(out@) =~= start + me.hello_packets(router_id, now).take(0));
            while i < self.static_neighbors.len()
                invariant
                    i <= self.static_neighbors@.len(),
                    self.static_neighbors@ == me.static_neighbors,
                    self.io@ == me.io,
                    data@ == me.hello_bytes(router_id),
                    me.hello_due(now),
                    me.network_type == NetworkTypeV3::NonBroadcast,
                    wire::views(out@) == start + me.hello_packets(router_id, now).take(i as int),
                decreases self.static_neighbors.len() - i,
            {
                let p = TxPacketV3 {
                    sw_if_index: self.io.sw_if_index,
                    src_addr: self.io.link_local,
                    dst_addr: self.static_neighbors[i].link_local,
                    data: copy_bytes(&data),
                };
                assert(p@ == me.hello_packets(router_id, now)[i as int]);
                out.push(p);
                i = i + 1;
                assert(wire::views(out@) =~= start + me.hello_packets(router_id, now).take(i as int));
            }
            assert(me.hello_packets(router_id, now).take(i as int) =~= me.hello_packets(
                router_id,
                now,
            ));
        } else {
            let p = TxPacketV3 {
                sw_if_index: self.io.sw_if_index,
                src_addr: self.io.link_local,
                dst_addr: ALL_SPF_ROUTERS_V6,
                data,
            };
            out.push(p);
            assert(wire::views(out@) =~= start + me.hello_packets(router_id, now));
        }
    }

    /// Drops the neighbors that fell silent and elects anew where that matters.
    fn expire_step(&mut self, router_id: u32, now: u64)
        ensures
            final(self)@ == old(self)@.expired(router_id, now),
    {
        let ghost me = self@;
        let before: usize = self.neighbors.len();
        let dead: u64 = (self.dead_interval as u64) * 1000;
        let mut old_list: Vec<NeighborV3> = Vec::new();
        std::mem::swap(&mut old_list, &mut self.neighbors);
        let mut kept: Vec<NeighborV3> = Vec::new();
        let ghost ns = wire::views(old_list@);
        assert(ns == me.neighbors);
        // Taken from the back and turned round, so that nothing is copied.
        let ghost total = ns.len() as int;
        let mut rev: Vec<NeighborV3> = Vec::new();
        while old_list.len() > 0
            invariant
                old_list@.len() + rev@.len() == total,
                total == ns.len(),
                wire::views(old_list@) == ns.take(old_list@.len() as int),
                forall|k: int|
                    0 <= k < rev@.len() ==> (#[trigger] rev@[k])@ == ns[total - 1 - k],
            decreases old_list.len(),
        {
            let ghost bl = old_list@;
            let n = old_list.pop().unwrap();
            assert(n@ == wire::views(bl)[bl.len() - 1]);
            assert(wire::views(old_list@) =~= ns.take(old_list@.len() as int));
            rev.push(n);
        }
        assert(ns.take(0) =~= Seq::empty());
        let mut lost = false;
        while rev.len() > 0
            invariant
                rev@.len() <= total,
                lost == me.adjacency_expired(ns.take(total - rev@.len()), now),
                total == ns.len(),
                dead == me.dead_interval * 1000,
                forall|k: int|
                    0 <= k < rev@.len() ==> (#[trigger] rev@[k])@ == ns[total - 1 - k],
                wire::views(kept@) == me.survivors(ns.take(total - rev@.len()), now),
            decreases rev.len(),
        {
            let ghost at = total - rev@.len();
            let n = rev.pop().unwrap();
            assert(n@ == ns[at]);
            assert(ns.take(at + 1).drop_last() =~= ns.take(at));
            assert(ns.take(at + 1)[at] == ns[at]);
            proof {
                if lost {
                    let i = choose|i: int|
                        0 <= i < ns.take(at).len() && (#[trigger] ns.take(at)[i]).state
                            == NeighborStateV3::Full && !me.alive(ns.take(at)[i], now);
                    assert(ns.take(at + 1)[i] == ns.take(at)[i]);
                } else {
                    assert forall|i: int| 0 <= i < at implies !((#[trigger] ns.take(at + 1)[i]).state
                        == NeighborStateV3::Full && !me.alive(ns.take(at + 1)[i], now)) by {
                        assert(ns.take(at + 1)[i] == ns.take(at)[i]);
                    }
                }
            }
            if InterfaceV3::since(now, n.last_hello) < dead {
                kept.push(n);
            } else if n.state == NeighborStateV3::Full {
                lost = true;
            }
        }
        assert(ns.take(total) =~= ns);
        let after: usize = kept.len();
        self.neighbors = kept;
        if lost {
            self.needs_router_lsa_refresh = true;
        }
        if after != before && self.network_type.elects() {
            self.dr_election(router_id);
        }
    }

    /// Marks the interface down and forgets its neighbors.
    fn tear_down(&mut self)
        ensures
            final(self)@ == old(self)@.torn_down(),
    {
        self.state = InterfaceStateV3::Down;
        self.neighbors = Vec::new();
        self.dr = 0;
        self.bdr = 0;
        assert(self@.neighbors =~= Seq::empty());
    }

    /// Reconciles the interface with a snapshot of its link.
    fn refresh_step(
        &mut self,
        new_link_local: Option<u128>,
        new_prefixes: Vec<(u128, u8)>,
        oper_up: bool,
    ) -> (changed: bool)
        ensures
            (final(self)@, changed) == old(self)@.refreshed(
                new_link_local,
                new_prefixes@,
                oper_up,
            ),
    {
        let mut changed = false;
        match new_link_local {
            Some(ll) => {
                if self.io.link_local != ll {
                    self.io.link_local = ll;
                    changed = true;
                }
            },
            None => {
                if self.state != InterfaceStateV3::Down {
                    self.tear_down();
                    changed = true;
                }
            },
        }
        if !same_prefixes(&self.global_prefixes, &new_prefixes) {
            changed = true;
        }
        self.global_prefixes = new_prefixes;
        let was_up = self.state != InterfaceStateV3::Down;
        if oper_up && !was_up {
            self.state = self.network_type.up_state();
            changed = true;
        } else if !oper_up && was_up {
            self.tear_down();
            changed = true;
        }
        if changed {
            self.needs_router_lsa_refresh = true;
        }
        changed
    }
}

/// Whether the two lists hold the same prefixes in the same order.
fn same_prefixes(a: &Vec<(u128, u8)>, b: &Vec<(u128, u8)>) -> (r: bool)
    ensures
        r == (a@ == b@),
{
    if a.len() != b.len() {
        return false;
    }
    let mut i: usize = 0;
    while i < a.len()
        invariant
            i <= a@.len(),
            a@.len() == b@.len(),
            a@.take(i as int) == b@.take(i as int),
        decreases a.len() - i,
    {
        if a[i].0 != b[i].0 || a[i].1 != b[i].1 {
            return false;
        }
        assert(a@.take(i + 1) =~= a@.take(i as int).push(a@[i as int]));
        assert(b@.take(i + 1) =~= b@.take(i as int).push(b@[i as int]));
        i = i + 1;
    }
    assert(a@.take(i as int) =~= a@);
    assert(b@.take(i as int) =~= b@);
    true
}

/// The type registered for `area` at or behind `from`, normal if none is.
pub open spec fn area_type_in(types: Seq<(u32, AreaType)>, area: u32, from: int) -> AreaType
    decreases types.len() - from,
{
    if from < 0 || from >= types.len() {
        AreaType::Normal
    } else if types[from].0 == area {
        types[from].1
    } else {
        area_type_in(types, area, from + 1)
    }
}

/// The position of the entry for `area` at or behind `from`.
pub open spec fn area_pos(types: Seq<(u32, AreaType)>, area: u32, from: int) -> Option<int>
    decreases types.len() - from,
{
    if from < 0 || from >= types.len() {
        None
    } else if types[from].0 == area {
        Some(from)
    } else {
        area_pos(types, area, from + 1)
    }
}

/// The Hellos that the interfaces send at `now`.
pub open spec fn all_hellos(ifs: Seq<InterfaceV3View>, router_id: u32, now: u64) -> Seq<
    TxPacketV3View,
>
    decreases ifs.len(),
{
    if ifs.len() == 0 {
        Seq::empty()
    } else {
        all_hellos(ifs.drop_last(), router_id, now) + ifs.last().hello_packets(router_id, now)
    }
}

/// The areas of the interfaces, each once, in the order in which they first occur.
pub open spec fn areas_of(ifs: Seq<InterfaceV3View>) -> Seq<u32>
    decreases ifs.len(),
{
    if ifs.len() == 0 {
        Seq::empty()
    } else {
        let front = areas_of(ifs.drop_last());
        if front.contains(ifs.last().area_id) {
            front
        } else {
            front.push(ifs.last().area_id)
        }
    }
}

impl InstanceV3View {
    /// Neither an interface nor, on one interface, a neighbor nor an LSA key occurs twice.
    pub open spec fn wf(self) -> bool {
        &&& self.lsdb.wf()
        &&& forall|i: int| 0 <= i < self.interfaces.len() ==> (#[trigger] self.interfaces[i]).wf()
        &&& forall|i: int, j: int|
            0 <= i < j < self.interfaces.len() ==> (#[trigger] self.interfaces[i]).io.sw_if_index
                != (#[trigger] self.interfaces[j]).io.sw_if_index
    }

    /// The type of an area, normal unless registered otherwise.
    pub open spec fn area_type(self, area: u32) -> AreaType {
        area_type_in(self.area_types, area, 0)
    }

    /// Whether an interface that is not down lies in `area`.
    pub open spec fn active_in(self, area: u32) -> bool {
        exists|i: int|
            0 <= i < self.interfaces.len() && (#[trigger] self.interfaces[i]).area_id == area
                && self.interfaces[i].state != InterfaceStateV3::Down
    }

    /// Whether the router borders areas: it is active in the backbone and in another area.
    pub open spec fn is_abr(self) -> bool {
        self.active_in(0) && exists|a: u32| a != 0 && #[trigger] self.active_in(a)
    }
}

impl InstanceV3View {
    /// The instance with the configured neighbors of an interface set, if it is on a non-broadcast
    /// network.
    pub open spec fn with_static(self, idx: u32, ns: Seq<StaticNeighborV3>) -> InstanceV3View {
        match iface_pos(self.interfaces, idx, 0) {
            Some(i) if self.interfaces[i].network_type == NetworkTypeV3::NonBroadcast =>
                InstanceV3View {
                interfaces: self.interfaces.update(
                    i,
                    InterfaceV3View { static_neighbors: ns, ..self.interfaces[i] },
                ),
                ..self
            },
            _ => self,
        }
    }
}

impl InstanceV3 {
    /// An instance without interfaces.
    pub fn new(router_id: u32) -> (r: InstanceV3)
        ensures
            r@ == (InstanceV3View {
                vrf_name: None,
                router_id,
                interfaces: Seq::empty(),
                lsdb: LsdbV3View::empty(),
                area_types: Seq::empty(),
                asbr: false,
                redistribute: Seq::empty(),
                summary_addresses: Seq::empty(),
                route_maps: Seq::empty(),
            }),
            r@.wf(),
    {
        let r = InstanceV3 {
            vrf_name: None,
            router_id,
            interfaces: Vec::new(),
            lsdb: LsdbV3::new(),
            area_types: Vec::new(),
            asbr: false,
            redistribute: Vec::new(),
            summary_addresses: Vec::new(),
            route_maps: Vec::new(),
        };
        assert(r@.interfaces =~= Seq::empty());
        assert(r@.redistribute =~= Seq::empty());
        assert(r@.route_maps =~= Seq::empty());
        r
    }

    /// The position of the interface with index `idx`.
    pub fn find_interface(&self, idx: u32) -> (r: Option<usize>)
        ensures
            match (r, iface_pos(self@.interfaces, idx, 0)) {
                (Some(i), Some(j)) => i == j && i < self.interfaces@.len(),
                (None, None) => true,
                _ => false,
            },
    {
        let mut i: usize = 0;
        while i < self.interfaces.len()
            invariant
                i <= self.interfaces@.len(),
                iface_pos(self@.interfaces, idx, 0) == iface_pos(self@.interfaces, idx, i as int),
            decreases self.interfaces.len() - i,
        {
            if self.interfaces[i].io.sw_if_index == idx {
                return Some(i);
            }
            i = i + 1;
        }
        None
    }

    /// Registers the type of an area.
    pub fn set_area_type(&mut self, area_id: u32, area_type: AreaType)
        ensures
            final(self)@ == (InstanceV3View {
                area_types: match area_pos(old(self)@.area_types, area_id, 0) {
                    Some(i) => old(self)@.area_types.update(i, (area_id, area_type)),
                    None => old(self)@.area_types.push((area_id, area_type)),
                },
                ..old(self)@
            }),
    {
        let mut i: usize = 0;
        while i < self.area_types.len()
            invariant
                i <= self.area_types@.len(),
                *self == *old(self),
                area_pos(self@.area_types, area_id, 0) == area_pos(
                    self@.area_types,
                    area_id,
                    i as int,
                ),
            decreases self.area_types.len() - i,
        {
            if self.area_types[i].0 == area_id {
                self.area_types.set(i, (area_id, area_type));
                return ;
            }
            i = i + 1;
        }
        self.area_types.push((area_id, area_type));
    }

    /// The type of an area, normal unless registered otherwise.
    pub fn area_type(&self, area_id: u32) -> (r: AreaType)
        ensures
            r == self@.area_type(area_id),
    {
        let mut i: usize = 0;
        while i < self.area_types.len()
            invariant
                i <= self.area_types@.len(),
                self@.area_type(area_id) == area_type_in(self@.area_types, area_id, i as int),
            decreases self.area_types.len() - i,
        {
            if self.area_types[i].0 == area_id {
                return self.area_types[i].1;
            }
            i = i + 1;
        }
        AreaType::Normal
    }

    /// Whether the router borders areas: it is active in the backbone and in another area.
    pub fn is_abr(&self) -> (r: bool)
        ensures
            r == self@.is_abr(),
    {
        let mut backbone = false;
        let mut other = false;
        let mut i: usize = 0;
        while i < self.interfaces.len()
            invariant
                i <= self.interfaces@.len(),
                backbone == exists|k: int|
                    0 <= k < i && (#[trigger] self@.interfaces[k]).area_id == 0
                        && self@.interfaces[k].state != InterfaceStateV3::Down,
                other == exists|k: int|
                    0 <= k < i && (#[trigger] self@.interfaces[k]).area_id != 0
                        && self@.interfaces[k].state != InterfaceStateV3::Down,
            decreases self.interfaces.len() - i,
        {
            assert(self@.interfaces[i as int] == self.interfaces@[i as int]@);
            if self.interfaces[i].state != InterfaceStateV3::Down {
                if self.interfaces[i].area_id == 0 {
                    backbone = true;
                } else {
                    other = true;
                }
            }
            i = i + 1;
        }
        proof {
            if other {
                let k = choose|k: int|
                    0 <= k < i && (#[trigger] self@.interfaces[k]).area_id != 0
                        && self@.interfaces[k].state != InterfaceStateV3::Down;
                assert(self@.active_in(self@.interfaces[k].area_id));
            }
        }
        backbone && other
    }

    /// Whether routes of other protocols are redistributed.
    pub fn is_asbr(&self) -> (r: bool)
        ensures
            r == self@.asbr,
    {
        self.asbr
    }

    /// Says whether routes of other protocols are redistributed.
    pub fn set_asbr(&mut self, asbr: bool)
        ensures
            final(self)@ == (InstanceV3View { asbr, ..old(self)@ }),
    {
        self.asbr = asbr;
    }

    /// The areas that the router has interfaces in, each once.
    pub fn areas(&self) -> (r: Vec<u32>)
        ensures
            r@ == areas_of(self@.interfaces),
    {
        let mut v: Vec<u32> = Vec::new();
        let mut i: usize = 0;
        let ghost ifs = self@.interfaces;
        assert(ifs.take(0) =~= Seq::empty());
        while i < self.interfaces.len()
            invariant
                i <= self.interfaces@.len(),
                ifs == self@.interfaces,
                v@ == areas_of(ifs.take(i as int)),
            decreases self.interfaces.len() - i,
        {
            assert(ifs.take(i + 1).drop_last() =~= ifs.take(i as int));
            assert(ifs[i as int] == self.interfaces@[i as int]@);
            let a: u32 = self.interfaces[i].area_id;
            if !contains_u32(&v, a) {
                v.push(a);
            }
            i = i + 1;
        }
        assert(ifs.take(i as int) =~= ifs);
        v
    }

    /// Adds an interface with the default retransmission interval (5 s) and delay (1 s).
    pub fn add_interface(
        &mut self,
        io: IoInterfaceV3,
        area_id: u32,
        network_type: NetworkTypeV3,
        hello_interval: u16,
        dead_interval: u16,
        priority: u8,
        global_prefixes: Vec<(u128, u8)>,
        now: u64,
    )
        ensures
            final(self)@ == old(self)@.with_interface(
                InstanceV3View::fresh_interface(
                    io@,
                    area_id,
                    network_type,
                    hello_interval,
                    dead_interval,
                    priority,
                    global_prefixes@,
                    5,
                    1,
                    now,
                ),
            ),
    {
        self.add_interface_full(
            io,
            area_id,
            network_type,
            hello_interval,
            dead_interval,
            priority,
            global_prefixes,
            5,
            1,
            now,
        );
    }

    /// Adds an interface, in place of one with the same index. Its first Hello is due at once
    /// unless the interval exceeds an hour.
    pub fn add_interface_full(
        &mut self,
        io: IoInterfaceV3,
        area_id: u32,
        network_type: NetworkTypeV3,
        hello_interval: u16,
        dead_interval: u16,
        priority: u8,
        global_prefixes: Vec<(u128, u8)>,
        retransmit_interval: u16,
        transmit_delay: u16,
        now: u64,
    )
        ensures
            final(self)@ == old(self)@.with_interface(
                InstanceV3View::fresh_interface(
                    io@,
                    area_id,
                    network_type,
                    hello_interval,
                    dead_interval,
                    priority,
                    global_prefixes@,
                    retransmit_interval,
                    transmit_delay,
                    now,
                ),
            ),
    {
        let idx: u32 = io.sw_if_index;
        let interface_id: u32 = io.kernel_ifindex;
        let iface = InterfaceV3 {
            io,
            area_id,
            interface_id,
            network_type,
            hello_interval,
            dead_interval,
            retransmit_interval,
            transmit_delay,
            priority,
            instance_id: 0,
            state: network_type.up_state(),
            dr: 0,
            bdr: 0,
            neighbors: Vec::new(),
            last_hello_sent: now.saturating_sub(3600000),
            needs_router_lsa_refresh: true,
            global_prefixes,
            static_neighbors: Vec::new(),
        };
        assert(iface@.neighbors =~= Seq::empty());
        assert(iface@.static_neighbors =~= Seq::empty());
        match self.find_interface(idx) {
            Some(i) => {
                self.interfaces.set(i, iface);
            },
            None => {
                self.interfaces.push(iface);
            },
        }
    }

    /// Sets the configured neighbors of an interface. An interface that is unknown or not on a
    /// non-broadcast network is left alone.
    pub fn set_static_neighbors_v3(&mut self, sw_if_index: u32, neighbors: Vec<StaticNeighborV3>)
        ensures
            final(self)@ == old(self)@.with_static(sw_if_index, neighbors@),
    {
        if let Some(i) = self.find_interface(sw_if_index) {
            assert(self.interfaces@[i as int]@ == self@.interfaces[i as int]);
            if self.interfaces[i].network_type == NetworkTypeV3::NonBroadcast {
                self.interfaces[i].static_neighbors = neighbors;
            }
        }
    }

    /// Reconciles an interface with a snapshot of its link: a lost link-local address or a lost
    /// carrier tears the adjacencies down. The result says whether our LSAs have to be originated
    /// anew.
    pub fn refresh_interface_state(
        &mut self,
        sw_if_index: u32,
        new_link_local: Option<u128>,
        new_prefixes: Vec<(u128, u8)>,
        oper_up: bool,
    ) -> (changed: bool)
        ensures
            match iface_pos(old(self)@.interfaces, sw_if_index, 0) {
                Some(i) => {
                    let r = old(self)@.interfaces[i].refreshed(
                        new_link_local,
                        new_prefixes@,
                        oper_up,
                    );
                    &&& changed == r.1
                    &&& final(self)@ == (InstanceV3View {
                        interfaces: old(self)@.interfaces.update(i, r.0),
                        ..old(self)@
                    })
                },
                None => !changed && final(self)@ == old(self)@,
            },
    {
        match self.find_interface(sw_if_index) {
            Some(i) => self.interfaces[i].refresh_step(new_link_local, new_prefixes, oper_up),
            None => false,
        }
    }

    /// Builds the Hellos that are due at `now`.
    pub fn hello_tick(&mut self, now: u64) -> (out: Vec<TxPacketV3>)
        ensures
            wire::views(out@) == all_hellos(old(self)@.interfaces, old(self)@.router_id, now),
            final(self)@ == (InstanceV3View {
                interfaces: Seq::new(
                    old(self)@.interfaces.len(),
                    |i: int| old(self)@.interfaces[i].after_hello(now),
                ),
                ..old(self)@
            }),
    {
        let mut out: Vec<TxPacketV3> = Vec::new();
        let ghost me = self@;
        let ghost ifs = self@.interfaces;
        let router_id: u32 = self.router_id;
        let mut i: usize = 0;
        assert(ifs.take(0) =~= Seq::empty());
        assert(wire::views(out@) =~= Seq::empty());
        while i < self.interfaces.len()
            invariant
                i <= self.interfaces@.len(),
                self.interfaces@.len() == ifs.len(),
                me.interfaces == ifs,
                self@ == (InstanceV3View { interfaces: self@.interfaces, ..me }),
                router_id == me.router_id,
                forall|k: int|
                    0 <= k < i ==> (#[trigger] self.interfaces@[k])@ == ifs[k].after_hello(now),
                forall|k: int| i <= k < ifs.len() ==> (#[trigger] self.interfaces@[k])@ == ifs[k],
                wire::views(out@) == all_hellos(ifs.take(i as int), router_id, now),
            decreases self.interfaces.len() - i,
        {
            assert(ifs.take(i + 1).drop_last() =~= ifs.take(i as int));
            self.interfaces[i].hello_step(router_id, now, &mut out);
            i = i + 1;
        }
        assert(ifs.take(i as int) =~= ifs);
        assert(self@.interfaces =~= Seq::new(ifs.len(), |k: int| ifs[k].after_hello(now)));
        out
    }

    /// Drops the neighbors that were not heard for the dead interval.
    pub fn expire_neighbors(&mut self, now: u64)
        ensures
            final(self)@ == (InstanceV3View {
                interfaces: Seq::new(
                    old(self)@.interfaces.len(),
                    |i: int| old(self)@.interfaces[i].expired(old(self)@.router_id, now),
                ),
                ..old(self)@
            }),
    {
        let ghost me = self@;
        let ghost ifs = self@.interfaces;
        let router_id: u32 = self.router_id;
        let mut i: usize = 0;
        while i < self.interfaces.len()
            invariant
                i <= self.interfaces@.len(),
                self.interfaces@.len() == ifs.len(),
                me.interfaces == ifs,
                self@ == (InstanceV3View { interfaces: self@.interfaces, ..me }),
                router_id == me.router_id,
                forall|k: int|
                    0 <= k < i ==> (#[trigger] self.interfaces@[k])@ == ifs[k].expired(
                        router_id,
                        now,
                    ),
                forall|k: int| i <= k < ifs.len() ==> (#[trigger] self.interfaces@[k])@ == ifs[k],
            decreases self.interfaces.len() - i,
        {
            self.interfaces[i].expire_step(router_id, now);
            i = i + 1;
        }
        assert(self@.interfaces =~= Seq::new(ifs.len(), |k: int| ifs[k].expired(router_id, now)));
    }
}

/// What a search for an interface finds.
pub proof fn lemma_iface_pos(s: Seq<InterfaceV3View>, idx: u32, from: int)
    requires
        0 <= from,
    ensures
        match iface_pos(s, idx, from) {
            Some(i) => from <= i < s.len() && s[i].io.sw_if_index == idx && forall|j: int|
                from <= j < i ==> (#[trigger] s[j]).io.sw_if_index != idx,
            None => forall|j: int| from <= j < s.len() ==> (#[trigger] s[j]).io.sw_if_index != idx,
        },
    decreases s.len() - from,
{
    if from < s.len() && s[from].io.sw_if_index != idx {
        lemma_iface_pos(s, idx, from + 1);
    }
}

/// What a search for a neighbor finds.
pub proof fn lemma_neighbor_pos(s: Seq<NeighborV3View>, id: u32, from: int)
    requires
        0 <= from,
    ensures
        match neighbor_pos(s, id, from) {
            Some(i) => from <= i < s.len() && s[i].router_id == id && forall|j: int|
                from <= j < i ==> (#[trigger] s[j]).router_id != id,
            None => forall|j: int| from <= j < s.len() ==> (#[trigger] s[j]).router_id != id,
        },
    decreases s.len() - from,
{
    if from < s.len() && s[from].router_id != id {
        lemma_neighbor_pos(s, id, from + 1);
    }
}

/// Whether `v` holds `x`.
pub fn contains_u32(v: &Vec<u32>, x: u32) -> (r: bool)
    ensures
        r == v@.contains(x),
{
    let mut i: usize = 0;
    while i < v.len()
        invariant
            i <= v@.len(),
            forall|k: int| 0 <= k < i ==> v@[k] != x,
        decreases v.len() - i,
    {
        if v[i] == x {
            return true;
        }
        i = i + 1;
    }
    false
}

impl InstanceV3View {
    /// An interface as it is added.
    pub open spec fn fresh_interface(
        io: IoInterfaceV3View,
        area_id: u32,
        network_type: NetworkTypeV3,
        hello_interval: u16,
        dead_interval: u16,
        priority: u8,
        global_prefixes: Seq<(u128, u8)>,
        retransmit_interval: u16,
        transmit_delay: u16,
        now: u64,
    ) -> InterfaceV3View {
        InterfaceV3View {
            io,
            area_id,
            interface_id: io.kernel_ifindex,
            network_type,
            hello_interval,
            dead_interval,
            retransmit_interval,
            transmit_delay,
            priority,
            instance_id: 0,
            state: network_type.spec_up_state(),
            dr: 0,
            bdr: 0,
            neighbors: Seq::empty(),
            last_hello_sent: hour_before(now),
            needs_router_lsa_refresh: true,
            global_prefixes,
            static_neighbors: Seq::empty(),
        }
    }

    /// The instance with `iface` added, in place of one with the same index.
    pub open spec fn with_interface(self, iface: InterfaceV3View) -> InstanceV3View {
        InstanceV3View {
            interfaces: match iface_pos(self.interfaces, iface.io.sw_if_index, 0) {
                Some(i) => self.interfaces.update(i, iface),
                None => self.interfaces.push(iface),
            },
            ..self
        }
    }
}

} // verus!
