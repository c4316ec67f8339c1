//! Hellos, the database exchange and link state requests.
use vstd::prelude::*;

use crate::instance;
use crate::instance::{OspfInstance, OspfInstanceView, Outgoing};
use crate::lsdb;
use crate::packet;
use crate::packet::dd;
use crate::packet::dd::DbDescPacket;
use crate::packet::hello;
use crate::packet::hello::{HelloPacket, OspfOptions};
use crate::packet::lsa;
use crate::packet::lsa::{Lsa, LsaHeader, LsaKey, LsaType, Recency};
use crate::packet::lsr::LsRequestPacket;
use crate::packet::lsu::LsUpdatePacket;
use crate::packet::{OspfHeader, OspfPacket, OspfPacketType};
use crate::proto::interface;
use crate::proto::interface::{InterfaceEvent, InterfaceState, OspfInterface};
use crate::proto::neighbor;
use crate::proto::neighbor::{Neighbor, NeighborEvent, NeighborState};
use crate::wire;

verus! {

broadcast use {wire::lemma_views_push, wire::lemma_views_update};

/// Headers per Database Description packet.
pub const MAX_HEADERS_PER_DD: usize = 60;

/// Requests per Link State Request packet.
pub const MAX_REQUESTS_PER_LSR: usize = 20;

/// The number that a database exchange starts with.
pub const DD_SEQ_SEED: u32 = 0x80000000;

/// The first `n` elements, or all if there are fewer.
pub open spec fn first_of<T>(s: Seq<T>, n: usize) -> Seq<T> {
    if s.len() <= n {
        s
    } else {
        s.take(n as int)
    }
}

/// The ids of the neighbors that were heard lately.
pub open spec fn heard_ids(ns: Seq<neighbor::NeighborView>) -> Seq<u32>
    decreases ns.len(),
{
    if ns.len() == 0 {
        Seq::empty()
    } else if ns.last().state.at_least(NeighborState::Init) {
        heard_ids(ns.drop_last()).push(ns.last().router_id)
    } else {
        heard_ids(ns.drop_last())
    }
}

/// The first of the headers with key `k` at or behind `from`.
pub open spec fn header_for(hs: Seq<LsaHeader>, k: LsaKey, from: int) -> Option<LsaHeader>
    decreases hs.len() - from,
{
    if from < 0 || from >= hs.len() {
        None
    } else if hs[from].spec_key() == k {
        Some(hs[from])
    } else {
        header_for(hs, k, from + 1)
    }
}

impl interface::OspfInterfaceView {
    /// The Hello that we send on the interface.
    pub open spec fn hello(self) -> hello::HelloView {
        hello::HelloView {
            network_mask: self.mask,
            hello_interval: self.hello_interval,
            options: self.options,
            router_priority: self.priority,
            router_dead_interval: self.dead_interval,
            designated_router: self.dr,
            backup_designated_router: self.bdr,
            neighbors: heard_ids(self.neighbors),
        }
    }

    /// The interface with the neighbor listed.
    pub open spec fn knowing(self, id: u32, address: u32, now: u64) -> interface::OspfInterfaceView {
        if interface::neighbor_pos(self.neighbors, id, 0) is Some {
            self
        } else {
            interface::OspfInterfaceView {
                neighbors: self.neighbors.push(neighbor::NeighborView::fresh(id, address, now)),
                ..self
            }
        }
    }

    /// The interface after a Hello of the router `id` from `src`. Other intervals than ours make
    /// the Hello be ignored. An election runs when a designated router shows itself while we wait,
    /// when a neighbor begins or ceases to list us, and when it names other office holders.
    pub open spec fn after_hello(
        self,
        me: u32,
        src: u32,
        id: u32,
        h: hello::HelloView,
        now: u64,
    ) -> interface::OspfInterfaceView {
        if h.hello_interval != self.hello_interval || h.router_dead_interval != self.dead_interval {
            self
        } else {
            let base = self.knowing(id, src, now);
            let p = interface::neighbor_pos(base.neighbors, id, 0)->0;
            let before = base.neighbors[p];
            let after = before.greeted(base.adjacent_to_all(), me, src, h, now);
            let t = interface::OspfInterfaceView {
                neighbors: base.neighbors.update(p, after),
                ..base
            };
            let u = if t.state == InterfaceState::Waiting && (after.bdr != 0 || after.dr != 0) {
                t.after(InterfaceEvent::BackupSeen, now)
            } else {
                t
            };
            if before.state.at_least(NeighborState::TwoWay) != after.state.at_least(
                NeighborState::TwoWay,
            ) || before.dr != after.dr || before.bdr != after.bdr {
                u.after(InterfaceEvent::NeighborChange, now)
            } else {
                u
            }
        }
    }
}

impl neighbor::NeighborView {
    /// The neighbor after its Hello; `me` is our router id, `all` says whether the interface wants
    /// an adjacency with everyone.
    pub open spec fn greeted(
        self,
        all: bool,
        me: u32,
        src: u32,
        h: hello::HelloView,
        now: u64,
    ) -> neighbor::NeighborView {
        let heard = (neighbor::NeighborView {
            priority: h.router_priority,
            dr: h.designated_router,
            bdr: h.backup_designated_router,
            address: src,
            ..self
        }).after(NeighborEvent::HelloReceived, false, now);
        let two_way = h.neighbors.contains(me);
        if two_way && heard.state == NeighborState::Init {
            heard.after(
                NeighborEvent::TwoWayReceived,
                all || heard.dr == heard.address || heard.bdr == heard.address,
                now,
            )
        } else if !two_way && heard.state.at_least(NeighborState::TwoWay) {
            heard.after(NeighborEvent::OneWay, false, now)
        } else {
            heard
        }
    }

    /// The neighbor after its description packet. `wanted` are the described LSAs that we lack,
    /// `ours` the headers that we owe it.
    ///
    /// The router with the higher id becomes master. A slave takes the master's number over; the
    /// master accepts the slave that answers with its own number. The exchange is done when the
    /// peer announces nothing further and we have announced the same before.
    pub open spec fn described(
        self,
        me: u32,
        peer: u32,
        d: dd::DbDescView,
        wanted: Seq<LsaKey>,
        ours: Seq<LsaHeader>,
        now: u64,
    ) -> neighbor::NeighborView {
        let a = if self.state == NeighborState::ExStart {
            let settled = if d.is_init() && d.has_more() && d.is_master() && d.lsa_headers.len()
                == 0 {
                if peer > me {
                    (neighbor::NeighborView {
                        is_master: false,
                        dd_seq_number: d.dd_sequence_number,
                        sent_m_clear: false,
                        db_summary_list: ours,
                        ..self
                    }).after(NeighborEvent::NegotiationDone, true, now)
                } else {
                    self
                }
            } else if !d.is_init() && !d.is_master() && peer < me && d.dd_sequence_number
                == self.dd_seq_number {
                (neighbor::NeighborView {
                    is_master: true,
                    sent_m_clear: false,
                    db_summary_list: ours,
                    ..self
                }).after(NeighborEvent::NegotiationDone, true, now)
            } else {
                self
            };
            if settled.state == NeighborState::Exchange {
                neighbor::NeighborView {
                    ls_request_list: settled.ls_request_list + wanted,
                    ..settled
                }
            } else {
                settled
            }
        } else if self.state == NeighborState::Exchange {
            let asked = neighbor::NeighborView {
                ls_request_list: self.ls_request_list + wanted,
                ..self
            };
            if !d.has_more() && asked.sent_m_clear {
                asked.after(NeighborEvent::ExchangeDone, true, now)
            } else {
                asked
            }
        } else {
            self
        };
        neighbor::NeighborView {
            last_dd: Some(d),
            dd_seq_number: if a.state == NeighborState::Exchange && !a.is_master {
                d.dd_sequence_number
            } else {
                a.dd_seq_number
            },
            last_dd_sent: now,
            ..a
        }
    }

    /// The next description packet and the neighbor after it was built. The first packet of an
    /// exchange describes nothing; a later one takes the next headers of the list, and the master
    /// counts its number up.
    pub open spec fn describing(self, initial: bool, options: OspfOptions, mtu: u16) -> (
        neighbor::NeighborView,
        dd::DbDescView,
    ) {
        if initial {
            (
                self,
                dd::DbDescView {
                    interface_mtu: mtu,
                    options,
                    flags: 7,
                    dd_sequence_number: self.dd_seq_number,
                    lsa_headers: Seq::empty(),
                },
            )
        } else {
            let seq = if !self.is_master {
                self.dd_seq_number
            } else if self.dd_seq_number == u32::MAX {
                0
            } else {
                (self.dd_seq_number + 1) as u32
            };
            let more = self.db_summary_list.len() > MAX_HEADERS_PER_DD;
            (
                neighbor::NeighborView {
                    dd_seq_number: seq,
                    db_summary_list: if more {
                        self.db_summary_list.skip(MAX_HEADERS_PER_DD as int)
                    } else {
                        Seq::empty()
                    },
                    sent_m_clear: self.sent_m_clear || !more,
                    ..self
                },
                dd::DbDescView {
                    interface_mtu: mtu,
                    options,
                    flags: if self.is_master {
                        if more {
                            3
                        } else {
                            1
                        }
                    } else {
                        if more {
                            2
                        } else {
                            0
                        }
                    },
                    dd_sequence_number: seq,
                    lsa_headers: first_of(self.db_summary_list, MAX_HEADERS_PER_DD),
                },
            )
        }
    }

    /// Whether the first packet of an exchange has to be sent again.
    pub open spec fn dd_due(self, now: u64) -> bool {
        self.state == NeighborState::ExStart && instance::elapsed(now, self.last_dd_sent) >= 1000
    }

    /// The neighbor when the first packet of an exchange is sent.
    pub open spec fn opened(self, now: u64) -> neighbor::NeighborView {
        neighbor::NeighborView {
            dd_seq_number: if self.dd_seq_number == 0 {
                DD_SEQ_SEED
            } else {
                self.dd_seq_number
            },
            last_dd_sent: now,
            ..self
        }
    }

    /// Whether outstanding requests have to be sent again; `rxmt` is the retransmission interval.
    pub open spec fn lsr_due(self, rxmt: u16, now: u64) -> bool {
        (self.state == NeighborState::Exchange || self.state == NeighborState::Loading)
            && self.ls_request_list.len() > 0 && instance::elapsed(now, self.last_lsr_sent) >= (
        if rxmt == 0 {
            1000int
        } else {
            rxmt * 1000
        })
    }

    /// The requests that the next request packet carries.
    pub open spec fn next_requests(self) -> Seq<LsaKey> {
        first_of(self.ls_request_list, MAX_REQUESTS_PER_LSR)
    }
}

/// The description packet that router `me` sends into the area.
pub open spec fn dd_packet(me: u32, area_id: u32, d: dd::DbDescView) -> packet::OspfPacketView {
    packet::OspfPacketView::DatabaseDescription(
        OspfHeader::fresh(OspfPacketType::DatabaseDescription, me, area_id),
        d,
    )
}

/// The request packet that router `me` sends into the area.
pub open spec fn lsr_packet(me: u32, area_id: u32, ks: Seq<LsaKey>) -> packet::OspfPacketView {
    packet::OspfPacketView::LinkStateRequest(
        OspfHeader::fresh(OspfPacketType::LinkStateRequest, me, area_id),
        ks,
    )
}

/// The update packet that router `me` sends into the area.
pub open spec fn lsu_packet(me: u32, area_id: u32, ls: Seq<lsa::LsaView>) -> packet::OspfPacketView {
    packet::OspfPacketView::LinkStateUpdate(
        OspfHeader::fresh(OspfPacketType::LinkStateUpdate, me, area_id),
        ls,
    )
}

/// The first packets of the exchanges with the neighbors for which they are due.
pub open spec fn opening_packets(
    i: interface::OspfInterfaceView,
    ns: Seq<neighbor::NeighborView>,
    me: u32,
    now: u64,
) -> Seq<instance::OutgoingView>
    decreases ns.len(),
{
    if ns.len() == 0 {
        Seq::empty()
    } else {
        let front = opening_packets(i, ns.drop_last(), me, now);
        let n = ns.last();
        if n.dd_due(now) {
            front.push(
                (
                    i.sw_if_index,
                    n.address,
                    dd_packet(me, i.area_id, n.opened(now).describing(true, i.options, i.dd_mtu).1),
                ),
            )
        } else {
            front
        }
    }
}

/// The first packets of all exchanges for which they are due.
pub open spec fn all_opening_packets(
    is: Seq<interface::OspfInterfaceView>,
    me: u32,
    now: u64,
) -> Seq<instance::OutgoingView>
    decreases is.len(),
{
    if is.len() == 0 {
        Seq::empty()
    } else {
        all_opening_packets(is.drop_last(), me, now) + opening_packets(
            is.last(),
            is.last().neighbors,
            me,
            now,
        )
    }
}

/// The repeated requests to the neighbors for which they are due.
pub open spec fn repeated_requests(
    i: interface::OspfInterfaceView,
    ns: Seq<neighbor::NeighborView>,
    me: u32,
    now: u64,
) -> Seq<instance::OutgoingView>
    decreases ns.len(),
{
    if ns.len() == 0 {
        Seq::empty()
    } else {
        let front = repeated_requests(i, ns.drop_last(), me, now);
        let n = ns.last();
        if n.lsr_due(i.rxmt_interval, now) {
            front.push((i.sw_if_index, n.address, lsr_packet(me, i.area_id, n.next_requests())))
        } else {
            front
        }
    }
}

/// All repeated requests that are due.
pub open spec fn all_repeated_requests(
    is: Seq<interface::OspfInterfaceView>,
    me: u32,
    now: u64,
) -> Seq<instance::OutgoingView>
    decreases is.len(),
{
    if is.len() == 0 {
        Seq::empty()
    } else {
        all_repeated_requests(is.drop_last(), me, now) + repeated_requests(
            is.last(),
            is.last().neighbors,
            me,
            now,
        )
    }
}

impl interface::OspfInterfaceView {
    /// The interface after the first packets of exchanges were sent.
    pub open spec fn after_openings(self, now: u64) -> interface::OspfInterfaceView {
        interface::OspfInterfaceView {
            neighbors: Seq::new(
                self.neighbors.len(),
                |k: int|
                    if self.neighbors[k].dd_due(now) {
                        self.neighbors[k].opened(now)
                    } else {
                        self.neighbors[k]
                    },
            ),
            ..self
        }
    }

    /// The interface after requests were repeated.
    pub open spec fn after_requests(self, now: u64) -> interface::OspfInterfaceView {
        interface::OspfInterfaceView {
            neighbors: Seq::new(
                self.neighbors.len(),
                |k: int|
                    if self.neighbors[k].lsr_due(self.rxmt_interval, now) {
                        neighbor::NeighborView { last_lsr_sent: now, ..self.neighbors[k] }
                    } else {
                        self.neighbors[k]
                    },
            ),
            ..self
        }
    }
}

impl OspfInstanceView {
    /// The instance with the interface at position `i` replaced.
    pub open spec fn with_iface(self, i: int, t: interface::OspfInterfaceView) -> OspfInstanceView {
        OspfInstanceView { interfaces: self.interfaces.update(i, t), ..self }
    }

    /// The stored entry with key `k`: an AS-external LSA comes out of the common database, any other
    /// out of that of the area.
    pub open spec fn stored(self, area_id: u32, k: LsaKey) -> Option<lsdb::LsdbEntryView> {
        if k.ls_type == LsaType::AsExternal {
            self.as_external_lsdb.lookup(k)
        } else {
            match instance::area_pos(self.areas, area_id, 0) {
                Some(a) => self.areas[a].lsdb.lookup(k),
                None => None,
            }
        }
    }

    /// The instance after a neighbor described the LSA `h`, and whether a sequence number was
    /// raised: what others hold of our own LSAs, from before a restart, must not outrank what we
    /// issue next.
    pub open spec fn recovered(self, area_id: u32, h: LsaHeader) -> (OspfInstanceView, bool) {
        let raised = h.advertising_router == self.router_id && (self.stored(
            area_id,
            h.spec_key(),
        ) matches Some(e) && e.lsa.header.ls_sequence_number < h.ls_sequence_number);
        if h.advertising_router != self.router_id {
            (self, false)
        } else if h.ls_type == LsaType::AsExternal {
            (
                OspfInstanceView {
                    as_external_lsdb: self.as_external_lsdb.bump_seq(
                        h.spec_key(),
                        h.ls_sequence_number,
                    ),
                    ..self
                },
                raised,
            )
        } else {
            match instance::area_pos(self.areas, area_id, 0) {
                None => (self, false),
                Some(a) => (
                    OspfInstanceView {
                        areas: self.areas.update(
                            a,
                            crate::area::AreaView {
                                lsdb: self.areas[a].lsdb.bump_seq(
                                    h.spec_key(),
                                    h.ls_sequence_number,
                                ),
                                ..self.areas[a]
                            },
                        ),
                        ..self
                    },
                    raised,
                ),
            }
        }
    }

    /// The instance after a neighbor described the LSAs `hs`, and whether any sequence number was
    /// raised.
    pub open spec fn recovered_all(self, area_id: u32, hs: Seq<LsaHeader>) -> (
        OspfInstanceView,
        bool,
    )
        decreases hs.len(),
    {
        if hs.len() == 0 {
            (self, false)
        } else {
            let front = self.recovered_all(area_id, hs.drop_last());
            let last = front.0.recovered(area_id, hs.last());
            (last.0, front.1 || last.1)
        }
    }

    /// Whether we lack the LSA with key `k` of which `h` is described.
    pub open spec fn lacks(self, area_id: u32, k: LsaKey, h: Option<LsaHeader>) -> bool {
        match self.stored(area_id, k) {
            None => true,
            Some(e) => h matches Some(x) && x.recency(e.lsa.header) is Newer,
        }
    }

    /// The keys of the described LSAs that we lack, in the order of `hs`; `all` is the whole
    /// description.
    pub open spec fn wanted(
        self,
        area_id: u32,
        hs: Seq<LsaHeader>,
        all: Seq<LsaHeader>,
    ) -> Seq<LsaKey>
        decreases hs.len(),
    {
        if hs.len() == 0 {
            Seq::empty()
        } else {
            let front = self.wanted(area_id, hs.drop_last(), all);
            let k = hs.last().spec_key();
            if self.lacks(area_id, k, header_for(all, k, 0)) {
                front.push(k)
            } else {
                front
            }
        }
    }

    /// The headers that we owe a neighbor in the area.
    pub open spec fn owed_headers(self, area_id: u32, now: u64) -> Seq<LsaHeader> {
        (match instance::area_pos(self.areas, area_id, 0) {
            Some(a) => lsdb::live_headers(self.areas[a].lsdb.entries, now),
            None => Seq::empty(),
        }) + lsdb::live_headers(self.as_external_lsdb.entries, now)
    }

    /// The instance after the databases were compared with what a neighbor describes.
    pub open spec fn compared(self, area_id: u32, hs: Seq<LsaHeader>, now: u64) -> OspfInstanceView {
        let r = self.recovered_all(area_id, hs);
        if r.1 {
            r.0.scheduled(now)
        } else {
            r.0
        }
    }

    /// The instance after a description packet of `peer` on the interface at position `i`, and the
    /// packets that answer it: our next description while the exchange lasts, and a request for
    /// LSAs that we lack.
    pub open spec fn after_dd(
        self,
        i: int,
        src: u32,
        peer: u32,
        d: dd::DbDescView,
        now: u64,
    ) -> (OspfInstanceView, Seq<instance::OutgoingView>) {
        let area_id = self.interfaces[i].area_id;
        let t = self.compared(area_id, d.lsa_headers, now);
        let f = t.interfaces[i];
        match interface::neighbor_pos(f.neighbors, peer, 0) {
            None => (t, Seq::empty()),
            Some(j) => {
                let n = f.neighbors[j].described(
                    self.router_id,
                    peer,
                    d,
                    t.wanted(area_id, d.lsa_headers, d.lsa_headers),
                    t.owed_headers(area_id, now),
                    now,
                );
                let answers = n.state == NeighborState::ExStart || n.state
                    == NeighborState::Exchange;
                let b = n.describing(n.state == NeighborState::ExStart, f.options, f.dd_mtu);
                let m = if answers {
                    b.0
                } else {
                    n
                };
                let asks = n.state.at_least(NeighborState::Exchange) && n.ls_request_list.len() > 0;
                let last = if asks {
                    neighbor::NeighborView { last_lsr_sent: now, ..m }
                } else {
                    m
                };
                (
                    t.with_iface(
                        i,
                        interface::OspfInterfaceView {
                            neighbors: f.neighbors.update(j, last),
                            ..f
                        },
                    ),
                    (if answers {
                        seq![(f.sw_if_index, src, dd_packet(self.router_id, area_id, b.1))]
                    } else {
                        Seq::empty()
                    }) + (if asks {
                        seq![
                            (
                                f.sw_if_index,
                                src,
                                lsr_packet(self.router_id, area_id, m.next_requests()),
                            ),
                        ]
                    } else {
                        Seq::empty()
                    }),
                )
            },
        }
    }

    /// The LSAs that answer the requests `ks`; nothing if one of them is missing.
    pub open spec fn answers(self, area_id: u32, ks: Seq<LsaKey>) -> Option<Seq<lsa::LsaView>>
        decreases ks.len(),
    {
        if ks.len() == 0 {
            Some(Seq::empty())
        } else {
            match (self.answers(area_id, ks.drop_last()), self.stored(area_id, ks.last())) {
                (Some(front), Some(e)) => Some(front.push(e.lsa)),
                _ => None,
            }
        }
    }

    /// The instance after the requests `ks` of `peer` on the interface at position `i`, and the
    /// packets that answer it. A request for an LSA that we do not have starts the exchange anew.
    pub open spec fn after_lsr(
        self,
        i: int,
        src: u32,
        peer: u32,
        ks: Seq<LsaKey>,
        now: u64,
    ) -> (OspfInstanceView, Seq<instance::OutgoingView>) {
        let f = self.interfaces[i];
        match self.answers(f.area_id, ks) {
            None => match interface::neighbor_pos(f.neighbors, peer, 0) {
                None => (self, Seq::empty()),
                Some(j) => (
                    self.with_iface(
                        i,
                        interface::OspfInterfaceView {
                            neighbors: f.neighbors.update(
                                j,
                                f.neighbors[j].after(NeighborEvent::BadLsReq, false, now),
                            ),
                            ..f
                        },
                    ),
                    Seq::empty(),
                ),
            },
            Some(ls) => (
                self,
                if ls.len() == 0 {
                    Seq::empty()
                } else {
                    seq![(f.sw_if_index, src, lsu_packet(self.router_id, f.area_id, ls))]
                },
            ),
        }
    }
}

impl DbDescPacket {
    /// A copy of the packet.
    pub fn duplicate(&self) -> (r: DbDescPacket)
        ensures
            r@ == self@,
    {
        DbDescPacket {
            interface_mtu: self.interface_mtu,
            options: self.options,
            flags: self.flags,
            dd_sequence_number: self.dd_sequence_number,
            lsa_headers: first_headers(&self.lsa_headers, self.lsa_headers.len()),
        }
    }
}

/// The first `n` headers, or all if there are fewer.
fn first_headers(hs: &Vec<LsaHeader>, n: usize) -> (r: Vec<LsaHeader>)
    ensures
        r@ == first_of(hs@, n),
{
    let mut v: Vec<LsaHeader> = Vec::new();
    let mut i: usize = 0;
    while i < hs.len() && i < n
        invariant
            i <= hs@.len(),
            i <= n,
            v@ == hs@.take(i as int),
        decreases hs.len() - i,
    {
        v.push(hs[i]);
        i = i + 1;
        assert(v@ =~= hs@.take(i as int));
    }
    assert(v@ =~= first_of(hs@, n));
    v
}

/// The first `n` keys, or all if there are fewer.
fn first_keys(ks: &Vec<LsaKey>, n: usize) -> (r: Vec<LsaKey>)
    ensures
        r@ == first_of(ks@, n),
{
    let mut v: Vec<LsaKey> = Vec::new();
    let mut i: usize = 0;
    while i < ks.len() && i < n
        invariant
            i <= ks@.len(),
            i <= n,
            v@ == ks@.take(i as int),
        decreases ks.len() - i,
    {
        v.push(ks[i]);
        i = i + 1;
        assert(v@ =~= ks@.take(i as int));
    }
    assert(v@ =~= first_of(ks@, n));
    v
}

/// Milliseconds between `earlier` and `now`.
pub fn millis_since(now: u64, earlier: u64) -> (d: u64)
    ensures
        d == instance::elapsed(now, earlier),
{
    if now >= earlier {
        now - earlier
    } else {
        0
    }
}

impl Neighbor {
    /// Takes a Hello of the neighbor in.
    pub fn process_hello(&mut self, all: bool, me: u32, src: u32, h: &HelloPacket, now: u64)
        ensures
            final(self)@ == old(self)@.greeted(all, me, src, h@, now),
    {
        self.priority = h.router_priority;
        self.dr = h.designated_router;
        self.bdr = h.backup_designated_router;
        self.address = src;
        let _s = self.handle_event(NeighborEvent::HelloReceived, false, now);
        let two_way = crate::instance_v3::contains_u32(&h.neighbors, me);
        if two_way && self.state == NeighborState::Init {
            let adj = all || self.dr == self.address || self.bdr == self.address;
            let _t = self.handle_event(NeighborEvent::TwoWayReceived, adj, now);
        } else if !two_way && self.state.reached(NeighborState::TwoWay) {
            let _t = self.handle_event(NeighborEvent::OneWay, false, now);
        }
    }

    /// Takes a description packet of the neighbor in.
    pub fn process_dd(
        &mut self,
        me: u32,
        peer: u32,
        d: &DbDescPacket,
        wanted: Vec<LsaKey>,
        ours: Vec<LsaHeader>,
        now: u64,
    )
        ensures
            final(self)@ == old(self)@.described(me, peer, d@, wanted@, ours@, now),
    {
        let mut wanted = wanted;
        if self.state == NeighborState::ExStart {
            if d.is_init() && d.has_more() && d.is_master() && d.lsa_headers.len() == 0 {
                if peer > me {
                    self.is_master = false;
                    self.dd_seq_number = d.dd_sequence_number;
                    self.sent_m_clear = false;
                    self.db_summary_list = ours;
                    let _s = self.handle_event(NeighborEvent::NegotiationDone, true, now);
                }
            } else if !d.is_init() && !d.is_master() {
                if peer < me && d.dd_sequence_number == self.dd_seq_number {
                    self.is_master = true;
                    self.sent_m_clear = false;
                    self.db_summary_list = ours;
                    let _s = self.handle_event(NeighborEvent::NegotiationDone, true, now);
                }
            }
            if self.state == NeighborState::Exchange {
                self.ls_request_list.append(&mut wanted);
            }
        } else if self.state == NeighborState::Exchange {
            self.ls_request_list.append(&mut wanted);
            if !d.has_more() && self.sent_m_clear {
                let _s = self.handle_event(NeighborEvent::ExchangeDone, true, now);
            }
        }
        self.last_dd = Some(d.duplicate());
        if self.state == NeighborState::Exchange && !self.is_master {
            self.dd_seq_number = d.dd_sequence_number;
        }
        self.last_dd_sent = now;
    }

    /// Builds the next description packet for the neighbor.
    pub fn build_dd(&mut self, initial: bool, options: OspfOptions, mtu: u16) -> (d: DbDescPacket)
        ensures
            final(self)@ == old(self)@.describing(initial, options, mtu).0,
            d@ == old(self)@.describing(initial, options, mtu).1,
    {
        if initial {
            let r = DbDescPacket {
                interface_mtu: mtu,
                options,
                flags: 7,
                dd_sequence_number: self.dd_seq_number,
                lsa_headers: Vec::new(),
            };
            assert(r@.lsa_headers =~= Seq::empty());
            return r;
        }
        let ghost before = self@;
        if self.is_master {
            self.dd_seq_number = self.dd_seq_number.wrapping_add(1);
        }
        let more = self.db_summary_list.len() > MAX_HEADERS_PER_DD;
        let chunk = first_headers(&self.db_summary_list, MAX_HEADERS_PER_DD);
        if more {
            let rest = self.db_summary_list.split_off(MAX_HEADERS_PER_DD);
            assert(rest@ =~= before.db_summary_list.skip(MAX_HEADERS_PER_DD as int));
            self.db_summary_list = rest;
        } else {
            self.db_summary_list = Vec::new();
            self.sent_m_clear = true;
        }
        let flags: u8 = if self.is_master {
            if more {
                3
            } else {
                1
            }
        } else {
            if more {
                2
            } else {
                0
            }
        };
        DbDescPacket {
            interface_mtu: mtu,
            options,
            flags,
            dd_sequence_number: self.dd_seq_number,
            lsa_headers: chunk,
        }
    }

    /// Whether the first packet of an exchange has to be sent again.
    fn is_dd_due(&self, now: u64) -> (b: bool)
        ensures
            b == self@.dd_due(now),
    {
        self.state == NeighborState::ExStart && millis_since(now, self.last_dd_sent) >= 1000
    }

    /// Whether outstanding requests have to be sent again.
    fn is_lsr_due(&self, rxmt: u16, now: u64) -> (b: bool)
        ensures
            b == self@.lsr_due(rxmt, now),
    {
        let interval: u64 = if rxmt == 0 {
            1000
        } else {
            rxmt as u64 * 1000
        };
        (self.state == NeighborState::Exchange || self.state == NeighborState::Loading)
            && self.ls_request_list.len() > 0 && millis_since(now, self.last_lsr_sent) >= interval
    }
}

impl OspfInterface {
    /// Takes a Hello of the router `id` from `src` in; `me` is our router id.
    pub fn process_hello(&mut self, me: u32, src: u32, id: u32, h: &HelloPacket, now: u64)
        ensures
            final(self)@ == old(self)@.after_hello(me, src, id, h@, now),
    {
        if h.hello_interval != self.hello_interval || h.router_dead_interval
            != self.dead_interval {
            return;
        }
        let ghost start = self@;
        if self.find_neighbor(id).is_none() {
            self.neighbors.push(Neighbor::new(id, src, now));
        }
        let ghost base = self@;
        assert(base == start.knowing(id, src, now));
        proof {
            interface::lemma_neighbor_pos(start.neighbors, id, 0);
            interface::lemma_neighbor_pos(base.neighbors, id, 0);
            if interface::neighbor_pos(start.neighbors, id, 0) is None {
                assert(base.neighbors[start.neighbors.len() as int].router_id == id);
            }
        }
        let j: usize = match self.find_neighbor(id) {
            Some(j) => j,
            None => {
                return;
            },
        };
        let old_state = self.neighbors[j].state;
        let old_dr: u32 = self.neighbors[j].dr;
        let old_bdr: u32 = self.neighbors[j].bdr;
        let ghost before = base.neighbors[j as int];
        assert(self.neighbors@[j as int]@ == before);
        let all = self.adjacent_to_all();
        self.neighbors[j].process_hello(all, me, src, h, now);
        let ghost after = before.greeted(base.adjacent_to_all(), me, src, h@, now);
        assert(self.neighbors@[j as int]@ == after);
        assert(self@.neighbors =~= base.neighbors.update(j as int, after));
        let new_state = self.neighbors[j].state;
        let new_dr: u32 = self.neighbors[j].dr;
        let new_bdr: u32 = self.neighbors[j].bdr;
        if self.state == InterfaceState::Waiting && (new_bdr != 0 || new_dr != 0) {
            self.handle_event(InterfaceEvent::BackupSeen, now);
        }
        let crossed = old_state.reached(NeighborState::TwoWay) != new_state.reached(
            NeighborState::TwoWay,
        );
        if crossed || old_dr != new_dr || old_bdr != new_bdr {
            self.handle_event(InterfaceEvent::NeighborChange, now);
        }
    }

    /// The Hello that we send on the interface.
    pub fn build_hello_body(&self) -> (h: HelloPacket)
        ensures
            h@ == self@.hello(),
    {
        let mut ids: Vec<u32> = Vec::new();
        let ghost ns = self@.neighbors;
        let mut i: usize = 0;
        assert(ns.take(0) =~= Seq::empty());
        while i < self.neighbors.len()
            invariant
                i <= self.neighbors@.len(),
                ns == self@.neighbors,
                ids@ == heard_ids(ns.take(i as int)),
            decreases self.neighbors.len() - i,
        {
            assert(ns.take(i + 1).drop_last() =~= ns.take(i as int));
            assert(self.neighbors@[i as int]@ == ns[i as int]);
            if self.neighbors[i].state.reached(NeighborState::Init) {
                ids.push(self.neighbors[i].router_id);
            }
            i = i + 1;
        }
        assert(ns.take(i as int) =~= ns);
        HelloPacket {
            network_mask: self.mask,
            hello_interval: self.hello_interval,
            options: self.options,
            router_priority: self.priority,
            router_dead_interval: self.dead_interval,
            designated_router: self.dr,
            backup_designated_router: self.bdr,
            neighbors: ids,
        }
    }

    /// Appends the first packets of exchanges that are due on the interface.
    fn open_exchanges(&mut self, me: u32, now: u64, out: &mut Vec<Outgoing>)
        ensures
            final(self)@ == old(self)@.after_openings(now),
            wire::views(final(out)@) == wire::views(old(out)@) + opening_packets(
                old(self)@,
                old(self)@.neighbors,
                me,
                now,
            ),
    {
        let ghost start = self@;
        let ghost ns = start.neighbors;
        let ghost sent = wire::views(out@);
        let mut i: usize = 0;
        assert(ns.take(0) =~= Seq::empty());
        assert(sent =~= sent + opening_packets(start, ns.take(0), me, now));
        while i < self.neighbors.len()
            invariant
                i <= self.neighbors@.len(),
                self.neighbors@.len() == ns.len(),
                ns == start.neighbors,
                self@ == (interface::OspfInterfaceView { neighbors: self@.neighbors, ..start }),
                forall|k: int|
                    0 <= k < i ==> (#[trigger] self.neighbors@[k])@ == start.after_openings(
                        now,
                    ).neighbors[k],
                forall|k: int| i <= k < ns.len() ==> (#[trigger] self.neighbors@[k])@ == ns[k],
                wire::views(out@) == sent + opening_packets(start, ns.take(i as int), me, now),
            decreases self.neighbors.len() - i,
        {
            assert(ns.take(i + 1).drop_last() =~= ns.take(i as int));
            assert(self.neighbors@[i as int]@ == ns[i as int]);
            if self.neighbors[i].is_dd_due(now) {
                if self.neighbors[i].dd_seq_number == 0 {
                    self.neighbors[i].dd_seq_number = DD_SEQ_SEED;
                }
                self.neighbors[i].last_dd_sent = now;
                assert(self.neighbors@[i as int]@ == ns[i as int].opened(now));
                let d = self.neighbors[i].build_dd(true, self.options, self.dd_mtu);
                let p = OspfPacket::DatabaseDescription(
                    OspfHeader::new(OspfPacketType::DatabaseDescription, me, self.area_id),
                    d,
                );
                out.push((self.sw_if_index, self.neighbors[i].address, p));
                assert(wire::views(out@) =~= sent + opening_packets(
                    start,
                    ns.take(i + 1),
                    me,
                    now,
                ));
            }
            i = i + 1;
        }
        assert(ns.take(i as int) =~= ns);
        assert(self@.neighbors =~= start.after_openings(now).neighbors);
    }

    /// Appends the repeated requests that are due on the interface.
    fn repeat_requests(&mut self, me: u32, now: u64, out: &mut Vec<Outgoing>)
        ensures
            final(self)@ == old(self)@.after_requests(now),
            wire::views(final(out)@) == wire::views(old(out)@) + repeated_requests(
                old(self)@,
                old(self)@.neighbors,
                me,
                now,
            ),
    {
        let ghost start = self@;
        let ghost ns = start.neighbors;
        let ghost sent = wire::views(out@);
        let mut i: usize = 0;
        assert(ns.take(0) =~= Seq::empty());
        assert(sent =~= sent + repeated_requests(start, ns.take(0), me, now));
        while i < self.neighbors.len()
            invariant
                i <= self.neighbors@.len(),
                self.neighbors@.len() == ns.len(),
                ns == start.neighbors,
                self@ == (interface::OspfInterfaceView { neighbors: self@.neighbors, ..start }),
                forall|k: int|
                    0 <= k < i ==> (#[trigger] self.neighbors@[k])@ == start.after_requests(
                        now,
                    ).neighbors[k],
                forall|k: int| i <= k < ns.len() ==> (#[trigger] self.neighbors@[k])@ == ns[k],
                wire::views(out@) == sent + repeated_requests(start, ns.take(i as int), me, now),
            decreases self.neighbors.len() - i,
        {
            assert(ns.take(i + 1).drop_last() =~= ns.take(i as int));
            assert(self.neighbors@[i as int]@ == ns[i as int]);
            if self.neighbors[i].is_lsr_due(self.rxmt_interval, now) {
                let requests = first_keys(
                    &self.neighbors[i].ls_request_list,
                    MAX_REQUESTS_PER_LSR,
                );
                self.neighbors[i].last_lsr_sent = now;
                let p = OspfPacket::LinkStateRequest(
                    OspfHeader::new(OspfPacketType::LinkStateRequest, me, self.area_id),
                    LsRequestPacket { requests },
                );
                out.push((self.sw_if_index, self.neighbors[i].address, p));
                assert(wire::views(out@) =~= sent + repeated_requests(
                    start,
                    ns.take(i + 1),
                    me,
                    now,
                ));
            }
            i = i + 1;
        }
        assert(ns.take(i as int) =~= ns);
        assert(self@.neighbors =~= start.after_requests(now).neighbors);
    }
}

impl OspfInstance {
    /// The Hello for an interface.
    pub fn build_hello(&self, iface: &OspfInterface) -> (p: OspfPacket)
        ensures
            p@ == packet::OspfPacketView::Hello(
                OspfHeader::fresh(OspfPacketType::Hello, self@.router_id, iface@.area_id),
                iface@.hello(),
            ),
    {
        OspfPacket::Hello(
            OspfHeader::new(OspfPacketType::Hello, self.router_id, iface.area_id),
            iface.build_hello_body(),
        )
    }

    /// The first packets of the exchanges with neighbors in ExStart, each repeated every second
    /// until the neighbor answers.
    pub fn emit_pending_dds(&mut self, now: u64) -> (out: Vec<Outgoing>)
        ensures
            final(self)@ == (OspfInstanceView {
                interfaces: Seq::new(
                    old(self)@.interfaces.len(),
                    |k: int| old(self)@.interfaces[k].after_openings(now),
                ),
                ..old(self)@
            }),
            wire::views(out@) == all_opening_packets(
                old(self)@.interfaces,
                old(self)@.router_id,
                now,
            ),
    {
        let ghost start = self@;
        let ghost is = start.interfaces;
        let me: u32 = self.router_id;
        let mut out: Vec<Outgoing> = Vec::new();
        let mut i: usize = 0;
        assert(is.take(0) =~= Seq::empty());
        assert(wire::views(out@) =~= Seq::empty());
        while i < self.interfaces.len()
            invariant
                i <= self.interfaces@.len(),
                self.interfaces@.len() == is.len(),
                is == start.interfaces,
                me == start.router_id,
                self@ == (OspfInstanceView { interfaces: self@.interfaces, ..start }),
                forall|k: int|
                    0 <= k < i ==> (#[trigger] self.interfaces@[k])@ == is[k].after_openings(now),
                forall|k: int| i <= k < is.len() ==> (#[trigger] self.interfaces@[k])@ == is[k],
                wire::views(out@) == all_opening_packets(is.take(i as int), me, now),
            decreases self.interfaces.len() - i,
        {
            assert(is.take(i + 1).drop_last() =~= is.take(i as int));
            assert(self.interfaces@[i as int]@ == is[i as int]);
            self.interfaces[i].open_exchanges(me, now, &mut out);
            i = i + 1;
        }
        assert(is.take(i as int) =~= is);
        assert(self@.interfaces =~= Seq::new(is.len(), |k: int| is[k].after_openings(now)));
        out
    }

    /// The requests that stayed unanswered for the retransmission interval, once more.
    pub fn emit_pending_lsrs(&mut self, now: u64) -> (out: Vec<Outgoing>)
        ensures
            final(self)@ == (OspfInstanceView {
                interfaces: Seq::new(
                    old(self)@.interfaces.len(),
                    |k: int| old(self)@.interfaces[k].after_requests(now),
                ),
                ..old(self)@
            }),
            wire::views(out@) == all_repeated_requests(
                old(self)@.interfaces,
                old(self)@.router_id,
                now,
            ),
    {
        let ghost start = self@;
        let ghost is = start.interfaces;
        let me: u32 = self.router_id;
        let mut out: Vec<Outgoing> = Vec::new();
        let mut i: usize = 0;
        assert(is.take(0) =~= Seq::empty());
        assert(wire::views(out@) =~= Seq::empty());
        while i < self.interfaces.len()
            invariant
                i <= self.interfaces@.len(),
                self.interfaces@.len() == is.len(),
                is == start.interfaces,
                me == start.router_id,
                self@ == (OspfInstanceView { interfaces: self@.interfaces, ..start }),
                forall|k: int|
                    0 <= k < i ==> (#[trigger] self.interfaces@[k])@ == is[k].after_requests(now),
                forall|k: int| i <= k < is.len() ==> (#[trigger] self.interfaces@[k])@ == is[k],
                wire::views(out@) == all_repeated_requests(is.take(i as int), me, now),
            decreases self.interfaces.len() - i,
        {
            assert(is.take(i + 1).drop_last() =~= is.take(i as int));
            assert(self.interfaces@[i as int]@ == is[i as int]);
            self.interfaces[i].repeat_requests(me, now, &mut out);
            i = i + 1;
        }
        assert(is.take(i as int) =~= is);
        assert(self@.interfaces =~= Seq::new(is.len(), |k: int| is[k].after_requests(now)));
        out
    }

    /// The header of the stored LSA with key `k`.
    fn stored_header(&self, area_id: u32, k: &LsaKey) -> (r: Option<LsaHeader>)
        ensures
            r == (match self@.stored(area_id, *k) {
                Some(e) => Some(e.lsa.header),
                None => None::<LsaHeader>,
            }),
    {
        if k.ls_type == LsaType::AsExternal {
            match self.as_external_lsdb.get(k) {
                Some(e) => Some(e.lsa.header),
                None => None,
            }
        } else {
            match self.find_area(area_id) {
                Some(a) => match self.areas[a].lsdb.get(k) {
                    Some(e) => Some(e.lsa.header),
                    None => None,
                },
                None => None,
            }
        }
    }

    /// A copy of the stored LSA with key `k`.
    pub fn stored_lsa(&self, area_id: u32, k: &LsaKey) -> (r: Option<Lsa>)
        ensures
            match (r, self@.stored(area_id, *k)) {
                (Some(l), Some(e)) => l@ == e.lsa,
                (None, None) => true,
                _ => false,
            },
    {
        if k.ls_type == LsaType::AsExternal {
            match self.as_external_lsdb.get(k) {
                Some(e) => Some(e.lsa.duplicate()),
                None => None,
            }
        } else {
            match self.find_area(area_id) {
                Some(a) => match self.areas[a].lsdb.get(k) {
                    Some(e) => Some(e.lsa.duplicate()),
                    None => None,
                },
                None => None,
            }
        }
    }

    /// Raises the sequence number of our LSA that a neighbor describes, if theirs is higher.
    fn recover(&mut self, area_id: u32, h: &LsaHeader) -> (b: bool)
        ensures
            (final(self)@, b) == old(self)@.recovered(area_id, *h),
    {
        if h.advertising_router != self.router_id {
            return false;
        }
        let ghost before = self@;
        let k = h.key();
        if h.ls_type == LsaType::AsExternal {
            self.as_external_lsdb.bump_seq(&k, h.ls_sequence_number)
        } else {
            match self.find_area(area_id) {
                None => false,
                Some(a) => {
                    assert(before.areas[a as int] == self.areas@[a as int]@);
                    let b = self.areas[a].lsdb.bump_seq(&k, h.ls_sequence_number);
                    assert(self@.areas =~= before.recovered(area_id, *h).0.areas);
                    b
                },
            }
        }
    }

    /// Compares the databases with what a neighbor describes.
    fn compare_databases(&mut self, area_id: u32, hs: &Vec<LsaHeader>, now: u64)
        ensures
            final(self)@ == old(self)@.compared(area_id, hs@, now),
    {
        let ghost start = self@;
        let mut raised = false;
        let mut i: usize = 0;
        assert(hs@.take(0) =~= Seq::empty());
        while i < hs.len()
            invariant
                i <= hs@.len(),
                (self@, raised) == start.recovered_all(area_id, hs@.take(i as int)),
            decreases hs.len() - i,
        {
            assert(hs@.take(i + 1).drop_last() =~= hs@.take(i as int));
            let b = self.recover(area_id, &hs[i]);
            if b {
                raised = true;
            }
            i = i + 1;
        }
        assert(hs@.take(i as int) =~= hs@);
        if raised {
            self.schedule_spf(now);
        }
    }

    /// The keys of the described LSAs that we lack.
    fn wanted_keys(&self, area_id: u32, hs: &Vec<LsaHeader>) -> (r: Vec<LsaKey>)
        ensures
            r@ == self@.wanted(area_id, hs@, hs@),
    {
        let mut v: Vec<LsaKey> = Vec::new();
        let mut i: usize = 0;
        assert(hs@.take(0) =~= Seq::empty());
        while i < hs.len()
            invariant
                i <= hs@.len(),
                v@ == self@.wanted(area_id, hs@.take(i as int), hs@),
            decreases hs.len() - i,
        {
            assert(hs@.take(i + 1).drop_last() =~= hs@.take(i as int));
            let k = hs[i].key();
            let need = match self.stored_header(area_id, &k) {
                None => true,
                Some(e) => match find_header(hs, &k) {
                    Some(h) => h.is_more_recent_than(&e) == Recency::Newer,
                    None => false,
                },
            };
            if need {
                v.push(k);
            }
            i = i + 1;
        }
        assert(hs@.take(i as int) =~= hs@);
        v
    }

    /// The headers that we owe a neighbor in the area.
    fn headers_for(&self, area_id: u32, now: u64) -> (r: Vec<LsaHeader>)
        ensures
            r@ == self@.owed_headers(area_id, now),
    {
        let mut v: Vec<LsaHeader> = match self.find_area(area_id) {
            Some(a) => self.areas[a].lsdb.all_headers(now),
            None => Vec::new(),
        };
        let mut more = self.as_external_lsdb.all_headers(now);
        v.append(&mut more);
        v
    }

    /// Takes a description packet of the router `peer` in and appends what answers it.
    pub fn process_dd(
        &mut self,
        i: usize,
        src: u32,
        peer: u32,
        d: &DbDescPacket,
        now: u64,
        out: &mut Vec<Outgoing>,
    )
        requires
            i < old(self)@.interfaces.len(),
        ensures
            final(self)@ == old(self)@.after_dd(i as int, src, peer, d@, now).0,
            wire::views(final(out)@) == wire::views(old(out)@) + old(self)@.after_dd(
                i as int,
                src,
                peer,
                d@,
                now,
            ).1,
    {
        let ghost start = self@;
        let ghost sent = wire::views(out@);
        let ghost want = start.after_dd(i as int, src, peer, d@, now);
        assert(sent =~= sent + Seq::<instance::OutgoingView>::empty());
        let area_id: u32 = self.interfaces[i].area_id;
        assert(area_id == start.interfaces[i as int].area_id);
        self.compare_databases(area_id, &d.lsa_headers, now);
        let ghost t = self@;
        proof {
            lemma_compared_frame(start, area_id, d@.lsa_headers, now);
        }
        let wanted = self.wanted_keys(area_id, &d.lsa_headers);
        let ours = self.headers_for(area_id, now);
        let me: u32 = self.router_id;
        let ghost f = t.interfaces[i as int];
        assert(self.interfaces@[i as int]@ == f);
        let j: usize = match self.interfaces[i].find_neighbor(peer) {
            None => {
                return;
            },
            Some(j) => j,
        };
        assert(f.neighbors[j as int] == self.interfaces@[i as int].neighbors@[j as int]@);
        let ghost n = f.neighbors[j as int].described(me, peer, d@, wanted@, ours@, now);
        self.interfaces[i].neighbors[j].process_dd(me, peer, d, wanted, ours, now);
        assert(self.interfaces@[i as int].neighbors@[j as int]@ == n);
        assert(self@.interfaces[i as int].neighbors =~= f.neighbors.update(j as int, n));
        let state = self.interfaces[i].neighbors[j].state;
        let asks = state.reached(NeighborState::Exchange)
            && self.interfaces[i].neighbors[j].ls_request_list.len() > 0;
        let sw_if_index: u32 = self.interfaces[i].sw_if_index;
        let options = self.interfaces[i].options;
        let mtu: u16 = self.interfaces[i].dd_mtu;
        let answers = state == NeighborState::ExStart || state == NeighborState::Exchange;
        let ghost b = n.describing(n.state == NeighborState::ExStart, f.options, f.dd_mtu);
        let ghost m = if answers {
            b.0
        } else {
            n
        };
        if answers {
            let body = self.interfaces[i].neighbors[j].build_dd(
                state == NeighborState::ExStart,
                options,
                mtu,
            );
            let p = OspfPacket::DatabaseDescription(
                OspfHeader::new(OspfPacketType::DatabaseDescription, me, area_id),
                body,
            );
            out.push((sw_if_index, src, p));
        }
        assert(self.interfaces@[i as int].neighbors@[j as int]@ == m);
        if asks {
            let requests = first_keys(
                &self.interfaces[i].neighbors[j].ls_request_list,
                MAX_REQUESTS_PER_LSR,
            );
            self.interfaces[i].neighbors[j].last_lsr_sent = now;
            let p = OspfPacket::LinkStateRequest(
                OspfHeader::new(OspfPacketType::LinkStateRequest, me, area_id),
                LsRequestPacket { requests },
            );
            out.push((sw_if_index, src, p));
        }
        let ghost last = if asks {
            neighbor::NeighborView { last_lsr_sent: now, ..m }
        } else {
            m
        };
        assert(self@.interfaces[i as int].neighbors =~= f.neighbors.update(j as int, last));
        assert(self@.interfaces =~= want.0.interfaces);
        assert(wire::views(out@) =~= sent + want.1);
    }

    /// Takes the requests of the router `peer` in and appends what answers them.
    pub fn process_lsr(
        &mut self,
        i: usize,
        src: u32,
        peer: u32,
        r: &LsRequestPacket,
        now: u64,
        out: &mut Vec<Outgoing>,
    )
        requires
            i < old(self)@.interfaces.len(),
        ensures
            final(self)@ == old(self)@.after_lsr(i as int, src, peer, r@, now).0,
            wire::views(final(out)@) == wire::views(old(out)@) + old(self)@.after_lsr(
                i as int,
                src,
                peer,
                r@,
                now,
            ).1,
    {
        let ghost start = self@;
        let ghost sent = wire::views(out@);
        let ghost f = start.interfaces[i as int];
        assert(sent =~= sent + Seq::<instance::OutgoingView>::empty());
        assert(self.interfaces@[i as int]@ == f);
        let area_id: u32 = self.interfaces[i].area_id;
        let mut lsas: Vec<Lsa> = Vec::new();
        let mut k: usize = 0;
        assert(r@.take(0) =~= Seq::empty());
        assert(wire::views(lsas@) =~= Seq::empty());
        let mut missing = false;
        while k < r.requests.len() && !missing
            invariant
                k <= r.requests@.len(),
                self@ == start,
                !missing ==> start.answers(area_id, r@.take(k as int)) == Some(
                    wire::views(lsas@),
                ),
                missing ==> start.answers(area_id, r@) is None,
            decreases
                r.requests.len() - k,
                if missing {
                    0int
                } else {
                    1int
                },
        {
            assert(r@.take(k + 1).drop_last() =~= r@.take(k as int));
            match self.stored_lsa(area_id, &r.requests[k]) {
                Some(l) => {
                    lsas.push(l);
                    k = k + 1;
                },
                None => {
                    proof {
                        lemma_answers_none(start, area_id, r@, k + 1);
                    }
                    missing = true;
                },
            }
        }
        assert(r@.take(r@.len() as int) =~= r@);
        if missing {
            if let Some(j) = self.interfaces[i].find_neighbor(peer) {
                assert(f.neighbors[j as int] == self.interfaces@[i as int].neighbors@[j as int]@);
                let _s = self.interfaces[i].neighbors[j].handle_event(
                    NeighborEvent::BadLsReq,
                    false,
                    now,
                );
                assert(self@.interfaces[i as int].neighbors =~= f.neighbors.update(
                    j as int,
                    f.neighbors[j as int].after(NeighborEvent::BadLsReq, false, now),
                ));
                assert(self@.interfaces =~= start.after_lsr(
                    i as int,
                    src,
                    peer,
                    r@,
                    now,
                ).0.interfaces);
            }
            return;
        }
        if lsas.len() > 0 {
            let p = OspfPacket::LinkStateUpdate(
                OspfHeader::new(OspfPacketType::LinkStateUpdate, self.router_id, area_id),
                LsUpdatePacket { lsas },
            );
            out.push((self.interfaces[i].sw_if_index, src, p));
            assert(wire::views(out@) =~= sent + start.after_lsr(i as int, src, peer, r@, now).1);
        }
    }
}

/// The first of the headers with key `k`.
fn find_header(hs: &Vec<LsaHeader>, k: &LsaKey) -> (r: Option<LsaHeader>)
    ensures
        r == header_for(hs@, *k, 0),
{
    let mut i: usize = 0;
    while i < hs.len()
        invariant
            i <= hs@.len(),
            header_for(hs@, *k, 0) == header_for(hs@, *k, i as int),
        decreases hs.len() - i,
    {
        if hs[i].key() == *k {
            return Some(hs[i]);
        }
        i = i + 1;
    }
    None
}

/// Comparing the databases changes neither the interfaces nor the router id.
pub proof fn lemma_compared_frame(s: OspfInstanceView, area_id: u32, hs: Seq<LsaHeader>, now: u64)
    ensures
        s.compared(area_id, hs, now).interfaces == s.interfaces,
        s.compared(area_id, hs, now).router_id == s.router_id,
        s.recovered_all(area_id, hs).0.interfaces == s.interfaces,
        s.recovered_all(area_id, hs).0.router_id == s.router_id,
    decreases hs.len(),
{
    if hs.len() > 0 {
        lemma_compared_frame(s, area_id, hs.drop_last(), now);
    }
}

/// A request that cannot be answered spoils every longer list.
proof fn lemma_answers_none(s: OspfInstanceView, area_id: u32, ks: Seq<LsaKey>, n: int)
    requires
        0 <= n <= ks.len(),
        s.answers(area_id, ks.take(n)) is None,
    ensures
        s.answers(area_id, ks) is None,
    decreases ks.len() - n,
{
    if n < ks.len() {
        assert(ks.take(n + 1).drop_last() =~= ks.take(n));
        lemma_answers_none(s, area_id, ks, n + 1);
    } else {
        assert(ks.take(n) =~= ks);
    }
}

} // verus!
