//! What holds of a whole database exchange.
use vstd::prelude::*;

use crate::instance_v3;
use crate::instance_v3::exchange;
use crate::instance_v3::laws;
use crate::instance_v3::{InterfaceStateV3, InterfaceV3View, NeighborStateV3, NeighborV3View};
use crate::io_v3::TxPacketV3View;
use crate::packet_v3::dd::DbDescV3View;
use crate::packet_v3::hello::HelloV3View;
use crate::packet_v3::{LsaV3Header, Ospfv3PacketType};

verus! {

/// The neighbor `peer` of an interface.
pub open spec fn neighbor_of(f: InterfaceV3View, peer: u32) -> Option<NeighborV3View> {
    match instance_v3::neighbor_pos(f.neighbors, peer, 0) {
        Some(j) => Some(f.neighbors[j]),
        None => None,
    }
}

/// The description packet that goes to a neighbor.
pub open spec fn dd_to(f: InterfaceV3View, me: u32, n: NeighborV3View) -> TxPacketV3View {
    f.packet_to(
        Ospfv3PacketType::DatabaseDescription,
        me,
        n.link_local,
        n.numbered().next_dd(1500).bytes(),
    )
}

/// A description packet goes out exactly to the neighbors for which one is due.
pub proof fn lemma_dds_exact(
    f: InterfaceV3View,
    ns: Seq<NeighborV3View>,
    me: u32,
    now: u64,
    p: TxPacketV3View,
)
    ensures
        f.dds_for(ns, me, now).contains(p) <==> exists|j: int|
            0 <= j < ns.len() && (#[trigger] ns[j]).dd_due(now) && p == dd_to(f, me, ns[j]),
    decreases ns.len(),
{
    let all = f.dds_for(ns, me, now);
    if ns.len() > 0 {
        let rest = ns.drop_last();
        let front = f.dds_for(rest, me, now);
        lemma_dds_exact(f, rest, me, now, p);
        if front.contains(p) {
            let i = choose|i: int| 0 <= i < front.len() && front[i] == p;
            assert(all[i] == p);
            let j = choose|j: int|
                0 <= j < rest.len() && (#[trigger] rest[j]).dd_due(now) && p == dd_to(f, me, rest[j]);
            assert(ns[j] == rest[j]);
        }
        if exists|j: int|
            0 <= j < ns.len() && (#[trigger] ns[j]).dd_due(now) && p == dd_to(f, me, ns[j]) {
            let j = choose|j: int|
                0 <= j < ns.len() && (#[trigger] ns[j]).dd_due(now) && p == dd_to(f, me, ns[j]);
            if j < rest.len() {
                assert(rest[j] == ns[j]);
            } else {
                assert(all[all.len() - 1] == p);
            }
        }
        if all.contains(p) {
            let i = choose|i: int| 0 <= i < all.len() && all[i] == p;
            if i < front.len() {
                assert(front[i] == p);
            } else {
                assert(ns[ns.len() - 1].dd_due(now));
            }
        }
    }
}

/// As master, we do not end the exchange before we described our own database. The neighbor waits in
/// ExStart and accepts us with a packet that describes nothing and announces no more, while we owe it
/// headers that fit into one packet: it goes to Exchange only, its end is remembered and our headers
/// wait to be sent. They go out with the packets that follow, in a packet that announces the end, and
/// only then the neighbor leaves the exchange.
pub proof fn lemma_master_defers(
    f: InterfaceV3View,
    me: u32,
    peer: u32,
    d: DbDescV3View,
    ours: Seq<LsaV3Header>,
    later: Seq<LsaV3Header>,
    now: u64,
)
    requires
        f.state != InterfaceStateV3::Down,
        peer < me,
        neighbor_of(f, peer) matches Some(n) && n.state == NeighborStateV3::ExStart
            && d.dd_sequence_number == n.dd_seq,
        !d.is_init(),
        !d.is_master(),
        !d.has_more(),
        d.lsa_headers.len() == 0,
        1 <= ours.len() <= exchange::headers_per_packet(1500),
    ensures
        ({
            let one = f.dd_received(me, peer, d, ours);
            let n = neighbor_of(one, peer)->0;
            let two = one.after_dds(later, now);
            let last = n.next_dd(1500);
            &&& neighbor_of(one, peer) is Some
            &&& n.state == NeighborStateV3::Exchange
            &&& n.dd_master
            &&& n.dd_peer_done
            &&& n.dd_summary_tx == ours
            &&& last.lsa_headers == ours
            &&& last.is_master()
            &&& !last.has_more()
            &&& one.dds_for(one.neighbors, me, now).contains(
                one.packet_to(
                    Ospfv3PacketType::DatabaseDescription,
                    me,
                    n.link_local,
                    last.bytes(),
                ),
            )
            &&& neighbor_of(two, peer) matches Some(m) && m.dd_summary_tx.len() == 0 && (m.state
                == NeighborStateV3::Full || m.state == NeighborStateV3::Loading) && (m.state
                == NeighborStateV3::Full <==> m.request_list.len() == 0)
        }),
{
    let j = instance_v3::neighbor_pos(f.neighbors, peer, 0)->0;
    instance_v3::lemma_neighbor_pos(f.neighbors, peer, 0);
    let one = f.dd_received(me, peer, d, ours);
    instance_v3::lemma_neighbor_pos(one.neighbors, peer, 0);
    let at = instance_v3::neighbor_pos(one.neighbors, peer, 0)->0;
    assert(one.neighbors[j].router_id == peer);
    assert(at == j) by {
        if at < j {
            assert(one.neighbors[at] == f.neighbors[at]);
        }
    }
    let n = one.neighbors[j];
    laws::lemma_page(n, 1500, now);
    assert(n.next_dd(1500).lsa_headers =~= ours);
    lemma_dds_exact(one, one.neighbors, me, now, dd_to(one, me, n));
    laws::lemma_exchange_deferred(n, later, now);
    let two = one.after_dds(later, now);
    instance_v3::lemma_neighbor_pos(two.neighbors, peer, 0);
    let to = instance_v3::neighbor_pos(two.neighbors, peer, 0)->0;
    assert(two.neighbors[j] == n.dd_step(later, now).0);
    assert(two.neighbors[j].router_id == peer);
    assert(to == j) by {
        if to < j {
            assert(two.neighbors[to] == one.neighbors[to].dd_step(later, now).0);
            assert(two.neighbors[to].router_id == one.neighbors[to].router_id);
        }
    }
}

/// What a Hello does. One on an interface that is down or with other intervals than ours is ignored.
/// Any other one is remembered with everything that it says; its sender falls back to Init if it does
/// not list us and is at least 2-Way if it does. No other neighbor is touched.
pub proof fn lemma_hello_heard(
    f: InterfaceV3View,
    me: u32,
    src: u32,
    addr: u128,
    h: HelloV3View,
    now: u64,
    other: u32,
)
    ensures
        ({
            let r = f.hello_received(me, src, addr, h, now);
            &&& !f.accepts_hello(h) ==> r == f
            &&& f.accepts_hello(h) ==> (neighbor_of(r, src) matches Some(n) && n.router_id == src
                && n.last_hello == now && n.link_local == addr && n.interface_id == h.interface_id
                && n.priority == h.router_priority && n.dr == h.designated_router_id && n.bdr
                == h.backup_designated_router_id && (h.neighbors.contains(me)
                ==> n.state.level() >= NeighborStateV3::TwoWay.level()) && (!h.neighbors.contains(
                me,
            ) ==> n.state == NeighborStateV3::Init))
            &&& other != src ==> neighbor_of(r, other) == neighbor_of(f, other)
        }),
{
    let r = f.hello_received(me, src, addr, h, now);
    if f.accepts_hello(h) {
        instance_v3::lemma_neighbor_pos(f.neighbors, src, 0);
        instance_v3::lemma_neighbor_pos(r.neighbors, src, 0);
        instance_v3::lemma_neighbor_pos(f.neighbors, other, 0);
        instance_v3::lemma_neighbor_pos(r.neighbors, other, 0);
        let at = match instance_v3::neighbor_pos(f.neighbors, src, 0) {
            Some(i) => i,
            None => f.neighbors.len() as int,
        };
        assert forall|k: int| 0 <= k < f.neighbors.len() && k != at implies #[trigger] r.neighbors[k]
            == f.neighbors[k] by {}
        assert(r.neighbors[at].router_id == src);
        let found = instance_v3::neighbor_pos(r.neighbors, src, 0)->0;
        assert(found == at) by {
            if found < at {
                assert(r.neighbors[found] == f.neighbors[found]);
            }
        }
        if other != src {
            match instance_v3::neighbor_pos(f.neighbors, other, 0) {
                Some(k) => {
                    assert(r.neighbors[k] == f.neighbors[k]);
                    let m = instance_v3::neighbor_pos(r.neighbors, other, 0)->0;
                    if m < k {
                        assert(r.neighbors[m] == f.neighbors[m]);
                    }
                },
                None => {
                    match instance_v3::neighbor_pos(r.neighbors, other, 0) {
                        Some(m) => {
                            assert(m != at);
                            assert(r.neighbors[m] == f.neighbors[m]);
                        },
                        None => {},
                    }
                },
            }
        }
    }
}

} // verus!
