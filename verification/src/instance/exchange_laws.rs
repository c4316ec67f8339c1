//! What holds of a whole database exchange.
use vstd::prelude::*;

use crate::instance::exchange;
use crate::instance::exchange::MAX_HEADERS_PER_DD;
use crate::instance::laws;
use crate::instance::{OspfInstanceView, OutgoingView};
use crate::packet;
use crate::packet::dd;
use crate::packet::hello;
use crate::packet::lsa::{LsaHeader, LsaKey};
use crate::proto::interface;
use crate::proto::interface::{InterfaceEvent, InterfaceState};
use crate::proto::neighbor;
use crate::proto::neighbor::NeighborState;

verus! {

/// A description packet and when it arrives.
pub type DdArrival = (dd::DbDescView, u64);

/// The instance after the description packets `ds` of `peer` arrived one after the other on the
/// interface at position `i`, and all packets that answered them.
pub open spec fn after_dds(
    me: OspfInstanceView,
    i: int,
    src: u32,
    peer: u32,
    ds: Seq<DdArrival>,
) -> (OspfInstanceView, Seq<OutgoingView>)
    decreases ds.len(),
{
    if ds.len() == 0 {
        (me, Seq::empty())
    } else {
        let before = after_dds(me, i, src, peer, ds.drop_last());
        let last = before.0.after_dd(i, src, peer, ds.last().0, ds.last().1);
        (last.0, before.1 + last.1)
    }
}

/// The headers in the description packets among `ps`, one packet after the other.
pub open spec fn headers_sent(ps: Seq<OutgoingView>) -> Seq<LsaHeader>
    decreases ps.len(),
{
    if ps.len() == 0 {
        Seq::empty()
    } else {
        headers_sent(ps.drop_last()) + match ps.last().2 {
            packet::OspfPacketView::DatabaseDescription(_, d) => d.lsa_headers,
            _ => Seq::empty(),
        }
    }
}

/// How many headers `k` description packets carry if `total` are owed.
pub open spec fn carried_by(k: int, total: int) -> int {
    if k * MAX_HEADERS_PER_DD < total {
        k * MAX_HEADERS_PER_DD
    } else {
        total
    }
}

/// Whether the packet is a description packet of a slave that describes nothing.
pub open spec fn empty_answer(d: dd::DbDescView) -> bool {
    !d.is_init() && !d.is_master() && d.lsa_headers.len() == 0
}

/// The neighbor `peer` of the interface at position `i`.
pub open spec fn neighbor_of(me: OspfInstanceView, i: int, peer: u32) -> Option<
    neighbor::NeighborView,
> {
    match interface::neighbor_pos(me.interfaces[i].neighbors, peer, 0) {
        Some(j) => Some(me.interfaces[i].neighbors[j]),
        None => None,
    }
}

/// The headers in two runs of packets are those in the first and then those in the second.
proof fn lemma_headers_sent(a: Seq<OutgoingView>, b: Seq<OutgoingView>)
    ensures
        headers_sent(a + b) == headers_sent(a) + headers_sent(b),
    decreases b.len(),
{
    if b.len() == 0 {
        assert(a + b =~= a);
        assert(headers_sent(a) + headers_sent(b) =~= headers_sent(a));
    } else {
        lemma_headers_sent(a, b.drop_last());
        assert((a + b).drop_last() =~= a + b.drop_last());
        assert((a + b).last() == b.last());
        let h = match b.last().2 {
            packet::OspfPacketView::DatabaseDescription(_, d) => d.lsa_headers,
            _ => Seq::empty(),
        };
        assert((headers_sent(a) + headers_sent(b.drop_last())) + h =~= headers_sent(a) + (
        headers_sent(b.drop_last()) + h));
    }
}

/// What a description packet without headers does to the neighbor and what answers it, apart from a
/// request for LSAs.
proof fn lemma_empty_dd(me: OspfInstanceView, i: int, src: u32, peer: u32, d: dd::DbDescView, now: u64)
    requires
        0 <= i < me.interfaces.len(),
        neighbor_of(me, i, peer) is Some,
        d.lsa_headers.len() == 0,
    ensures
        ({
            let f = me.interfaces[i];
            let n0 = neighbor_of(me, i, peer)->0;
            let ours = me.owed_headers(f.area_id, now);
            let n = n0.described(me.router_id, peer, d, Seq::empty(), ours, now);
            let b = n.describing(false, f.options, f.dd_mtu);
            let r = me.after_dd(i, src, peer, d, now);
            &&& r.0.router_id == me.router_id
            &&& r.0.interfaces.len() == me.interfaces.len()
            &&& r.0.interfaces[i].area_id == f.area_id
            &&& r.0.interfaces[i].options == f.options
            &&& r.0.interfaces[i].dd_mtu == f.dd_mtu
            &&& neighbor_of(r.0, i, peer) is Some
            &&& n.state == NeighborState::Exchange ==> {
                let m = neighbor_of(r.0, i, peer)->0;
                &&& m == (neighbor::NeighborView { last_lsr_sent: m.last_lsr_sent, ..b.0 })
                &&& r.1.len() > 0
                &&& r.1[0].2 == exchange::dd_packet(me.router_id, f.area_id, b.1)
                &&& headers_sent(r.1) == b.1.lsa_headers
                &&& n.ls_request_list.len() == 0 ==> r.1.len() == 1
            }
            &&& n.state.at_least(NeighborState::Loading) ==> {
                let m = neighbor_of(r.0, i, peer)->0;
                m == (neighbor::NeighborView { last_lsr_sent: m.last_lsr_sent, ..n })
            }
        }),
{
    let f = me.interfaces[i];
    let j = interface::neighbor_pos(f.neighbors, peer, 0)->0;
    interface::lemma_neighbor_pos(f.neighbors, peer, 0);
    let t = me.compared(f.area_id, d.lsa_headers, now);
    assert(t == me);
    assert(t.wanted(f.area_id, d.lsa_headers, d.lsa_headers) =~= Seq::empty());
    let r = me.after_dd(i, src, peer, d, now);
    let after = r.0.interfaces[i].neighbors;
    assert(after.len() == f.neighbors.len());
    assert(after[j].router_id == peer);
    assert forall|k: int| 0 <= k < after.len() && k != j implies #[trigger] after[k]
        == f.neighbors[k] by {}
    interface::lemma_neighbor_pos(after, peer, 0);
    let at = interface::neighbor_pos(after, peer, 0)->0;
    assert(at == j) by {
        if at < j {
            assert(after[at] == f.neighbors[at]);
        }
    }
    let n = f.neighbors[j].described(
        me.router_id,
        peer,
        d,
        Seq::empty(),
        me.owed_headers(f.area_id, now),
        now,
    );
    if n.state == NeighborState::Exchange {
        let b = n.describing(false, f.options, f.dd_mtu);
        let first: Seq<OutgoingView> = seq![
            (f.sw_if_index, src, exchange::dd_packet(me.router_id, f.area_id, b.1)),
        ];
        let rest = r.1.skip(1);
        assert(r.1 =~= first + rest);
        assert(rest.len() <= 1);
        lemma_headers_sent(first, rest);
        assert(first.drop_last() =~= Seq::empty());
        assert(headers_sent(Seq::<OutgoingView>::empty()) =~= Seq::empty());
        assert(headers_sent(first) =~= b.1.lsa_headers);
        if rest.len() == 1 {
            assert(rest.drop_last() =~= Seq::empty());
            assert(headers_sent(rest) =~= Seq::empty());
        } else {
            assert(rest =~= Seq::empty());
        }
        assert(headers_sent(r.1) =~= b.1.lsa_headers);
    }
}

/// As master, we describe our whole database, one packet for each packet of the slave. The neighbor
/// waits in ExStart and accepts us as its master; then it goes on answering with packets that describe
/// nothing and announce more. What we owe it is what we held at its first packet: after `k` packets of
/// ours it has the first 60 for each of them, in order and each once. Every packet of ours carries at
/// most 60 headers and announces more exactly while some are left, and that we announced the end is
/// remembered exactly when the last of them went out.
pub proof fn lemma_master_pages(
    me: OspfInstanceView,
    i: int,
    src: u32,
    peer: u32,
    ds: Seq<DdArrival>,
)
    requires
        0 <= i < me.interfaces.len(),
        peer < me.router_id,
        ds.len() > 0,
        neighbor_of(me, i, peer) matches Some(n) && n.state == NeighborState::ExStart
            && ds[0].0.dd_sequence_number == n.dd_seq_number,
        forall|k: int| 0 <= k < ds.len() ==> empty_answer((#[trigger] ds[k]).0),
        forall|k: int| 1 <= k < ds.len() ==> (#[trigger] ds[k]).0.has_more(),
    ensures
        ({
            let h = me.owed_headers(me.interfaces[i].area_id, ds[0].1);
            let k = ds.len() as int;
            let before = after_dds(me, i, src, peer, ds.drop_last());
            let after = after_dds(me, i, src, peer, ds);
            let answer = before.0.after_dd(i, src, peer, ds.last().0, ds.last().1).1;
            &&& headers_sent(after.1) == h.take(carried_by(k, h.len() as int))
            &&& neighbor_of(after.0, i, peer) matches Some(n) && n.state == NeighborState::Exchange
                && n.is_master && n.db_summary_list == h.skip(carried_by(k, h.len() as int)) && (
            n.sent_m_clear <==> k * MAX_HEADERS_PER_DD >= h.len())
            &&& answer.len() > 0
            &&& answer[0].2 matches packet::OspfPacketView::DatabaseDescription(_, d)
                && !d.is_init() && d.is_master() && (d.has_more() <==> k * MAX_HEADERS_PER_DD
                < h.len()) && d.lsa_headers == h.subrange(
                carried_by(k - 1, h.len() as int),
                carried_by(k, h.len() as int),
            ) && d.lsa_headers.len() <= MAX_HEADERS_PER_DD && headers_sent(answer) == d.lsa_headers
            &&& neighbor_of(me, i, peer)->0.ls_request_list.len() == 0 ==> answer.len() == 1
        }),
{
    lemma_master_run(me, i, src, peer, ds);
}

/// The paging together with what the induction needs.
#[verifier::rlimit(30)]
proof fn lemma_master_run(
    me: OspfInstanceView,
    i: int,
    src: u32,
    peer: u32,
    ds: Seq<DdArrival>,
)
    requires
        0 <= i < me.interfaces.len(),
        peer < me.router_id,
        ds.len() > 0,
        neighbor_of(me, i, peer) matches Some(n) && n.state == NeighborState::ExStart
            && ds[0].0.dd_sequence_number == n.dd_seq_number,
        forall|k: int| 0 <= k < ds.len() ==> empty_answer((#[trigger] ds[k]).0),
        forall|k: int| 1 <= k < ds.len() ==> (#[trigger] ds[k]).0.has_more(),
    ensures
        ({
            let h = me.owed_headers(me.interfaces[i].area_id, ds[0].1);
            let k = ds.len() as int;
            let before = after_dds(me, i, src, peer, ds.drop_last());
            let after = after_dds(me, i, src, peer, ds);
            let answer = before.0.after_dd(i, src, peer, ds.last().0, ds.last().1).1;
            &&& after.0.router_id == me.router_id
            &&& after.0.interfaces.len() == me.interfaces.len()
            &&& headers_sent(after.1) == h.take(carried_by(k, h.len() as int))
            &&& neighbor_of(after.0, i, peer) matches Some(n) && n.state == NeighborState::Exchange
                && n.is_master && n.db_summary_list == h.skip(carried_by(k, h.len() as int)) && (
            n.sent_m_clear <==> k * MAX_HEADERS_PER_DD >= h.len()) && n.ls_request_list
                == neighbor_of(me, i, peer)->0.ls_request_list
            &&& answer.len() > 0
            &&& answer[0].2 matches packet::OspfPacketView::DatabaseDescription(_, d)
                && !d.is_init() && d.is_master() && (d.has_more() <==> k * MAX_HEADERS_PER_DD
                < h.len()) && d.lsa_headers == h.subrange(
                carried_by(k - 1, h.len() as int),
                carried_by(k, h.len() as int),
            ) && d.lsa_headers.len() <= MAX_HEADERS_PER_DD && headers_sent(answer) == d.lsa_headers
            &&& neighbor_of(me, i, peer)->0.ls_request_list.len() == 0 ==> answer.len() == 1
        }),
    decreases ds.len(),
{
    let h = me.owed_headers(me.interfaces[i].area_id, ds[0].1);
    let total = h.len() as int;
    let k = ds.len() as int;
    let front = ds.drop_last();
    let before = after_dds(me, i, src, peer, front);
    let (d, now) = ds.last();
    assert(empty_answer(ds[k - 1].0));
    if k == 1 {
        assert(before == (me, Seq::<OutgoingView>::empty()));
        assert(headers_sent(before.1) =~= Seq::empty());
        assert(h.skip(0) =~= h);
    } else {
        assert forall|j: int| 0 <= j < front.len() implies empty_answer((#[trigger] front[j]).0) by {
            assert(front[j] == ds[j]);
        }
        assert forall|j: int| 1 <= j < front.len() implies (#[trigger] front[j]).0.has_more() by {
            assert(front[j] == ds[j]);
        }
        assert(front[0] == ds[0]);
        lemma_master_run(me, i, src, peer, front);
        assert(ds[k - 1].0.has_more());
    }
    let f = before.0.interfaces[i];
    let n0 = neighbor_of(before.0, i, peer)->0;
    lemma_empty_dd(before.0, i, src, peer, d, now);
    let ours = before.0.owed_headers(f.area_id, now);
    let n = n0.described(me.router_id, peer, d, Seq::empty(), ours, now);
    assert(n0.ls_request_list + Seq::empty() =~= n0.ls_request_list);
    assert(n.state == NeighborState::Exchange && n.is_master);
    let done = carried_by(k - 1, total);
    assert(n.db_summary_list == h.skip(done));
    laws::lemma_page(n, f.options, f.dd_mtu);
    let b = n.describing(false, f.options, f.dd_mtu);
    assert(b.1.lsa_headers =~= h.subrange(done, carried_by(k, total)));
    assert(b.0.db_summary_list =~= h.skip(carried_by(k, total)));
    let answer = before.0.after_dd(i, src, peer, d, now).1;
    lemma_headers_sent(before.1, answer);
    assert(h.take(done) + h.subrange(done, carried_by(k, total)) =~= h.take(carried_by(k, total)));
    assert(h.take(0) =~= Seq::empty());
}

/// As master, we do not end the exchange before we described our own database. The neighbor waits in
/// ExStart and accepts us with a packet that describes nothing and announces no more, while we owe it
/// between 1 and 60 headers: it goes to Exchange only, and what we owe goes out in a packet that
/// announces the end. Its next packet of the same kind ends the exchange.
pub proof fn lemma_master_defers(
    me: OspfInstanceView,
    i: int,
    src: u32,
    peer: u32,
    first: DdArrival,
    second: DdArrival,
)
    requires
        0 <= i < me.interfaces.len(),
        peer < me.router_id,
        neighbor_of(me, i, peer) matches Some(n) && n.state == NeighborState::ExStart
            && first.0.dd_sequence_number == n.dd_seq_number,
        empty_answer(first.0),
        empty_answer(second.0),
        !first.0.has_more(),
        !second.0.has_more(),
        1 <= me.owed_headers(me.interfaces[i].area_id, first.1).len() <= MAX_HEADERS_PER_DD,
    ensures
        ({
            let h = me.owed_headers(me.interfaces[i].area_id, first.1);
            let one = me.after_dd(i, src, peer, first.0, first.1);
            let two = one.0.after_dd(i, src, peer, second.0, second.1);
            &&& neighbor_of(one.0, i, peer) matches Some(n) && n.state == NeighborState::Exchange
                && n.is_master && n.sent_m_clear
            &&& one.1.len() > 0
            &&& one.1[0].2 matches packet::OspfPacketView::DatabaseDescription(_, d)
                && d.is_master() && !d.has_more() && d.lsa_headers == h
            &&& neighbor_of(two.0, i, peer) matches Some(n) && n.state.at_least(
                NeighborState::Loading,
            ) && (n.state == NeighborState::Full <==> n.ls_request_list.len() == 0)
        }),
{
    let ds: Seq<DdArrival> = seq![first];
    assert(ds.drop_last() =~= Seq::<DdArrival>::empty());
    let h = me.owed_headers(me.interfaces[i].area_id, first.1);
    let start = after_dds(me, i, src, peer, ds.drop_last());
    assert(start == (me, Seq::<OutgoingView>::empty()));
    lemma_master_run(me, i, src, peer, ds);
    assert(h.subrange(0, h.len() as int) =~= h);
    let one = me.after_dd(i, src, peer, first.0, first.1);
    assert(after_dds(me, i, src, peer, ds).0 == one.0);
    lemma_empty_dd(one.0, i, src, peer, second.0, second.1);
    let n0 = neighbor_of(one.0, i, peer)->0;
    assert(n0.ls_request_list + Seq::empty() =~= n0.ls_request_list);
}

/// What a Hello does. One with other intervals than ours is ignored. Any other one is remembered with
/// everything that it says; its sender falls back to Init if it does not list us and is at least 2-Way
/// if it does.
pub proof fn lemma_hello_heard(
    f: interface::OspfInterfaceView,
    me: u32,
    src: u32,
    id: u32,
    h: hello::HelloView,
    now: u64,
)
    ensures
        ({
            let r = f.after_hello(me, src, id, h, now);
            let agrees = h.hello_interval == f.hello_interval && h.router_dead_interval
                == f.dead_interval;
            &&& !agrees ==> r == f
            &&& agrees ==> (match interface::neighbor_pos(r.neighbors, id, 0) {
                Some(j) => {
                    let n = r.neighbors[j];
                    &&& n.address == src
                    &&& n.last_heard == now
                    &&& n.priority == h.router_priority
                    &&& n.dr == h.designated_router
                    &&& n.bdr == h.backup_designated_router
                    &&& h.neighbors.contains(me) ==> n.state.at_least(NeighborState::TwoWay)
                    &&& !h.neighbors.contains(me) ==> n.state == NeighborState::Init
                },
                None => false,
            })
        }),
{
    if h.hello_interval == f.hello_interval && h.router_dead_interval == f.dead_interval {
        let base = f.knowing(id, src, now);
        interface::lemma_neighbor_pos(f.neighbors, id, 0);
        interface::lemma_neighbor_pos(base.neighbors, id, 0);
        if interface::neighbor_pos(f.neighbors, id, 0) is None {
            assert(base.neighbors[f.neighbors.len() as int].router_id == id);
        }
        let p = interface::neighbor_pos(base.neighbors, id, 0)->0;
        let before = base.neighbors[p];
        let after = before.greeted(base.adjacent_to_all(), me, src, h, now);
        let t = interface::OspfInterfaceView {
            neighbors: base.neighbors.update(p, after),
            ..base
        };
        let u = if t.state == InterfaceState::Waiting && (after.bdr != 0 || after.dr != 0) {
            t.after(InterfaceEvent::BackupSeen, now)
        } else {
            t
        };
        let r = f.after_hello(me, src, id, h, now);
        assert(after.router_id == id);
        lemma_event_keeps(t, InterfaceEvent::BackupSeen, now, p);
        lemma_event_keeps(u, InterfaceEvent::NeighborChange, now, p);
        assert(r.neighbors.len() == base.neighbors.len());
        interface::lemma_neighbor_pos(r.neighbors, id, 0);
        let j = interface::neighbor_pos(r.neighbors, id, 0)->0;
        assert(r.neighbors[p].router_id == id);
        if j < p {
            lemma_event_keeps(t, InterfaceEvent::BackupSeen, now, j);
            lemma_event_keeps(u, InterfaceEvent::NeighborChange, now, j);
            assert(t.neighbors[j] == base.neighbors[j]);
        }
    }
}

/// Whether a neighbor keeps everything but how far its exchange got, and stays on its side of 2-Way.
spec fn same_peer(a: neighbor::NeighborView, b: neighbor::NeighborView) -> bool {
    &&& b.router_id == a.router_id
    &&& b.address == a.address
    &&& b.last_heard == a.last_heard
    &&& b.priority == a.priority
    &&& b.dr == a.dr
    &&& b.bdr == a.bdr
    &&& a.state == NeighborState::Init ==> b.state == NeighborState::Init
    &&& a.state.at_least(NeighborState::TwoWay) ==> b.state.at_least(NeighborState::TwoWay)
}

/// An election leaves the neighbors what they are.
proof fn lemma_event_keeps(
    f: interface::OspfInterfaceView,
    ev: InterfaceEvent,
    now: u64,
    k: int,
)
    requires
        ev == InterfaceEvent::BackupSeen || ev == InterfaceEvent::NeighborChange,
        0 <= k < f.neighbors.len(),
    ensures
        f.after(ev, now).neighbors.len() == f.neighbors.len(),
        same_peer(f.neighbors[k], f.after(ev, now).neighbors[k]),
{
}

/// Requests are answered all or not at all: if every LSA is there, each is sent in the order in which
/// it was asked for; if one is missing, nothing is.
pub proof fn lemma_requests_answered(me: OspfInstanceView, area_id: u32, ks: Seq<LsaKey>)
    ensures
        me.answers(area_id, ks) is Some <==> forall|k: int|
            0 <= k < ks.len() ==> me.stored(area_id, #[trigger] ks[k]) is Some,
        me.answers(area_id, ks) matches Some(ls) ==> ls.len() == ks.len() && forall|k: int|
            0 <= k < ks.len() ==> (#[trigger] ls[k]) == me.stored(area_id, ks[k])->0.lsa,
    decreases ks.len(),
{
    if ks.len() > 0 {
        let rest = ks.drop_last();
        lemma_requests_answered(me, area_id, rest);
        assert(ks.last() == ks[ks.len() - 1]);
        if forall|k: int| 0 <= k < ks.len() ==> me.stored(area_id, #[trigger] ks[k]) is Some {
            assert forall|k: int| 0 <= k < rest.len() implies me.stored(
                area_id,
                #[trigger] rest[k],
            ) is Some by {
                assert(rest[k] == ks[k]);
            }
        }
        if me.answers(area_id, ks) is Some {
            assert forall|k: int| 0 <= k < ks.len() implies me.stored(
                area_id,
                #[trigger] ks[k],
            ) is Some by {
                if k < rest.len() {
                    assert(rest[k] == ks[k]);
                }
            }
            let front = me.answers(area_id, rest)->0;
            let ls = me.answers(area_id, ks)->0;
            assert forall|k: int| 0 <= k < ks.len() implies (#[trigger] ls[k]) == me.stored(
                area_id,
                ks[k],
            )->0.lsa by {
                if k < rest.len() {
                    assert(ls[k] == front[k]);
                    assert(rest[k] == ks[k]);
                }
            }
        }
    }
}

} // verus!
