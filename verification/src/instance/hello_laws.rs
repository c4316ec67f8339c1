//! What a Hello tells its receiver of the interface that sent it, and what follows from an election.
use vstd::prelude::*;

use crate::election;
use crate::election::{Candidate, Office};
use crate::instance::daemon;
use crate::instance::exchange;
use crate::instance::exchange_laws;
use crate::packet;
use crate::packet::hello;
use crate::packet::roundtrip;
use crate::packet::{OspfHeader, OspfPacketType};
use crate::packet_v3;
use crate::proto::interface;
use crate::proto::interface::{InterfaceState, NetworkType};
use crate::proto::neighbor;
use crate::proto::neighbor::NeighborState;
use crate::wire;

verus! {

/// Whether the neighbor was heard from: it is past the states in which nothing came from it.
pub open spec fn was_heard(n: neighbor::NeighborView) -> bool {
    n.state != NeighborState::Down && n.state != NeighborState::Attempt
}

/// Whether a neighbor with that id was heard from.
pub open spec fn heard_as(ns: Seq<neighbor::NeighborView>, id: u32) -> bool {
    exists|k: int| 0 <= k < ns.len() && was_heard(#[trigger] ns[k]) && ns[k].router_id == id
}

/// Whether the Hello speaks for the interface: it carries the mask, intervals and priority of the
/// interface, names the holder of each office in the field of that office, and lists exactly the
/// neighbors that were heard from.
pub open spec fn speaks_for(h: hello::HelloView, f: interface::OspfInterfaceView) -> bool {
    &&& h.network_mask == f.mask
    &&& h.hello_interval == f.hello_interval
    &&& h.router_dead_interval == f.dead_interval
    &&& h.router_priority == f.priority
    &&& h.designated_router == f.dr
    &&& h.backup_designated_router == f.bdr
    &&& forall|k: int|
        0 <= k < f.neighbors.len() && was_heard(#[trigger] f.neighbors[k]) ==> h.neighbors.contains(
            f.neighbors[k].router_id,
        )
    &&& forall|i: int| 0 <= i < h.neighbors.len() ==> heard_as(f.neighbors, #[trigger] h.neighbors[i])
}

proof fn lemma_heard_ids(ns: Seq<neighbor::NeighborView>)
    ensures
        forall|k: int|
            0 <= k < ns.len() && was_heard(#[trigger] ns[k]) ==> exchange::heard_ids(ns).contains(
                ns[k].router_id,
            ),
        forall|i: int|
            0 <= i < exchange::heard_ids(ns).len() ==> heard_as(
                ns,
                #[trigger] exchange::heard_ids(ns)[i],
            ),
    decreases ns.len(),
{
    if ns.len() > 0 {
        let front = ns.drop_last();
        let last = ns.len() - 1;
        let a = exchange::heard_ids(front);
        let b = exchange::heard_ids(ns);
        lemma_heard_ids(front);
        assert(ns.last().state.at_least(NeighborState::Init) == was_heard(ns[last]));
        assert forall|k: int| 0 <= k < ns.len() && was_heard(#[trigger] ns[k]) implies b.contains(
            ns[k].router_id,
        ) by {
            if k < last {
                assert(front[k] == ns[k]);
                let i = choose|i: int| 0 <= i < a.len() && a[i] == ns[k].router_id;
                assert(b[i] == a[i]);
            } else {
                assert(b[b.len() - 1] == ns[k].router_id);
            }
        }
        assert forall|i: int| 0 <= i < b.len() implies heard_as(ns, #[trigger] b[i]) by {
            if i < a.len() {
                let k = choose|k: int|
                    0 <= k < front.len() && was_heard(#[trigger] front[k]) && front[k].router_id
                        == a[i];
                assert(ns[k] == front[k]);
            } else {
                assert(was_heard(ns[last]));
            }
        }
    }
}

/// A receiver that reads the octets of the Hello of an interface learns what the interface is: the
/// fields stand where the protocol puts them, each with the value of its own.
pub proof fn lemma_hello_read(f: interface::OspfInterfaceView)
    ensures
        ({
            let s = f.hello().bytes();
            &&& hello::HelloView::spec_parse(s) matches Ok(h) && speaks_for(h, f)
            &&& wire::u32_at(s, 0) == f.mask
            &&& wire::u16_at(s, 4) == f.hello_interval
            &&& s[7] == f.priority
            &&& wire::u32_at(s, 8) == f.dead_interval
            &&& wire::u32_at(s, 12) == f.dr
            &&& wire::u32_at(s, 16) == f.bdr
        }),
{
    let h = f.hello();
    h.lemma_roundtrip();
    lemma_heard_ids(f.neighbors);
    let s = h.bytes();
    packet_v3::lemma_be32s(h.neighbors);
    assert(s.len() >= 20);
}

/// The packet that goes out for an interface is read back as a Hello of ours, in the area of the
/// interface, that speaks for it.
pub proof fn lemma_hello_packet(me: u32, f: interface::OspfInterfaceView)
    requires
        f.hello().bytes().len() < 65000,
    ensures
        ({
            let p = packet::OspfPacketView::Hello(
                OspfHeader::fresh(OspfPacketType::Hello, me, f.area_id),
                f.hello(),
            );
            packet::OspfPacketView::spec_parse(p.bytes()) matches Ok(q) && (
            q matches packet::OspfPacketView::Hello(h, b) && h.router_id == me && h.area_id
                == f.area_id && speaks_for(b, f))
        }),
{
    let p = packet::OspfPacketView::Hello(
        OspfHeader::fresh(OspfPacketType::Hello, me, f.area_id),
        f.hello(),
    );
    lemma_heard_ids(f.neighbors);
    assert(p.body_bytes() == f.hello().bytes());
    assert(roundtrip::writable(p));
    roundtrip::lemma_packet_roundtrip(p);
    assert(roundtrip::received(p) matches packet::OspfPacketView::Hello(h, b) && b == f.hello());
}

/// Two interfaces that agree on the intervals: whoever hears the Hello of `f` on `g` knows the sender
/// as a neighbor with its address, its priority and the offices as the sender sees them. A router
/// that holds the office of designated router is thereby seen to declare itself, and is the only kind
/// of router that is.
pub proof fn lemma_hello_understood(
    f: interface::OspfInterfaceView,
    sender: u32,
    g: interface::OspfInterfaceView,
    me: u32,
    now: u64,
)
    requires
        f.hello_interval == g.hello_interval,
        f.dead_interval == g.dead_interval,
    ensures
        ({
            let h = hello::HelloView::spec_parse(f.hello().bytes())->Ok_0;
            let r = g.after_hello(me, f.address, sender, h, now);
            exists|j: int|
                0 <= j < r.neighbors.len() && (#[trigger] r.neighbors[j]).router_id == sender
                    && r.neighbors[j].address == f.address && r.neighbors[j].priority == f.priority
                    && r.neighbors[j].dr == f.dr && r.neighbors[j].bdr == f.bdr
                    && r.neighbors[j].last_heard == now
        }),
        forall|k: int|
            0 <= k < f.neighbors.len() && (#[trigger] f.neighbors[k]).router_id == me && was_heard(
                f.neighbors[k],
            ) ==> {
                let h = hello::HelloView::spec_parse(f.hello().bytes())->Ok_0;
                let r = g.after_hello(me, f.address, sender, h, now);
                exists|j: int|
                    0 <= j < r.neighbors.len() && (#[trigger] r.neighbors[j]).router_id == sender
                        && r.neighbors[j].state != NeighborState::Down && r.neighbors[j].state
                        != NeighborState::Attempt && r.neighbors[j].state != NeighborState::Init
            },
{
    lemma_hello_read(f);
    let h = hello::HelloView::spec_parse(f.hello().bytes())->Ok_0;
    exchange_laws::lemma_hello_heard(g, me, f.address, sender, h, now);
    let r = g.after_hello(me, f.address, sender, h, now);
    interface::lemma_neighbor_pos(r.neighbors, sender, 0);
    let j = interface::neighbor_pos(r.neighbors, sender, 0)->0;
    assert(r.neighbors[j].router_id == sender);
}

/// Whether the Hello that is due is the one of the interface at position `k`.
pub open spec fn is_due_hello(
    x: daemon::DueHelloView,
    f: interface::OspfInterfaceView,
    k: int,
    me: u32,
) -> bool {
    &&& x.interface == k
    &&& x.sw_if_index == f.sw_if_index
    &&& x.src_addr == f.address
    &&& x.data == packet::OspfPacketView::Hello(
        OspfHeader::fresh(OspfPacketType::Hello, me, f.area_id),
        f.hello(),
    ).bytes()
    &&& f.network_type != NetworkType::NonBroadcast ==> x.destinations.len() == 1
        && x.destinations[0] == 0xe0000005
    &&& f.network_type == NetworkType::NonBroadcast ==> x.destinations.len()
        == f.static_neighbors.len() && forall|i: int|
        0 <= i < f.static_neighbors.len() ==> #[trigger] x.destinations[i]
            == f.static_neighbors[i].address
}

/// Whether the interface has to send a Hello: it is up, not passive, and its time has come.
pub open spec fn owes_hello(f: interface::OspfInterfaceView, now: u64) -> bool {
    f.state != InterfaceState::Down && !f.passive && now >= f.next_hello
}

/// Every interface that owes a Hello sends one, to all routers of its network or to each configured
/// neighbor of a network without broadcasts; no other does.
pub proof fn lemma_due_hellos(is: Seq<interface::OspfInterfaceView>, me: u32, now: u64)
    requires
        is.len() <= usize::MAX,
    ensures
        forall|k: int|
            0 <= k < is.len() && owes_hello(#[trigger] is[k], now) ==> exists|q: int|
                0 <= q < daemon::due_hellos(is, me, now).len() && is_due_hello(
                    #[trigger] daemon::due_hellos(is, me, now)[q],
                    is[k],
                    k,
                    me,
                ),
        forall|q: int|
            0 <= q < daemon::due_hellos(is, me, now).len() ==> exists|k: int|
                0 <= k < is.len() && owes_hello(#[trigger] is[k], now) && is_due_hello(
                    #[trigger] daemon::due_hellos(is, me, now)[q],
                    is[k],
                    k,
                    me,
                ),
    decreases is.len(),
{
    if is.len() > 0 {
        let front = is.drop_last();
        let last = is.len() - 1;
        let a = daemon::due_hellos(front, me, now);
        let b = daemon::due_hellos(is, me, now);
        lemma_due_hellos(front, me, now);
        if owes_hello(is[last], now) {
            assert(is_due_hello(b[a.len() as int], is[last], last, me));
        }
        assert forall|k: int| 0 <= k < is.len() && owes_hello(#[trigger] is[k], now) implies exists|
            q: int,
        |
            0 <= q < b.len() && is_due_hello(#[trigger] b[q], is[k], k, me) by {
            if k < last {
                assert(front[k] == is[k]);
                let q = choose|q: int|
                    0 <= q < a.len() && is_due_hello(#[trigger] a[q], front[k], k, me);
                assert(b[q] == a[q]);
            }
        }
        assert forall|q: int| 0 <= q < b.len() implies exists|k: int|
            0 <= k < is.len() && owes_hello(#[trigger] is[k], now) && is_due_hello(
                #[trigger] b[q],
                is[k],
                k,
                me,
            ) by {
            if q < a.len() {
                assert(b[q] == a[q]);
                let k = choose|k: int|
                    0 <= k < front.len() && owes_hello(#[trigger] front[k], now) && is_due_hello(
                        a[q],
                        front[k],
                        k,
                        me,
                    );
                assert(is[k] == front[k]);
            } else {
                assert(owes_hello(is[last], now));
            }
        }
    }
}

/// Whether a neighbor stands for election: the two hear each other, and it has a priority.
pub open spec fn stands(n: neighbor::NeighborView) -> bool {
    n.priority > 0 && was_heard(n) && n.state != NeighborState::Init
}

proof fn lemma_candidates(ns: Seq<neighbor::NeighborView>)
    ensures
        forall|k: int|
            0 <= k < ns.len() && stands(#[trigger] ns[k]) ==> interface::candidates(ns).contains(
                Candidate {
                    id: ns[k].address,
                    router_id: ns[k].router_id,
                    priority: ns[k].priority,
                    declared_dr: ns[k].dr,
                    declared_bdr: ns[k].bdr,
                },
            ),
    decreases ns.len(),
{
    if ns.len() > 0 {
        let front = ns.drop_last();
        let last = ns.len() - 1;
        let a = interface::candidates(front);
        let b = interface::candidates(ns);
        lemma_candidates(front);
        assert forall|k: int| 0 <= k < ns.len() && stands(#[trigger] ns[k]) implies b.contains(
            Candidate {
                id: ns[k].address,
                router_id: ns[k].router_id,
                priority: ns[k].priority,
                declared_dr: ns[k].dr,
                declared_bdr: ns[k].bdr,
            },
        ) by {
            let c = Candidate {
                id: ns[k].address,
                router_id: ns[k].router_id,
                priority: ns[k].priority,
                declared_dr: ns[k].dr,
                declared_bdr: ns[k].bdr,
            };
            if k < last {
                assert(front[k] == ns[k]);
                let i = choose|i: int| 0 <= i < a.len() && a[i] == c;
                assert(b[i] == a[i]);
            } else {
                assert(ns.last().state.at_least(NeighborState::TwoWay));
                assert(b[b.len() - 1] == c);
            }
        }
    }
}

/// Whether the first candidate outranks the second: by priority, then by router id.
pub open spec fn outranks(a: Candidate, b: Candidate) -> bool {
    a.priority > b.priority || a.priority == b.priority && a.router_id >= b.router_id
}

/// In an election the designated router is the candidate of the highest priority, then the highest
/// router id, among those that declare themselves; without such a candidate it is the backup that the
/// others would choose.
pub proof fn lemma_designated(cs: Seq<Candidate>, k: int)
    requires
        0 <= k < cs.len(),
        cs[k].declared_dr == cs[k].id,
    ensures
        exists|d: int|
            0 <= d < cs.len() && (#[trigger] cs[d]).declared_dr == cs[d].id && outranks(
                cs[d],
                cs[k],
            ) && election::elect(cs).0 == cs[d].id,
{
    election::lemma_best(cs, Office::Designated);
    assert(cs[k].eligible(Office::Designated));
    let b = election::best(cs, Office::Designated)->0;
    let d = choose|d: int| 0 <= d < cs.len() && cs[d] == b;
    assert(cs[d].declared_dr == cs[d].id);
}

/// The backup is chosen among the candidates that do not declare themselves designated router; one
/// that declares itself backup is preferred, then priority and router id decide. Where no candidate
/// declares itself designated router, the one so chosen takes that office.
pub proof fn lemma_backup(cs: Seq<Candidate>, k: int)
    requires
        0 <= k < cs.len(),
        cs[k].declared_dr != cs[k].id,
        cs[k].id != 0,
    ensures
        exists|b: int|
            0 <= b < cs.len() && (#[trigger] cs[b]).declared_dr != cs[b].id && (if cs[k].declared_bdr
                == cs[k].id {
                cs[b].declared_bdr == cs[b].id && outranks(cs[b], cs[k])
            } else {
                cs[b].declared_bdr == cs[b].id || outranks(cs[b], cs[k])
            }) && (if exists|d: int| 0 <= d < cs.len() && (#[trigger] cs[d]).declared_dr == cs[d].id {
                election::elect(cs).1 == cs[b].id || election::elect(cs).0 == cs[b].id
            } else {
                election::elect(cs).0 == cs[b].id
            }),
{
    election::lemma_best(cs, Office::Backup);
    election::lemma_best(cs, Office::Designated);
    assert(cs[k].eligible(Office::Backup));
    let x = election::best(cs, Office::Backup)->0;
    let b = choose|b: int| 0 <= b < cs.len() && cs[b] == x;
    assert(cs[b].eligible(Office::Backup));
    assert(cs[k].rank(Office::Backup) <= cs[b].rank(Office::Backup));
    if exists|d: int| 0 <= d < cs.len() && (#[trigger] cs[d]).declared_dr == cs[d].id {
        let d = choose|d: int| 0 <= d < cs.len() && (#[trigger] cs[d]).declared_dr == cs[d].id;
        assert(cs[d].eligible(Office::Designated));
    } else {
        assert(election::best(cs, Office::Designated) is None) by {
            if let Some(y) = election::best(cs, Office::Designated) {
                let d = choose|d: int| 0 <= d < cs.len() && cs[d] == y;
                assert(cs[d].declared_dr == cs[d].id);
            }
        }
    }
    assert(cs[b].declared_dr != cs[b].id);
}

/// After an election we are designated router exactly if the office is ours, backup exactly if only
/// that office is ours, and else neither; whoever stands for election among our neighbors counts.
pub proof fn lemma_role(f: interface::OspfInterfaceView, now: u64)
    ensures
        ({
            let r = f.elected(now);
            &&& r.state == InterfaceState::DR <==> r.dr == f.address
            &&& r.state == InterfaceState::Backup <==> r.dr != f.address && r.bdr == f.address
            &&& r.state == InterfaceState::DROther <==> r.dr != f.address && r.bdr != f.address
            &&& (r.dr, r.bdr) == election::outcome(
                interface::candidates(f.neighbors),
                f.address,
                f.router_id,
                f.priority,
                f.dr,
                f.bdr,
            )
        }),
        forall|k: int|
            0 <= k < f.neighbors.len() && stands(#[trigger] f.neighbors[k])
                ==> interface::candidates(f.neighbors).contains(
                Candidate {
                    id: f.neighbors[k].address,
                    router_id: f.neighbors[k].router_id,
                    priority: f.neighbors[k].priority,
                    declared_dr: f.neighbors[k].dr,
                    declared_bdr: f.neighbors[k].bdr,
                },
            ),
{
    lemma_candidates(f.neighbors);
}

} // verus!
