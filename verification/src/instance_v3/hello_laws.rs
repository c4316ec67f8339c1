//! What a Hello tells its receiver of the interface that sent it, and what follows from an election.
use vstd::prelude::*;

use crate::election;
use crate::election::Candidate;
use crate::instance_v3;
use crate::instance_v3::exchange_laws;
use crate::instance_v3::{
    InterfaceStateV3, InterfaceV3View, NeighborStateV3, NeighborV3View, NetworkTypeV3,
};
use crate::packet_v3;
use crate::packet_v3::hello::HelloV3View;
use crate::wire;

verus! {

/// Whether the Hello speaks for the interface: it carries the id, intervals and priority of the
/// interface, names the holder of each office in the field of that office, and lists the neighbors.
pub open spec fn speaks_for(h: HelloV3View, f: InterfaceV3View) -> bool {
    &&& h.interface_id == f.interface_id
    &&& h.router_priority == f.priority
    &&& h.hello_interval == f.hello_interval
    &&& h.router_dead_interval == f.dead_interval
    &&& h.designated_router_id == f.dr
    &&& h.backup_designated_router_id == f.bdr
    &&& h.neighbors.len() == f.neighbors.len()
    &&& forall|k: int|
        0 <= k < f.neighbors.len() ==> #[trigger] h.neighbors[k] == f.neighbors[k].router_id
}

/// A receiver that reads the octets of the Hello of an interface learns what the interface is: the
/// fields stand where the protocol puts them, each with the value of its own.
pub proof fn lemma_hello_read(f: InterfaceV3View)
    ensures
        ({
            let s = f.hello().bytes();
            &&& HelloV3View::spec_parse(s) matches Ok(h) && speaks_for(h, f)
            &&& wire::u32_at(s, 0) == f.interface_id
            &&& s[4] == f.priority
            &&& wire::u16_at(s, 8) == f.hello_interval
            &&& wire::u16_at(s, 10) == f.dead_interval
            &&& wire::u32_at(s, 12) == f.dr
            &&& wire::u32_at(s, 16) == f.bdr
        }),
{
    let h = f.hello();
    h.lemma_roundtrip();
    packet_v3::lemma_be32s(h.neighbors);
    assert(h.bytes().len() >= 20);
}

/// Two interfaces that agree on the intervals: whoever hears the Hello of `f` on `g` knows the sender
/// as a neighbor with its address, its interface id, its priority and the offices as the sender sees
/// them, and hears it both ways exactly if the sender lists us.
pub proof fn lemma_hello_understood(
    f: InterfaceV3View,
    sender: u32,
    g: InterfaceV3View,
    me: u32,
    now: u64,
)
    requires
        g.state != InterfaceStateV3::Down,
        f.hello_interval == g.hello_interval,
        f.dead_interval == g.dead_interval,
    ensures
        ({
            let h = HelloV3View::spec_parse(f.hello().bytes())->Ok_0;
            let r = g.hello_received(me, sender, f.io.link_local, h, now);
            exchange_laws::neighbor_of(r, sender) matches Some(n) && n.router_id == sender
                && n.link_local == f.io.link_local && n.interface_id == f.interface_id && n.priority
                == f.priority && n.dr == f.dr && n.bdr == f.bdr && n.last_hello == now && ((exists|
                k: int,
            |
                0 <= k < f.neighbors.len() && (#[trigger] f.neighbors[k]).router_id == me)
                ==> n.state != NeighborStateV3::Down && n.state != NeighborStateV3::Init) && ((
            forall|k: int|
                0 <= k < f.neighbors.len() ==> (#[trigger] f.neighbors[k]).router_id != me)
                ==> n.state == NeighborStateV3::Init)
        }),
{
    lemma_hello_read(f);
    let h = HelloV3View::spec_parse(f.hello().bytes())->Ok_0;
    exchange_laws::lemma_hello_heard(g, me, sender, f.io.link_local, h, now, sender);
    if exists|k: int| 0 <= k < f.neighbors.len() && (#[trigger] f.neighbors[k]).router_id == me {
        let k = choose|k: int|
            0 <= k < f.neighbors.len() && (#[trigger] f.neighbors[k]).router_id == me;
        assert(h.neighbors[k] == me);
    }
    if h.neighbors.contains(me) {
        let k = choose|k: int| 0 <= k < h.neighbors.len() && h.neighbors[k] == me;
        assert(f.neighbors[k].router_id == me);
    }
}

/// An interface that is up sends its Hello whenever the interval has passed: from its link-local
/// address, to the group of all routers or to each configured neighbor of a network without
/// broadcasts.
pub proof fn lemma_hello_packets(f: InterfaceV3View, me: u32, now: u64)
    ensures
        ({
            let ps = f.hello_packets(me, now);
            let passed = if now >= f.last_hello_sent {
                now - f.last_hello_sent
            } else {
                0
            };
            &&& f.state == InterfaceStateV3::Down || passed < f.hello_interval * 1000 ==> ps.len()
                == 0
            &&& f.state != InterfaceStateV3::Down && passed >= f.hello_interval * 1000 ==> (if f.network_type
                == NetworkTypeV3::NonBroadcast {
                ps.len() == f.static_neighbors.len() && forall|i: int|
                    0 <= i < ps.len() ==> (#[trigger] ps[i]).dst_addr
                        == f.static_neighbors[i].link_local
            } else {
                ps.len() == 1 && ps[0].dst_addr == 0xff02_0000_0000_0000_0000_0000_0000_0005
            })
            &&& forall|i: int|
                0 <= i < ps.len() ==> (#[trigger] ps[i]).sw_if_index == f.io.sw_if_index
                    && ps[i].src_addr == f.io.link_local && ps[i].data == f.hello_bytes(me)
        }),
{
}

/// Whether a neighbor stands for election: the two hear each other, and it has a priority.
pub open spec fn stands(n: NeighborV3View) -> bool {
    n.priority > 0 && n.state != NeighborStateV3::Down && n.state != NeighborStateV3::Init
}

proof fn lemma_candidates(ns: Seq<NeighborV3View>)
    ensures
        forall|k: int|
            0 <= k < ns.len() && stands(#[trigger] ns[k]) ==> instance_v3::candidates(ns).contains(
                Candidate {
                    id: ns[k].router_id,
                    router_id: ns[k].router_id,
                    priority: ns[k].priority,
                    declared_dr: ns[k].dr,
                    declared_bdr: ns[k].bdr,
                },
            ),
    decreases ns.len(),
{
    if ns.len() > 0 {
        let front = ns.drop_last();
        let last = ns.len() - 1;
        let a = instance_v3::candidates(front);
        let b = instance_v3::candidates(ns);
        lemma_candidates(front);
        assert forall|k: int| 0 <= k < ns.len() && stands(#[trigger] ns[k]) implies b.contains(
            Candidate {
                id: ns[k].router_id,
                router_id: ns[k].router_id,
                priority: ns[k].priority,
                declared_dr: ns[k].dr,
                declared_bdr: ns[k].bdr,
            },
        ) by {
            let c = Candidate {
                id: ns[k].router_id,
                router_id: ns[k].router_id,
                priority: ns[k].priority,
                declared_dr: ns[k].dr,
                declared_bdr: ns[k].bdr,
            };
            if k < last {
                assert(front[k] == ns[k]);
                let i = choose|i: int| 0 <= i < a.len() && a[i] == c;
                assert(b[i] == a[i]);
            } else {
                assert(b[b.len() - 1] == c);
            }
        }
    }
}

/// After an election we are designated router exactly if the office is ours, backup exactly if only
/// that office is ours, and else neither; whoever stands for election among our neighbors counts.
pub proof fn lemma_role(f: InterfaceV3View, me: u32)
    ensures
        ({
            let r = f.elected(me);
            &&& r.state == InterfaceStateV3::DR <==> r.dr == me
            &&& r.state == InterfaceStateV3::Backup <==> r.dr != me && r.bdr == me
            &&& r.state == InterfaceStateV3::DROther <==> r.dr != me && r.bdr != me
            &&& (r.dr, r.bdr) == election::outcome(
                instance_v3::candidates(f.neighbors),
                me,
                me,
                f.priority,
                f.dr,
                f.bdr,
            )
        }),
        forall|k: int|
            0 <= k < f.neighbors.len() && stands(#[trigger] f.neighbors[k])
                ==> instance_v3::candidates(f.neighbors).contains(
                Candidate {
                    id: f.neighbors[k].router_id,
                    router_id: f.neighbors[k].router_id,
                    priority: f.neighbors[k].priority,
                    declared_dr: f.neighbors[k].dr,
                    declared_bdr: f.neighbors[k].bdr,
                },
            ),
{
    lemma_candidates(f.neighbors);
}

} // verus!
