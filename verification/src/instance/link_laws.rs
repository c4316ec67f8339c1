//! What holds of the LSAs by which we describe our own place in the network.
use vstd::prelude::*;

use crate::area;
use crate::instance::flooding;
use crate::instance::originate;
use crate::instance::summary_laws;
use crate::instance::OspfInstanceView;
use crate::packet::lsa;
use crate::packet::lsa::{LsaType, RouterLink, RouterLinkType};
use crate::proto::interface;
use crate::proto::interface::{InterfaceState, NetworkType};
use crate::proto::neighbor;
use crate::proto::neighbor::NeighborState;
use crate::proto::spf_laws;

verus! {

/// Whether a neighbor with that router id is Full.
pub open spec fn is_full(f: interface::OspfInterfaceView, id: u32) -> bool {
    exists|k: int|
        0 <= k < f.neighbors.len() && (#[trigger] f.neighbors[k]).state == NeighborState::Full
            && f.neighbors[k].router_id == id
}

/// Whether the link is one by which our Router-LSA describes the interface. On a network between two
/// points or from a point to many, each Full neighbor is linked by its router id, from our address, at
/// the cost of the interface. On a network with an election, a Full neighbor makes it a transit
/// network: it is linked by the address of its designated router. The network itself is a stub
/// between two points, and wherever no neighbor is Full; a network from a point to many stands for
/// our own address.
pub open spec fn is_link_of(l: RouterLink, f: interface::OspfInterfaceView) -> bool {
    let elects = f.network_type == NetworkType::Broadcast || f.network_type
        == NetworkType::NonBroadcast;
    match l.link_type {
        RouterLinkType::PointToPoint => !elects && is_full(f, l.link_id) && l.link_data == f.address
            && l.metric == f.cost,
        RouterLinkType::TransitNetwork => elects && (exists|k: int|
            0 <= k < f.neighbors.len() && (#[trigger] f.neighbors[k]).state == NeighborState::Full)
            && l.link_id == f.dr && l.link_data == f.address && l.metric == f.cost,
        RouterLinkType::StubNetwork => if f.network_type == NetworkType::PointToMultipoint {
            l.link_id == f.address && l.link_data == 0xffffffff && l.metric == 0
        } else {
            &&& f.network_type == NetworkType::PointToPoint || forall|k: int|
                0 <= k < f.neighbors.len() ==> (#[trigger] f.neighbors[k]).state
                    != NeighborState::Full
            &&& l.link_id == f.address & f.mask
            &&& l.link_data == f.mask
            &&& l.metric == f.cost
        },
        _ => false,
    }
}

proof fn lemma_peer_links(f: interface::OspfInterfaceView, ns: Seq<neighbor::NeighborView>)
    ensures
        forall|q: int|
            0 <= q < originate::peer_links(f, ns).len() ==> {
                let l = #[trigger] originate::peer_links(f, ns)[q];
                &&& l.link_type == RouterLinkType::PointToPoint
                &&& l.link_data == f.address
                &&& l.metric == f.cost
                &&& l.num_tos == 0
                &&& full_in(ns, l.link_id)
            },
        forall|k: int|
            0 <= k < ns.len() && (#[trigger] ns[k]).state == NeighborState::Full
                ==> originate::peer_links(f, ns).contains(
                RouterLink {
                    link_id: ns[k].router_id,
                    link_data: f.address,
                    link_type: RouterLinkType::PointToPoint,
                    num_tos: 0,
                    metric: f.cost,
                },
            ),
    decreases ns.len(),
{
    if ns.len() > 0 {
        let front = ns.drop_last();
        let last = ns.len() - 1;
        let a = originate::peer_links(f, front);
        let b = originate::peer_links(f, ns);
        lemma_peer_links(f, front);
        assert forall|q: int| 0 <= q < b.len() implies {
            let l = #[trigger] b[q];
            &&& l.link_type == RouterLinkType::PointToPoint
            &&& l.link_data == f.address
            &&& l.metric == f.cost
            &&& l.num_tos == 0
            &&& full_in(ns, l.link_id)
        } by {
            if q < a.len() {
                assert(b[q] == a[q]);
                let k = choose|k: int|
                    0 <= k < front.len() && (#[trigger] front[k]).state == NeighborState::Full
                        && front[k].router_id == a[q].link_id;
                assert(ns[k] == front[k]);
            } else {
                assert(ns[last].router_id == b[q].link_id);
            }
        }
        assert forall|k: int|
            0 <= k < ns.len() && (#[trigger] ns[k]).state == NeighborState::Full implies b.contains(
            RouterLink {
                link_id: ns[k].router_id,
                link_data: f.address,
                link_type: RouterLinkType::PointToPoint,
                num_tos: 0,
                metric: f.cost,
            },
        ) by {
            let l = RouterLink {
                link_id: ns[k].router_id,
                link_data: f.address,
                link_type: RouterLinkType::PointToPoint,
                num_tos: 0,
                metric: f.cost,
            };
            if k < last {
                assert(front[k] == ns[k]);
                let q = choose|q: int| 0 <= q < a.len() && a[q] == l;
                assert(b[q] == l);
            } else {
                assert(b[b.len() - 1] == l);
            }
        }
    }
}

/// Whether one of the neighbors has that router id and is Full.
pub open spec fn full_in(ns: Seq<neighbor::NeighborView>, id: u32) -> bool {
    exists|k: int|
        0 <= k < ns.len() && (#[trigger] ns[k]).state == NeighborState::Full && ns[k].router_id
            == id
}

/// The links of an interface in our Router-LSA are exactly those that describe it.
pub proof fn lemma_links(f: interface::OspfInterfaceView, l: RouterLink)
    ensures
        l.num_tos == 0 && is_link_of(l, f) <==> f.router_links().contains(l),
{
    let all = f.router_links();
    let peers = originate::peer_links(f, f.neighbors);
    lemma_peer_links(f, f.neighbors);
    assert(f.has_full() == exists|k: int|
        0 <= k < f.neighbors.len() && (#[trigger] f.neighbors[k]).state == NeighborState::Full);
    let elects = f.network_type == NetworkType::Broadcast || f.network_type
        == NetworkType::NonBroadcast;
    if all.contains(l) {
        let q = choose|q: int| 0 <= q < all.len() && all[q] == l;
        if !elects && q < peers.len() {
            assert(peers[q] == l);
            assert(full_in(f.neighbors, l.link_id));
            assert(is_full(f, l.link_id));
        }
    }
    if l.num_tos == 0 && is_link_of(l, f) {
        if elects {
            assert(all[0] == l);
        } else if l.link_type == RouterLinkType::PointToPoint {
            let k = choose|k: int|
                0 <= k < f.neighbors.len() && (#[trigger] f.neighbors[k]).state
                    == NeighborState::Full && f.neighbors[k].router_id == l.link_id;
            assert(peers.contains(l));
            let q = choose|q: int| 0 <= q < peers.len() && peers[q] == l;
            assert(all[q] == l);
        } else {
            assert(all[peers.len() as int] == l);
        }
    }
}

/// On a network with an election and a Full neighbor, the one link of the interface is a transit link
/// that names the address of the designated router.
pub proof fn lemma_transit_link(f: interface::OspfInterfaceView, k: int)
    requires
        f.network_type == NetworkType::Broadcast || f.network_type == NetworkType::NonBroadcast,
        0 <= k < f.neighbors.len(),
        f.neighbors[k].state == NeighborState::Full,
    ensures
        f.router_links().len() == 1,
        f.router_links()[0].link_type == RouterLinkType::TransitNetwork,
        f.router_links()[0].link_id == f.dr,
        f.router_links()[0].link_data == f.address,
        f.router_links()[0].metric == f.cost,
{
    assert(f.neighbors[k].state == NeighborState::Full);
    assert(f.has_full());
}

/// Whether the link describes one of the interfaces that are up in the area.
pub open spec fn is_area_link(is: Seq<interface::OspfInterfaceView>, id: u32, l: RouterLink) -> bool {
    exists|i: int|
        0 <= i < is.len() && (#[trigger] is[i]).area_id == id && is[i].state
            != InterfaceState::Down && is_link_of(l, is[i])
}

/// The links of our Router-LSA in an area are exactly those that describe the interfaces that are up
/// there.
pub proof fn lemma_area_links(is: Seq<interface::OspfInterfaceView>, id: u32, l: RouterLink)
    ensures
        l.num_tos == 0 && is_area_link(is, id, l) <==> originate::area_links(is, id).contains(l),
    decreases is.len(),
{
    if is.len() > 0 {
        let front = is.drop_last();
        let last = is.len() - 1;
        let f = is[last];
        let a = originate::area_links(front, id);
        let all = originate::area_links(is, id);
        lemma_area_links(front, id, l);
        lemma_links(f, l);
        if all.contains(l) {
            let q = choose|q: int| 0 <= q < all.len() && all[q] == l;
            if q < a.len() {
                assert(a[q] == l);
                let i = choose|i: int|
                    0 <= i < front.len() && (#[trigger] front[i]).area_id == id && front[i].state
                        != InterfaceState::Down && is_link_of(l, front[i]);
                assert(is[i] == front[i]);
            } else {
                assert(f.router_links()[q - a.len()] == l);
                assert(is_link_of(l, is[last]));
            }
        }
        if l.num_tos == 0 && is_area_link(is, id, l) {
            let i = choose|i: int|
                0 <= i < is.len() && (#[trigger] is[i]).area_id == id && is[i].state
                    != InterfaceState::Down && is_link_of(l, is[i]);
            if i < last {
                assert(front[i] == is[i]);
                let q = choose|q: int| 0 <= q < a.len() && a[q] == l;
                assert(all[q] == l);
            } else {
                let ls = f.router_links();
                let q = choose|q: int| 0 <= q < ls.len() && ls[q] == l;
                assert(all[a.len() + q] == l);
            }
        }
    } else {
        assert(!originate::area_links(is, id).contains(l));
    }
}

/// Whether the LSA is our Router-LSA for the area: fresh, under our own id, with the links of the
/// interfaces that are up in the area and the marks of a border and a boundary router.
pub open spec fn is_router_lsa(x: (u32, lsa::LsaView), me: OspfInstanceView, id: u32) -> bool {
    &&& x.0 == id
    &&& x.1.header.ls_type == LsaType::Router
    &&& x.1.header.link_state_id == me.router_id
    &&& x.1.header.advertising_router == me.router_id
    &&& x.1.header.ls_age == 0
    &&& x.1.body matches lsa::LsaBodyView::Router { flags, links } && links.len() > 0 && (forall|
        l: RouterLink,
    | l.num_tos == 0 && is_area_link(me.interfaces, id, l) <==> #[trigger] links.contains(l))
        && flags == (if me.border() {
        1int
    } else {
        0
    }) + (if me.redistribute.len() > 0 {
        2int
    } else {
        0
    })
}

proof fn lemma_next_router_lsa(me: OspfInstanceView, a: area::AreaView)
    requires
        originate::area_links(me.interfaces, a.area_id).len() > 0,
    ensures
        is_router_lsa((a.area_id, me.next_router_lsa(a)), me, a.area_id),
{
    let ls = originate::area_links(me.interfaces, a.area_id);
    let l = me.next_router_lsa(a);
    assert(l.body matches lsa::LsaBodyView::Router { flags, links } && links =~= ls) by {
        assert forall|i: int| 0 <= i < ls.len() implies (#[trigger] ls[i]).num_tos == 0 by {
            assert(ls.contains(ls[i]));
            lemma_area_links(me.interfaces, a.area_id, ls[i]);
        }
    }
    assert forall|x: RouterLink|
        x.num_tos == 0 && is_area_link(me.interfaces, a.area_id, x) <==> #[trigger] ls.contains(x) by {
        lemma_area_links(me.interfaces, a.area_id, x);
    }
}

/// In every area in which an interface has a link, our Router-LSA is issued; in no other.
pub proof fn lemma_router_lsas(me: OspfInstanceView, s: Seq<area::AreaView>)
    ensures
        forall|k: int, l: RouterLink|
            0 <= k < s.len() && l.num_tos == 0 && #[trigger] is_area_link(
                me.interfaces,
                (#[trigger] s[k]).area_id,
                l,
            ) ==> issued(me.router_lsas(s), me, s[k].area_id),
        forall|q: int|
            0 <= q < me.router_lsas(s).len() ==> is_router_lsa(
                #[trigger] me.router_lsas(s)[q],
                me,
                me.router_lsas(s)[q].0,
            ),
    decreases s.len(),
{
    if s.len() > 0 {
        let front = s.drop_last();
        let last = s.len() - 1;
        let a = me.router_lsas(front);
        let b = me.router_lsas(s);
        lemma_router_lsas(me, front);
        if originate::area_links(me.interfaces, s[last].area_id).len() > 0 {
            lemma_next_router_lsa(me, s[last]);
            assert(is_router_lsa(b[a.len() as int], me, s[last].area_id));
        }
        assert forall|k: int, l: RouterLink|
            0 <= k < s.len() && l.num_tos == 0 && #[trigger] is_area_link(
                me.interfaces,
                (#[trigger] s[k]).area_id,
                l,
            ) implies issued(b, me, s[k].area_id) by {
            if k < last {
                assert(front[k] == s[k]);
                let q = choose|q: int|
                    0 <= q < a.len() && is_router_lsa(#[trigger] a[q], me, s[k].area_id);
                assert(b[q] == a[q]);
            } else {
                lemma_area_links(me.interfaces, s[k].area_id, l);
                let ls = originate::area_links(me.interfaces, s[k].area_id);
                assert(ls.contains(l));
            }
        }
        assert forall|q: int| 0 <= q < b.len() implies is_router_lsa(
            #[trigger] b[q],
            me,
            b[q].0,
        ) by {
            if q < a.len() {
                assert(b[q] == a[q]);
            }
        }
    }
}

/// Whether the list holds our Router-LSA for the area.
pub open spec fn issued(out: Seq<(u32, lsa::LsaView)>, me: OspfInstanceView, id: u32) -> bool {
    exists|q: int| 0 <= q < out.len() && is_router_lsa(#[trigger] out[q], me, id)
}

/// Whether the LSA describes the network of an interface on which we are designated router: under our
/// address there, with its mask, and with every Full neighbor and ourselves as the attached routers.
pub open spec fn is_network_lsa(
    x: (u32, lsa::LsaView),
    me: u32,
    f: interface::OspfInterfaceView,
) -> bool {
    &&& x.0 == f.area_id
    &&& x.1.header.ls_type == LsaType::Network
    &&& x.1.header.link_state_id == f.address
    &&& x.1.header.advertising_router == me
    &&& x.1.header.ls_age == 0
    &&& x.1.body matches lsa::LsaBodyView::Network { network_mask, attached_routers } && network_mask
        == f.mask && forall|id: u32|
        #[trigger] attached_routers.contains(id) <==> id == me || is_full(f, id)
}

/// Whether we have to describe the network of the interface: we are designated router of a broadcast
/// network, and a neighbor is Full.
pub open spec fn owes_network(f: interface::OspfInterfaceView) -> bool {
    &&& f.state == InterfaceState::DR
    &&& f.network_type == NetworkType::Broadcast
    &&& exists|k: int|
        0 <= k < f.neighbors.len() && (#[trigger] f.neighbors[k]).state == NeighborState::Full
}

proof fn lemma_placed(s: Seq<u32>, x: u32, y: u32)
    ensures
        originate::placed(s, x).contains(y) <==> y == x || s.contains(y),
    decreases s.len(),
{
    let t = originate::placed(s, x);
    if s.len() == 0 || s.last() <= x {
        assert(t == s.push(x));
        if s.contains(y) {
            let i = choose|i: int| 0 <= i < s.len() && s[i] == y;
            assert(t[i] == y);
        }
        assert(t[s.len() as int] == x);
        if t.contains(y) && y != x {
            let i = choose|i: int| 0 <= i < t.len() && t[i] == y;
            assert(s[i] == y);
        }
    } else {
        let rest = s.drop_last();
        lemma_placed(rest, x, y);
        let u = originate::placed(rest, x);
        assert(t == u.push(s.last()));
        assert(t[u.len() as int] == s.last());
        if t.contains(y) {
            let i = choose|i: int| 0 <= i < t.len() && t[i] == y;
            if i < u.len() {
                assert(u[i] == y);
                if y != x {
                    let j = choose|j: int| 0 <= j < rest.len() && rest[j] == y;
                    assert(s[j] == y);
                }
            } else {
                assert(s[s.len() - 1] == y);
            }
        }
        if s.contains(y) {
            let i = choose|i: int| 0 <= i < s.len() && s[i] == y;
            if i < rest.len() {
                assert(rest[i] == y);
                let j = choose|j: int| 0 <= j < u.len() && u[j] == y;
                assert(t[j] == y);
            }
        }
        if y == x {
            let j = choose|j: int| 0 <= j < u.len() && u[j] == y;
            assert(t[j] == y);
        }
    }
}

proof fn lemma_sorted_holds(s: Seq<u32>, y: u32)
    ensures
        originate::sorted(s).contains(y) <==> s.contains(y),
    decreases s.len(),
{
    if s.len() > 0 {
        lemma_sorted_holds(s.drop_last(), y);
        lemma_placed(originate::sorted(s.drop_last()), s.last(), y);
        if s.contains(y) {
            let i = choose|i: int| 0 <= i < s.len() && s[i] == y;
            if i < s.len() - 1 {
                assert(s.drop_last()[i] == y);
            }
        }
        if s.drop_last().contains(y) {
            let i = choose|i: int| 0 <= i < s.drop_last().len() && s.drop_last()[i] == y;
            assert(s[i] == y);
        }
        assert(s[s.len() - 1] == s.last());
    }
}

proof fn lemma_full_ids(ns: Seq<neighbor::NeighborView>, id: u32)
    ensures
        originate::full_ids(ns).contains(id) <==> full_in(ns, id),
    decreases ns.len(),
{
    let all = originate::full_ids(ns);
    if ns.len() > 0 {
        let front = ns.drop_last();
        let a = originate::full_ids(front);
        lemma_full_ids(front, id);
        if all.contains(id) {
            let i = choose|i: int| 0 <= i < all.len() && all[i] == id;
            if i < a.len() {
                assert(a[i] == id);
                let k = choose|k: int|
                    0 <= k < front.len() && (#[trigger] front[k]).state == NeighborState::Full
                        && front[k].router_id == id;
                assert(ns[k] == front[k]);
            } else {
                assert(ns[ns.len() - 1].router_id == id);
            }
        }
        if full_in(ns, id) {
            let k = choose|k: int|
                0 <= k < ns.len() && (#[trigger] ns[k]).state == NeighborState::Full
                    && ns[k].router_id == id;
            if k < ns.len() - 1 {
                assert(front[k] == ns[k]);
                let i = choose|i: int| 0 <= i < a.len() && a[i] == id;
                assert(all[i] == id);
            } else {
                assert(all[all.len() - 1] == id);
            }
        }
    } else {
        assert(!all.contains(id));
    }
}

proof fn lemma_attached(me: OspfInstanceView, f: interface::OspfInterfaceView, id: u32)
    ensures
        me.attached(f).contains(id) <==> id == me.router_id || is_full(f, id),
{
    let s = originate::full_ids(f.neighbors).push(me.router_id);
    lemma_sorted_holds(s, id);
    lemma_full_ids(f.neighbors, id);
    assert(full_in(f.neighbors, id) == is_full(f, id));
    if originate::full_ids(f.neighbors).contains(id) {
        let i = choose|i: int|
            0 <= i < originate::full_ids(f.neighbors).len() && originate::full_ids(f.neighbors)[i]
                == id;
        assert(s[i] == id);
    }
    assert(s[s.len() - 1] == me.router_id);
    if s.contains(id) && id != me.router_id {
        let i = choose|i: int| 0 <= i < s.len() && s[i] == id;
        assert(originate::full_ids(f.neighbors)[i] == id);
    }
}

proof fn lemma_network_frame(me: OspfInstanceView, is: Seq<interface::OspfInterfaceView>, now: u64)
    ensures
        summary_laws::same_frame(me.network_lsas(is, now).0, me),
    decreases is.len(),
{
    if is.len() > 0 {
        lemma_network_frame(me, is.drop_last(), now);
        let front = me.network_lsas(is.drop_last(), now).0;
        flooding::lemma_area_pos(front.areas, is.last().area_id, 0);
    }
}

/// Whether the list describes the network of the interface.
pub open spec fn network_told(
    out: Seq<(u32, lsa::LsaView)>,
    me: u32,
    f: interface::OspfInterfaceView,
) -> bool {
    exists|q: int| 0 <= q < out.len() && is_network_lsa(#[trigger] out[q], me, f)
}

/// Every network on which we are designated router is described, in its area.
pub proof fn lemma_network_lsas(
    me: OspfInstanceView,
    is: Seq<interface::OspfInterfaceView>,
    now: u64,
    k: int,
)
    requires
        0 <= k < is.len(),
        owes_network(is[k]),
        summary_laws::has_area(me, is[k].area_id),
    ensures
        network_told(me.network_lsas(is, now).1, me.router_id, is[k]),
    decreases is.len(),
{
    let rest = is.drop_last();
    let last = is.len() - 1;
    let front = me.network_lsas(rest, now);
    let all = me.network_lsas(is, now);
    if k < last {
        assert(rest[k] == is[k]);
        lemma_network_lsas(me, rest, now, k);
        let q = choose|q: int|
            0 <= q < front.1.len() && is_network_lsa(#[trigger] front.1[q], me.router_id, is[k]);
        assert(all.1[q] == front.1[q]);
    } else {
        let f = is[k];
        lemma_network_frame(me, rest, now);
        flooding::lemma_area_pos(front.0.areas, f.area_id, 0);
        let at = choose|a: int|
            0 <= a < me.areas.len() && (#[trigger] me.areas[a]).area_id == f.area_id;
        assert(front.0.areas[at].area_id == me.areas[at].area_id);
        assert(f.has_full());
        assert(f.serves_network());
        let x = all.1[front.1.len() as int];
        assert forall|id: u32|
            #[trigger] me.attached(f).contains(id) <==> id == me.router_id || is_full(f, id) by {
            lemma_attached(me, f, id);
        }
        assert(is_network_lsa(x, me.router_id, f));
    }
}

/// Every Network-LSA that we issue describes a network on which we are designated router.
pub proof fn lemma_network_source(
    me: OspfInstanceView,
    is: Seq<interface::OspfInterfaceView>,
    now: u64,
    q: int,
) -> (k: int)
    requires
        0 <= q < me.network_lsas(is, now).1.len(),
    ensures
        0 <= k < is.len(),
        owes_network(is[k]),
        is_network_lsa(me.network_lsas(is, now).1[q], me.router_id, is[k]),
    decreases is.len(),
{
    let rest = is.drop_last();
    let last = is.len() - 1;
    let front = me.network_lsas(rest, now);
    let all = me.network_lsas(is, now);
    if q < front.1.len() {
        assert(all.1[q] == front.1[q]);
        lemma_network_source(me, rest, now, q)
    } else {
        let f = is[last];
        assert forall|id: u32|
            #[trigger] me.attached(f).contains(id) <==> id == me.router_id || is_full(f, id) by {
            lemma_attached(me, f, id);
        }
        last
    }
}

/// Two routers on one network that agree on who is designated router: the Router-LSA of the first and
/// the Network-LSA of the designated router name each other, so that paths lead from the first router
/// over the network at the cost of its interface.
pub proof fn lemma_network_joined(
    a: OspfInstanceView,
    i: int,
    b: u32,
    g: interface::OspfInterfaceView,
    ls: Seq<lsa::LsaView>,
    x: int,
    y: int,
)
    requires
        0 <= i < a.interfaces.len(),
        a.interfaces[i].state != InterfaceState::Down,
        a.interfaces[i].network_type == NetworkType::Broadcast || a.interfaces[i].network_type
            == NetworkType::NonBroadcast,
        is_full(a.interfaces[i], b),
        a.interfaces[i].dr == g.address,
        is_full(g, a.router_id),
        0 <= x < ls.len(),
        0 <= y < ls.len(),
        is_router_lsa((a.interfaces[i].area_id, ls[x]), a, a.interfaces[i].area_id),
        is_network_lsa((g.area_id, ls[y]), b, g),
    ensures
        spf_laws::joined(ls, x, y, a.interfaces[i].cost as int),
{
    let f = a.interfaces[i];
    let l = RouterLink {
        link_id: f.dr,
        link_data: f.address,
        link_type: RouterLinkType::TransitNetwork,
        num_tos: 0,
        metric: f.cost,
    };
    assert(is_link_of(l, f));
    assert(is_area_link(a.interfaces, f.area_id, l));
    let links = ls[x].body->links;
    assert(links.contains(l));
    let k = choose|k: int| 0 <= k < links.len() && links[k] == l;
    assert(links[k].link_type == RouterLinkType::TransitNetwork);
    assert(ls[y].body->attached_routers.contains(a.router_id));
}

} // verus!
