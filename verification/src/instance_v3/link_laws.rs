//! Laws of the LSAs with which we describe ourselves: which links, routers and prefixes they list.
use vstd::prelude::*;

use crate::instance_v3;
use crate::instance_v3::externals;
use crate::instance_v3::originate;
use crate::instance_v3::{
    InstanceV3View, InterfaceV3View, NetworkTypeV3, NeighborStateV3, NeighborV3View,
};
use crate::lsdb_v3::LsaKeyV3;
use crate::packet_v3::lsa;
use crate::packet_v3::lsa::RouterLinkV3;
use crate::packet_v3::roundtrip;
use crate::packet_v3::{LsaV3Type, Options};
use crate::wire;

verus! {

/// Whether the network elects a designated router.
pub open spec fn is_shared(f: InterfaceV3View) -> bool {
    f.network_type == NetworkTypeV3::Broadcast || f.network_type == NetworkTypeV3::NonBroadcast
}

/// Whether a Full neighbor among `ns` has these ids.
pub open spec fn is_full(ns: Seq<NeighborV3View>, router_id: u32, interface_id: u32) -> bool {
    exists|j: int|
        0 <= j < ns.len() && (#[trigger] ns[j]).state == NeighborStateV3::Full && ns[j].router_id
            == router_id && ns[j].interface_id == interface_id
}

/// Whether `l` describes a link of `f` as the router `me` sees it: a point-to-point link to a Full
/// neighbor, or, on a network that elects, one link to its designated router, known either because
/// we are that router or because it is a Full neighbor.
pub open spec fn is_link_of(l: RouterLinkV3, f: InterfaceV3View, me: u32) -> bool {
    &&& l.metric == 1
    &&& l.interface_id == f.interface_id
    &&& if is_shared(f) {
        &&& l.link_type == 2
        &&& f.dr != 0
        &&& l.neighbor_router_id == f.dr
        &&& if f.dr == me {
            l.neighbor_interface_id == f.interface_id
        } else {
            is_full(f.neighbors, f.dr, l.neighbor_interface_id)
        }
    } else {
        &&& l.link_type == 1
        &&& is_full(f.neighbors, l.neighbor_router_id, l.neighbor_interface_id)
    }
}

proof fn lemma_adjacency_links(f: InterfaceV3View, ns: Seq<NeighborV3View>, l: RouterLinkV3)
    ensures
        originate::adjacency_links(f, ns).contains(l) <==> l.metric == 1 && l.link_type == 1
            && l.interface_id == f.interface_id && is_full(
            ns,
            l.neighbor_router_id,
            l.neighbor_interface_id,
        ),
    decreases ns.len(),
{
    let all = originate::adjacency_links(f, ns);
    if ns.len() > 0 {
        let front = ns.drop_last();
        lemma_adjacency_links(f, front, l);
        let before = originate::adjacency_links(f, front);
        let a = l.neighbor_router_id;
        let b = l.neighbor_interface_id;
        if is_full(front, a, b) {
            let j = choose|j: int|
                0 <= j < front.len() && (#[trigger] front[j]).state == NeighborStateV3::Full
                    && front[j].router_id == a && front[j].interface_id == b;
            assert(ns[j] == front[j]);
        }
        if is_full(ns, a, b) {
            let j = choose|j: int|
                0 <= j < ns.len() && (#[trigger] ns[j]).state == NeighborStateV3::Full
                    && ns[j].router_id == a && ns[j].interface_id == b;
            if j < front.len() {
                assert(front[j] == ns[j]);
            }
        }
        if before.contains(l) {
            let k = before.index_of(l);
            assert(all[k] == l);
        }
        if all.contains(l) {
            let k = all.index_of(l);
            if k < before.len() {
                assert(before[k] == l);
            }
        }
        if ns.last().state == NeighborStateV3::Full {
            assert(all.last() == all[before.len() as int]);
            assert(ns[ns.len() - 1] == ns.last());
            if is_full(ns, a, b) && !is_full(front, a, b) && l.metric == 1 && l.link_type == 1
                && l.interface_id == f.interface_id {
                assert(all[before.len() as int] == l);
            }
        }
    }
}

/// An interface contributes to our Router-LSA exactly its links.
pub proof fn lemma_links(f: InterfaceV3View, me: u32, l: RouterLinkV3)
    requires
        f.wf(),
    ensures
        originate::links_of(f, me).contains(l) <==> is_link_of(l, f, me),
{
    let ls = originate::links_of(f, me);
    if !is_shared(f) {
        lemma_adjacency_links(f, f.neighbors, l);
    } else {
        instance_v3::lemma_neighbor_pos(f.neighbors, f.dr, 0);
        if is_full(f.neighbors, f.dr, l.neighbor_interface_id) {
            let j = choose|j: int|
                0 <= j < f.neighbors.len() && (#[trigger] f.neighbors[j]).state
                    == NeighborStateV3::Full && f.neighbors[j].router_id == f.dr
                    && f.neighbors[j].interface_id == l.neighbor_interface_id;
            assert(f.neighbors[j].router_id == f.dr);
        }
        if ls.len() > 0 {
            assert(ls.len() == 1);
            assert(ls.contains(l) <==> ls[0] == l);
        }
    }
}

/// Whether `l` describes a link of one of the interfaces `ifs` that lie in `area`.
pub open spec fn is_area_link(ifs: Seq<InterfaceV3View>, area: u32, me: u32, l: RouterLinkV3) -> bool {
    exists|i: int|
        0 <= i < ifs.len() && (#[trigger] ifs[i]).area_id == area && is_link_of(l, ifs[i], me)
}

/// Our Router-LSA for an area lists exactly the links of the interfaces in that area.
pub proof fn lemma_area_links(ifs: Seq<InterfaceV3View>, area: u32, me: u32, l: RouterLinkV3)
    requires
        forall|i: int| 0 <= i < ifs.len() ==> (#[trigger] ifs[i]).wf(),
    ensures
        originate::area_links(ifs, area, me).contains(l) <==> is_area_link(ifs, area, me, l),
    decreases ifs.len(),
{
    let all = originate::area_links(ifs, area, me);
    if ifs.len() > 0 {
        let front = ifs.drop_last();
        assert forall|i: int| 0 <= i < front.len() implies (#[trigger] front[i]).wf() by {
            assert(front[i] == ifs[i]);
        }
        lemma_area_links(front, area, me, l);
        assert(ifs[ifs.len() - 1] == ifs.last());
        lemma_links(ifs.last(), me, l);
        let before = originate::area_links(front, area, me);
        let more = originate::links_of(ifs.last(), me);
        if is_area_link(front, area, me, l) {
            let i = choose|i: int|
                0 <= i < front.len() && (#[trigger] front[i]).area_id == area && is_link_of(
                    l,
                    front[i],
                    me,
                );
            assert(ifs[i] == front[i]);
        }
        if is_area_link(ifs, area, me, l) {
            let i = choose|i: int|
                0 <= i < ifs.len() && (#[trigger] ifs[i]).area_id == area && is_link_of(l, ifs[i], me);
            if i < front.len() {
                assert(front[i] == ifs[i]);
            }
        }
        if before.contains(l) {
            let k = before.index_of(l);
            assert(all[k] == l);
        }
        if ifs.last().area_id == area {
            if more.contains(l) {
                let k = more.index_of(l);
                assert(all[before.len() + k] == l);
            }
            if all.contains(l) {
                let k = all.index_of(l);
                if k < before.len() {
                    assert(before[k] == l);
                } else {
                    assert(more[k - before.len()] == l);
                }
            }
        }
    }
}

/// The key of an LSA of ours in an area.
pub open spec fn own_key(me: InstanceV3View, ls_type: LsaV3Type, id: u32, area: u32) -> LsaKeyV3 {
    LsaKeyV3 { area: Some(area), ls_type, link_state_id: id, advertising_router: me.router_id }
}

proof fn lemma_same_full(a: Seq<NeighborV3View>, b: Seq<NeighborV3View>, r: u32, i: u32)
    requires
        a.len() == b.len(),
        forall|j: int|
            0 <= j < a.len() ==> originate::same_neighbor(#[trigger] a[j], b[j]),
    ensures
        is_full(a, r, i) == is_full(b, r, i),
{
    if is_full(a, r, i) {
        let j = choose|j: int|
            0 <= j < a.len() && (#[trigger] a[j]).state == NeighborStateV3::Full && a[j].router_id
                == r && a[j].interface_id == i;
        assert(originate::same_neighbor(a[j], b[j]));
        assert(b[j].state == NeighborStateV3::Full);
    }
    if is_full(b, r, i) {
        let j = choose|j: int|
            0 <= j < b.len() && (#[trigger] b[j]).state == NeighborStateV3::Full && b[j].router_id
                == r && b[j].interface_id == i;
        assert(originate::same_neighbor(a[j], b[j]));
    }
}

proof fn lemma_same_links(a: InterfaceV3View, b: InterfaceV3View, me: u32, l: RouterLinkV3)
    requires
        originate::same_interface(a, b),
    ensures
        is_link_of(l, a, me) == is_link_of(l, b, me),
        b.wf() ==> a.wf(),
{
    lemma_same_full(a.neighbors, b.neighbors, l.neighbor_router_id, l.neighbor_interface_id);
    lemma_same_full(a.neighbors, b.neighbors, a.dr, l.neighbor_interface_id);
    if b.wf() {
        assert forall|i: int, j: int| 0 <= i < j < a.neighbors.len() implies (
        #[trigger] a.neighbors[i]).router_id != (#[trigger] a.neighbors[j]).router_id by {
            assert(originate::same_neighbor(a.neighbors[i], b.neighbors[i]));
            assert(originate::same_neighbor(a.neighbors[j], b.neighbors[j]));
        }
    }
}

proof fn lemma_same_area_links(
    a: Seq<InterfaceV3View>,
    b: Seq<InterfaceV3View>,
    area: u32,
    me: u32,
    l: RouterLinkV3,
)
    requires
        originate::same_topology(a, b),
        forall|i: int| 0 <= i < b.len() ==> (#[trigger] b[i]).wf(),
    ensures
        is_area_link(a, area, me, l) == is_area_link(b, area, me, l),
        forall|i: int| 0 <= i < a.len() ==> (#[trigger] a[i]).wf(),
{
    assert forall|i: int| 0 <= i < a.len() implies (#[trigger] a[i]).wf() by {
        assert(b[i].wf());
        lemma_same_links(a[i], b[i], me, l);
    }
    if is_area_link(a, area, me, l) {
        let i = choose|i: int|
            0 <= i < a.len() && (#[trigger] a[i]).area_id == area && is_link_of(l, a[i], me);
        lemma_same_links(a[i], b[i], me, l);
        assert(b[i].area_id == area);
    }
    if is_area_link(b, area, me, l) {
        let i = choose|i: int|
            0 <= i < b.len() && (#[trigger] b[i]).area_id == area && is_link_of(l, b[i], me);
        assert(originate::same_interface(a[i], b[i]));
        lemma_same_links(a[i], b[i], me, l);
    }
}

proof fn lemma_same(ifs: Seq<InterfaceV3View>)
    ensures
        originate::same_topology(ifs, ifs),
{
}

proof fn lemma_router_frame(me: InstanceV3View, areas: Seq<u32>, flags: u8)
    ensures
        originate::same_topology(me.router_lsas(areas, flags).interfaces, me.interfaces),
        me.router_lsas(areas, flags).router_id == me.router_id,
    decreases areas.len(),
{
    lemma_same(me.interfaces);
    if areas.len() > 0 {
        let before = me.router_lsas(areas.drop_last(), flags);
        lemma_router_frame(me, areas.drop_last(), flags);
        let body = lsa::router_lsa_bytes(
            flags,
            Options::spec_standard().0,
            originate::area_links(before.interfaces, areas.last(), me.router_id),
        );
        let area = Some(areas.last());
        originate::lemma_originated_topology(before, LsaV3Type::Router, 0, body, area);
        externals::lemma_originated(
            before,
            LsaV3Type::Router,
            0,
            body,
            area,
            own_key(me, LsaV3Type::Router, 0, areas.last()),
        );
        originate::lemma_topology_chain(
            before.originated(LsaV3Type::Router, 0, body, area).interfaces,
            before.interfaces,
            me.interfaces,
        );
    }
}

/// Whether `body` is that of the Router-LSA of `me` for `area`: the V6, E and R options, and the
/// links of the interfaces in the area.
pub open spec fn is_router_body(me: InstanceV3View, area: u32, body: Seq<u8>) -> bool {
    &&& body.len() >= 4
    &&& wire::u24_at(body, 1) == 0x13
    &&& forall|l: RouterLinkV3| #[trigger]
        lsa::links_from(body).contains(l) <==> is_area_link(me.interfaces, area, me.router_id, l)
}

proof fn lemma_router_body(me: InstanceV3View, before: InstanceV3View, flags: u8, area: u32)
    requires
        originate::same_topology(before.interfaces, me.interfaces),
        forall|i: int| 0 <= i < me.interfaces.len() ==> (#[trigger] me.interfaces[i]).wf(),
    ensures
        ({
            let body = lsa::router_lsa_bytes(
                flags,
                Options::spec_standard().0,
                originate::area_links(before.interfaces, area, me.router_id),
            );
            body[0] == flags && is_router_body(me, area, body)
        }),
{
    let ls = originate::area_links(before.interfaces, area, me.router_id);
    roundtrip::lemma_router_roundtrip(flags, Options::spec_standard().0, ls);
    let body = lsa::router_lsa_bytes(flags, Options::spec_standard().0, ls);
    assert forall|l: RouterLinkV3| #[trigger]
        lsa::links_from(body).contains(l) <==> is_area_link(
            me.interfaces,
            area,
            me.router_id,
            l,
        ) by {
        lemma_same_area_links(before.interfaces, me.interfaces, area, me.router_id, l);
        lemma_area_links(before.interfaces, area, me.router_id, l);
    }
}

proof fn lemma_router_lsa(me: InstanceV3View, areas: Seq<u32>, flags: u8, area: u32)
    requires
        areas.contains(area),
        forall|i: int| 0 <= i < me.interfaces.len() ==> (#[trigger] me.interfaces[i]).wf(),
    ensures
        ({
            let e = me.router_lsas(areas, flags).lsdb.lookup(own_key(me, LsaV3Type::Router, 0, area));
            &&& e is Some
            &&& e->0.header.ls_age == 0
            &&& e->0.body()[0] == flags
            &&& is_router_body(me, area, e->0.body())
        }),
    decreases areas.len(),
{
    let before = me.router_lsas(areas.drop_last(), flags);
    lemma_router_frame(me, areas.drop_last(), flags);
    let body = lsa::router_lsa_bytes(
        flags,
        Options::spec_standard().0,
        originate::area_links(before.interfaces, areas.last(), me.router_id),
    );
    externals::lemma_originated(
        before,
        LsaV3Type::Router,
        0,
        body,
        Some(areas.last()),
        own_key(me, LsaV3Type::Router, 0, area),
    );
    if areas.last() == area {
        lemma_router_body(me, before, flags, area);
    } else {
        let k = areas.index_of(area);
        assert(areas.drop_last()[k] == area);
        lemma_router_lsa(me, areas.drop_last(), flags, area);
    }
}

/// The area of each interface is among the areas.
pub proof fn lemma_area_listed(ifs: Seq<InterfaceV3View>, i: int)
    requires
        0 <= i < ifs.len(),
    ensures
        instance_v3::areas_of(ifs).contains(ifs[i].area_id),
    decreases ifs.len(),
{
    let front = instance_v3::areas_of(ifs.drop_last());
    let all = instance_v3::areas_of(ifs);
    if i < ifs.len() - 1 {
        lemma_area_listed(ifs.drop_last(), i);
        let k = front.index_of(ifs[i].area_id);
        assert(all[k] == ifs[i].area_id);
    } else if !front.contains(ifs.last().area_id) {
        assert(all[front.len() as int] == ifs[i].area_id);
    }
}

/// After an origination the database holds, for the area of each interface, a new Router-LSA of
/// ours that lists exactly the links in the area. Its flag bits say whether we are an area border
/// router and whether we are an AS boundary router.
pub proof fn lemma_router_lsas(me: InstanceV3View, i: int)
    requires
        me.wf(),
        0 <= i < me.interfaces.len(),
    ensures
        ({
            let area = me.interfaces[i].area_id;
            let e = me.with_router_lsas().lsdb.lookup(own_key(me, LsaV3Type::Router, 0, area));
            &&& e is Some
            &&& e->0.header.ls_age == 0
            &&& e->0.body()[0] < 4
            &&& e->0.body()[0] % 2 == 1 <==> me.is_abr()
            &&& e->0.body()[0] / 2 == 1 <==> me.asbr
            &&& is_router_body(me, area, e->0.body())
        }),
{
    lemma_area_listed(me.interfaces, i);
    lemma_router_lsa(
        me,
        instance_v3::areas_of(me.interfaces),
        originate::router_flags(me.is_abr(), me.asbr),
        me.interfaces[i].area_id,
    );
}

} // verus!
