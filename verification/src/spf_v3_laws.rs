//! What holds of computed OSPFv3 routes, said of the LSAs alone.
use vstd::prelude::*;

use crate::lsdb_v3::LsaEntryV3View;
use crate::packet_v3::lsa;
use crate::packet_v3::lsa::{InterAreaPrefixLsaV3, RouterLinkV3};
use crate::packet_v3::prefix::Ospfv3Prefix;
use crate::packet_v3::LsaV3Type;
use crate::proto::paths;
use crate::proto::paths::{Edge, Label};
use crate::proto::spf;
use crate::proto::spf::OspfRouteKind;
use crate::proto::spf_laws;
use crate::spf_v3;
use crate::spf_v3::{NodeView, Reach, SpfNeighborV3, SpfRouteV3View};
use crate::wire;

verus! {

/// Whether a link has the type and leads to the router, to the given interface of it and at the given
/// metric where these are asked for.
pub open spec fn has_link(
    links: Seq<RouterLinkV3>,
    link_type: u8,
    id: u32,
    interface: Option<u32>,
    metric: Option<int>,
) -> bool {
    exists|k: int|
        0 <= k < links.len() && (#[trigger] links[k]).link_type == link_type
            && links[k].neighbor_router_id == id && (interface matches Some(i)
            ==> links[k].neighbor_interface_id == i) && (metric matches Some(m) ==> links[k].metric
            == m)
}

/// Whether some Router-LSA of the router has such a link.
pub open spec fn router_has(
    ns: Seq<NodeView>,
    router: u32,
    link_type: u8,
    id: u32,
    interface: Option<u32>,
    metric: Option<int>,
) -> bool {
    exists|k: int|
        0 <= k < ns.len() && ((#[trigger] ns[k]) matches NodeView::Router(r, links) && r == router
            && has_link(links, link_type, id, interface, metric))
}

/// Whether the vertices are joined at that cost, and both ends say so: two routers by links of the
/// first type to each other, at the metric of the nearer one; a router to a network by a link of the
/// second type to the interface of its designated router, at the metric of the link, if the network
/// lists the router; and a network, at no cost, to a router that it lists and that has such a link.
pub open spec fn joined(ns: Seq<NodeView>, i: int, j: int, cost: int) -> bool {
    &&& 0 <= i < ns.len()
    &&& 0 <= j < ns.len()
    &&& match (ns[i], ns[j]) {
        (NodeView::Router(a, _), NodeView::Router(b, _)) => router_has(
            ns,
            a,
            1,
            b,
            None,
            Some(cost),
        ) && router_has(ns, b, 1, a, None, None),
        (NodeView::Router(a, _), NodeView::Network(dr, iid, attached)) => router_has(
            ns,
            a,
            2,
            dr,
            Some(iid),
            Some(cost),
        ) && attached.contains(a),
        (NodeView::Network(dr, iid, attached), NodeView::Router(b, _)) => cost == 0
            && attached.contains(b) && router_has(ns, b, 2, dr, Some(iid), None),
        _ => false,
    }
}

/// Whether the vertex at position `j` is the first that stands for its router or network.
pub open spec fn is_vertex(ns: Seq<NodeView>, j: int) -> bool {
    &&& 0 <= j < ns.len()
    &&& match ns[j] {
        NodeView::Router(id, _) => forall|i: int|
            0 <= i < j ==> ((#[trigger] ns[i]) matches NodeView::Router(r, _) ==> r != id),
        NodeView::Network(dr, iid, _) => forall|i: int|
            0 <= i < j ==> ((#[trigger] ns[i]) matches NodeView::Network(r, x, _) ==> r != dr || x
                != iid),
        NodeView::Other => false,
    }
}

proof fn lemma_router_pos(ns: Seq<NodeView>, id: u32, from: int)
    requires
        0 <= from,
    ensures
        match spf_v3::router_pos(ns, id, from) {
            Some(t) => from <= t < ns.len() && (ns[t] matches NodeView::Router(r, _) && r == id)
                && forall|i: int|
                from <= i < t ==> ((#[trigger] ns[i]) matches NodeView::Router(r, _) ==> r != id),
            None => forall|i: int|
                from <= i < ns.len() ==> ((#[trigger] ns[i]) matches NodeView::Router(r, _) ==> r
                    != id),
        },
    decreases ns.len() - from,
{
    if from < ns.len() {
        lemma_router_pos(ns, id, from + 1);
    }
}

proof fn lemma_network_pos(ns: Seq<NodeView>, dr: u32, id: u32, from: int)
    requires
        0 <= from,
    ensures
        match spf_v3::network_pos(ns, dr, id, from) {
            Some(t) => from <= t < ns.len() && (ns[t] matches NodeView::Network(r, x, _) && r == dr
                && x == id) && forall|i: int|
                from <= i < t ==> ((#[trigger] ns[i]) matches NodeView::Network(r, x, _) ==> r != dr
                    || x != id),
            None => forall|i: int|
                from <= i < ns.len() ==> ((#[trigger] ns[i]) matches NodeView::Network(r, x, _) ==> r
                    != dr || x != id),
        },
    decreases ns.len() - from,
{
    if from < ns.len() {
        lemma_network_pos(ns, dr, id, from + 1);
    }
}

proof fn lemma_neighbor_pos(ps: Seq<SpfNeighborV3>, id: u32, from: int)
    requires
        0 <= from,
    ensures
        match spf_v3::neighbor_pos(ps, id, from) {
            Some(k) => from <= k < ps.len() && ps[k].router_id == id,
            None => forall|k: int| from <= k < ps.len() ==> (#[trigger] ps[k]).router_id != id,
        },
    decreases ps.len() - from,
{
    if from < ps.len() {
        lemma_neighbor_pos(ps, id, from + 1);
    }
}

/// Whether a mark stands for a neighbor with that router id.
pub open spec fn marks(ps: Seq<SpfNeighborV3>, mark: Option<u128>, id: u32) -> bool {
    match mark {
        Some(k) => k < ps.len() && ps[k as int].router_id == id,
        None => forall|k: int| 0 <= k < ps.len() ==> (#[trigger] ps[k]).router_id != id,
    }
}

/// Whether the edge is one between two vertices that are joined at its cost, and says through which
/// neighbor a path starts out.
pub open spec fn is_edge(ns: Seq<NodeView>, ps: Seq<SpfNeighborV3>, e: Edge) -> bool {
    &&& joined(ns, e.from as int, e.to as int, e.cost as int)
    &&& is_vertex(ns, e.to as int)
    &&& match (ns[e.from as int], ns[e.to as int]) {
        (NodeView::Router(_, _), NodeView::Router(b, _)) => e.address is None && (match e.first {
            Some(Label::Via(k, _)) => marks(ps, Some(k), b),
            Some(_) => false,
            None => marks(ps, None, b),
        }),
        (NodeView::Router(_, _), _) => e.address is None && e.first is Some && e.first->0 is Link,
        (_, NodeView::Router(b, _)) => e.first is None && marks(ps, e.address, b),
        _ => false,
    }
}

proof fn lemma_link_edge(
    ns: Seq<NodeView>,
    i: int,
    k: int,
    v: int,
    ps: Seq<SpfNeighborV3>,
)
    requires
        0 <= i < ns.len() <= usize::MAX,
        ps.len() <= usize::MAX,
        ns[i] is Router,
        0 <= k < ns[i]->Router_1.len(),
        spf_v3::router_pos(ns, ns[i]->Router_0, 0) == Some(v),
    ensures
        ({
            let id = ns[i]->Router_0;
            let l = ns[i]->Router_1[k];
            let o = spf_v3::link_edge(ns, v, id, l, ps);
            &&& o matches Some(e) ==> e.from == v && is_edge(ns, ps, e)
            &&& forall|j: int|
                #[trigger] is_vertex(ns, j) && joined(ns, v, j, l.metric as int) && leads(l, ns[j])
                    ==> (o matches Some(e) && e.to == j && e.cost == l.metric)
        }),
{
    let id = ns[i]->Router_0;
    let links = ns[i]->Router_1;
    let l = links[k];
    lemma_router_pos(ns, id, 0);
    lemma_router_pos(ns, l.neighbor_router_id, 0);
    lemma_network_pos(ns, l.neighbor_router_id, l.neighbor_interface_id, 0);
    lemma_neighbor_pos(ps, l.neighbor_router_id, 0);
    assert(has_link(
        links,
        l.link_type,
        l.neighbor_router_id,
        None,
        Some(l.metric as int),
    ));
    assert(has_link(
        links,
        l.link_type,
        l.neighbor_router_id,
        Some(l.neighbor_interface_id),
        Some(l.metric as int),
    ));
    assert(router_has(
        ns,
        id,
        l.link_type,
        l.neighbor_router_id,
        None,
        Some(l.metric as int),
    ));
    assert(router_has(
        ns,
        id,
        l.link_type,
        l.neighbor_router_id,
        Some(l.neighbor_interface_id),
        Some(l.metric as int),
    ));
    lemma_names(ns, l.neighbor_router_id, id, 0, 0);
}

/// Whether the link names the vertex.
pub open spec fn leads(l: RouterLinkV3, n: NodeView) -> bool {
    match n {
        NodeView::Router(b, _) => l.link_type == 1 && l.neighbor_router_id == b,
        NodeView::Network(dr, iid, _) => l.link_type == 2 && l.neighbor_router_id == dr
            && l.neighbor_interface_id == iid,
        NodeView::Other => false,
    }
}

proof fn lemma_names(ns: Seq<NodeView>, id: u32, other: u32, dr: u32, iid: u32)
    ensures
        spf_v3::names_router(ns, id, other) == router_has(ns, id, 1, other, None, None),
        spf_v3::names_network(ns, id, dr, iid) == router_has(ns, id, 2, dr, Some(iid), None),
{
    assert forall|links: Seq<RouterLinkV3>|
        #[trigger] spf_v3::joins_router(links, other) == has_link(links, 1, other, None, None) by {
        if spf_v3::joins_router(links, other) {
            let k = choose|k: int|
                0 <= k < links.len() && (#[trigger] links[k]).link_type == 1
                    && links[k].neighbor_router_id == other;
            assert(links[k].link_type == 1);
        }
    }
    assert forall|links: Seq<RouterLinkV3>|
        #[trigger] spf_v3::joins_network(links, dr, iid) == has_link(
        links,
        2,
        dr,
        Some(iid),
        None,
    ) by {
        if spf_v3::joins_network(links, dr, iid) {
            let k = choose|k: int|
                0 <= k < links.len() && (#[trigger] links[k]).link_type == 2
                    && links[k].neighbor_router_id == dr && links[k].neighbor_interface_id == iid;
            assert(links[k].link_type == 2);
        }
    }
    if spf_v3::names_router(ns, id, other) {
        let k = choose|k: int|
            0 <= k < ns.len() && ((#[trigger] ns[k]) matches NodeView::Router(r, links) && r == id
                && spf_v3::joins_router(links, other));
        assert(ns[k] is Router);
    }
    if router_has(ns, id, 1, other, None, None) {
        let k = choose|k: int|
            0 <= k < ns.len() && ((#[trigger] ns[k]) matches NodeView::Router(r, links) && r == id
                && has_link(links, 1, other, None, None));
        assert(spf_v3::joins_router(ns[k]->Router_1, other));
    }
    if spf_v3::names_network(ns, id, dr, iid) {
        let k = choose|k: int|
            0 <= k < ns.len() && ((#[trigger] ns[k]) matches NodeView::Router(r, links) && r == id
                && spf_v3::joins_network(links, dr, iid));
        assert(ns[k] is Router);
    }
    if router_has(ns, id, 2, dr, Some(iid), None) {
        let k = choose|k: int|
            0 <= k < ns.len() && ((#[trigger] ns[k]) matches NodeView::Router(r, links) && r == id
                && has_link(links, 2, dr, Some(iid), None));
        assert(spf_v3::joins_network(ns[k]->Router_1, dr, iid));
    }
}

proof fn lemma_attached_edge(ns: Seq<NodeView>, i: int, k: int, ps: Seq<SpfNeighborV3>)
    requires
        0 <= i < ns.len() <= usize::MAX,
        ps.len() <= usize::MAX,
        ns[i] is Network,
        0 <= k < ns[i]->Network_2.len(),
    ensures
        ({
            let id = ns[i]->Network_2[k];
            let o = spf_v3::attached_edge(ns, i, ns[i]->Network_0, ns[i]->Network_1, id, ps);
            &&& o matches Some(e) ==> e.from == i && is_edge(ns, ps, e)
            &&& forall|j: int|
                #[trigger] is_vertex(ns, j) && joined(ns, i, j, 0) && (
                ns[j] matches NodeView::Router(b, _) && b == id) ==> (o matches Some(e) && e.to == j
                    && e.cost == 0)
        }),
{
    let id = ns[i]->Network_2[k];
    lemma_router_pos(ns, id, 0);
    lemma_neighbor_pos(ps, id, 0);
    lemma_names(ns, id, 0, ns[i]->Network_0, ns[i]->Network_1);
    assert(ns[i]->Network_2.contains(id));
}

/// Whether the edges hold one from `i` to `j` at that cost.
pub open spec fn has_edge(es: Seq<Edge>, i: int, j: int, cost: int) -> bool {
    exists|q: int|
        0 <= q < es.len() && (#[trigger] es[q]).from == i && es[q].to == j && es[q].cost == cost
}

proof fn lemma_link_edges(ns: Seq<NodeView>, i: int, n: int, v: int, ps: Seq<SpfNeighborV3>)
    requires
        0 <= i < ns.len() <= usize::MAX,
        ps.len() <= usize::MAX,
        ns[i] is Router,
        0 <= n <= ns[i]->Router_1.len(),
        spf_v3::router_pos(ns, ns[i]->Router_0, 0) == Some(v),
    ensures
        ({
            let id = ns[i]->Router_0;
            let es = spf_v3::link_edges(ns, v, id, ns[i]->Router_1.take(n), ps);
            &&& forall|q: int| 0 <= q < es.len() ==> is_edge(ns, ps, #[trigger] es[q])
            &&& forall|k: int|
                0 <= k < n ==> (spf_v3::link_edge(
                    ns,
                    v,
                    id,
                    #[trigger] ns[i]->Router_1[k],
                    ps,
                ) matches Some(e) ==> es.contains(e))
        }),
    decreases n,
{
    let id = ns[i]->Router_0;
    let links = ns[i]->Router_1;
    if n > 0 {
        lemma_link_edges(ns, i, n - 1, v, ps);
        assert(links.take(n).drop_last() =~= links.take(n - 1));
        assert(links.take(n).last() == links[n - 1]);
        lemma_link_edge(ns, i, n - 1, v, ps);
        let a = spf_v3::link_edges(ns, v, id, links.take(n - 1), ps);
        let b = spf_v3::link_edges(ns, v, id, links.take(n), ps);
        assert forall|k: int| 0 <= k < n implies (spf_v3::link_edge(
            ns,
            v,
            id,
            #[trigger] links[k],
            ps,
        ) matches Some(e) ==> b.contains(e)) by {
            if let Some(e) = spf_v3::link_edge(ns, v, id, links[k], ps) {
                if k < n - 1 {
                    let x = choose|x: int| 0 <= x < a.len() && a[x] == e;
                    assert(b[x] == e);
                } else {
                    assert(b[b.len() - 1] == e);
                }
            }
        }
    }
}

proof fn lemma_attached_edges(ns: Seq<NodeView>, i: int, n: int, ps: Seq<SpfNeighborV3>)
    requires
        0 <= i < ns.len() <= usize::MAX,
        ps.len() <= usize::MAX,
        ns[i] is Network,
        0 <= n <= ns[i]->Network_2.len(),
    ensures
        ({
            let dr = ns[i]->Network_0;
            let iid = ns[i]->Network_1;
            let es = spf_v3::attached_edges(ns, i, dr, iid, ns[i]->Network_2.take(n), ps);
            &&& forall|q: int| 0 <= q < es.len() ==> is_edge(ns, ps, #[trigger] es[q])
            &&& forall|k: int|
                0 <= k < n ==> (spf_v3::attached_edge(
                    ns,
                    i,
                    dr,
                    iid,
                    #[trigger] ns[i]->Network_2[k],
                    ps,
                ) matches Some(e) ==> es.contains(e))
        }),
    decreases n,
{
    let dr = ns[i]->Network_0;
    let iid = ns[i]->Network_1;
    let ids = ns[i]->Network_2;
    if n > 0 {
        lemma_attached_edges(ns, i, n - 1, ps);
        assert(ids.take(n).drop_last() =~= ids.take(n - 1));
        assert(ids.take(n).last() == ids[n - 1]);
        lemma_attached_edge(ns, i, n - 1, ps);
        let a = spf_v3::attached_edges(ns, i, dr, iid, ids.take(n - 1), ps);
        let b = spf_v3::attached_edges(ns, i, dr, iid, ids.take(n), ps);
        assert forall|k: int| 0 <= k < n implies (spf_v3::attached_edge(
            ns,
            i,
            dr,
            iid,
            #[trigger] ids[k],
            ps,
        ) matches Some(e) ==> b.contains(e)) by {
            if let Some(e) = spf_v3::attached_edge(ns, i, dr, iid, ids[k], ps) {
                if k < n - 1 {
                    let x = choose|x: int| 0 <= x < a.len() && a[x] == e;
                    assert(b[x] == e);
                } else {
                    assert(b[b.len() - 1] == e);
                }
            }
        }
    }
}

proof fn lemma_edges_upto(ns: Seq<NodeView>, n: int, ps: Seq<SpfNeighborV3>)
    requires
        0 <= n <= ns.len() <= usize::MAX,
        ps.len() <= usize::MAX,
    ensures
        forall|q: int|
            0 <= q < spf_v3::edges_upto(ns, n, ps).len() ==> is_edge(
                ns,
                ps,
                #[trigger] spf_v3::edges_upto(ns, n, ps)[q],
            ),
    decreases n,
{
    if n > 0 {
        lemma_edges_upto(ns, n - 1, ps);
        let a = spf_v3::edges_upto(ns, n - 1, ps);
        let b = spf_v3::edges_at(ns, n - 1, ps);
        match ns[n - 1] {
            NodeView::Router(id, links) => {
                lemma_router_pos(ns, id, 0);
                let v = spf_v3::router_pos(ns, id, 0)->0;
                lemma_link_edges(ns, n - 1, links.len() as int, v, ps);
                assert(links.take(links.len() as int) =~= links);
            },
            NodeView::Network(dr, iid, ids) => {
                lemma_attached_edges(ns, n - 1, ids.len() as int, ps);
                assert(ids.take(ids.len() as int) =~= ids);
            },
            NodeView::Other => {},
        }
        assert(spf_v3::edges_upto(ns, n, ps) == a + b);
    }
}

proof fn lemma_edge_kept(
    ns: Seq<NodeView>,
    n: int,
    ps: Seq<SpfNeighborV3>,
    at: int,
    e: Edge,
)
    requires
        0 <= at < n,
        spf_v3::edges_at(ns, at, ps).contains(e),
    ensures
        spf_v3::edges_upto(ns, n, ps).contains(e),
    decreases n,
{
    let a = spf_v3::edges_upto(ns, n - 1, ps);
    let b = spf_v3::edges_at(ns, n - 1, ps);
    let all = spf_v3::edges_upto(ns, n, ps);
    assert(all == a + b);
    if at < n - 1 {
        lemma_edge_kept(ns, n - 1, ps, at, e);
        let x = choose|x: int| 0 <= x < a.len() && a[x] == e;
        assert(all[x] == e);
    } else {
        let x = choose|x: int| 0 <= x < b.len() && b[x] == e;
        assert(all[a.len() + x] == e);
    }
}

/// The graph holds an edge between every two vertices that are joined, and no other: routers and
/// networks are connected exactly where both ends say so, at the cost that the nearer router gives.
pub proof fn lemma_graph(ns: Seq<NodeView>, ps: Seq<SpfNeighborV3>, i: int, j: int, cost: int)
    requires
        ns.len() <= usize::MAX,
        ps.len() <= usize::MAX,
    ensures
        ({
            let es = spf_v3::edges_upto(ns, ns.len() as int, ps);
            &&& forall|q: int| 0 <= q < es.len() ==> is_edge(ns, ps, #[trigger] es[q])
            &&& is_vertex(ns, i) && is_vertex(ns, j) && joined(ns, i, j, cost) ==> has_edge(
                es,
                i,
                j,
                cost,
            )
        }),
{
    let n = ns.len() as int;
    let es = spf_v3::edges_upto(ns, n, ps);
    lemma_edges_upto(ns, n, ps);
    if is_vertex(ns, i) && is_vertex(ns, j) && joined(ns, i, j, cost) {
        match ns[i] {
            NodeView::Router(id, _) => {
                lemma_router_pos(ns, id, 0);
                assert(spf_v3::router_pos(ns, id, 0) == Some(i)) by {
                    let v = spf_v3::router_pos(ns, id, 0);
                    assert(ns[i] is Router);
                    if v is Some && v->0 < i {
                        assert(ns[v->0] is Router);
                    }
                }
                let (x, kind, to, iface) = match ns[j] {
                    NodeView::Router(b, _) => (0int, 1u8, b, None),
                    NodeView::Network(dr, iid, _) => (0int, 2u8, dr, Some(iid)),
                    NodeView::Other => (0int, 0u8, 0u32, None),
                };
                let at = choose|k: int|
                    0 <= k < ns.len() && ((#[trigger] ns[k]) matches NodeView::Router(r, links) && r
                        == id && has_link(links, kind, to, iface, Some(cost)));
                let links = ns[at]->Router_1;
                let k = choose|k: int|
                    0 <= k < links.len() && (#[trigger] links[k]).link_type == kind
                        && links[k].neighbor_router_id == to && (iface matches Some(y)
                        ==> links[k].neighbor_interface_id == y) && links[k].metric == cost;
                lemma_link_edge(ns, at, k, i, ps);
                assert(leads(links[k], ns[j]));
                let e = spf_v3::link_edge(ns, i, id, links[k], ps)->0;
                lemma_link_edges(ns, at, links.len() as int, i, ps);
                assert(links.take(links.len() as int) =~= links);
                assert(spf_v3::edges_at(ns, at, ps).contains(e));
                lemma_edge_kept(ns, n, ps, at, e);
                let q = choose|q: int| 0 <= q < es.len() && es[q] == e;
                assert(es[q].to == j);
            },
            NodeView::Network(dr, iid, ids) => {
                let id = ns[j]->Router_0;
                let k = choose|k: int| 0 <= k < ids.len() && ids[k] == id;
                lemma_attached_edge(ns, i, k, ps);
                let e = spf_v3::attached_edge(ns, i, dr, iid, ids[k], ps)->0;
                lemma_attached_edges(ns, i, ids.len() as int, ps);
                assert(ids.take(ids.len() as int) =~= ids);
                assert(spf_v3::edges_at(ns, i, ps).contains(e));
                lemma_edge_kept(ns, n, ps, i, e);
                let q = choose|q: int| 0 <= q < es.len() && es[q] == e;
                assert(es[q].to == j);
            },
            NodeView::Other => {},
        }
    }
}

/// How much a kind of route is preferred; less is better.
pub open spec fn rank(k: OspfRouteKind) -> int {
    match k {
        OspfRouteKind::Intra => 0,
        OspfRouteKind::Inter => 1,
        OspfRouteKind::External1 => 2,
        OspfRouteKind::External2 => 3,
    }
}

/// Whether the route is the one that the LSA announces, its router being at distance `d`: of an
/// Inter-Area-Prefix-LSA a route between areas, of an AS-external-LSA or NSSA-LSA one to the outside,
/// whose bit says whether the metric stands alone. Any other metric adds to the distance.
pub open spec fn announced(e: LsaEntryV3View, d: int, r: SpfRouteV3View) -> bool {
    let t = e.header.ls_type;
    &&& e.header.ls_age < 3600
    &&& InterAreaPrefixLsaV3::spec_parse(e.body()) matches Ok(b) && b.metric < 0xffffff && r.prefix
        == b.prefix.address && r.prefix_len == b.prefix.prefix_length && r.cost == (if r.kind
        == OspfRouteKind::External2 {
        b.metric as int
    } else {
        spf_laws::capped(d + b.metric)
    })
    &&& match r.kind {
        OspfRouteKind::Intra => false,
        OspfRouteKind::Inter => t == LsaV3Type::InterAreaPrefix,
        OspfRouteKind::External1 => (t == LsaV3Type::AsExternal || t == LsaV3Type::Nssa)
            && e.body()[0] & 4 == 0,
        OspfRouteKind::External2 => (t == LsaV3Type::AsExternal || t == LsaV3Type::Nssa)
            && e.body()[0] & 4 != 0,
    }
}

/// Whether a neighbor leads to the router, which is at distance `d`.
pub open spec fn router_at(ns: Seq<NodeView>, t: Reach, id: u32, d: int) -> bool {
    exists|v: int|
        #[trigger] is_vertex(ns, v) && (ns[v] matches NodeView::Router(r, _) && r == id)
            && t.hops[v].len() > 0 && (t.ds[v] matches Some(x) && x == d)
}

proof fn lemma_router_at(ns: Seq<NodeView>, t: Reach, id: u32, d: int)
    ensures
        router_at(ns, t, id, d) <==> (t.distance(spf_v3::router_pos(ns, id, 0)) matches Some(x) && x
            == d),
{
    lemma_router_pos(ns, id, 0);
    let p = spf_v3::router_pos(ns, id, 0);
    if router_at(ns, t, id, d) {
        let v = choose|v: int|
            #[trigger] is_vertex(ns, v) && (ns[v] matches NodeView::Router(r, _) && r == id)
                && t.hops[v].len() > 0 && (t.ds[v] matches Some(x) && x == d);
        assert(p is Some) by {
            assert(ns[v] is Router);
        }
        if p->0 < v {
            assert(ns[p->0] is Router);
        }
        assert(p->0 == v);
    }
    if let Some(x) = t.distance(p) {
        assert(is_vertex(ns, p->0));
    }
}

/// Whether the two routes lead to the same prefix.
pub open spec fn same_prefix(a: SpfRouteV3View, b: SpfRouteV3View) -> bool {
    a.prefix == b.prefix && a.prefix_len == b.prefix_len
}

/// Whether two routes differ in nothing but their next hops.
pub open spec fn same_route(a: SpfRouteV3View, b: SpfRouteV3View) -> bool {
    same_prefix(a, b) && a.cost == b.cost && a.kind == b.kind
}

proof fn lemma_more(rs: Seq<SpfRouteV3View>, r: SpfRouteV3View)
    ensures
        ({
            let t = spf_v3::with_route(rs, r);
            &&& stands(t, r.prefix, r.prefix_len, r.cost as int)
            &&& forall|p: u128, len: u8, c: int|
                stands(rs, p, len, c) ==> #[trigger] stands(t, p, len, c)
            &&& forall|i: int|
                0 <= i < t.len() ==> same_route(#[trigger] t[i], r) || alike(rs, t[i]) || (exists|
                    x: int,
                |
                    0 <= x < rs.len() && same_prefix(#[trigger] rs[x], t[i]) && rs[x].kind
                        == t[i].kind && rs[x].cost == t[i].cost)
        }),
        spf_v3::tidy(rs) ==> spf_v3::tidy(spf_v3::with_route(rs, r)),
{
    let t = spf_v3::with_route(rs, r);
    spf_v3::lemma_with_route(rs, r);
    spf_v3::lemma_route_pos(rs, r.prefix, r.prefix_len, 0);
    assert(spf_v3::served(t, r.prefix, r.prefix_len, r.cost));
    assert forall|p: u128, len: u8, c: int| stands(rs, p, len, c) implies #[trigger] stands(
        t,
        p,
        len,
        c,
    ) by {
        let i = choose|i: int|
            0 <= i < rs.len() && (#[trigger] rs[i]).prefix == p && rs[i].prefix_len == len
                && rs[i].cost <= c;
        assert(spf_v3::served(rs, p, len, rs[i].cost));
        assert(spf_v3::served(t, p, len, rs[i].cost));
    }
    assert forall|i: int| 0 <= i < t.len() implies same_route(#[trigger] t[i], r) || alike(rs, t[i])
        || (exists|x: int|
        0 <= x < rs.len() && same_prefix(#[trigger] rs[x], t[i]) && rs[x].kind == t[i].kind
            && rs[x].cost == t[i].cost) by {
        if i < rs.len() && !same_route(t[i], r) {
            assert(same_prefix(rs[i], t[i]));
        } else if i < rs.len() {
        }
    }
}

/// Whether the list holds a route like this one, but for next hops.
pub open spec fn alike(rs: Seq<SpfRouteV3View>, r: SpfRouteV3View) -> bool {
    exists|x: int| 0 <= x < rs.len() && same_route(#[trigger] rs[x], r)
}

/// Whether some route leads to the prefix at no more than that cost.
pub open spec fn stands(rs: Seq<SpfRouteV3View>, prefix: u128, len: u8, cost: int) -> bool {
    exists|i: int|
        0 <= i < rs.len() && (#[trigger] rs[i]).prefix == prefix && rs[i].prefix_len == len
            && rs[i].cost <= cost
}

/// Whether an LSA announces the route.
pub open spec fn is_announced(
    es: Seq<LsaEntryV3View>,
    ns: Seq<NodeView>,
    t: Reach,
    r: SpfRouteV3View,
) -> bool {
    exists|k: int, d: int|
        0 <= k < es.len() && #[trigger] announced(es[k], d, r) && router_at(
            ns,
            t,
            es[k].header.advertising_router,
            d,
        )
}

proof fn lemma_offer(
    rs: Seq<SpfRouteV3View>,
    ns: Seq<NodeView>,
    e: LsaEntryV3View,
    t: Reach,
    kind: OspfRouteKind,
    r: SpfRouteV3View,
    d: int,
)
    requires
        kind != OspfRouteKind::Intra,
    ensures
        announced(e, d, r) && r.kind == kind && router_at(ns, t, e.header.advertising_router, d)
            ==> stands(
            spf_v3::with_announced(rs, ns, e, t, kind),
            r.prefix,
            r.prefix_len,
            r.cost as int,
        ),
        forall|p: u128, len: u8, c: int|
            stands(rs, p, len, c) ==> #[trigger] stands(
                spf_v3::with_announced(rs, ns, e, t, kind),
                p,
                len,
                c,
            ),
        spf_v3::tidy(rs) ==> spf_v3::tidy(spf_v3::with_announced(rs, ns, e, t, kind)),
        forall|i: int|
            0 <= i < spf_v3::with_announced(rs, ns, e, t, kind).len() ==> alike(
                rs,
                #[trigger] spf_v3::with_announced(rs, ns, e, t, kind)[i],
            ) || (spf_v3::with_announced(rs, ns, e, t, kind)[i].kind == kind && exists|x: int|
                #[trigger] announced(e, x, spf_v3::with_announced(rs, ns, e, t, kind)[i])
                    && router_at(ns, t, e.header.advertising_router, x)),
{
    let all = spf_v3::with_announced(rs, ns, e, t, kind);
    let id = e.header.advertising_router;
    lemma_router_at(ns, t, id, d);
    let v = spf_v3::router_pos(ns, id, 0);
    match (spf_v3::announcement(e), t.distance(v)) {
        (Some((k, metric, p)), Some(x)) if k == kind => {
            let y = SpfRouteV3View {
                prefix: p.address,
                prefix_len: p.prefix_length,
                cost: if kind == OspfRouteKind::External2 {
                    metric
                } else {
                    spf::held_cost(x + metric)
                },
                kind,
                next_hops: t.hops[v.unwrap()],
            };
            assert(all == spf_v3::with_route(rs, y));
            lemma_more(rs, y);
            lemma_router_at(ns, t, id, x as int);
            assert(announced(e, x as int, y));
            assert forall|i: int| 0 <= i < all.len() implies alike(rs, #[trigger] all[i]) || (
            all[i].kind == kind && exists|z: int|
                #[trigger] announced(e, z, all[i]) && router_at(ns, t, id, z)) by {
                if same_route(all[i], y) {
                    assert(announced(e, x as int, all[i]));
                } else if !alike(rs, all[i]) {
                    let z = choose|z: int|
                        0 <= z < rs.len() && same_prefix(#[trigger] rs[z], all[i]) && rs[z].kind
                            == all[i].kind && rs[z].cost == all[i].cost;
                    assert(same_route(rs[z], all[i]));
                }
            }
        },
        _ => {
            assert(all == rs);
            assert forall|i: int| 0 <= i < all.len() implies alike(rs, #[trigger] all[i]) by {
                assert(same_route(rs[i], all[i]));
            }
        },
    }
}

proof fn lemma_announced_yields(
    es: Seq<LsaEntryV3View>,
    ns: Seq<NodeView>,
    t: Reach,
    kind: OspfRouteKind,
    r: SpfRouteV3View,
    k: int,
    d: int,
)
    requires
        kind != OspfRouteKind::Intra,
        r.kind == kind,
        0 <= k < es.len(),
        announced(es[k], d, r),
        router_at(ns, t, es[k].header.advertising_router, d),
    ensures
        stands(
            spf_v3::announced_routes(es, ns, t, kind),
            r.prefix,
            r.prefix_len,
            r.cost as int,
        ),
    decreases es.len(),
{
    let rest = es.drop_last();
    let last = es.len() - 1;
    let a = spf_v3::announced_routes(rest, ns, t, kind);
    lemma_offer(a, ns, es[last], t, kind, r, d);
    if k < last {
        assert(rest[k] == es[k]);
        lemma_announced_yields(rest, ns, t, kind, r, k, d);
        assert(stands(a, r.prefix, r.prefix_len, r.cost as int));
    }
}

proof fn lemma_announced_source(
    es: Seq<LsaEntryV3View>,
    ns: Seq<NodeView>,
    t: Reach,
    kind: OspfRouteKind,
    i: int,
)
    requires
        kind != OspfRouteKind::Intra,
        0 <= i < spf_v3::announced_routes(es, ns, t, kind).len(),
    ensures
        spf_v3::announced_routes(es, ns, t, kind)[i].kind == kind,
        is_announced(es, ns, t, spf_v3::announced_routes(es, ns, t, kind)[i]),
    decreases es.len(),
{
    let rest = es.drop_last();
    let last = es.len() - 1;
    let a = spf_v3::announced_routes(rest, ns, t, kind);
    let r = spf_v3::announced_routes(es, ns, t, kind)[i];
    lemma_offer(a, ns, es[last], t, kind, r, 0);
    if alike(a, r) {
        let x = choose|x: int| 0 <= x < a.len() && same_route(#[trigger] a[x], r);
        lemma_announced_source(rest, ns, t, kind, x);
        let (k, d) = choose|k: int, d: int|
            0 <= k < rest.len() && #[trigger] announced(rest[k], d, a[x]) && router_at(
                ns,
                t,
                rest[k].header.advertising_router,
                d,
            );
        assert(rest[k] == es[k]);
        assert(announced(es[k], d, r));
    } else {
        let z = choose|z: int|
            #[trigger] announced(es[last], z, r) && router_at(
                ns,
                t,
                es[last].header.advertising_router,
                z,
            );
        assert(announced(es[last], z, r));
    }
}

proof fn lemma_announced_tidy(
    es: Seq<LsaEntryV3View>,
    ns: Seq<NodeView>,
    t: Reach,
    kind: OspfRouteKind,
)
    requires
        kind != OspfRouteKind::Intra,
    ensures
        spf_v3::tidy(spf_v3::announced_routes(es, ns, t, kind)),
    decreases es.len(),
{
    if es.len() > 0 {
        let a = spf_v3::announced_routes(es.drop_last(), ns, t, kind);
        lemma_announced_tidy(es.drop_last(), ns, t, kind);
        lemma_offer(a, ns, es.last(), t, kind, arbitrary(), 0);
    }
}

proof fn lemma_announced_routes(
    es: Seq<LsaEntryV3View>,
    ns: Seq<NodeView>,
    t: Reach,
    kind: OspfRouteKind,
)
    requires
        kind != OspfRouteKind::Intra,
    ensures
        forall|r: SpfRouteV3View|
            r.kind == kind && #[trigger] is_announced(es, ns, t, r) ==> stands(
                spf_v3::announced_routes(es, ns, t, kind),
                r.prefix,
                r.prefix_len,
                r.cost as int,
            ),
        forall|i: int|
            0 <= i < spf_v3::announced_routes(es, ns, t, kind).len() ==> (
            #[trigger] spf_v3::announced_routes(es, ns, t, kind)[i]).kind == kind && is_announced(
                es,
                ns,
                t,
                spf_v3::announced_routes(es, ns, t, kind)[i],
            ),
        spf_v3::tidy(spf_v3::announced_routes(es, ns, t, kind)),
{
    let all = spf_v3::announced_routes(es, ns, t, kind);
    lemma_announced_tidy(es, ns, t, kind);
    assert forall|r: SpfRouteV3View| r.kind == kind && #[trigger] is_announced(
        es,
        ns,
        t,
        r,
    ) implies stands(all, r.prefix, r.prefix_len, r.cost as int) by {
        let (k, d) = choose|k: int, d: int|
            0 <= k < es.len() && #[trigger] announced(es[k], d, r) && router_at(
                ns,
                t,
                es[k].header.advertising_router,
                d,
            );
        lemma_announced_yields(es, ns, t, kind, r, k, d);
    }
    assert forall|i: int| 0 <= i < all.len() implies (#[trigger] all[i]).kind == kind
        && is_announced(es, ns, t, all[i]) by {
        lemma_announced_source(es, ns, t, kind, i);
    }
}

proof fn lemma_pref(a: Seq<SpfRouteV3View>, b: Seq<SpfRouteV3View>)
    requires
        spf_v3::tidy(b),
    ensures
        forall|i: int|
            0 <= i < a.len() ==> spf_v3::preferred(a, b).contains(#[trigger] a[i]),
        forall|i: int|
            0 <= i < b.len() ==> spf_v3::preferred(a, b).contains(#[trigger] b[i]) || stands(
                a,
                b[i].prefix,
                b[i].prefix_len,
                0xffffffff,
            ),
        forall|i: int|
            0 <= i < spf_v3::preferred(a, b).len() ==> a.contains(
                #[trigger] spf_v3::preferred(a, b)[i],
            ) || b.contains(spf_v3::preferred(a, b)[i]),
    decreases b.len(),
{
    let all = spf_v3::preferred(a, b);
    if b.len() > 0 {
        let rest = b.drop_last();
        let last = b.len() - 1;
        let front = spf_v3::preferred(a, rest);
        assert(spf_v3::tidy(rest)) by {
            assert forall|i: int, j: int| 0 <= i < j < rest.len() implies (
            #[trigger] rest[i]).prefix != (#[trigger] rest[j]).prefix || rest[i].prefix_len
                != rest[j].prefix_len by {
                assert(rest[i] == b[i] && rest[j] == b[j]);
            }
        }
        lemma_pref(a, rest);
        spf_v3::lemma_route_pos(front, b[last].prefix, b[last].prefix_len, 0);
        assert forall|x: SpfRouteV3View| #[trigger] front.contains(x) implies all.contains(x) by {
            let i = choose|i: int| 0 <= i < front.len() && front[i] == x;
            assert(all[i] == x);
        }
        assert forall|i: int| 0 <= i < b.len() implies all.contains(#[trigger] b[i]) || stands(
            a,
            b[i].prefix,
            b[i].prefix_len,
            0xffffffff,
        ) by {
            if i < last {
                assert(rest[i] == b[i]);
            } else {
                match spf_v3::route_pos(front, b[last].prefix, b[last].prefix_len, 0) {
                    Some(p) => {
                        let y = front[p];
                        if a.contains(y) {
                            let q = choose|q: int| 0 <= q < a.len() && a[q] == y;
                            assert(a[q].prefix == b[i].prefix);
                        } else {
                            let q = choose|q: int| 0 <= q < rest.len() && rest[q] == y;
                            assert(b[q] == rest[q]);
                        }
                    },
                    None => {
                        assert(all[front.len() as int] == b[i]);
                    },
                }
            }
        }
        assert forall|i: int| 0 <= i < all.len() implies a.contains(#[trigger] all[i])
            || b.contains(all[i]) by {
            if i < front.len() {
                assert(all[i] == front[i]);
                if rest.contains(front[i]) {
                    let q = choose|q: int| 0 <= q < rest.len() && rest[q] == front[i];
                    assert(b[q] == rest[q]);
                }
            } else {
                assert(b[last] == all[i]);
            }
        }
    } else {
        assert forall|i: int| 0 <= i < a.len() implies all.contains(#[trigger] a[i]) by {
            assert(all[i] == a[i]);
        }
        assert forall|i: int| 0 <= i < all.len() implies a.contains(#[trigger] all[i]) by {
            assert(a[i] == all[i]);
        }
    }
}

/// Whether a route of the table takes the place of `r`: it leads to the same prefix, and is of a better
/// kind, or of the same kind and costs no more.
pub open spec fn route_for(rs: Seq<SpfRouteV3View>, r: SpfRouteV3View) -> bool {
    exists|i: int|
        0 <= i < rs.len() && same_prefix(#[trigger] rs[i], r) && (rank(rs[i].kind) < rank(r.kind)
            || rs[i].kind == r.kind && rs[i].cost <= r.cost)
}

proof fn lemma_layer(
    a: Seq<SpfRouteV3View>,
    es: Seq<LsaEntryV3View>,
    ns: Seq<NodeView>,
    t: Reach,
    kind: OspfRouteKind,
)
    requires
        kind != OspfRouteKind::Intra,
        forall|i: int| 0 <= i < a.len() ==> rank((#[trigger] a[i]).kind) < rank(kind),
    ensures
        ({
            let all = spf_v3::preferred(a, spf_v3::announced_routes(es, ns, t, kind));
            &&& forall|r: SpfRouteV3View|
                r.kind == kind && #[trigger] is_announced(es, ns, t, r) ==> route_for(all, r)
            &&& forall|r: SpfRouteV3View| #[trigger] route_for(a, r) ==> route_for(all, r)
            &&& forall|i: int|
                0 <= i < all.len() ==> rank((#[trigger] all[i]).kind) <= rank(kind) && (a.contains(
                    all[i],
                ) || all[i].kind == kind && is_announced(es, ns, t, all[i]))
        }),
{
    let b = spf_v3::announced_routes(es, ns, t, kind);
    let all = spf_v3::preferred(a, b);
    lemma_announced_routes(es, ns, t, kind);
    lemma_pref(a, b);
    assert forall|r: SpfRouteV3View| #[trigger] route_for(a, r) implies route_for(all, r) by {
        let i = choose|i: int|
            0 <= i < a.len() && same_prefix(#[trigger] a[i], r) && (rank(a[i].kind) < rank(r.kind)
                || a[i].kind == r.kind && a[i].cost <= r.cost);
        assert(all.contains(a[i]));
        let q = choose|q: int| 0 <= q < all.len() && all[q] == a[i];
        assert(same_prefix(all[q], r));
    }
    assert forall|r: SpfRouteV3View| r.kind == kind && #[trigger] is_announced(
        es,
        ns,
        t,
        r,
    ) implies route_for(all, r) by {
        assert(stands(b, r.prefix, r.prefix_len, r.cost as int));
        let i = choose|i: int|
            0 <= i < b.len() && (#[trigger] b[i]).prefix == r.prefix && b[i].prefix_len
                == r.prefix_len && b[i].cost <= r.cost;
        if all.contains(b[i]) {
            let q = choose|q: int| 0 <= q < all.len() && all[q] == b[i];
            assert(same_prefix(all[q], r));
        } else {
            let j = choose|j: int|
                0 <= j < a.len() && (#[trigger] a[j]).prefix == b[i].prefix && a[j].prefix_len
                    == b[i].prefix_len && a[j].cost <= 0xffffffff;
            assert(same_prefix(a[j], r));
            assert(route_for(a, r));
        }
    }
    assert forall|i: int| 0 <= i < all.len() implies rank((#[trigger] all[i]).kind) <= rank(kind)
        && (a.contains(all[i]) || all[i].kind == kind && is_announced(es, ns, t, all[i])) by {
        if a.contains(all[i]) {
            let q = choose|q: int| 0 <= q < a.len() && a[q] == all[i];
            assert(rank(a[q].kind) < rank(kind));
        } else {
            let q = choose|q: int| 0 <= q < b.len() && b[q] == all[i];
            assert(b[q].kind == kind);
        }
    }
}

/// Whether the LSA hangs the prefix on a vertex at distance `d`: an Intra-Area-Prefix-LSA that refers
/// to the Router-LSA of a router or to the Network-LSA of a network.
pub open spec fn hangs(
    e: LsaEntryV3View,
    ns: Seq<NodeView>,
    t: Reach,
    k: int,
    d: int,
    r: SpfRouteV3View,
) -> bool {
    &&& e.header.ls_type == LsaV3Type::IntraAreaPrefix
    &&& e.header.ls_age < 3600
    &&& t.distance(spf_v3::referenced(ns, e.body())) matches Some(x) && x == d
    &&& lsa::intra_area_prefix_parse(e.body()) matches Ok(ps) && 0 <= k < ps.len() && r.prefix
        == ps[k].address && r.prefix_len == ps[k].prefix_length && r.cost == spf_laws::capped(
        d + ps[k].prefix_or_metric,
    )
    &&& r.kind == OspfRouteKind::Intra
}

/// Whether some LSA hangs the prefix of the route on a vertex.
pub open spec fn is_hung(
    es: Seq<LsaEntryV3View>,
    ns: Seq<NodeView>,
    t: Reach,
    r: SpfRouteV3View,
) -> bool {
    exists|i: int, k: int, d: int| 0 <= i < es.len() && #[trigger] hangs(es[i], ns, t, k, d, r)
}

proof fn lemma_prefix_source(
    rs: Seq<SpfRouteV3View>,
    ps: Seq<Ospfv3Prefix>,
    d: u128,
    hops: Seq<(u128, u32)>,
    i: int,
)
    requires
        0 <= i < spf_v3::with_prefixes(rs, ps, d, hops).len(),
    ensures
        ({
            let r = spf_v3::with_prefixes(rs, ps, d, hops)[i];
            alike(rs, r) || exists|k: int|
                0 <= k < ps.len() && r.prefix == (#[trigger] ps[k]).address && r.prefix_len
                    == ps[k].prefix_length && r.cost == spf_laws::capped(
                    d + ps[k].prefix_or_metric,
                ) && r.kind == OspfRouteKind::Intra
        }),
    decreases ps.len(),
{
    let all = spf_v3::with_prefixes(rs, ps, d, hops);
    let r = all[i];
    if ps.len() == 0 {
        assert(same_route(rs[i], r));
    } else {
        let rest = ps.drop_last();
        let before = spf_v3::with_prefixes(rs, rest, d, hops);
        let p = ps.last();
        let y = SpfRouteV3View {
            prefix: p.address,
            prefix_len: p.prefix_length,
            cost: spf::held_cost(d + p.prefix_or_metric),
            kind: OspfRouteKind::Intra,
            next_hops: hops,
        };
        lemma_more(before, y);
        if same_route(r, y) {
            assert(r.prefix == ps[ps.len() - 1].address);
        } else {
            let x = if alike(before, r) {
                choose|x: int| 0 <= x < before.len() && same_route(#[trigger] before[x], r)
            } else {
                choose|x: int|
                    0 <= x < before.len() && same_prefix(#[trigger] before[x], r) && before[x].kind
                        == r.kind && before[x].cost == r.cost
            };
            lemma_prefix_source(rs, rest, d, hops, x);
            if alike(rs, before[x]) {
                let z = choose|z: int| 0 <= z < rs.len() && same_route(#[trigger] rs[z], before[x]);
                assert(same_route(rs[z], r));
            } else {
                let k = choose|k: int|
                    0 <= k < rest.len() && before[x].prefix == (#[trigger] rest[k]).address
                        && before[x].prefix_len == rest[k].prefix_length && before[x].cost
                        == spf_laws::capped(d + rest[k].prefix_or_metric) && before[x].kind
                        == OspfRouteKind::Intra;
                assert(ps[k] == rest[k]);
            }
        }
    }
}

proof fn lemma_intra_source(es: Seq<LsaEntryV3View>, ns: Seq<NodeView>, t: Reach, i: int)
    requires
        0 <= i < spf_v3::intra_routes(es, ns, t).len(),
    ensures
        is_hung(es, ns, t, spf_v3::intra_routes(es, ns, t)[i]),
    decreases es.len(),
{
    let all = spf_v3::intra_routes(es, ns, t);
    let r = all[i];
    let rest = es.drop_last();
    let last = es.len() - 1;
    let before = spf_v3::intra_routes(rest, ns, t);
    let e = es[last];
    let x = if before.contains(r) {
        choose|x: int| 0 <= x < before.len() && before[x] == r
    } else {
        let ps = lsa::intra_area_prefix_parse(e.body())->Ok_0;
        let v = spf_v3::referenced(ns, e.body());
        let d = t.distance(v)->0;
        if e.header.ls_type == LsaV3Type::IntraAreaPrefix && e.header.ls_age < 3600
            && lsa::intra_area_prefix_parse(e.body()) is Ok && t.distance(v) is Some {
            lemma_prefix_source(before, ps, d, t.hops[v.unwrap()], i);
            if !alike(before, r) {
                let k = choose|k: int|
                    0 <= k < ps.len() && r.prefix == (#[trigger] ps[k]).address && r.prefix_len
                        == ps[k].prefix_length && r.cost == spf_laws::capped(
                        d + ps[k].prefix_or_metric,
                    ) && r.kind == OspfRouteKind::Intra;
                assert(hangs(es[last], ns, t, k, d as int, r));
            }
        } else {
            assert(all == before);
            assert(before[i] == r);
        }
        choose|x: int| 0 <= x < before.len() && same_route(#[trigger] before[x], r)
    };
    if before.contains(r) || alike(before, r) {
        if before.contains(r) {
            assert(same_route(before[x], r));
        }
        lemma_intra_source(rest, ns, t, x);
        let (j, k, d) = choose|j: int, k: int, d: int|
            0 <= j < rest.len() && #[trigger] hangs(rest[j], ns, t, k, d, before[x]);
        assert(hangs(es[j], ns, t, k, d, r));
    }
}

/// What the routes are, said of the LSAs: every prefix that hangs on a vertex that is reached, and
/// every prefix that a router that is reached announces, has a route, of the kind of the announcement
/// or a better one, and within a kind at no more than the announcement makes it cost; and no route
/// comes from nowhere.
pub open spec fn are_routes(
    es: Seq<LsaEntryV3View>,
    ns: Seq<NodeView>,
    t: Reach,
    rs: Seq<SpfRouteV3View>,
) -> bool {
    &&& forall|r: SpfRouteV3View| #[trigger] is_hung(es, ns, t, r) ==> route_for(rs, r)
    &&& forall|r: SpfRouteV3View| #[trigger] is_announced(es, ns, t, r) ==> route_for(rs, r)
    &&& forall|i: int|
        0 <= i < rs.len() ==> is_hung(es, ns, t, #[trigger] rs[i]) || is_announced(
            es,
            ns,
            t,
            rs[i],
        )
}

/// The routes are those that the LSAs call for.
pub proof fn lemma_routes(es: Seq<LsaEntryV3View>, t: Reach)
    ensures
        are_routes(es, spf_v3::nodes_of(es), t, spf_v3::routes_by(es, t)),
{
    let ns = spf_v3::nodes_of(es);
    let intra = spf_v3::intra_routes(es, ns, t);
    let rs = spf_v3::routes_by(es, t);
    assert forall|i: int| 0 <= i < intra.len() implies is_hung(es, ns, t, #[trigger] intra[i])
        && intra[i].kind == OspfRouteKind::Intra by {
        lemma_intra_source(es, ns, t, i);
        let (j, k, d) = choose|j: int, k: int, d: int|
            0 <= j < es.len() && #[trigger] hangs(es[j], ns, t, k, d, intra[i]);
    }
    lemma_layer(intra, es, ns, t, OspfRouteKind::Inter);
    let a = spf_v3::preferred(
        intra,
        spf_v3::announced_routes(es, ns, t, OspfRouteKind::Inter),
    );
    lemma_layer(a, es, ns, t, OspfRouteKind::External1);
    let b = spf_v3::preferred(
        a,
        spf_v3::announced_routes(es, ns, t, OspfRouteKind::External1),
    );
    lemma_layer(b, es, ns, t, OspfRouteKind::External2);
    assert forall|r: SpfRouteV3View| #[trigger] is_hung(es, ns, t, r) implies route_for(rs, r) by {
        let (i, k, d) = choose|i: int, k: int, d: int|
            0 <= i < es.len() && #[trigger] hangs(es[i], ns, t, k, d, r);
        spf_v3::lemma_reached_served(es, ns, t, i, k);
        let q = choose|q: int|
            0 <= q < intra.len() && (#[trigger] intra[q]).prefix == r.prefix && intra[q].prefix_len
                == r.prefix_len && intra[q].cost <= r.cost;
        assert(same_prefix(intra[q], r));
        assert(route_for(intra, r));
        assert(route_for(a, r));
        assert(route_for(b, r));
    }
    assert forall|r: SpfRouteV3View| #[trigger] is_announced(es, ns, t, r) implies route_for(
        rs,
        r,
    ) by {
        let (k, d) = choose|k: int, d: int|
            0 <= k < es.len() && #[trigger] announced(es[k], d, r) && router_at(
                ns,
                t,
                es[k].header.advertising_router,
                d,
            );
        if r.kind == OspfRouteKind::Inter {
            assert(route_for(a, r));
            assert(route_for(b, r));
        } else if r.kind == OspfRouteKind::External1 {
            assert(route_for(b, r));
        }
    }
    assert forall|i: int| 0 <= i < rs.len() implies is_hung(es, ns, t, #[trigger] rs[i])
        || is_announced(es, ns, t, rs[i]) by {
        if b.contains(rs[i]) {
            let q = choose|q: int| 0 <= q < b.len() && b[q] == rs[i];
            if a.contains(b[q]) {
                let x = choose|x: int| 0 <= x < a.len() && a[x] == b[q];
                if intra.contains(a[x]) {
                    let y = choose|y: int| 0 <= y < intra.len() && intra[y] == a[x];
                    assert(is_hung(es, ns, t, intra[y]));
                }
            }
        }
    }
}

/// Whether the distances and next hops are those of the cheapest walks through the graph of the LSAs
/// from the router `id`.
pub open spec fn reaches(
    es: Seq<LsaEntryV3View>,
    id: u32,
    ps: Seq<SpfNeighborV3>,
    t: Reach,
) -> bool {
    let ns = spf_v3::nodes_of(es);
    let edges = spf_v3::edges_upto(ns, es.len() as int, ps);
    exists|root: int, labels: Seq<Seq<Label>>|
        {
            &&& is_vertex(ns, root)
            &&& ns[root] matches NodeView::Router(r, _) && r == id
            &&& t.ds.len() == es.len()
            &&& paths::distances(edges, root, t.ds)
            &&& #[trigger] spf::labelled(edges, root, t.ds, labels)
            &&& t.hops == spf_v3::all_hops(labels, ps)
        }
}

/// The routes that are computed from LSAs are those that the LSAs call for; a router without a
/// Router-LSA has none.
pub proof fn lemma_computed(
    es: Seq<LsaEntryV3View>,
    id: u32,
    ps: Seq<SpfNeighborV3>,
    rs: Seq<SpfRouteV3View>,
)
    requires
        spf_v3::computed(es, id, ps, rs),
    ensures
        (exists|t: Reach| #[trigger] reaches(es, id, ps, t) && are_routes(
            es,
            spf_v3::nodes_of(es),
            t,
            rs,
        )) || (rs.len() == 0 && forall|k: int|
            0 <= k < es.len() ==> ((#[trigger] spf_v3::nodes_of(es)[k]) matches NodeView::Router(
                r,
                _,
            ) ==> r != id)),
{
    let ns = spf_v3::nodes_of(es);
    lemma_router_pos(ns, id, 0);
    if let Some(root) = spf_v3::router_pos(ns, id, 0) {
        let edges = spf_v3::edges_upto(ns, es.len() as int, ps);
        let (ds, labels) = choose|ds: Seq<Option<u128>>, labels: Seq<Seq<Label>>|
            {
                &&& ds.len() == es.len()
                &&& paths::distances(edges, root, ds)
                &&& #[trigger] spf::labelled(edges, root, ds, labels)
                &&& rs == spf_v3::routes_by(es, Reach { ds, hops: spf_v3::all_hops(labels, ps) })
            };
        let t = Reach { ds, hops: spf_v3::all_hops(labels, ps) };
        assert(is_vertex(ns, root));
        assert(spf::labelled(edges, root, t.ds, labels));
        assert(reaches(es, id, ps, t));
        lemma_routes(es, t);
    }
}

/// Whether the hop goes to one of the neighbors that the labels start through.
pub open spec fn is_hop(labels: Seq<Label>, ps: Seq<SpfNeighborV3>, h: (u128, u32)) -> bool {
    exists|i: int|
        0 <= i < labels.len() && (#[trigger] labels[i] matches Label::Via(k, _) && k < ps.len()
            && h.0 == ps[k as int].link_local && h.1 == ps[k as int].sw_if_index)
}

/// The next hops of a vertex are the link-local addresses of the neighbors that the cheapest walks
/// start through, each with the interface that the neighbor is met on.
pub proof fn lemma_hops(labels: Seq<Label>, ps: Seq<SpfNeighborV3>, h: (u128, u32))
    ensures
        spf_v3::hops_of(labels, ps).contains(h) <==> is_hop(labels, ps, h),
    decreases labels.len(),
{
    if labels.len() > 0 {
        let rest = labels.drop_last();
        let before = spf_v3::hops_of(rest, ps);
        let all = spf_v3::hops_of(labels, ps);
        lemma_hops(rest, ps, h);
        assert(labels[labels.len() - 1] == labels.last());
        if before.contains(h) {
            assert(all[before.index_of(h)] == h);
            let i = choose|i: int|
                0 <= i < rest.len() && (#[trigger] rest[i] matches Label::Via(k, _) && k < ps.len()
                    && h.0 == ps[k as int].link_local && h.1 == ps[k as int].sw_if_index);
            assert(labels[i] == rest[i]);
        }
        if all.contains(h) {
            let q = all.index_of(h);
            if q < before.len() {
                assert(before[q] == h);
            }
        }
        if is_hop(labels, ps, h) {
            let i = choose|i: int|
                0 <= i < labels.len() && (#[trigger] labels[i] matches Label::Via(k, _) && k
                    < ps.len() && h.0 == ps[k as int].link_local && h.1 == ps[k as int].sw_if_index);
            if i < rest.len() {
                assert(rest[i] == labels[i]);
            } else {
                assert(all[before.len() as int] == h);
            }
        }
    }
}

/// Routes of equal cost share their next hops: those of both, none twice.
pub proof fn lemma_joined_hops(a: Seq<(u128, u32)>, b: Seq<(u128, u32)>, h: (u128, u32))
    ensures
        spf_v3::joined(a, b).contains(h) <==> a.contains(h) || b.contains(h),
        a.no_duplicates() ==> spf_v3::joined(a, b).no_duplicates(),
    decreases b.len(),
{
    if b.len() > 0 {
        let rest = b.drop_last();
        let before = spf_v3::joined(a, rest);
        let all = spf_v3::joined(a, b);
        lemma_joined_hops(a, rest, h);
        assert(b[b.len() - 1] == b.last());
        if rest.contains(h) {
            assert(b[rest.index_of(h)] == h);
        }
        if b.contains(h) {
            let k = b.index_of(h);
            if k < rest.len() {
                assert(rest[k] == h);
            } else if !before.contains(h) {
                assert(all[before.len() as int] == h);
            }
        }
        if before.contains(h) {
            assert(all[before.index_of(h)] == h);
        }
        if all.contains(h) {
            let k = all.index_of(h);
            if k < before.len() {
                assert(before[k] == h);
            }
        }
    }
}

/// Whether the hop goes to one of the neighbors: its link-local address, over the interface it is met
/// on.
pub open spec fn to_neighbor(ps: Seq<SpfNeighborV3>, h: (u128, u32)) -> bool {
    exists|k: int|
        0 <= k < ps.len() && (#[trigger] ps[k]).link_local == h.0 && ps[k].sw_if_index == h.1
}

/// Whether there are hops, and all of them go to neighbors.
pub open spec fn goes_on(hops: Seq<(u128, u32)>, ps: Seq<SpfNeighborV3>) -> bool {
    hops.len() > 0 && forall|i: int| 0 <= i < hops.len() ==> to_neighbor(ps, #[trigger] hops[i])
}

/// Whether each route has next hops, all of them neighbors.
pub open spec fn all_go_on(rs: Seq<SpfRouteV3View>, ps: Seq<SpfNeighborV3>) -> bool {
    forall|i: int| 0 <= i < rs.len() ==> goes_on((#[trigger] rs[i]).next_hops, ps)
}

proof fn lemma_hops_go_on(labels: Seq<Label>, ps: Seq<SpfNeighborV3>)
    ensures
        spf_v3::hops_of(labels, ps).len() > 0 ==> goes_on(spf_v3::hops_of(labels, ps), ps),
{
    let hops = spf_v3::hops_of(labels, ps);
    assert forall|i: int| 0 <= i < hops.len() implies to_neighbor(ps, #[trigger] hops[i]) by {
        lemma_hops(labels, ps, hops[i]);
        assert(hops.contains(hops[i]));
        let j = choose|j: int|
            0 <= j < labels.len() && (#[trigger] labels[j] matches Label::Via(k, _) && k < ps.len()
                && hops[i].0 == ps[k as int].link_local && hops[i].1 == ps[k as int].sw_if_index);
        if let Label::Via(k, _) = labels[j] {
            assert(ps[k as int].link_local == hops[i].0);
        }
    }
}

proof fn lemma_route_goes_on(rs: Seq<SpfRouteV3View>, r: SpfRouteV3View, ps: Seq<SpfNeighborV3>)
    requires
        all_go_on(rs, ps),
        goes_on(r.next_hops, ps),
    ensures
        all_go_on(spf_v3::with_route(rs, r), ps),
{
    let t = spf_v3::with_route(rs, r);
    spf_v3::lemma_route_pos(rs, r.prefix, r.prefix_len, 0);
    if let Some(i) = spf_v3::route_pos(rs, r.prefix, r.prefix_len, 0) {
        let a = rs[i].next_hops;
        let both = spf_v3::joined(a, r.next_hops);
        assert forall|k: int| 0 <= k < both.len() implies to_neighbor(ps, #[trigger] both[k]) by {
            lemma_joined_hops(a, r.next_hops, both[k]);
            assert(both.contains(both[k]));
            if a.contains(both[k]) {
                let x = a.index_of(both[k]);
                assert(to_neighbor(ps, a[x]));
            } else {
                let x = r.next_hops.index_of(both[k]);
                assert(to_neighbor(ps, r.next_hops[x]));
            }
        }
        lemma_joined_hops(a, r.next_hops, a[0]);
        assert(a.contains(a[0]));
        assert(both.len() > 0);
        assert(goes_on(both, ps));
    }
    assert forall|k: int| 0 <= k < t.len() implies goes_on((#[trigger] t[k]).next_hops, ps) by {
        if k < rs.len() {
            assert(goes_on(rs[k].next_hops, ps));
        }
    }
}

proof fn lemma_prefixes_go_on(
    rs: Seq<SpfRouteV3View>,
    qs: Seq<Ospfv3Prefix>,
    d: u128,
    hops: Seq<(u128, u32)>,
    ps: Seq<SpfNeighborV3>,
)
    requires
        all_go_on(rs, ps),
        goes_on(hops, ps),
    ensures
        all_go_on(spf_v3::with_prefixes(rs, qs, d, hops), ps),
    decreases qs.len(),
{
    if qs.len() > 0 {
        lemma_prefixes_go_on(rs, qs.drop_last(), d, hops, ps);
        lemma_route_goes_on(
            spf_v3::with_prefixes(rs, qs.drop_last(), d, hops),
            SpfRouteV3View {
                prefix: qs.last().address,
                prefix_len: qs.last().prefix_length,
                cost: spf::held_cost(d + qs.last().prefix_or_metric),
                kind: OspfRouteKind::Intra,
                next_hops: hops,
            },
            ps,
        );
    }
}

/// Whether the next hops of each vertex that has any go to neighbors.
pub open spec fn hops_go_on(t: Reach, n: nat, ps: Seq<SpfNeighborV3>) -> bool {
    forall|v: int| 0 <= v < n && t.hops[v].len() > 0 ==> goes_on(#[trigger] t.hops[v], ps)
}

proof fn lemma_intra_go_on(
    es: Seq<LsaEntryV3View>,
    ns: Seq<NodeView>,
    t: Reach,
    ps: Seq<SpfNeighborV3>,
)
    requires
        hops_go_on(t, ns.len(), ps),
    ensures
        all_go_on(spf_v3::intra_routes(es, ns, t), ps),
    decreases es.len(),
{
    if es.len() > 0 {
        lemma_intra_go_on(es.drop_last(), ns, t, ps);
        let rs = spf_v3::intra_routes(es.drop_last(), ns, t);
        let e = es.last();
        if let Ok(qs) = lsa::intra_area_prefix_parse(e.body()) {
            let v = spf_v3::referenced(ns, e.body());
            lemma_router_pos(ns, wire::u32_at(e.body(), 8), 0);
            lemma_network_pos(ns, wire::u32_at(e.body(), 8), wire::u32_at(e.body(), 4), 0);
            if let Some(d) = t.distance(v) {
                assert(goes_on(t.hops[v.unwrap()], ps));
                lemma_prefixes_go_on(rs, qs, d, t.hops[v.unwrap()], ps);
            }
        }
    }
}

proof fn lemma_announced_go_on(
    es: Seq<LsaEntryV3View>,
    ns: Seq<NodeView>,
    t: Reach,
    kind: OspfRouteKind,
    ps: Seq<SpfNeighborV3>,
)
    requires
        hops_go_on(t, ns.len(), ps),
    ensures
        all_go_on(spf_v3::announced_routes(es, ns, t, kind), ps),
    decreases es.len(),
{
    if es.len() > 0 {
        lemma_announced_go_on(es.drop_last(), ns, t, kind, ps);
        let rs = spf_v3::announced_routes(es.drop_last(), ns, t, kind);
        let e = es.last();
        let v = spf_v3::router_pos(ns, e.header.advertising_router, 0);
        lemma_router_pos(ns, e.header.advertising_router, 0);
        if let (Some((k, metric, p)), Some(d)) = (spf_v3::announcement(e), t.distance(v)) {
            assert(goes_on(t.hops[v.unwrap()], ps));
            lemma_route_goes_on(
                rs,
                SpfRouteV3View {
                    prefix: p.address,
                    prefix_len: p.prefix_length,
                    cost: if kind == OspfRouteKind::External2 {
                        metric
                    } else {
                        spf::held_cost(d + metric)
                    },
                    kind,
                    next_hops: t.hops[v.unwrap()],
                },
                ps,
            );
        }
    }
}

proof fn lemma_preferred_go_on(
    a: Seq<SpfRouteV3View>,
    b: Seq<SpfRouteV3View>,
    ps: Seq<SpfNeighborV3>,
)
    requires
        all_go_on(a, ps),
        all_go_on(b, ps),
    ensures
        all_go_on(spf_v3::preferred(a, b), ps),
    decreases b.len(),
{
    if b.len() > 0 {
        let rest = b.drop_last();
        assert forall|i: int| 0 <= i < rest.len() implies goes_on((#[trigger] rest[i]).next_hops, ps) by {
            assert(rest[i] == b[i]);
        }
        lemma_preferred_go_on(a, rest, ps);
        assert(goes_on(b[b.len() - 1].next_hops, ps));
    }
}

/// Every route that is computed has a next hop, and every next hop is the link-local address of one
/// of the neighbors, over the interface that it is met on.
pub proof fn lemma_next_hops(
    es: Seq<LsaEntryV3View>,
    id: u32,
    ps: Seq<SpfNeighborV3>,
    rs: Seq<SpfRouteV3View>,
)
    requires
        spf_v3::computed(es, id, ps, rs),
    ensures
        all_go_on(rs, ps),
{
    let ns = spf_v3::nodes_of(es);
    lemma_router_pos(ns, id, 0);
    if let Some(root) = spf_v3::router_pos(ns, id, 0) {
        let edges = spf_v3::edges_upto(ns, es.len() as int, ps);
        let (ds, labels) = choose|ds: Seq<Option<u128>>, labels: Seq<Seq<Label>>|
            {
                &&& ds.len() == es.len()
                &&& paths::distances(edges, root, ds)
                &&& #[trigger] spf::labelled(edges, root, ds, labels)
                &&& rs == spf_v3::routes_by(es, Reach { ds, hops: spf_v3::all_hops(labels, ps) })
            };
        let t = Reach { ds, hops: spf_v3::all_hops(labels, ps) };
        assert forall|v: int| 0 <= v < ns.len() && t.hops[v].len() > 0 implies goes_on(
            #[trigger] t.hops[v],
            ps,
        ) by {
            lemma_hops_go_on(labels[v], ps);
        }
        let a = spf_v3::intra_routes(es, ns, t);
        let b = spf_v3::announced_routes(es, ns, t, OspfRouteKind::Inter);
        let c = spf_v3::announced_routes(es, ns, t, OspfRouteKind::External1);
        let d = spf_v3::announced_routes(es, ns, t, OspfRouteKind::External2);
        lemma_intra_go_on(es, ns, t, ps);
        lemma_announced_go_on(es, ns, t, OspfRouteKind::Inter, ps);
        lemma_announced_go_on(es, ns, t, OspfRouteKind::External1, ps);
        lemma_announced_go_on(es, ns, t, OspfRouteKind::External2, ps);
        lemma_preferred_go_on(a, b, ps);
        lemma_preferred_go_on(spf_v3::preferred(a, b), c, ps);
        lemma_preferred_go_on(spf_v3::preferred(spf_v3::preferred(a, b), c), d, ps);
    }
}

} // verus!
