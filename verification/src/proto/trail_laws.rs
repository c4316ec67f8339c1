//! What computed routes have to do with trails: sequences of LSAs each of which leads to the next.
use vstd::prelude::*;

use crate::packet::lsa;
use crate::packet::lsa::RouterLinkType;
use crate::proto::paths;
use crate::proto::paths::Label;
use crate::proto::spf;
use crate::proto::spf::{
    NextHop, OspfRouteKind, RouterPath, SpfInterface, SpfNeighbor, SpfRoute,
};
use crate::proto::spf_laws;

verus! {

/// Where a trail from `root` ends.
pub open spec fn end_of(root: int, t: Seq<(int, int)>) -> int {
    if t.len() == 0 {
        root
    } else {
        t.last().0
    }
}

/// Whether the positions, each with the cost of the step to it, are a trail from the LSA at position
/// `root`: each leads to the next at that cost.
pub open spec fn is_trail(ls: Seq<lsa::LsaView>, root: int, t: Seq<(int, int)>) -> bool
    decreases t.len(),
{
    t.len() == 0 || {
        &&& is_trail(ls, root, t.drop_last())
        &&& spf_laws::first_of_its_kind(ls, t.last().0)
        &&& spf_laws::joined(ls, end_of(root, t.drop_last()), t.last().0, t.last().1)
    }
}

/// What a trail costs.
pub open spec fn trail_cost(t: Seq<(int, int)>) -> int
    decreases t.len(),
{
    if t.len() == 0 {
        0
    } else {
        trail_cost(t.drop_last()) + t.last().1
    }
}

proof fn lemma_walk(
    ls: Seq<lsa::LsaView>,
    is: Seq<SpfInterface>,
    ns: Seq<SpfNeighbor>,
    root: int,
    t: Seq<(int, int)>,
) -> (w: Seq<int>)
    requires
        ls.len() <= usize::MAX,
        0 <= root < ls.len(),
        is_trail(ls, root, t),
    ensures
        paths::is_walk(spf::edges_upto(ls, ls.len() as int, is, ns), root, w, end_of(root, t)),
        paths::cost_of(spf::edges_upto(ls, ls.len() as int, is, ns), w) == trail_cost(t),
        0 <= end_of(root, t) < ls.len(),
    decreases t.len(),
{
    let es = spf::edges_upto(ls, ls.len() as int, is, ns);
    if t.len() == 0 {
        Seq::empty()
    } else {
        let before = lemma_walk(ls, is, ns, root, t.drop_last());
        let i = end_of(root, t.drop_last());
        let (j, c) = t.last();
        spf_laws::lemma_graph(ls, is, ns, i, j, c);
        let q = choose|q: int|
            0 <= q < es.len() && (#[trigger] es[q]).from == i && es[q].to == j && es[q].cost == c;
        let w = before.push(q);
        assert(w.drop_last() =~= before);
        w
    }
}

/// Whether it is known, of every link of our own Router-LSA, where it leads: to a neighbor that hears
/// us, or to the network of an interface that is up.
pub open spec fn starts_known(
    ls: Seq<lsa::LsaView>,
    root: int,
    is: Seq<SpfInterface>,
    ns: Seq<SpfNeighbor>,
) -> bool {
    ls[root].body matches lsa::LsaBodyView::Router { flags, links } && forall|k: int|
        0 <= k < links.len() ==> match (#[trigger] links[k]).link_type {
            RouterLinkType::PointToPoint => exists|n: int|
                0 <= n < ns.len() && (#[trigger] ns[n]).router_id == links[k].link_id,
            RouterLinkType::TransitNetwork => !spf_laws::nowhere(is, links[k].link_data),
            _ => true,
        }
}

proof fn lemma_label(
    ls: Seq<lsa::LsaView>,
    is: Seq<SpfInterface>,
    ns: Seq<SpfNeighbor>,
    root: int,
    w: Seq<int>,
    v: int,
)
    requires
        ls.len() <= usize::MAX,
        0 <= root < ls.len(),
        starts_known(ls, root, is, ns),
        w.len() > 0,
        paths::is_walk(spf::edges_upto(ls, ls.len() as int, is, ns), root, w, v),
    ensures
        paths::label_of(spf::edges_upto(ls, ls.len() as int, is, ns), w) matches Some(l) && l
            != Label::Here && (l is Link ==> ls[v].body is Network),
    decreases w.len(),
{
    let es = spf::edges_upto(ls, ls.len() as int, is, ns);
    spf_laws::lemma_graph(ls, is, ns, 0, 0, 0);
    let e = es[w.last()];
    assert(spf_laws::is_edge(ls, is, ns, e));
    let front = w.drop_last();
    assert(paths::is_walk(es, root, front, e.from as int));
    if front.len() == 0 {
        assert(e.from == root);
        assert(paths::label_of(es, front) == Some(Label::Here));
        let links = ls[root].body->links;
        if e.first is None {
            match ls[v].body {
                lsa::LsaBodyView::Router { flags, links: far } => {
                    let k = choose|k: int|
                        0 <= k < links.len() && (#[trigger] links[k]).link_type
                            == RouterLinkType::PointToPoint && links[k].link_id
                            == ls[v].header.advertising_router && links[k].metric == e.cost;
                    let n = choose|n: int|
                        0 <= n < ns.len() && (#[trigger] ns[n]).router_id == links[k].link_id;
                    assert(ns[n].router_id != ls[v].header.advertising_router);
                },
                _ => {
                    let k = choose|k: int|
                        0 <= k < links.len() && (#[trigger] links[k]).link_type
                            == RouterLinkType::TransitNetwork && spf_laws::nowhere(
                            is,
                            links[k].link_data,
                        );
                    assert(!spf_laws::nowhere(is, links[k].link_data));
                },
            }
        }
    } else {
        lemma_label(ls, is, ns, root, front, e.from as int);
    }
}

proof fn lemma_hop(
    ls: Seq<lsa::LsaView>,
    is: Seq<SpfInterface>,
    ns: Seq<SpfNeighbor>,
    root: int,
    ds: Seq<Option<u128>>,
    labels: Seq<Seq<Label>>,
    v: int,
)
    requires
        ls.len() <= usize::MAX,
        0 <= root < ls.len(),
        starts_known(ls, root, is, ns),
        ds.len() == ls.len(),
        paths::distances(spf::edges_upto(ls, ls.len() as int, is, ns), root, ds),
        spf::labelled(spf::edges_upto(ls, ls.len() as int, is, ns), root, ds, labels),
        0 <= v < ls.len(),
        v != root,
        ds[v] is Some,
    ensures
        spf::hops_of(labels)[v] is Some,
{
    let es = spf::edges_upto(ls, ls.len() as int, is, ns);
    assert(paths::is_distance(es, root, v, ds[v]));
    let d = ds[v]->0;
    let w = choose|w: Seq<int>| paths::is_walk(es, root, w, v) && #[trigger] paths::cost_of(es, w)
        == d;
    assert(w.len() > 0);
    lemma_label(ls, is, ns, root, w, v);
    let l = paths::label_of(es, w)->0;
    assert(paths::cheapest(es, root, ds, w, v));
    assert(paths::leads(es, root, ds, v, l));
    assert(labels[v].contains(l));
    let first = labels[v][0];
    assert(labels[v].contains(first));
    assert(paths::leads(es, root, ds, v, first));
    let x = choose|x: Seq<int>|
        paths::cheapest(es, root, ds, x, v) && #[trigger] paths::label_of(es, x) == Some(first);
    assert(paths::is_walk(es, root, x, v));
    assert(x.len() > 0);
    lemma_label(ls, is, ns, root, x, v);
}

proof fn lemma_path_listed(
    ls: Seq<lsa::LsaView>,
    n: int,
    ds: Seq<Option<u128>>,
    hops: Seq<Option<NextHop>>,
    v: int,
)
    requires
        0 <= v < n,
        ls[v].body is Router,
        ds[v] is Some,
        hops[v] is Some,
    ensures
        exists|j: int|
            0 <= j < spf::router_paths(ls, n, ds, hops).len() && (#[trigger] spf::router_paths(
                ls,
                n,
                ds,
                hops,
            )[j]).router_id == ls[v].header.advertising_router && spf::router_paths(
                ls,
                n,
                ds,
                hops,
            )[j].cost == spf_laws::capped(ds[v]->0 as int) && spf::router_paths(
                ls,
                n,
                ds,
                hops,
            )[j].next_hop == hops[v]->0,
    decreases n,
{
    let a = spf::router_paths(ls, n - 1, ds, hops);
    let b = spf::router_paths(ls, n, ds, hops);
    if v < n - 1 {
        lemma_path_listed(ls, n - 1, ds, hops, v);
        let j = choose|j: int|
            0 <= j < a.len() && (#[trigger] a[j]).router_id == ls[v].header.advertising_router
                && a[j].cost == spf_laws::capped(ds[v]->0 as int) && a[j].next_hop == hops[v]->0;
        assert(b[j] == a[j]);
    } else {
        assert(b[a.len() as int].router_id == ls[v].header.advertising_router);
    }
}

/// Whether some path leads to the router at no more than that cost.
pub open spec fn path_within(ps: Seq<RouterPath>, id: u32, cost: int) -> bool {
    exists|j: int| 0 <= j < ps.len() && (#[trigger] ps[j]).router_id == id && ps[j].cost <= cost
}

/// Whether some route leads to the network at no more than that cost.
pub open spec fn route_within(rs: Seq<SpfRoute>, address: u32, mask: u32, cost: int) -> bool {
    exists|i: int|
        0 <= i < rs.len() && spf_laws::leads_to(#[trigger] rs[i], address, mask) && rs[i].cost
            <= cost
}

/// Wherever a trail leads from our Router-LSA, what it ends at is reached: a router by a path, each of
/// its stub networks by a route that adds the metric of the stub, and a network by a route; each at no
/// more than the trail costs.
pub proof fn lemma_trail_served(
    ls: Seq<lsa::LsaView>,
    id: u32,
    is: Seq<SpfInterface>,
    ns: Seq<SpfNeighbor>,
    routes: Seq<SpfRoute>,
    ps: Seq<RouterPath>,
    root: int,
    t: Seq<(int, int)>,
)
    requires
        ls.len() <= usize::MAX,
        spf::computed(ls, id, is, ns, routes, ps),
        spf_laws::first_of_its_kind(ls, root),
        ls[root].body is Router,
        ls[root].header.advertising_router == id,
        starts_known(ls, root, is, ns),
        is_trail(ls, root, t),
        end_of(root, t) != root,
    ensures
        ({
            let v = end_of(root, t);
            match ls[v].body {
                lsa::LsaBodyView::Router { flags, links } => {
                    &&& path_within(ps, ls[v].header.advertising_router, trail_cost(t))
                    &&& forall|k: int|
                        0 <= k < links.len() && (#[trigger] links[k]).link_type
                            == RouterLinkType::StubNetwork ==> route_within(
                            routes,
                            links[k].link_id,
                            links[k].link_data,
                            trail_cost(t) + links[k].metric,
                        )
                },
                lsa::LsaBodyView::Network { network_mask, attached_routers } => route_within(
                    routes,
                    ls[v].header.link_state_id,
                    network_mask,
                    trail_cost(t),
                ),
                _ => true,
            }
        }),
{
    let es = spf::edges_upto(ls, ls.len() as int, is, ns);
    let v = end_of(root, t);
    let w = lemma_walk(ls, is, ns, root, t);
    spf_laws::lemma_root(ls, id, root);
    let (ds, labels) = choose|ds: Seq<Option<u128>>, labels: Seq<Seq<Label>>|
        {
            &&& ds.len() == ls.len()
            &&& paths::distances(es, root, ds)
            &&& #[trigger] spf::labelled(es, root, ds, labels)
            &&& routes == spf::intra_routes(ls, ls.len() as int, ds, spf::hops_of(labels))
            &&& ps == spf::router_paths(ls, ls.len() as int, ds, spf::hops_of(labels))
        };
    assert(paths::is_distance(es, root, v, ds[v]));
    assert(ds[v] is Some);
    let d = ds[v]->0;
    assert(d <= trail_cost(t));
    lemma_hop(ls, is, ns, root, ds, labels, v);
    let hops = spf::hops_of(labels);
    spf::lemma_reached_served(ls, ls.len() as int, ds, hops, v);
    match ls[v].body {
        lsa::LsaBodyView::Router { flags, links } => {
            lemma_path_listed(ls, ls.len() as int, ds, hops, v);
            assert forall|k: int|
                0 <= k < links.len() && (#[trigger] links[k]).link_type
                    == RouterLinkType::StubNetwork implies route_within(
                routes,
                links[k].link_id,
                links[k].link_data,
                trail_cost(t) + links[k].metric,
            ) by {
                vstd::std_specs::bits::axiom_u32_leading_ones(links[k].link_data);
                let p = links[k].link_id & links[k].link_data;
                let len = vstd::std_specs::bits::u32_leading_ones(links[k].link_data) as u8;
                let c = spf::held_cost(d + links[k].metric);
                assert(spf::served(routes, p, len, c));
                let i = choose|i: int|
                    0 <= i < routes.len() && (#[trigger] routes[i]).prefix == p
                        && routes[i].prefix_len == len && routes[i].cost <= c;
                assert(spf_laws::leads_to(routes[i], links[k].link_id, links[k].link_data));
            }
        },
        lsa::LsaBodyView::Network { network_mask, attached_routers } => {
            vstd::std_specs::bits::axiom_u32_leading_ones(network_mask);
            let p = ls[v].header.link_state_id & network_mask;
            let len = vstd::std_specs::bits::u32_leading_ones(network_mask) as u8;
            let i = choose|i: int|
                0 <= i < routes.len() && (#[trigger] routes[i]).prefix == p && routes[i].prefix_len
                    == len && routes[i].cost <= spf::held_cost(d as int);
            assert(spf_laws::leads_to(routes[i], ls[v].header.link_state_id, network_mask));
        },
        _ => {},
    }
}

/// Whether the route leads to something that the LSA describes at distance `d`: a stub network of a
/// router, with the metric of the stub on top, or the network itself.
pub open spec fn described(l: lsa::LsaView, d: int, hop: NextHop, r: SpfRoute) -> bool {
    &&& r.kind == OspfRouteKind::Intra
    &&& r.next_hop == hop
    &&& match l.body {
        lsa::LsaBodyView::Router { flags, links } => exists|k: int|
            0 <= k < links.len() && (#[trigger] links[k]).link_type == RouterLinkType::StubNetwork
                && spf_laws::leads_to(r, links[k].link_id, links[k].link_data) && r.cost
                == spf_laws::capped(d + links[k].metric),
        lsa::LsaBodyView::Network { network_mask, attached_routers } => spf_laws::leads_to(
            r,
            l.header.link_state_id,
            network_mask,
        ) && r.cost == spf_laws::capped(d),
        _ => false,
    }
}

proof fn lemma_stub_source(
    rs: Seq<SpfRoute>,
    links: Seq<lsa::RouterLink>,
    d: u128,
    hop: NextHop,
    r: SpfRoute,
)
    requires
        spf::with_stubs(rs, links, d, hop).contains(r),
    ensures
        rs.contains(r) || r.kind == OspfRouteKind::Intra && r.next_hop == hop && exists|k: int|
            0 <= k < links.len() && (#[trigger] links[k]).link_type == RouterLinkType::StubNetwork
                && spf_laws::leads_to(r, links[k].link_id, links[k].link_data) && r.cost
                == spf_laws::capped(d + links[k].metric),
    decreases links.len(),
{
    if links.len() > 0 {
        let rest = links.drop_last();
        let before = spf::with_stubs(rs, rest, d, hop);
        let l = links.last();
        if l.link_type == RouterLinkType::StubNetwork {
            let x = spf::route_to(l.link_id, l.link_data, hop, d + l.metric, OspfRouteKind::Intra);
            vstd::std_specs::bits::axiom_u32_leading_ones(l.link_data);
            spf_laws::lemma_more(before, x);
            let all = spf::with_stubs(rs, links, d, hop);
            let i = choose|i: int| 0 <= i < all.len() && all[i] == r;
            if r == x {
                assert(spf_laws::leads_to(
                    r,
                    links[links.len() - 1].link_id,
                    links[links.len() - 1].link_data,
                ));
            } else {
                assert(before.contains(all[i]));
            }
        }
        if before.contains(r) {
            lemma_stub_source(rs, rest, d, hop, r);
            if !rs.contains(r) {
                let k = choose|k: int|
                    0 <= k < rest.len() && (#[trigger] rest[k]).link_type
                        == RouterLinkType::StubNetwork && spf_laws::leads_to(
                        r,
                        rest[k].link_id,
                        rest[k].link_data,
                    ) && r.cost == spf_laws::capped(d + rest[k].metric);
                assert(links[k] == rest[k]);
            }
        }
    }
}

/// Every route within an area leads to something that an LSA describes, at the distance of the LSA and
/// over the next hop of the paths to it.
pub proof fn lemma_intra_source(
    ls: Seq<lsa::LsaView>,
    n: int,
    ds: Seq<Option<u128>>,
    hops: Seq<Option<NextHop>>,
    r: SpfRoute,
) -> (v: int)
    requires
        0 <= n <= ls.len(),
        spf::intra_routes(ls, n, ds, hops).contains(r),
    ensures
        0 <= v < n,
        ds[v] is Some,
        hops[v] is Some,
        described(ls[v], ds[v]->0 as int, hops[v]->0, r),
    decreases n,
{
    let before = spf::intra_routes(ls, n - 1, ds, hops);
    let all = spf::intra_routes(ls, n, ds, hops);
    if before.contains(r) {
        lemma_intra_source(ls, n - 1, ds, hops, r)
    } else {
        let d = ds[n - 1]->0;
        let hop = hops[n - 1]->0;
        match ls[n - 1].body {
            lsa::LsaBodyView::Router { flags, links } => {
                lemma_stub_source(before, links, d, hop, r);
            },
            lsa::LsaBodyView::Network { network_mask, attached_routers } => {
                let x = spf::route_to(
                    ls[n - 1].header.link_state_id,
                    network_mask,
                    hop,
                    d as int,
                    OspfRouteKind::Intra,
                );
                vstd::std_specs::bits::axiom_u32_leading_ones(network_mask);
                spf_laws::lemma_more(before, x);
                let i = choose|i: int| 0 <= i < all.len() && all[i] == r;
                assert(before.contains(all[i]) || all[i] == x);
            },
            _ => {},
        }
        n - 1
    }
}

} // verus!
