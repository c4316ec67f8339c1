//! What holds of computed routes, said of the LSAs alone.
use vstd::prelude::*;

use crate::packet::lsa;
use crate::packet::lsa::{LsaType, RouterLink, RouterLinkType};
use crate::proto::paths::{Edge, Label};
use crate::proto::spf;
use crate::proto::spf::{
    NextHop, OspfRouteKind, RouterPath, SpfInterface, SpfNeighbor, SpfRoute,
};

verus! {

/// A cost as routes hold it.
pub open spec fn capped(c: int) -> int {
    if c > 0xffffffff {
        0xffffffff
    } else {
        c
    }
}

/// Whether the route leads to the network with that address and mask.
pub open spec fn leads_to(r: SpfRoute, address: u32, mask: u32) -> bool {
    &&& r.prefix == address & mask
    &&& r.prefix_len == vstd::std_specs::bits::u32_leading_ones(mask)
}

/// Whether the route is the one that a border router, reached by the path `p`, announces with the
/// Summary-LSA `l`: over that path, at the cost of the path and the announced metric.
pub open spec fn by_summary(l: lsa::LsaView, p: RouterPath, r: SpfRoute) -> bool {
    &&& l.header.ls_type == LsaType::SummaryNetwork
    &&& p.router_id == l.header.advertising_router
    &&& l.body matches lsa::LsaBodyView::Summary(b) && b.metric < 0xffffff && leads_to(
        r,
        l.header.link_state_id,
        b.network_mask,
    ) && r.cost == capped(p.cost + b.metric)
    &&& r.next_hop == p.next_hop
    &&& r.kind == OspfRouteKind::Inter
}

/// Whether the route is the one that a boundary router, reached by the path `p`, announces with the
/// AS-external-LSA `l`: over that path, at the announced metric alone if it is of the second kind,
/// else at the cost of the path and the metric.
pub open spec fn by_external(l: lsa::LsaView, p: RouterPath, r: SpfRoute) -> bool {
    &&& p.router_id == l.header.advertising_router
    &&& l.body matches lsa::LsaBodyView::AsExternal(b) && b.metric < 0xffffff && leads_to(
        r,
        l.header.link_state_id,
        b.network_mask,
    ) && (if b.metric_type_2 {
        r.kind == OspfRouteKind::External2 && r.cost == b.metric
    } else {
        r.kind == OspfRouteKind::External1 && r.cost == capped(p.cost + b.metric)
    })
    &&& r.next_hop == p.next_hop
}

/// Whether the path at position `j` is the first to its router.
pub open spec fn first_path(ps: Seq<RouterPath>, j: int) -> bool {
    &&& 0 <= j < ps.len()
    &&& forall|i: int| 0 <= i < j ==> (#[trigger] ps[i]).router_id != ps[j].router_id
}

/// Whether a route of the table takes the place of `r`: it leads to the same prefix and costs no more.
pub open spec fn stands_for(rs: Seq<SpfRoute>, r: SpfRoute) -> bool {
    exists|i: int|
        0 <= i < rs.len() && (#[trigger] rs[i]).prefix == r.prefix && rs[i].prefix_len
            == r.prefix_len && rs[i].cost <= r.cost
}

proof fn lemma_path_to(ps: Seq<RouterPath>, id: u32, from: int)
    requires
        0 <= from,
    ensures
        match spf::path_to(ps, id, from) {
            Some(p) => exists|j: int|
                from <= j < ps.len() && #[trigger] ps[j] == p && p.router_id == id && forall|i: int|
                    from <= i < j ==> (#[trigger] ps[i]).router_id != id,
            None => forall|i: int| from <= i < ps.len() ==> (#[trigger] ps[i]).router_id != id,
        },
    decreases ps.len() - from,
{
    if from < ps.len() {
        if ps[from].router_id == id {
            assert(ps[from] == spf::path_to(ps, id, from)->0);
        } else {
            lemma_path_to(ps, id, from + 1);
            if let Some(p) = spf::path_to(ps, id, from + 1) {
                let j = choose|j: int|
                    from + 1 <= j < ps.len() && #[trigger] ps[j] == p && p.router_id == id
                        && forall|i: int| from + 1 <= i < j ==> (#[trigger] ps[i]).router_id != id;
                assert(ps[j] == p);
                assert forall|i: int| from <= i < j implies (#[trigger] ps[i]).router_id != id by {}
            }
        }
    }
}

proof fn lemma_first_path(ps: Seq<RouterPath>, j: int)
    requires
        first_path(ps, j),
    ensures
        spf::path_to(ps, ps[j].router_id, 0) == Some(ps[j]),
{
    lemma_path_to(ps, ps[j].router_id, 0);
    match spf::path_to(ps, ps[j].router_id, 0) {
        Some(p) => {
            let k = choose|k: int|
                0 <= k < ps.len() && #[trigger] ps[k] == p && p.router_id == ps[j].router_id
                    && forall|i: int|
                    0 <= i < k ==> (#[trigger] ps[i]).router_id != ps[j].router_id;
            assert(k == j);
        },
        None => {
            assert(ps[j].router_id == ps[j].router_id);
        },
    }
}

/// One more route keeps what stood for others, and adds nothing but itself.
pub proof fn lemma_more(rs: Seq<SpfRoute>, r: SpfRoute)
    ensures
        stands_for(spf::with_route(rs, r), r),
        forall|x: SpfRoute| stands_for(rs, x) ==> #[trigger] stands_for(spf::with_route(rs, r), x),
        forall|i: int|
            0 <= i < spf::with_route(rs, r).len() ==> rs.contains(
                #[trigger] spf::with_route(rs, r)[i],
            ) || spf::with_route(rs, r)[i] == r,
{
    spf::lemma_with_route(rs, r);
    spf::lemma_route_pos(rs, r.prefix, r.prefix_len, 0);
    let t = spf::with_route(rs, r);
    assert(spf::served(t, r.prefix, r.prefix_len, r.cost));
    assert forall|x: SpfRoute| stands_for(rs, x) implies #[trigger] stands_for(t, x) by {
        assert(spf::served(rs, x.prefix, x.prefix_len, x.cost));
        assert(spf::served(t, x.prefix, x.prefix_len, x.cost));
    }
    assert forall|i: int| 0 <= i < t.len() implies rs.contains(#[trigger] t[i]) || t[i] == r by {
        match spf::route_pos(rs, r.prefix, r.prefix_len, 0) {
            Some(j) => {
                if t[i] != r {
                    assert(rs[i] == t[i]);
                }
            },
            None => {
                if i < rs.len() {
                    assert(rs[i] == t[i]);
                }
            },
        }
    }
}

/// A Summary-LSA for a network that can be reached, announced by a border router that a path leads
/// to, yields a route of the right kind that costs no more than the path and the metric.
pub proof fn lemma_summary_yields(ls: Seq<lsa::LsaView>, ps: Seq<RouterPath>, k: int, j: int, r: SpfRoute)
    requires
        0 <= k < ls.len(),
        first_path(ps, j),
        by_summary(ls[k], ps[j], r),
    ensures
        stands_for(spf::inter_routes(ls, ps), r),
    decreases ls.len(),
{
    let rest = ls.drop_last();
    let before = spf::inter_routes(rest, ps);
    if let Some(x) = spf::summary_route(ls.last(), ps) {
        lemma_more(before, x);
    }
    if k < ls.len() - 1 {
        assert(rest[k] == ls[k]);
        lemma_summary_yields(rest, ps, k, j, r);
    } else {
        lemma_first_path(ps, j);
        assert(spf::summary_route(ls.last(), ps) == Some(r));
    }
}

/// Every route between areas is announced by a Summary-LSA of a border router that a path leads to.
pub proof fn lemma_inter_announced(ls: Seq<lsa::LsaView>, ps: Seq<RouterPath>, i: int)
    requires
        0 <= i < spf::inter_routes(ls, ps).len(),
    ensures
        exists|k: int, j: int|
            0 <= k < ls.len() && first_path(ps, j) && #[trigger] by_summary(
                ls[k],
                ps[j],
                spf::inter_routes(ls, ps)[i],
            ),
    decreases ls.len(),
{
    let rest = ls.drop_last();
    let before = spf::inter_routes(rest, ps);
    let r = spf::inter_routes(ls, ps)[i];
    let last = ls.len() - 1;
    if let Some(x) = spf::summary_route(ls.last(), ps) {
        lemma_more(before, x);
        if r == x {
            lemma_path_to(ps, ls.last().header.advertising_router, 0);
            let p = spf::path_to(ps, ls.last().header.advertising_router, 0)->0;
            let j = choose|j: int|
                0 <= j < ps.len() && #[trigger] ps[j] == p && p.router_id
                    == ls.last().header.advertising_router && forall|q: int|
                    0 <= q < j ==> (#[trigger] ps[q]).router_id
                        != ls.last().header.advertising_router;
            if let lsa::LsaBodyView::Summary(b) = ls.last().body {
                vstd::std_specs::bits::axiom_u32_leading_ones(b.network_mask);
            }
            assert(first_path(ps, j));
            assert(by_summary(ls[last], ps[j], r));
        }
    }
    if before.contains(r) {
        let b = choose|b: int| 0 <= b < before.len() && before[b] == r;
        lemma_inter_announced(rest, ps, b);
        let (k, j) = choose|k: int, j: int|
            0 <= k < rest.len() && first_path(ps, j) && #[trigger] by_summary(rest[k], ps[j], r);
        assert(by_summary(ls[k], ps[j], r));
    } else if spf::summary_route(ls.last(), ps) is None {
        assert(before[i] == r);
    }
}

/// An AS-external-LSA for a network that can be reached, announced by a router that a path leads to,
/// yields a route that costs no more than it says.
pub proof fn lemma_external_yields(
    ls: Seq<lsa::LsaView>,
    ps: Seq<RouterPath>,
    k: int,
    j: int,
    r: SpfRoute,
)
    requires
        0 <= k < ls.len(),
        first_path(ps, j),
        by_external(ls[k], ps[j], r),
    ensures
        stands_for(spf::external_routes(ls, ps), r),
    decreases ls.len(),
{
    let rest = ls.drop_last();
    let before = spf::external_routes(rest, ps);
    if let Some(x) = spf::external_route(ls.last(), ps) {
        lemma_more(before, x);
    }
    if k < ls.len() - 1 {
        assert(rest[k] == ls[k]);
        lemma_external_yields(rest, ps, k, j, r);
    } else {
        lemma_first_path(ps, j);
        assert(spf::external_route(ls.last(), ps) == Some(r));
    }
}

/// Every route to the outside is announced by an AS-external-LSA of a router that a path leads to.
pub proof fn lemma_external_announced(ls: Seq<lsa::LsaView>, ps: Seq<RouterPath>, i: int)
    requires
        0 <= i < spf::external_routes(ls, ps).len(),
    ensures
        exists|k: int, j: int|
            0 <= k < ls.len() && first_path(ps, j) && #[trigger] by_external(
                ls[k],
                ps[j],
                spf::external_routes(ls, ps)[i],
            ),
    decreases ls.len(),
{
    let rest = ls.drop_last();
    let before = spf::external_routes(rest, ps);
    let r = spf::external_routes(ls, ps)[i];
    let last = ls.len() - 1;
    if let Some(x) = spf::external_route(ls.last(), ps) {
        lemma_more(before, x);
        if r == x {
            lemma_path_to(ps, ls.last().header.advertising_router, 0);
            let p = spf::path_to(ps, ls.last().header.advertising_router, 0)->0;
            let j = choose|j: int|
                0 <= j < ps.len() && #[trigger] ps[j] == p && p.router_id
                    == ls.last().header.advertising_router && forall|q: int|
                    0 <= q < j ==> (#[trigger] ps[q]).router_id
                        != ls.last().header.advertising_router;
            if let lsa::LsaBodyView::AsExternal(b) = ls.last().body {
                vstd::std_specs::bits::axiom_u32_leading_ones(b.network_mask);
            }
            assert(first_path(ps, j));
            assert(by_external(ls[last], ps[j], r));
        }
    }
    if before.contains(r) {
        let b = choose|b: int| 0 <= b < before.len() && before[b] == r;
        lemma_external_announced(rest, ps, b);
        let (k, j) = choose|k: int, j: int|
            0 <= k < rest.len() && first_path(ps, j) && #[trigger] by_external(rest[k], ps[j], r);
        assert(by_external(ls[k], ps[j], r));
    } else if spf::external_route(ls.last(), ps) is None {
        assert(before[i] == r);
    }
}

proof fn lemma_stub_kinds(rs: Seq<SpfRoute>, links: Seq<RouterLink>, d: u128, hop: NextHop)
    requires
        forall|i: int| 0 <= i < rs.len() ==> (#[trigger] rs[i]).kind == OspfRouteKind::Intra,
    ensures
        forall|i: int|
            0 <= i < spf::with_stubs(rs, links, d, hop).len() ==> (#[trigger] spf::with_stubs(
                rs,
                links,
                d,
                hop,
            )[i]).kind == OspfRouteKind::Intra,
    decreases links.len(),
{
    if links.len() > 0 {
        lemma_stub_kinds(rs, links.drop_last(), d, hop);
        let l = links.last();
        if l.link_type == RouterLinkType::StubNetwork {
            lemma_more(
                spf::with_stubs(rs, links.drop_last(), d, hop),
                spf::route_to(l.link_id, l.link_data, hop, d + l.metric, OspfRouteKind::Intra),
            );
        }
    }
}

/// Every route within an area is of that kind.
pub proof fn lemma_intra_kinds(
    ls: Seq<lsa::LsaView>,
    n: int,
    ds: Seq<Option<u128>>,
    hops: Seq<Option<NextHop>>,
)
    ensures
        forall|i: int|
            0 <= i < spf::intra_routes(ls, n, ds, hops).len() ==> (#[trigger] spf::intra_routes(
                ls,
                n,
                ds,
                hops,
            )[i]).kind == OspfRouteKind::Intra,
    decreases n,
{
    if n > 0 {
        lemma_intra_kinds(ls, n - 1, ds, hops);
        let before = spf::intra_routes(ls, n - 1, ds, hops);
        if let (Some(d), Some(h)) = (ds[n - 1], hops[n - 1]) {
            match ls[n - 1].body {
                lsa::LsaBodyView::Router { flags, links } => {
                    lemma_stub_kinds(before, links, d, h);
                },
                lsa::LsaBodyView::Network { network_mask, attached_routers } => {
                    lemma_more(
                        before,
                        spf::route_to(
                            ls[n - 1].header.link_state_id,
                            network_mask,
                            h,
                            d as int,
                            OspfRouteKind::Intra,
                        ),
                    );
                },
                _ => {},
            }
        }
    }
}

/// Whether the LSA at position `i` leads to the one at position `j` at that cost, and both ends say so:
/// two routers by links from point to point to each other, at the metric of the nearer one; a router
/// to a network by a transit link to its designated router, at the metric of the link, if the network
/// lists the router; and a network, at no cost, to a router that it lists and that has such a link.
pub open spec fn joined(ls: Seq<lsa::LsaView>, i: int, j: int, cost: int) -> bool {
    &&& 0 <= i < ls.len()
    &&& 0 <= j < ls.len()
    &&& match (ls[i].body, ls[j].body) {
        (
            lsa::LsaBodyView::Router { flags, links: near },
            lsa::LsaBodyView::Router { flags: other, links: far },
        ) => {
            &&& has_link(
                near,
                RouterLinkType::PointToPoint,
                ls[j].header.advertising_router,
                Some(cost),
            )
            &&& has_link(
                far,
                RouterLinkType::PointToPoint,
                ls[i].header.advertising_router,
                None,
            )
        },
        (
            lsa::LsaBodyView::Router { flags, links },
            lsa::LsaBodyView::Network { network_mask, attached_routers },
        ) => {
            &&& has_link(
                links,
                RouterLinkType::TransitNetwork,
                ls[j].header.link_state_id,
                Some(cost),
            )
            &&& attached_routers.contains(ls[i].header.advertising_router)
        },
        (
            lsa::LsaBodyView::Network { network_mask, attached_routers },
            lsa::LsaBodyView::Router { flags, links },
        ) => {
            &&& cost == 0
            &&& attached_routers.contains(ls[j].header.advertising_router)
            &&& has_link(
                links,
                RouterLinkType::TransitNetwork,
                ls[i].header.link_state_id,
                None,
            )
        },
        _ => false,
    }
}

/// Whether there is a link of the kind to `id`, with that metric if one is asked for.
pub open spec fn has_link(
    links: Seq<RouterLink>,
    kind: RouterLinkType,
    id: u32,
    metric: Option<int>,
) -> bool {
    exists|k: int|
        0 <= k < links.len() && (#[trigger] links[k]).link_type == kind && links[k].link_id == id && (
        metric matches Some(m) ==> links[k].metric == m)
}

/// Whether the LSA at position `j` is the first that describes its router or network.
pub open spec fn first_of_its_kind(ls: Seq<lsa::LsaView>, j: int) -> bool {
    &&& 0 <= j < ls.len()
    &&& match ls[j].body {
        lsa::LsaBodyView::Router { flags, links } => forall|i: int|
            0 <= i < j && (#[trigger] ls[i]).body is Router ==> ls[i].header.advertising_router
                != ls[j].header.advertising_router,
        lsa::LsaBodyView::Network { network_mask, attached_routers } => forall|i: int|
            0 <= i < j && (#[trigger] ls[i]).body is Network ==> ls[i].header.link_state_id
                != ls[j].header.link_state_id,
        _ => false,
    }
}

proof fn lemma_router_pos(ls: Seq<lsa::LsaView>, id: u32, from: int)
    requires
        0 <= from,
    ensures
        match spf::router_pos(ls, id, from) {
            Some(t) => from <= t < ls.len() && ls[t].body is Router && ls[t].header.advertising_router
                == id && forall|i: int|
                from <= i < t && (#[trigger] ls[i]).body is Router
                    ==> ls[i].header.advertising_router != id,
            None => forall|i: int|
                from <= i < ls.len() && (#[trigger] ls[i]).body is Router
                    ==> ls[i].header.advertising_router != id,
        },
    decreases ls.len() - from,
{
    if from < ls.len() {
        lemma_router_pos(ls, id, from + 1);
    }
}

/// The first Router-LSA of a router is the one that is found.
pub proof fn lemma_root(ls: Seq<lsa::LsaView>, id: u32, root: int)
    requires
        first_of_its_kind(ls, root),
        ls[root].body is Router,
        ls[root].header.advertising_router == id,
    ensures
        spf::router_pos(ls, id, 0) == Some(root),
{
    lemma_router_pos(ls, id, 0);
    if let Some(t) = spf::router_pos(ls, id, 0) {
        if t < root {
            assert(ls[t].body is Router);
        }
        assert(t == root);
    } else {
        assert(ls[root].body is Router);
    }
}

proof fn lemma_network_pos(ls: Seq<lsa::LsaView>, id: u32, from: int)
    requires
        0 <= from,
    ensures
        match spf::network_pos(ls, id, from) {
            Some(t) => from <= t < ls.len() && ls[t].body is Network && ls[t].header.link_state_id
                == id && forall|i: int|
                from <= i < t && (#[trigger] ls[i]).body is Network ==> ls[i].header.link_state_id
                    != id,
            None => forall|i: int|
                from <= i < ls.len() && (#[trigger] ls[i]).body is Network
                    ==> ls[i].header.link_state_id != id,
        },
    decreases ls.len() - from,
{
    if from < ls.len() {
        lemma_network_pos(ls, id, from + 1);
    }
}

proof fn lemma_link_to(links: Seq<RouterLink>, kind: RouterLinkType, id: u32, from: int)
    requires
        0 <= from,
    ensures
        match spf::link_to(links, kind, id, from) {
            Some(l) => l.link_type == kind && l.link_id == id && exists|k: int|
                from <= k < links.len() && #[trigger] links[k] == l,
            None => forall|k: int|
                from <= k < links.len() ==> (#[trigger] links[k]).link_type != kind
                    || links[k].link_id != id,
        },
    decreases links.len() - from,
{
    if from < links.len() {
        lemma_link_to(links, kind, id, from + 1);
        if links[from].link_type == kind && links[from].link_id == id {
            assert(links[from] == spf::link_to(links, kind, id, from)->0);
        } else if let Some(l) = spf::link_to(links, kind, id, from + 1) {
            let k = choose|k: int| from + 1 <= k < links.len() && #[trigger] links[k] == l;
            assert(links[k] == l);
        }
    }
}

/// Whether no interface has the address.
pub open spec fn nowhere(is: Seq<SpfInterface>, address: u32) -> bool {
    forall|f: int| 0 <= f < is.len() ==> (#[trigger] is[f]).address != address
}

/// Whether the edge says where a path starts out that begins with it: towards a router, at the address
/// of the neighbor with its id; towards a network, on the interface with the address of the link.
pub open spec fn starts_right(
    ls: Seq<lsa::LsaView>,
    is: Seq<SpfInterface>,
    ns: Seq<SpfNeighbor>,
    e: Edge,
) -> bool {
    match (ls[e.from as int].body, ls[e.to as int].body) {
        (
            lsa::LsaBodyView::Router { flags, links: near },
            lsa::LsaBodyView::Router { flags: other, links: far },
        ) => e.address is None && (match e.first {
            Some(l) => exists|n: int|
                0 <= n < ns.len() && (#[trigger] ns[n]).router_id
                    == ls[e.to as int].header.advertising_router && l == Label::Via(
                    ns[n].address as u128,
                    ns[n].sw_if_index,
                ),
            None => forall|n: int|
                0 <= n < ns.len() ==> (#[trigger] ns[n]).router_id
                    != ls[e.to as int].header.advertising_router,
        }),
        (
            lsa::LsaBodyView::Router { flags, links },
            lsa::LsaBodyView::Network { network_mask, attached_routers },
        ) => e.address is None && (match e.first {
            Some(l) => exists|f: int, k: int|
                0 <= f < is.len() && 0 <= k < links.len() && (#[trigger] is[f]).address == (
                #[trigger] links[k]).link_data && links[k].link_id
                    == ls[e.to as int].header.link_state_id && links[k].link_type
                    == RouterLinkType::TransitNetwork && l == Label::Link(is[f].sw_if_index),
            None => exists|k: int|
                0 <= k < links.len() && (#[trigger] links[k]).link_type
                    == RouterLinkType::TransitNetwork && nowhere(is, links[k].link_data),
        }),
        (
            lsa::LsaBodyView::Network { network_mask, attached_routers },
            lsa::LsaBodyView::Router { flags, links },
        ) => e.first is None && exists|k: int|
            0 <= k < links.len() && (#[trigger] links[k]).link_type
                == RouterLinkType::TransitNetwork && links[k].link_id
                == ls[e.from as int].header.link_state_id && e.address == Some(
                links[k].link_data as u128,
            ),
        _ => false,
    }
}

/// Whether the edge is one of the area: between two LSAs that are joined at its cost, and with the
/// right start.
pub open spec fn is_edge(
    ls: Seq<lsa::LsaView>,
    is: Seq<SpfInterface>,
    ns: Seq<SpfNeighbor>,
    e: Edge,
) -> bool {
    joined(ls, e.from as int, e.to as int, e.cost as int) && starts_right(ls, is, ns, e)
}

proof fn lemma_neighbor_of(ns: Seq<SpfNeighbor>, id: u32, from: int)
    requires
        0 <= from,
    ensures
        match spf::neighbor_of(ns, id, from) {
            Some(n) => exists|k: int|
                from <= k < ns.len() && #[trigger] ns[k] == n && n.router_id == id,
            None => forall|k: int| from <= k < ns.len() ==> (#[trigger] ns[k]).router_id != id,
        },
    decreases ns.len() - from,
{
    if from < ns.len() {
        lemma_neighbor_of(ns, id, from + 1);
        if ns[from].router_id == id {
            assert(ns[from] == spf::neighbor_of(ns, id, from)->0);
        } else if let Some(n) = spf::neighbor_of(ns, id, from + 1) {
            let k = choose|k: int|
                from + 1 <= k < ns.len() && #[trigger] ns[k] == n && n.router_id == id;
            assert(ns[k] == n);
        }
    }
}

proof fn lemma_interface_at(is: Seq<SpfInterface>, address: u32, from: int)
    requires
        0 <= from,
    ensures
        match spf::interface_at(is, address, from) {
            Some(f) => exists|k: int|
                from <= k < is.len() && #[trigger] is[k] == f && f.address == address,
            None => forall|k: int| from <= k < is.len() ==> (#[trigger] is[k]).address != address,
        },
    decreases is.len() - from,
{
    if from < is.len() {
        lemma_interface_at(is, address, from + 1);
        if is[from].address == address {
            assert(is[from] == spf::interface_at(is, address, from)->0);
        } else if let Some(f) = spf::interface_at(is, address, from + 1) {
            let k = choose|k: int|
                from + 1 <= k < is.len() && #[trigger] is[k] == f && f.address == address;
            assert(is[k] == f);
        }
    }
}

proof fn lemma_link_edge(
    ls: Seq<lsa::LsaView>,
    i: int,
    k: int,
    is: Seq<SpfInterface>,
    ns: Seq<SpfNeighbor>,
)
    requires
        0 <= i < ls.len() <= usize::MAX,
        ls[i].body is Router,
        0 <= k < ls[i].body->links.len(),
    ensures
        spf::link_edge(ls, i, ls[i].body->links[k], is, ns) matches Some(e) ==> e.from == i
            && is_edge(ls, is, ns, e),
        forall|j: int|
            #[trigger] first_of_its_kind(ls, j) && joined(
                ls,
                i,
                j,
                ls[i].body->links[k].metric as int,
            ) && leads_link(ls, i, k, j) ==> (spf::link_edge(
                ls,
                i,
                ls[i].body->links[k],
                is,
                ns,
            ) matches Some(e) && e.to == j && e.cost == ls[i].body->links[k].metric),
{
    let l = ls[i].body->links[k];
    let me = ls[i].header.advertising_router;
    lemma_router_pos(ls, l.link_id, 0);
    lemma_network_pos(ls, l.link_id, 0);
    lemma_neighbor_of(ns, l.link_id, 0);
    lemma_interface_at(is, l.link_data, 0);
    if let Some(t) = spf::router_pos(ls, l.link_id, 0) {
        if let lsa::LsaBodyView::Router { flags, links } = ls[t].body {
            lemma_link_to(links, RouterLinkType::PointToPoint, me, 0);
        }
    }
    assert(has_link(ls[i].body->links, l.link_type, l.link_id, Some(l.metric as int)));
    if let Some(e) = spf::link_edge(ls, i, l, is, ns) {
        assert(joined(ls, i, e.to as int, e.cost as int));
        if l.link_type == RouterLinkType::TransitNetwork {
            if let Some(f) = spf::interface_at(is, l.link_data, 0) {
                let x = choose|x: int|
                    0 <= x < is.len() && #[trigger] is[x] == f && f.address == l.link_data;
                assert(is[x].address == ls[i].body->links[k].link_data);
            } else {
                assert(nowhere(is, ls[i].body->links[k].link_data));
            }
        }
        assert(starts_right(ls, is, ns, e));
    }
}

/// Whether the link at position `k` of the router at position `i` names the LSA at position `j`.
pub open spec fn leads_link(ls: Seq<lsa::LsaView>, i: int, k: int, j: int) -> bool {
    let l = ls[i].body->links[k];
    ||| l.link_type == RouterLinkType::PointToPoint && ls[j].body is Router && l.link_id
        == ls[j].header.advertising_router
    ||| l.link_type == RouterLinkType::TransitNetwork && ls[j].body is Network && l.link_id
        == ls[j].header.link_state_id
}

proof fn lemma_attached_edge(
    ls: Seq<lsa::LsaView>,
    i: int,
    k: int,
    is: Seq<SpfInterface>,
    ns: Seq<SpfNeighbor>,
)
    requires
        0 <= i < ls.len() <= usize::MAX,
        ls[i].body is Network,
        0 <= k < ls[i].body->attached_routers.len(),
    ensures
        spf::attached_edge(ls, i, ls[i].body->attached_routers[k]) matches Some(e) ==> e.from == i
            && is_edge(ls, is, ns, e),
        forall|j: int|
            #[trigger] first_of_its_kind(ls, j) && joined(ls, i, j, 0)
                && ls[i].body->attached_routers[k] == ls[j].header.advertising_router ==> (
            spf::attached_edge(ls, i, ls[i].body->attached_routers[k]) matches Some(e) && e.to == j
                && e.cost == 0),
{
    let id = ls[i].body->attached_routers[k];
    lemma_router_pos(ls, id, 0);
    assert(ls[i].body->attached_routers.contains(id));
    if let Some(t) = spf::router_pos(ls, id, 0) {
        if let lsa::LsaBodyView::Router { flags, links } = ls[t].body {
            lemma_link_to(links, RouterLinkType::TransitNetwork, ls[i].header.link_state_id, 0);
            if let Some(l) = spf::link_to(
                links,
                RouterLinkType::TransitNetwork,
                ls[i].header.link_state_id,
                0,
            ) {
                let x = choose|x: int| 0 <= x < links.len() && #[trigger] links[x] == l;
                assert(links[x].link_type == RouterLinkType::TransitNetwork);
            }
        }
    }
}

/// Whether the edges hold one from `i` to `j` at that cost.
pub open spec fn has_edge(es: Seq<Edge>, i: int, j: int, cost: int) -> bool {
    exists|q: int|
        0 <= q < es.len() && (#[trigger] es[q]).from == i && es[q].to == j && es[q].cost == cost
}

proof fn lemma_link_edges(
    ls: Seq<lsa::LsaView>,
    i: int,
    n: int,
    is: Seq<SpfInterface>,
    ns: Seq<SpfNeighbor>,
)
    requires
        0 <= i < ls.len() <= usize::MAX,
        ls[i].body is Router,
        0 <= n <= ls[i].body->links.len(),
    ensures
        ({
            let es = spf::link_edges(ls, i, ls[i].body->links.take(n), is, ns);
            &&& forall|q: int|
                0 <= q < es.len() ==> is_edge(ls, is, ns, #[trigger] es[q]) && es[q].from == i
            &&& forall|k: int|
                0 <= k < n ==> (spf::link_edge(
                    ls,
                    i,
                    #[trigger] ls[i].body->links[k],
                    is,
                    ns,
                ) matches Some(e) ==> es.contains(e))
        }),
    decreases n,
{
    let links = ls[i].body->links;
    if n > 0 {
        lemma_link_edges(ls, i, n - 1, is, ns);
        assert(links.take(n).drop_last() =~= links.take(n - 1));
        assert(links.take(n).last() == links[n - 1]);
        lemma_link_edge(ls, i, n - 1, is, ns);
        let a = spf::link_edges(ls, i, links.take(n - 1), is, ns);
        let b = spf::link_edges(ls, i, links.take(n), is, ns);
        assert forall|k: int| 0 <= k < n implies (spf::link_edge(
            ls,
            i,
            #[trigger] links[k],
            is,
            ns,
        ) matches Some(e) ==> b.contains(e)) by {
            if let Some(e) = spf::link_edge(ls, i, links[k], is, ns) {
                if k < n - 1 {
                    let x = choose|x: int| 0 <= x < a.len() && a[x] == e;
                    assert(b[x] == e);
                } else {
                    assert(b[b.len() - 1] == e);
                }
            }
        }
    }
}

proof fn lemma_attached_edges(
    ls: Seq<lsa::LsaView>,
    i: int,
    n: int,
    is: Seq<SpfInterface>,
    ns: Seq<SpfNeighbor>,
)
    requires
        0 <= i < ls.len() <= usize::MAX,
        ls[i].body is Network,
        0 <= n <= ls[i].body->attached_routers.len(),
    ensures
        ({
            let es = spf::attached_edges(ls, i, ls[i].body->attached_routers.take(n));
            &&& forall|q: int|
                0 <= q < es.len() ==> is_edge(ls, is, ns, #[trigger] es[q]) && es[q].from == i
            &&& forall|k: int|
                0 <= k < n ==> (spf::attached_edge(
                    ls,
                    i,
                    #[trigger] ls[i].body->attached_routers[k],
                ) matches Some(e) ==> es.contains(e))
        }),
    decreases n,
{
    let ids = ls[i].body->attached_routers;
    if n > 0 {
        lemma_attached_edges(ls, i, n - 1, is, ns);
        assert(ids.take(n).drop_last() =~= ids.take(n - 1));
        assert(ids.take(n).last() == ids[n - 1]);
        lemma_attached_edge(ls, i, n - 1, is, ns);
        let a = spf::attached_edges(ls, i, ids.take(n - 1));
        let b = spf::attached_edges(ls, i, ids.take(n));
        assert forall|k: int| 0 <= k < n implies (spf::attached_edge(
            ls,
            i,
            #[trigger] ids[k],
        ) matches Some(e) ==> b.contains(e)) by {
            if let Some(e) = spf::attached_edge(ls, i, ids[k]) {
                if k < n - 1 {
                    let x = choose|x: int| 0 <= x < a.len() && a[x] == e;
                    assert(b[x] == e);
                } else {
                    assert(b[b.len() - 1] == e);
                }
            }
        }
    }
}

proof fn lemma_edges_at(
    ls: Seq<lsa::LsaView>,
    i: int,
    is: Seq<SpfInterface>,
    ns: Seq<SpfNeighbor>,
    j: int,
    cost: int,
)
    requires
        0 <= i < ls.len() <= usize::MAX,
    ensures
        forall|q: int|
            0 <= q < spf::edges_at(ls, i, is, ns).len() ==> is_edge(
                ls,
                is,
                ns,
                #[trigger] spf::edges_at(ls, i, is, ns)[q],
            ),
        joined(ls, i, j, cost) && first_of_its_kind(ls, j) ==> has_edge(
            spf::edges_at(ls, i, is, ns),
            i,
            j,
            cost,
        ),
{
    let es = spf::edges_at(ls, i, is, ns);
    match ls[i].body {
        lsa::LsaBodyView::Router { flags, links } => {
            lemma_link_edges(ls, i, links.len() as int, is, ns);
            assert(links.take(links.len() as int) =~= links);
            if joined(ls, i, j, cost) && first_of_its_kind(ls, j) {
                let kind = if ls[j].body is Router {
                    RouterLinkType::PointToPoint
                } else {
                    RouterLinkType::TransitNetwork
                };
                let id = if ls[j].body is Router {
                    ls[j].header.advertising_router
                } else {
                    ls[j].header.link_state_id
                };
                let k = choose|k: int|
                    0 <= k < links.len() && (#[trigger] links[k]).link_type == kind
                        && links[k].link_id == id && links[k].metric == cost;
                assert(leads_link(ls, i, k, j));
                lemma_link_edge(ls, i, k, is, ns);
                let e = spf::link_edge(ls, i, links[k], is, ns)->0;
                assert(es.contains(e));
                let q = choose|q: int| 0 <= q < es.len() && es[q] == e;
                assert(es[q].to == j);
            }
        },
        lsa::LsaBodyView::Network { network_mask, attached_routers } => {
            let ids = attached_routers;
            lemma_attached_edges(ls, i, ids.len() as int, is, ns);
            assert(ids.take(ids.len() as int) =~= ids);
            if joined(ls, i, j, cost) && first_of_its_kind(ls, j) {
                let k = choose|k: int|
                    0 <= k < ids.len() && ids[k] == ls[j].header.advertising_router;
                lemma_attached_edge(ls, i, k, is, ns);
                let e = spf::attached_edge(ls, i, ids[k])->0;
                assert(es.contains(e));
                let q = choose|q: int| 0 <= q < es.len() && es[q] == e;
                assert(es[q].to == j);
            }
        },
        _ => {},
    }
}

proof fn lemma_edges_upto(
    ls: Seq<lsa::LsaView>,
    n: int,
    is: Seq<SpfInterface>,
    ns: Seq<SpfNeighbor>,
    i: int,
    j: int,
    cost: int,
)
    requires
        0 <= n <= ls.len() <= usize::MAX,
    ensures
        forall|q: int|
            0 <= q < spf::edges_upto(ls, n, is, ns).len() ==> is_edge(
                ls,
                is,
                ns,
                #[trigger] spf::edges_upto(ls, n, is, ns)[q],
            ),
        i < n && joined(ls, i, j, cost) && first_of_its_kind(ls, j) ==> has_edge(
            spf::edges_upto(ls, n, is, ns),
            i,
            j,
            cost,
        ),
    decreases n,
{
    if n > 0 {
        lemma_edges_upto(ls, n - 1, is, ns, i, j, cost);
        lemma_edges_at(ls, n - 1, is, ns, j, cost);
        let a = spf::edges_upto(ls, n - 1, is, ns);
        let b = spf::edges_at(ls, n - 1, is, ns);
        let all = spf::edges_upto(ls, n, is, ns);
        assert(all == a + b);
        if i < n && joined(ls, i, j, cost) && first_of_its_kind(ls, j) {
            if i < n - 1 {
                let q = choose|q: int|
                    0 <= q < a.len() && (#[trigger] a[q]).from == i && a[q].to == j && a[q].cost
                        == cost;
                assert(all[q] == a[q]);
            } else {
                let q = choose|q: int|
                    0 <= q < b.len() && (#[trigger] b[q]).from == i && b[q].to == j && b[q].cost
                        == cost;
                assert(all[a.len() + q] == b[q]);
            }
        }
    }
}

/// The graph of an area holds an edge for every two LSAs that are joined, and no other: routers and
/// networks are connected exactly where both ends say so, at the cost that the nearer router gives.
pub proof fn lemma_graph(
    ls: Seq<lsa::LsaView>,
    is: Seq<SpfInterface>,
    ns: Seq<SpfNeighbor>,
    i: int,
    j: int,
    cost: int,
)
    requires
        ls.len() <= usize::MAX,
    ensures
        ({
            let es = spf::edges_upto(ls, ls.len() as int, is, ns);
            &&& forall|q: int| 0 <= q < es.len() ==> is_edge(ls, is, ns, #[trigger] es[q])
            &&& joined(ls, i, j, cost) && first_of_its_kind(ls, j) ==> has_edge(es, i, j, cost)
        }),
{
    lemma_edges_upto(ls, ls.len() as int, is, ns, i, j, cost);
}

} // verus!
