//! Route computation.
//!
//! The Router-LSAs and Network-LSAs of an area are a graph. A connection counts only if both ends
//! name each other. Routes lead to the networks of the area by the cheapest paths, to networks
//! behind border routers, and to networks outside.
use vstd::prelude::*;

use crate::packet::lsa;
use crate::packet::lsa::{Lsa, LsaBody, LsaType, RouterLink, RouterLinkType};
use crate::prefix::{apply_mask, mask_to_prefix_len_v4};
use crate::proto::paths;
use crate::proto::paths::{labels, shortest, Edge, Label};
use crate::wire;

verus! {

broadcast use {wire::lemma_views_push, wire::lemma_views_update};

/// An interface as route computation sees it.
#[derive(Clone, Copy, Debug, PartialEq, Eq, Structural)]
pub struct SpfInterface {
    pub address: u32,
    pub mask: u32,
    pub sw_if_index: u32,
    pub cost: u16,
}

/// A neighbor as route computation sees it.
#[derive(Clone, Copy, Debug, PartialEq, Eq, Structural)]
pub struct SpfNeighbor {
    pub router_id: u32,
    pub address: u32,
    pub sw_if_index: u32,
}

/// Where a route leads.
#[derive(Clone, Copy, Debug, PartialEq, Eq, Structural)]
pub struct NextHop {
    pub address: u32,
    pub sw_if_index: u32,
}

/// The kinds of routes, from most to least preferred.
#[derive(Clone, Copy, Debug, PartialEq, Eq, Structural)]
pub enum OspfRouteKind {
    Intra,
    Inter,
    External1,
    External2,
}

/// A computed route.
#[derive(Clone, Copy, Debug, PartialEq, Eq, Structural)]
pub struct SpfRoute {
    pub prefix: u32,
    pub prefix_len: u8,
    pub next_hop: NextHop,
    pub cost: u32,
    pub kind: OspfRouteKind,
}

/// The metric of what cannot be reached.
pub const LS_INFINITY: u32 = 0xffffff;

/// The position of the Router-LSA of a router at or behind `from`.
pub open spec fn router_pos(ls: Seq<lsa::LsaView>, id: u32, from: int) -> Option<int>
    decreases ls.len() - from,
{
    if from < 0 || from >= ls.len() {
        None
    } else if ls[from].body is Router && ls[from].header.advertising_router == id {
        Some(from)
    } else {
        router_pos(ls, id, from + 1)
    }
}

/// The position of the Network-LSA of a network, by the address of its designated router, at or
/// behind `from`.
pub open spec fn network_pos(ls: Seq<lsa::LsaView>, id: u32, from: int) -> Option<int>
    decreases ls.len() - from,
{
    if from < 0 || from >= ls.len() {
        None
    } else if ls[from].body is Network && ls[from].header.link_state_id == id {
        Some(from)
    } else {
        network_pos(ls, id, from + 1)
    }
}

/// The first link of a kind to `id` at or behind `from`.
pub open spec fn link_to(links: Seq<RouterLink>, kind: RouterLinkType, id: u32, from: int) -> Option<
    RouterLink,
>
    decreases links.len() - from,
{
    if from < 0 || from >= links.len() {
        None
    } else if links[from].link_type == kind && links[from].link_id == id {
        Some(links[from])
    } else {
        link_to(links, kind, id, from + 1)
    }
}

/// The first neighbor with that router id at or behind `from`.
pub open spec fn neighbor_of(ns: Seq<SpfNeighbor>, id: u32, from: int) -> Option<SpfNeighbor>
    decreases ns.len() - from,
{
    if from < 0 || from >= ns.len() {
        None
    } else if ns[from].router_id == id {
        Some(ns[from])
    } else {
        neighbor_of(ns, id, from + 1)
    }
}

/// The first interface with that address at or behind `from`.
pub open spec fn interface_at(is: Seq<SpfInterface>, address: u32, from: int) -> Option<
    SpfInterface,
>
    decreases is.len() - from,
{
    if from < 0 || from >= is.len() {
        None
    } else if is[from].address == address {
        Some(is[from])
    } else {
        interface_at(is, address, from + 1)
    }
}

/// The edge of a link of the Router-LSA at position `i`. The other end has to name this one.
pub open spec fn link_edge(
    ls: Seq<lsa::LsaView>,
    i: int,
    l: RouterLink,
    is: Seq<SpfInterface>,
    ns: Seq<SpfNeighbor>,
) -> Option<Edge> {
    let me = ls[i].header.advertising_router;
    match l.link_type {
        RouterLinkType::PointToPoint => match router_pos(ls, l.link_id, 0) {
            Some(t) => match ls[t].body {
                lsa::LsaBodyView::Router { flags, links } => if link_to(
                    links,
                    RouterLinkType::PointToPoint,
                    me,
                    0,
                ) is Some {
                    Some(
                        Edge {
                            from: i as usize,
                            to: t as usize,
                            cost: l.metric as u32,
                            first: match neighbor_of(ns, l.link_id, 0) {
                                Some(n) => Some(Label::Via(n.address as u128, n.sw_if_index)),
                                None => None,
                            },
                            address: None,
                        },
                    )
                } else {
                    None
                },
                _ => None,
            },
            None => None,
        },
        RouterLinkType::TransitNetwork => match network_pos(ls, l.link_id, 0) {
            Some(t) => match ls[t].body {
                lsa::LsaBodyView::Network { network_mask, attached_routers } => {
                    if attached_routers.contains(me) {
                        Some(
                            Edge {
                                from: i as usize,
                                to: t as usize,
                                cost: l.metric as u32,
                                first: match interface_at(is, l.link_data, 0) {
                                    Some(f) => Some(Label::Link(f.sw_if_index)),
                                    None => None,
                                },
                                address: None,
                            },
                        )
                    } else {
                        None
                    }
                },
                _ => None,
            },
            None => None,
        },
        _ => None,
    }
}

/// The edge from the network at position `i` to an attached router, which has to name the network.
pub open spec fn attached_edge(ls: Seq<lsa::LsaView>, i: int, id: u32) -> Option<Edge> {
    match router_pos(ls, id, 0) {
        Some(t) => match ls[t].body {
            lsa::LsaBodyView::Router { flags, links } => match link_to(
                links,
                RouterLinkType::TransitNetwork,
                ls[i].header.link_state_id,
                0,
            ) {
                Some(l) => Some(
                    Edge {
                        from: i as usize,
                        to: t as usize,
                        cost: 0,
                        first: None,
                        address: Some(l.link_data as u128),
                    },
                ),
                None => None,
            },
            _ => None,
        },
        None => None,
    }
}

/// The list with the edge behind it, if there is one.
pub open spec fn with_edge(es: Seq<Edge>, e: Option<Edge>) -> Seq<Edge> {
    match e {
        Some(e) => es.push(e),
        None => es,
    }
}

/// The edges of links of the Router-LSA at position `i`.
pub open spec fn link_edges(
    ls: Seq<lsa::LsaView>,
    i: int,
    links: Seq<RouterLink>,
    is: Seq<SpfInterface>,
    ns: Seq<SpfNeighbor>,
) -> Seq<Edge>
    decreases links.len(),
{
    if links.len() == 0 {
        Seq::empty()
    } else {
        with_edge(
            link_edges(ls, i, links.drop_last(), is, ns),
            link_edge(ls, i, links.last(), is, ns),
        )
    }
}

/// The edges from the network at position `i` to attached routers.
pub open spec fn attached_edges(ls: Seq<lsa::LsaView>, i: int, ids: Seq<u32>) -> Seq<Edge>
    decreases ids.len(),
{
    if ids.len() == 0 {
        Seq::empty()
    } else {
        with_edge(
            attached_edges(ls, i, ids.drop_last()),
            attached_edge(ls, i, ids.last()),
        )
    }
}

/// The edges out of the LSA at position `i`.
pub open spec fn edges_at(
    ls: Seq<lsa::LsaView>,
    i: int,
    is: Seq<SpfInterface>,
    ns: Seq<SpfNeighbor>,
) -> Seq<Edge> {
    match ls[i].body {
        lsa::LsaBodyView::Router { flags, links } => link_edges(ls, i, links, is, ns),
        lsa::LsaBodyView::Network { network_mask, attached_routers } => attached_edges(
            ls,
            i,
            attached_routers,
        ),
        _ => Seq::empty(),
    }
}

/// The edges out of the first `n` LSAs.
pub open spec fn edges_upto(
    ls: Seq<lsa::LsaView>,
    n: int,
    is: Seq<SpfInterface>,
    ns: Seq<SpfNeighbor>,
) -> Seq<Edge>
    decreases n,
{
    if n <= 0 {
        Seq::empty()
    } else {
        edges_upto(ls, n - 1, is, ns) + edges_at(ls, n - 1, is, ns)
    }
}

fn find_router(ls: &Vec<Lsa>, id: u32) -> (r: Option<usize>)
    ensures
        match (r, router_pos(wire::views(ls@), id, 0)) {
            (Some(i), Some(j)) => i == j && i < ls@.len() && ls@[i as int]@.body is Router,
            (None, None) => true,
            _ => false,
        },
{
    let ghost s = wire::views(ls@);
    let mut i: usize = 0;
    while i < ls.len()
        invariant
            i <= ls@.len(),
            s == wire::views(ls@),
            router_pos(s, id, 0) == router_pos(s, id, i as int),
        decreases ls.len() - i,
    {
        assert(s[i as int] == ls@[i as int]@);
        if let LsaBody::Router(_) = &ls[i].body {
            if ls[i].header.advertising_router == id {
                return Some(i);
            }
        }
        i = i + 1;
    }
    None
}

fn find_network(ls: &Vec<Lsa>, id: u32) -> (r: Option<usize>)
    ensures
        match (r, network_pos(wire::views(ls@), id, 0)) {
            (Some(i), Some(j)) => i == j && i < ls@.len() && ls@[i as int]@.body is Network,
            (None, None) => true,
            _ => false,
        },
{
    let ghost s = wire::views(ls@);
    let mut i: usize = 0;
    while i < ls.len()
        invariant
            i <= ls@.len(),
            s == wire::views(ls@),
            network_pos(s, id, 0) == network_pos(s, id, i as int),
        decreases ls.len() - i,
    {
        assert(s[i as int] == ls@[i as int]@);
        if let LsaBody::Network(_) = &ls[i].body {
            if ls[i].header.link_state_id == id {
                return Some(i);
            }
        }
        i = i + 1;
    }
    None
}

fn find_link(links: &Vec<RouterLink>, kind: RouterLinkType, id: u32) -> (r: Option<RouterLink>)
    ensures
        r == link_to(links@, kind, id, 0),
{
    let mut i: usize = 0;
    while i < links.len()
        invariant
            i <= links@.len(),
            link_to(links@, kind, id, 0) == link_to(links@, kind, id, i as int),
        decreases links.len() - i,
    {
        if links[i].link_type == kind && links[i].link_id == id {
            return Some(links[i]);
        }
        i = i + 1;
    }
    None
}

fn find_neighbor(ns: &Vec<SpfNeighbor>, id: u32) -> (r: Option<SpfNeighbor>)
    ensures
        r == neighbor_of(ns@, id, 0),
{
    let mut i: usize = 0;
    while i < ns.len()
        invariant
            i <= ns@.len(),
            neighbor_of(ns@, id, 0) == neighbor_of(ns@, id, i as int),
        decreases ns.len() - i,
    {
        if ns[i].router_id == id {
            return Some(ns[i]);
        }
        i = i + 1;
    }
    None
}

fn find_interface(is: &Vec<SpfInterface>, address: u32) -> (r: Option<SpfInterface>)
    ensures
        r == interface_at(is@, address, 0),
{
    let mut i: usize = 0;
    while i < is.len()
        invariant
            i <= is@.len(),
            interface_at(is@, address, 0) == interface_at(is@, address, i as int),
        decreases is.len() - i,
    {
        if is[i].address == address {
            return Some(is[i]);
        }
        i = i + 1;
    }
    None
}

fn holds(v: &Vec<u32>, x: u32) -> (r: bool)
    ensures
        r == v@.contains(x),
{
    let mut i: usize = 0;
    while i < v.len()
        invariant
            i <= v@.len(),
            forall|k: int| 0 <= k < i ==> v@[k] != x,
        decreases v.len() - i,
    {
        if v[i] == x {
            return true;
        }
        i = i + 1;
    }
    false
}

fn edge_of_link(
    ls: &Vec<Lsa>,
    i: usize,
    l: &RouterLink,
    is: &Vec<SpfInterface>,
    ns: &Vec<SpfNeighbor>,
) -> (r: Option<Edge>)
    requires
        i < ls@.len(),
    ensures
        r == link_edge(wire::views(ls@), i as int, *l, is@, ns@),
        r matches Some(e) ==> e.from < ls@.len() && e.to < ls@.len() && e.first != Some(
            Label::Here,
        ),
{
    let ghost s = wire::views(ls@);
    assert(s[i as int] == ls@[i as int]@);
    let me: u32 = ls[i].header.advertising_router;
    match l.link_type {
        RouterLinkType::PointToPoint => match find_router(ls, l.link_id) {
            Some(t) => {
                assert(s[t as int] == ls@[t as int]@);
                match &ls[t].body {
                    LsaBody::Router(b) => {
                        if find_link(&b.links, RouterLinkType::PointToPoint, me).is_none() {
                            return None;
                        }
                        let first = match find_neighbor(ns, l.link_id) {
                            Some(n) => Some(Label::Via(n.address as u128, n.sw_if_index)),
                            None => None,
                        };
                        Some(
                            Edge { from: i, to: t, cost: l.metric as u32, first, address: None },
                        )
                    },
                    _ => None,
                }
            },
            None => None,
        },
        RouterLinkType::TransitNetwork => match find_network(ls, l.link_id) {
            Some(t) => {
                assert(s[t as int] == ls@[t as int]@);
                match &ls[t].body {
                    LsaBody::Network(b) => {
                        if !holds(&b.attached_routers, me) {
                            return None;
                        }
                        let first = match find_interface(is, l.link_data) {
                            Some(f) => Some(Label::Link(f.sw_if_index)),
                            None => None,
                        };
                        Some(
                            Edge { from: i, to: t, cost: l.metric as u32, first, address: None },
                        )
                    },
                    _ => None,
                }
            },
            None => None,
        },
        _ => None,
    }
}

fn edge_to_attached(ls: &Vec<Lsa>, i: usize, id: u32) -> (r: Option<Edge>)
    requires
        i < ls@.len(),
    ensures
        r == attached_edge(wire::views(ls@), i as int, id),
        r matches Some(e) ==> e.from < ls@.len() && e.to < ls@.len() && e.first != Some(
            Label::Here,
        ),
{
    let ghost s = wire::views(ls@);
    assert(s[i as int] == ls@[i as int]@);
    match find_router(ls, id) {
        Some(t) => {
            assert(s[t as int] == ls@[t as int]@);
            match &ls[t].body {
                LsaBody::Router(b) => match find_link(
                    &b.links,
                    RouterLinkType::TransitNetwork,
                    ls[i].header.link_state_id,
                ) {
                    Some(l) => Some(
                        Edge {
                            from: i,
                            to: t,
                            cost: 0,
                            first: None,
                            address: Some(l.link_data as u128),
                        },
                    ),
                    None => None,
                },
                _ => None,
            }
        },
        None => None,
    }
}

fn push_edges(
    ls: &Vec<Lsa>,
    i: usize,
    is: &Vec<SpfInterface>,
    ns: &Vec<SpfNeighbor>,
    es: &mut Vec<Edge>,
)
    requires
        i < ls@.len(),
        paths::graph(ls@.len(), old(es)@),
    ensures
        final(es)@ == old(es)@ + edges_at(wire::views(ls@), i as int, is@, ns@),
        paths::graph(ls@.len(), final(es)@),
{
    let ghost s = wire::views(ls@);
    let ghost start = es@;
    assert(s[i as int] == ls@[i as int]@);
    match &ls[i].body {
        LsaBody::Router(b) => {
            let mut k: usize = 0;
            assert(b.links@.take(0) =~= Seq::empty());
            assert(start + Seq::<Edge>::empty() =~= start);
            while k < b.links.len()
                invariant
                    k <= b.links@.len(),
                    i < ls@.len(),
                    s == wire::views(ls@),
                    paths::graph(ls@.len(), es@),
                    es@ == start + link_edges(s, i as int, b.links@.take(k as int), is@, ns@),
                decreases b.links.len() - k,
            {
                let ghost had = link_edges(s, i as int, b.links@.take(k as int), is@, ns@);
                assert(b.links@.take(k + 1).drop_last() =~= b.links@.take(k as int));
                match edge_of_link(ls, i, &b.links[k], is, ns) {
                    Some(e) => {
                        es.push(e);
                        assert(es@ =~= start + had.push(e));
                    },
                    None => {},
                }
                k = k + 1;
            }
            assert(b.links@.take(k as int) =~= b.links@);
        },
        LsaBody::Network(b) => {
            let mut k: usize = 0;
            assert(b.attached_routers@.take(0) =~= Seq::empty());
            assert(start + Seq::<Edge>::empty() =~= start);
            while k < b.attached_routers.len()
                invariant
                    k <= b.attached_routers@.len(),
                    i < ls@.len(),
                    s == wire::views(ls@),
                    paths::graph(ls@.len(), es@),
                    es@ == start + attached_edges(s, i as int, b.attached_routers@.take(k as int)),
                decreases b.attached_routers.len() - k,
            {
                let ghost had = attached_edges(s, i as int, b.attached_routers@.take(k as int));
                assert(b.attached_routers@.take(k + 1).drop_last() =~= b.attached_routers@.take(
                    k as int,
                ));
                match edge_to_attached(ls, i, b.attached_routers[k]) {
                    Some(e) => {
                        es.push(e);
                        assert(es@ =~= start + had.push(e));
                    },
                    None => {},
                }
                k = k + 1;
            }
            assert(b.attached_routers@.take(k as int) =~= b.attached_routers@);
        },
        _ => {
            assert(start + Seq::<Edge>::empty() =~= start);
        },
    }
}

/// The connections that both ends name.
pub fn area_edges(ls: &Vec<Lsa>, is: &Vec<SpfInterface>, ns: &Vec<SpfNeighbor>) -> (r: Vec<Edge>)
    ensures
        r@ == edges_upto(wire::views(ls@), ls@.len() as int, is@, ns@),
        paths::graph(ls@.len(), r@),
{
    let ghost s = wire::views(ls@);
    let mut es: Vec<Edge> = Vec::new();
    let mut i: usize = 0;
    while i < ls.len()
        invariant
            i <= ls@.len(),
            s == wire::views(ls@),
            paths::graph(ls@.len(), es@),
            es@ == edges_upto(s, i as int, is@, ns@),
        decreases ls.len() - i,
    {
        push_edges(ls, i, is, ns, &mut es);
        i = i + 1;
    }
    es
}

/// How a router is reached.
#[derive(Clone, Copy, Debug, PartialEq, Eq, Structural)]
pub struct RouterPath {
    pub router_id: u32,
    pub cost: u32,
    pub next_hop: NextHop,
}

/// The cost as a route holds it: costs above the largest number count as that.
pub open spec fn held_cost(c: int) -> u32 {
    if c > u32::MAX {
        u32::MAX
    } else {
        c as u32
    }
}

/// The next hop that a path's start means; none if it has not left the root. On a network of the
/// root the next hop has no address.
pub open spec fn hop_of(l: Label) -> Option<NextHop> {
    match l {
        Label::Here => None,
        Label::Link(i) => Some(NextHop { address: 0, sw_if_index: i }),
        Label::Via(a, i) => Some(NextHop { address: a as u32, sw_if_index: i }),
    }
}

/// The next hops of all vertices: that of the first label.
pub open spec fn hops_of(labels: Seq<Seq<Label>>) -> Seq<Option<NextHop>> {
    Seq::new(
        labels.len(),
        |v: int|
            if labels[v].len() == 0 {
                None
            } else {
                hop_of(labels[v][0])
            },
    )
}

/// The position of the route to the prefix at or behind `from`.
pub open spec fn route_pos(rs: Seq<SpfRoute>, prefix: u32, len: u8, from: int) -> Option<int>
    decreases rs.len() - from,
{
    if from < 0 || from >= rs.len() {
        None
    } else if rs[from].prefix == prefix && rs[from].prefix_len == len {
        Some(from)
    } else {
        route_pos(rs, prefix, len, from + 1)
    }
}

/// The routes with one more; of two routes to a prefix the cheaper stays, the earlier if they cost
/// the same.
pub open spec fn with_route(rs: Seq<SpfRoute>, r: SpfRoute) -> Seq<SpfRoute> {
    match route_pos(rs, r.prefix, r.prefix_len, 0) {
        Some(i) => if r.cost < rs[i].cost {
            rs.update(i, r)
        } else {
            rs
        },
        None => rs.push(r),
    }
}

/// The route to a network.
pub open spec fn route_to(
    address: u32,
    mask: u32,
    next_hop: NextHop,
    cost: int,
    kind: OspfRouteKind,
) -> SpfRoute {
    SpfRoute {
        prefix: address & mask,
        prefix_len: vstd::std_specs::bits::u32_leading_ones(mask) as u8,
        next_hop,
        cost: held_cost(cost),
        kind,
    }
}

/// The routes and those to the stub networks among the links of a router at distance `d`.
pub open spec fn with_stubs(
    rs: Seq<SpfRoute>,
    links: Seq<RouterLink>,
    d: u128,
    hop: NextHop,
) -> Seq<SpfRoute>
    decreases links.len(),
{
    if links.len() == 0 {
        rs
    } else {
        let before = with_stubs(rs, links.drop_last(), d, hop);
        let l = links.last();
        if l.link_type == RouterLinkType::StubNetwork {
            with_route(
                before,
                route_to(l.link_id, l.link_data, hop, d + l.metric, OspfRouteKind::Intra),
            )
        } else {
            before
        }
    }
}

/// The routes and those to what the LSA at position `i` describes.
pub open spec fn with_vertex(
    rs: Seq<SpfRoute>,
    l: lsa::LsaView,
    d: Option<u128>,
    hop: Option<NextHop>,
) -> Seq<SpfRoute> {
    match (d, hop) {
        (Some(d), Some(hop)) => match l.body {
            lsa::LsaBodyView::Router { flags, links } => with_stubs(rs, links, d, hop),
            lsa::LsaBodyView::Network { network_mask, attached_routers } => with_route(
                rs,
                route_to(l.header.link_state_id, network_mask, hop, d as int, OspfRouteKind::Intra),
            ),
            _ => rs,
        },
        _ => rs,
    }
}

/// The routes to what the first `n` LSAs describe.
pub open spec fn intra_routes(
    ls: Seq<lsa::LsaView>,
    n: int,
    ds: Seq<Option<u128>>,
    hops: Seq<Option<NextHop>>,
) -> Seq<SpfRoute>
    decreases n,
{
    if n <= 0 {
        Seq::empty()
    } else {
        with_vertex(intra_routes(ls, n - 1, ds, hops), ls[n - 1], ds[n - 1], hops[n - 1])
    }
}

/// The paths to the routers among the first `n` LSAs.
pub open spec fn router_paths(
    ls: Seq<lsa::LsaView>,
    n: int,
    ds: Seq<Option<u128>>,
    hops: Seq<Option<NextHop>>,
) -> Seq<RouterPath>
    decreases n,
{
    if n <= 0 {
        Seq::empty()
    } else {
        let before = router_paths(ls, n - 1, ds, hops);
        match (ls[n - 1].body, ds[n - 1], hops[n - 1]) {
            (lsa::LsaBodyView::Router { flags, links }, Some(d), Some(next_hop)) => before.push(
                RouterPath {
                    router_id: ls[n - 1].header.advertising_router,
                    cost: held_cost(d as int),
                    next_hop,
                },
            ),
            _ => before,
        }
    }
}

/// Whether the labels of each vertex are those of its cheapest walks, each once.
pub open spec fn labelled(
    es: Seq<Edge>,
    root: int,
    ds: Seq<Option<u128>>,
    labels: Seq<Seq<Label>>,
) -> bool {
    &&& labels.len() == ds.len()
    &&& forall|v: int, l: Label|
        0 <= v < labels.len() ==> (#[trigger] labels[v].contains(l) <==> paths::leads(
            es,
            root,
            ds,
            v,
            l,
        ))
    &&& forall|v: int| 0 <= v < labels.len() ==> (#[trigger] labels[v]).no_duplicates()
}

/// Whether the routes and paths are those by cheapest walks from the vertex `root`. Where several
/// cheapest walks start out differently, any of their next hops may stand.
pub open spec fn computed_from(
    ls: Seq<lsa::LsaView>,
    es: Seq<Edge>,
    root: int,
    routes: Seq<SpfRoute>,
    ps: Seq<RouterPath>,
) -> bool {
    exists|ds: Seq<Option<u128>>, labels: Seq<Seq<Label>>|
        {
            &&& ds.len() == ls.len()
            &&& paths::distances(es, root, ds)
            &&& #[trigger] labelled(es, root, ds, labels)
            &&& routes == intra_routes(ls, ls.len() as int, ds, hops_of(labels))
            &&& ps == router_paths(ls, ls.len() as int, ds, hops_of(labels))
        }
}

/// Whether the routes and paths are those of the router `id`. A router without a Router-LSA has
/// none.
pub open spec fn computed(
    ls: Seq<lsa::LsaView>,
    id: u32,
    is: Seq<SpfInterface>,
    ns: Seq<SpfNeighbor>,
    routes: Seq<SpfRoute>,
    ps: Seq<RouterPath>,
) -> bool {
    match router_pos(ls, id, 0) {
        Some(root) => computed_from(
            ls,
            edges_upto(ls, ls.len() as int, is, ns),
            root,
            routes,
            ps,
        ),
        None => routes == Seq::<SpfRoute>::empty() && ps == Seq::<RouterPath>::empty(),
    }
}

/// The first path to the router at or behind `from`.
pub open spec fn path_to(ps: Seq<RouterPath>, id: u32, from: int) -> Option<RouterPath>
    decreases ps.len() - from,
{
    if from < 0 || from >= ps.len() {
        None
    } else if ps[from].router_id == id {
        Some(ps[from])
    } else {
        path_to(ps, id, from + 1)
    }
}

/// The route that a Summary-LSA for a network offers: by its border router.
pub open spec fn summary_route(l: lsa::LsaView, ps: Seq<RouterPath>) -> Option<SpfRoute> {
    match (l.body, path_to(ps, l.header.advertising_router, 0)) {
        (lsa::LsaBodyView::Summary(b), Some(p)) => if l.header.ls_type == LsaType::SummaryNetwork
            && b.metric < LS_INFINITY {
            Some(
                route_to(
                    l.header.link_state_id,
                    b.network_mask,
                    p.next_hop,
                    p.cost + b.metric,
                    OspfRouteKind::Inter,
                ),
            )
        } else {
            None
        },
        _ => None,
    }
}

/// The route that an AS-external-LSA offers: by the router that announces it. A metric of the
/// second kind stands alone, one of the first adds to the path's.
pub open spec fn external_route(l: lsa::LsaView, ps: Seq<RouterPath>) -> Option<SpfRoute> {
    match (l.body, path_to(ps, l.header.advertising_router, 0)) {
        (lsa::LsaBodyView::AsExternal(b), Some(p)) => if b.metric < LS_INFINITY {
            Some(
                if b.metric_type_2 {
                    route_to(
                        l.header.link_state_id,
                        b.network_mask,
                        p.next_hop,
                        b.metric as int,
                        OspfRouteKind::External2,
                    )
                } else {
                    route_to(
                        l.header.link_state_id,
                        b.network_mask,
                        p.next_hop,
                        p.cost + b.metric,
                        OspfRouteKind::External1,
                    )
                },
            )
        } else {
            None
        },
        _ => None,
    }
}

/// The routes and the one that is offered, if any.
pub open spec fn with_offer(rs: Seq<SpfRoute>, o: Option<SpfRoute>) -> Seq<SpfRoute> {
    match o {
        Some(r) => with_route(rs, r),
        None => rs,
    }
}

/// The routes that Summary-LSAs offer.
pub open spec fn inter_routes(ls: Seq<lsa::LsaView>, ps: Seq<RouterPath>) -> Seq<SpfRoute>
    decreases ls.len(),
{
    if ls.len() == 0 {
        Seq::empty()
    } else {
        with_offer(inter_routes(ls.drop_last(), ps), summary_route(ls.last(), ps))
    }
}

/// The routes that AS-external-LSAs offer.
pub open spec fn external_routes(ls: Seq<lsa::LsaView>, ps: Seq<RouterPath>) -> Seq<SpfRoute>
    decreases ls.len(),
{
    if ls.len() == 0 {
        Seq::empty()
    } else {
        with_offer(external_routes(ls.drop_last(), ps), external_route(ls.last(), ps))
    }
}

fn hold_cost(c: u128) -> (r: u32)
    ensures
        r == held_cost(c as int),
{
    if c > 0xffff_ffff {
        0xffff_ffff
    } else {
        c as u32
    }
}

fn add_cost(d: u128, m: u32) -> (r: u32)
    ensures
        r == held_cost(d + m),
{
    if d > 0xffff_ffff {
        0xffff_ffff
    } else {
        hold_cost(d + m as u128)
    }
}

fn make_route(address: u32, mask: u32, next_hop: NextHop, cost: u32, kind: OspfRouteKind) -> (r:
    SpfRoute)
    ensures
        r == route_to(address, mask, next_hop, cost as int, kind),
{
    SpfRoute {
        prefix: apply_mask(address, mask),
        prefix_len: mask_to_prefix_len_v4(mask),
        next_hop,
        cost,
        kind,
    }
}

fn add_route(rs: &mut Vec<SpfRoute>, r: SpfRoute)
    ensures
        final(rs)@ == with_route(old(rs)@, r),
{
    let mut i: usize = 0;
    while i < rs.len()
        invariant
            i <= rs@.len(),
            rs@ == old(rs)@,
            route_pos(rs@, r.prefix, r.prefix_len, 0) == route_pos(
                rs@,
                r.prefix,
                r.prefix_len,
                i as int,
            ),
        decreases rs.len() - i,
    {
        if rs[i].prefix == r.prefix && rs[i].prefix_len == r.prefix_len {
            if r.cost < rs[i].cost {
                rs.set(i, r);
            }
            return;
        }
        i = i + 1;
    }
    rs.push(r);
}

fn first_hop(labels: &Vec<Label>) -> (r: Option<NextHop>)
    ensures
        r == (if labels@.len() == 0 {
            None
        } else {
            hop_of(labels@[0])
        }),
{
    if labels.len() == 0 {
        return None;
    }
    match labels[0] {
        Label::Here => None,
        Label::Link(i) => Some(NextHop { address: 0, sw_if_index: i }),
        Label::Via(a, i) => Some(NextHop { address: a as u32, sw_if_index: i }),
    }
}

fn add_stubs(rs: &mut Vec<SpfRoute>, links: &Vec<RouterLink>, d: u128, hop: NextHop)
    ensures
        final(rs)@ == with_stubs(old(rs)@, links@, d, hop),
{
    let ghost start = rs@;
    let mut k: usize = 0;
    assert(links@.take(0) =~= Seq::empty());
    while k < links.len()
        invariant
            k <= links@.len(),
            rs@ == with_stubs(start, links@.take(k as int), d, hop),
        decreases links.len() - k,
    {
        assert(links@.take(k + 1).drop_last() =~= links@.take(k as int));
        let l = links[k];
        if l.link_type == RouterLinkType::StubNetwork {
            add_route(
                rs,
                make_route(
                    l.link_id,
                    l.link_data,
                    hop,
                    add_cost(d, l.metric as u32),
                    OspfRouteKind::Intra,
                ),
            );
        }
        k = k + 1;
    }
    assert(links@.take(k as int) =~= links@);
}

fn add_vertex(rs: &mut Vec<SpfRoute>, l: &Lsa, d: Option<u128>, hop: Option<NextHop>)
    ensures
        final(rs)@ == with_vertex(old(rs)@, l@, d, hop),
{
    if let Some(d) = d {
        if let Some(hop) = hop {
            match &l.body {
                LsaBody::Router(b) => {
                    add_stubs(rs, &b.links, d, hop);
                },
                LsaBody::Network(b) => {
                    add_route(
                        rs,
                        make_route(
                            l.header.link_state_id,
                            b.network_mask,
                            hop,
                            hold_cost(d),
                            OspfRouteKind::Intra,
                        ),
                    );
                },
                _ => {},
            }
        }
    }
}

/// The routes within the area and the paths to its routers.
pub fn calculate_spf_with_paths(
    router_id: u32,
    ls: &Vec<Lsa>,
    is: &Vec<SpfInterface>,
    ns: &Vec<SpfNeighbor>,
) -> (r: (Vec<SpfRoute>, Vec<RouterPath>))
    ensures
        computed(wire::views(ls@), router_id, is@, ns@, r.0@, r.1@),
        tidy(r.0@),
{
    let ghost s = wire::views(ls@);
    let mut rs: Vec<SpfRoute> = Vec::new();
    let mut ps: Vec<RouterPath> = Vec::new();
    let root: usize = match find_router(ls, router_id) {
        Some(i) => i,
        None => {
            return (rs, ps);
        },
    };
    let es = area_edges(ls, is, ns);
    let ds = shortest(ls.len(), &es, root);
    let lbs = labels(ls.len(), &es, root, &ds);
    let ghost ll = Seq::new(lbs@.len(), |v: int| lbs@[v]@);
    let ghost hops = hops_of(ll);
    let mut i: usize = 0;
    while i < ls.len()
        invariant
            i <= ls@.len(),
            s == wire::views(ls@),
            ds@.len() == ls@.len(),
            lbs@.len() == ls@.len(),
            ll == Seq::new(lbs@.len(), |v: int| lbs@[v]@),
            hops == hops_of(ll),
            rs@ == intra_routes(s, i as int, ds@, hops),
            ps@ == router_paths(s, i as int, ds@, hops),
        decreases ls.len() - i,
    {
        assert(s[i as int] == ls@[i as int]@);
        let hop = first_hop(&lbs[i]);
        assert(hop == hops[i as int]);
        add_vertex(&mut rs, &ls[i], ds[i], hop);
        if let LsaBody::Router(_) = &ls[i].body {
            if let Some(d) = ds[i] {
                if let Some(next_hop) = hop {
                    ps.push(
                        RouterPath {
                            router_id: ls[i].header.advertising_router,
                            cost: hold_cost(d),
                            next_hop,
                        },
                    );
                }
            }
        }
        i = i + 1;
    }
    proof {
        lemma_intra_tidy(s, ls@.len() as int, ds@, hops);
    }
    assert(labelled(es@, root as int, ds@, ll)) by {
        assert forall|v: int, l: Label| 0 <= v < ll.len() implies (#[trigger] ll[v].contains(l)
            <==> paths::leads(es@, root as int, ds@, v, l)) by {
            assert(ll[v] == lbs@[v]@);
            assert(lbs@[v]@.contains(l) <==> paths::leads(es@, root as int, ds@, v, l));
        }
    }
    (rs, ps)
}

fn find_path(ps: &Vec<RouterPath>, id: u32) -> (r: Option<RouterPath>)
    ensures
        r == path_to(ps@, id, 0),
{
    let mut i: usize = 0;
    while i < ps.len()
        invariant
            i <= ps@.len(),
            path_to(ps@, id, 0) == path_to(ps@, id, i as int),
        decreases ps.len() - i,
    {
        if ps[i].router_id == id {
            return Some(ps[i]);
        }
        i = i + 1;
    }
    None
}

fn offer_of_summary(l: &Lsa, ps: &Vec<RouterPath>) -> (r: Option<SpfRoute>)
    ensures
        r == summary_route(l@, ps@),
{
    match &l.body {
        LsaBody::Summary(b) => match find_path(ps, l.header.advertising_router) {
            Some(p) => if l.header.ls_type == LsaType::SummaryNetwork && b.metric < LS_INFINITY {
                Some(
                    make_route(
                        l.header.link_state_id,
                        b.network_mask,
                        p.next_hop,
                        add_cost(p.cost as u128, b.metric),
                        OspfRouteKind::Inter,
                    ),
                )
            } else {
                None
            },
            None => None,
        },
        _ => None,
    }
}

fn offer_of_external(l: &Lsa, ps: &Vec<RouterPath>) -> (r: Option<SpfRoute>)
    ensures
        r == external_route(l@, ps@),
{
    match &l.body {
        LsaBody::AsExternal(b) => match find_path(ps, l.header.advertising_router) {
            Some(p) => if b.metric >= LS_INFINITY {
                None
            } else if b.metric_type_2 {
                Some(
                    make_route(
                        l.header.link_state_id,
                        b.network_mask,
                        p.next_hop,
                        b.metric,
                        OspfRouteKind::External2,
                    ),
                )
            } else {
                Some(
                    make_route(
                        l.header.link_state_id,
                        b.network_mask,
                        p.next_hop,
                        add_cost(p.cost as u128, b.metric),
                        OspfRouteKind::External1,
                    ),
                )
            },
            None => None,
        },
        _ => None,
    }
}

/// The routes to networks behind border routers.
pub fn calculate_inter_area_routes(ls: &Vec<Lsa>, ps: &Vec<RouterPath>) -> (r: Vec<SpfRoute>)
    ensures
        r@ == inter_routes(wire::views(ls@), ps@),
{
    let ghost s = wire::views(ls@);
    let mut rs: Vec<SpfRoute> = Vec::new();
    let mut i: usize = 0;
    assert(s.take(0) =~= Seq::empty());
    while i < ls.len()
        invariant
            i <= ls@.len(),
            s == wire::views(ls@),
            rs@ == inter_routes(s.take(i as int), ps@),
        decreases ls.len() - i,
    {
        assert(s.take(i + 1).drop_last() =~= s.take(i as int));
        assert(s.take(i + 1).last() == ls@[i as int]@);
        if let Some(r) = offer_of_summary(&ls[i], ps) {
            add_route(&mut rs, r);
        }
        i = i + 1;
    }
    assert(s.take(i as int) =~= s);
    rs
}

/// The routes to networks outside.
pub fn calculate_external_routes(ls: &Vec<Lsa>, ps: &Vec<RouterPath>) -> (r: Vec<SpfRoute>)
    ensures
        r@ == external_routes(wire::views(ls@), ps@),
{
    let ghost s = wire::views(ls@);
    let mut rs: Vec<SpfRoute> = Vec::new();
    let mut i: usize = 0;
    assert(s.take(0) =~= Seq::empty());
    while i < ls.len()
        invariant
            i <= ls@.len(),
            s == wire::views(ls@),
            rs@ == external_routes(s.take(i as int), ps@),
        decreases ls.len() - i,
    {
        assert(s.take(i + 1).drop_last() =~= s.take(i as int));
        assert(s.take(i + 1).last() == ls@[i as int]@);
        if let Some(r) = offer_of_external(&ls[i], ps) {
            add_route(&mut rs, r);
        }
        i = i + 1;
    }
    assert(s.take(i as int) =~= s);
    rs
}

/// Whether no two routes lead to the same prefix and every prefix length is one.
pub open spec fn tidy(rs: Seq<SpfRoute>) -> bool {
    &&& forall|i: int, j: int|
        0 <= i < j < rs.len() ==> (#[trigger] rs[i]).prefix != (#[trigger] rs[j]).prefix
            || rs[i].prefix_len != rs[j].prefix_len
    &&& forall|i: int| 0 <= i < rs.len() ==> (#[trigger] rs[i]).prefix_len <= 32
}

/// Whether some route leads to the prefix at no more than that cost.
pub open spec fn served(rs: Seq<SpfRoute>, prefix: u32, len: u8, cost: u32) -> bool {
    exists|i: int|
        0 <= i < rs.len() && (#[trigger] rs[i]).prefix == prefix && rs[i].prefix_len == len
            && rs[i].cost <= cost
}

/// A route is found exactly if there is one to the prefix.
pub proof fn lemma_route_pos(rs: Seq<SpfRoute>, prefix: u32, len: u8, from: int)
    requires
        0 <= from <= rs.len(),
    ensures
        match route_pos(rs, prefix, len, from) {
            Some(i) => from <= i < rs.len() && rs[i].prefix == prefix && rs[i].prefix_len == len,
            None => forall|i: int|
                from <= i < rs.len() ==> (#[trigger] rs[i]).prefix != prefix || rs[i].prefix_len
                    != len,
        },
    decreases rs.len() - from,
{
    if from < rs.len() {
        lemma_route_pos(rs, prefix, len, from + 1);
    }
}

/// One more route keeps a table tidy and whatever it served served, and is itself served.
pub proof fn lemma_with_route(rs: Seq<SpfRoute>, r: SpfRoute)
    ensures
        tidy(rs) && r.prefix_len <= 32 ==> tidy(with_route(rs, r)),
        served(with_route(rs, r), r.prefix, r.prefix_len, r.cost),
        forall|p: u32, len: u8, c: u32|
            served(rs, p, len, c) ==> #[trigger] served(with_route(rs, r), p, len, c),
{
    lemma_route_pos(rs, r.prefix, r.prefix_len, 0);
    let t = with_route(rs, r);
    match route_pos(rs, r.prefix, r.prefix_len, 0) {
        Some(i) => {
            assert(t[i].prefix == r.prefix);
        },
        None => {
            assert(t[rs.len() as int] == r);
        },
    }
    assert forall|p: u32, len: u8, c: u32| served(rs, p, len, c) implies #[trigger] served(
        t,
        p,
        len,
        c,
    ) by {
        let i = choose|i: int|
            0 <= i < rs.len() && (#[trigger] rs[i]).prefix == p && rs[i].prefix_len == len
                && rs[i].cost <= c;
        assert(t[i].prefix == p && t[i].cost <= c);
    }
}

proof fn lemma_stubs(rs: Seq<SpfRoute>, links: Seq<RouterLink>, d: u128, hop: NextHop)
    ensures
        tidy(rs) ==> tidy(with_stubs(rs, links, d, hop)),
        forall|p: u32, len: u8, c: u32|
            served(rs, p, len, c) ==> #[trigger] served(with_stubs(rs, links, d, hop), p, len, c),
        forall|k: int|
            0 <= k < links.len() && (#[trigger] links[k]).link_type == RouterLinkType::StubNetwork
                ==> served(
                with_stubs(rs, links, d, hop),
                links[k].link_id & links[k].link_data,
                vstd::std_specs::bits::u32_leading_ones(links[k].link_data) as u8,
                held_cost(d + links[k].metric),
            ),
    decreases links.len(),
{
    if links.len() > 0 {
        lemma_stubs(rs, links.drop_last(), d, hop);
        let before = with_stubs(rs, links.drop_last(), d, hop);
        let l = links.last();
        let r = route_to(l.link_id, l.link_data, hop, d + l.metric, OspfRouteKind::Intra);
        vstd::std_specs::bits::axiom_u32_leading_ones(l.link_data);
        lemma_with_route(before, r);
        assert forall|k: int|
            0 <= k < links.len() && (#[trigger] links[k]).link_type
                == RouterLinkType::StubNetwork implies served(
            with_stubs(rs, links, d, hop),
            links[k].link_id & links[k].link_data,
            vstd::std_specs::bits::u32_leading_ones(links[k].link_data) as u8,
            held_cost(d + links[k].metric),
        ) by {
            if k < links.len() - 1 {
                assert(links.drop_last()[k] == links[k]);
            }
        }
    }
}

proof fn lemma_vertex(
    rs: Seq<SpfRoute>,
    l: lsa::LsaView,
    d: Option<u128>,
    hop: Option<NextHop>,
)
    ensures
        tidy(rs) ==> tidy(with_vertex(rs, l, d, hop)),
        forall|p: u32, len: u8, c: u32|
            served(rs, p, len, c) ==> #[trigger] served(with_vertex(rs, l, d, hop), p, len, c),
{
    if let (Some(dd), Some(h)) = (d, hop) {
        match l.body {
            lsa::LsaBodyView::Router { flags, links } => {
                lemma_stubs(rs, links, dd, h);
            },
            lsa::LsaBodyView::Network { network_mask, attached_routers } => {
                vstd::std_specs::bits::axiom_u32_leading_ones(network_mask);
                lemma_with_route(
                    rs,
                    route_to(
                        l.header.link_state_id,
                        network_mask,
                        h,
                        dd as int,
                        OspfRouteKind::Intra,
                    ),
                );
            },
            _ => {},
        }
    }
}

/// The routes within an area lead to each prefix at most once.
pub proof fn lemma_intra_tidy(
    ls: Seq<lsa::LsaView>,
    n: int,
    ds: Seq<Option<u128>>,
    hops: Seq<Option<NextHop>>,
)
    ensures
        tidy(intra_routes(ls, n, ds, hops)),
    decreases n,
{
    if n > 0 {
        lemma_intra_tidy(ls, n - 1, ds, hops);
        lemma_vertex(intra_routes(ls, n - 1, ds, hops), ls[n - 1], ds[n - 1], hops[n - 1]);
    }
}

/// The routes between areas lead to each prefix at most once.
pub proof fn lemma_inter_tidy(ls: Seq<lsa::LsaView>, ps: Seq<RouterPath>)
    ensures
        tidy(inter_routes(ls, ps)),
    decreases ls.len(),
{
    if ls.len() > 0 {
        lemma_inter_tidy(ls.drop_last(), ps);
        if let Some(r) = summary_route(ls.last(), ps) {
            if let lsa::LsaBodyView::Summary(b) = ls.last().body {
                vstd::std_specs::bits::axiom_u32_leading_ones(b.network_mask);
            }
            lemma_with_route(inter_routes(ls.drop_last(), ps), r);
        }
    }
}

/// The routes to the outside lead to each prefix at most once.
pub proof fn lemma_external_tidy(ls: Seq<lsa::LsaView>, ps: Seq<RouterPath>)
    ensures
        tidy(external_routes(ls, ps)),
    decreases ls.len(),
{
    if ls.len() > 0 {
        lemma_external_tidy(ls.drop_last(), ps);
        if let Some(r) = external_route(ls.last(), ps) {
            if let lsa::LsaBodyView::AsExternal(b) = ls.last().body {
                vstd::std_specs::bits::axiom_u32_leading_ones(b.network_mask);
            }
            lemma_with_route(external_routes(ls.drop_last(), ps), r);
        }
    }
}

/// Whether the table serves what the LSA at position `v` describes at its distance.
pub open spec fn serves_vertex(
    rs: Seq<SpfRoute>,
    l: lsa::LsaView,
    d: Option<u128>,
    hop: Option<NextHop>,
) -> bool {
    match (d, hop) {
        (Some(d), Some(_)) => match l.body {
            lsa::LsaBodyView::Router { flags, links } => forall|k: int|
                0 <= k < links.len() && (#[trigger] links[k]).link_type
                    == RouterLinkType::StubNetwork ==> served(
                    rs,
                    links[k].link_id & links[k].link_data,
                    vstd::std_specs::bits::u32_leading_ones(links[k].link_data) as u8,
                    held_cost(d + links[k].metric),
                ),
            lsa::LsaBodyView::Network { network_mask, attached_routers } => served(
                rs,
                l.header.link_state_id & network_mask,
                vstd::std_specs::bits::u32_leading_ones(network_mask) as u8,
                held_cost(d as int),
            ),
            _ => true,
        },
        _ => true,
    }
}

/// Every network of the area that a path with a known start reaches has a route that costs no more
/// than that path.
pub proof fn lemma_reached_served(
    ls: Seq<lsa::LsaView>,
    n: int,
    ds: Seq<Option<u128>>,
    hops: Seq<Option<NextHop>>,
    v: int,
)
    requires
        0 <= v < n,
    ensures
        serves_vertex(intra_routes(ls, n, ds, hops), ls[v], ds[v], hops[v]),
    decreases n,
{
    let before = intra_routes(ls, n - 1, ds, hops);
    lemma_vertex(before, ls[n - 1], ds[n - 1], hops[n - 1]);
    if v < n - 1 {
        lemma_reached_served(ls, n - 1, ds, hops, v);
    } else if let (Some(d), Some(h)) = (ds[v], hops[v]) {
        match ls[v].body {
            lsa::LsaBodyView::Router { flags, links } => {
                lemma_stubs(before, links, d, h);
            },
            lsa::LsaBodyView::Network { network_mask, attached_routers } => {
                lemma_with_route(
                    before,
                    route_to(
                        ls[v].header.link_state_id,
                        network_mask,
                        h,
                        d as int,
                        OspfRouteKind::Intra,
                    ),
                );
            },
            _ => {},
        }
    }
}

} // verus!
