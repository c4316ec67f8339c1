//! OSPFv3 route computation.
//!
//! Router-LSAs and Network-LSAs are a graph, as in OSPFv2, but hold no addresses: prefixes hang on
//! its vertices by LSAs of their own. A route keeps every next hop of least cost.
use vstd::prelude::*;

use crate::lsdb_v3;
use crate::lsdb_v3::{LsaEntryV3, LsdbV3};
use crate::packet_v3;
use crate::packet_v3::lsa;
use crate::packet_v3::lsa::{
    InterAreaPrefixLsaV3, IntraAreaPrefixLsaV3, NetworkLsaV3, RouterLinkV3, RouterLsaV3,
    TYPE_POINT_TO_POINT, TYPE_TRANSIT_NETWORK,
};
use crate::packet_v3::prefix::Ospfv3Prefix;
use crate::packet_v3::{LsaV3Type, MAX_AGE};
use crate::proto::paths;
use crate::proto::paths::{labels, shortest, Edge, Label};
use crate::proto::spf;
use crate::proto::spf::{OspfRouteKind, LS_INFINITY};
use crate::wire;

verus! {

broadcast use {wire::lemma_views_push, wire::lemma_views_update};

/// A Full neighbor, through which next hops are resolved.
#[derive(Clone, Copy, Debug, PartialEq, Eq, Structural)]
pub struct SpfNeighborV3 {
    pub router_id: u32,
    pub link_local: u128,
    pub sw_if_index: u32,
}

/// A computed route with every path of least cost: next hop and interface index.
#[derive(Debug)]
pub struct SpfRouteV3 {
    pub prefix: u128,
    pub prefix_len: u8,
    pub cost: u32,
    pub kind: OspfRouteKind,
    pub next_hops: Vec<(u128, u32)>,
}

/// What a computed route says.
pub struct SpfRouteV3View {
    pub prefix: u128,
    pub prefix_len: u8,
    pub cost: u32,
    pub kind: OspfRouteKind,
    pub next_hops: Seq<(u128, u32)>,
}

impl View for SpfRouteV3 {
    type V = SpfRouteV3View;

    open spec fn view(&self) -> SpfRouteV3View {
        SpfRouteV3View {
            prefix: self.prefix,
            prefix_len: self.prefix_len,
            cost: self.cost,
            kind: self.kind,
            next_hops: self.next_hops@,
        }
    }
}

/// What an LSA is in the graph.
#[derive(Debug)]
pub enum Node {
    /// A router and its links.
    Router(u32, Vec<RouterLinkV3>),
    /// A network, by the id of its designated router and the interface id there, and the routers
    /// that are attached to it.
    Network(u32, u32, Vec<u32>),
    Other,
}

/// What an LSA is in the graph.
pub enum NodeView {
    Router(u32, Seq<RouterLinkV3>),
    Network(u32, u32, Seq<u32>),
    Other,
}

impl View for Node {
    type V = NodeView;

    open spec fn view(&self) -> NodeView {
        match *self {
            Node::Router(id, links) => NodeView::Router(id, links@),
            Node::Network(dr, id, attached) => NodeView::Network(dr, id, attached@),
            Node::Other => NodeView::Other,
        }
    }
}

/// What a stored LSA is in the graph. LSAs at the maximal age and such that cannot be read are
/// nothing.
pub open spec fn node_of(e: lsdb_v3::LsaEntryV3View) -> NodeView {
    let h = e.header;
    if h.ls_age >= MAX_AGE || e.body().len() < 4 {
        NodeView::Other
    } else if h.ls_type == LsaV3Type::Router {
        NodeView::Router(h.advertising_router, lsa::links_from(e.body()))
    } else if h.ls_type == LsaV3Type::Network {
        NodeView::Network(
            h.advertising_router,
            h.link_state_id,
            packet_v3::u32s_from(e.body(), 4),
        )
    } else {
        NodeView::Other
    }
}

/// What the stored LSAs are in the graph.
pub open spec fn nodes_of(es: Seq<lsdb_v3::LsaEntryV3View>) -> Seq<NodeView> {
    Seq::new(es.len(), |i: int| node_of(es[i]))
}

/// The vertex of a router: the position of its first Router-LSA at or behind `from`.
pub open spec fn router_pos(ns: Seq<NodeView>, id: u32, from: int) -> Option<int>
    decreases ns.len() - from,
{
    if from < 0 || from >= ns.len() {
        None
    } else {
        match ns[from] {
            NodeView::Router(r, _) => if r == id {
                Some(from)
            } else {
                router_pos(ns, id, from + 1)
            },
            _ => router_pos(ns, id, from + 1),
        }
    }
}

/// The vertex of a network at or behind `from`.
pub open spec fn network_pos(ns: Seq<NodeView>, dr: u32, id: u32, from: int) -> Option<int>
    decreases ns.len() - from,
{
    if from < 0 || from >= ns.len() {
        None
    } else {
        match ns[from] {
            NodeView::Network(r, i, _) => if r == dr && i == id {
                Some(from)
            } else {
                network_pos(ns, dr, id, from + 1)
            },
            _ => network_pos(ns, dr, id, from + 1),
        }
    }
}

/// Whether a link leads to the router.
pub open spec fn joins_router(links: Seq<RouterLinkV3>, id: u32) -> bool {
    exists|k: int|
        0 <= k < links.len() && (#[trigger] links[k]).link_type == TYPE_POINT_TO_POINT
            && links[k].neighbor_router_id == id
}

/// Whether a link leads to the network.
pub open spec fn joins_network(links: Seq<RouterLinkV3>, dr: u32, id: u32) -> bool {
    exists|k: int|
        0 <= k < links.len() && (#[trigger] links[k]).link_type == TYPE_TRANSIT_NETWORK
            && links[k].neighbor_router_id == dr && links[k].neighbor_interface_id == id
}

/// Whether some Router-LSA of the router names the other router.
pub open spec fn names_router(ns: Seq<NodeView>, id: u32, other: u32) -> bool {
    exists|k: int|
        0 <= k < ns.len() && ((#[trigger] ns[k]) matches NodeView::Router(r, links) && r == id
            && joins_router(links, other))
}

/// Whether some Router-LSA of the router names the network.
pub open spec fn names_network(ns: Seq<NodeView>, id: u32, dr: u32, iid: u32) -> bool {
    exists|k: int|
        0 <= k < ns.len() && ((#[trigger] ns[k]) matches NodeView::Router(r, links) && r == id
            && joins_network(links, dr, iid))
}

/// The position of the first neighbor with that router id at or behind `from`.
pub open spec fn neighbor_pos(ps: Seq<SpfNeighborV3>, id: u32, from: int) -> Option<int>
    decreases ps.len() - from,
{
    if from < 0 || from >= ps.len() {
        None
    } else if ps[from].router_id == id {
        Some(from)
    } else {
        neighbor_pos(ps, id, from + 1)
    }
}

/// The edge of a link of the router with the vertex `v`. The other end has to name it. A path that
/// starts out by it is labelled with the position of the neighbor.
pub open spec fn link_edge(
    ns: Seq<NodeView>,
    v: int,
    id: u32,
    l: RouterLinkV3,
    ps: Seq<SpfNeighborV3>,
) -> Option<Edge> {
    if l.link_type == TYPE_POINT_TO_POINT {
        match router_pos(ns, l.neighbor_router_id, 0) {
            Some(t) => if names_router(ns, l.neighbor_router_id, id) {
                Some(
                    Edge {
                        from: v as usize,
                        to: t as usize,
                        cost: l.metric as u32,
                        first: match neighbor_pos(ps, l.neighbor_router_id, 0) {
                            Some(k) => Some(Label::Via(k as u128, 0)),
                            None => None,
                        },
                        address: None,
                    },
                )
            } else {
                None
            },
            None => None,
        }
    } else if l.link_type == TYPE_TRANSIT_NETWORK {
        match network_pos(ns, l.neighbor_router_id, l.neighbor_interface_id, 0) {
            Some(t) => match ns[t] {
                NodeView::Network(_, _, attached) => if attached.contains(id) {
                    Some(
                        Edge {
                            from: v as usize,
                            to: t as usize,
                            cost: l.metric as u32,
                            first: Some(Label::Link(0)),
                            address: None,
                        },
                    )
                } else {
                    None
                },
                _ => None,
            },
            None => None,
        }
    } else {
        None
    }
}

/// The edge from the network at position `i` to an attached router, which has to name the network.
pub open spec fn attached_edge(
    ns: Seq<NodeView>,
    i: int,
    dr: u32,
    iid: u32,
    id: u32,
    ps: Seq<SpfNeighborV3>,
) -> Option<Edge> {
    match router_pos(ns, id, 0) {
        Some(t) => if names_network(ns, id, dr, iid) {
            Some(
                Edge {
                    from: i as usize,
                    to: t as usize,
                    cost: 0,
                    first: None,
                    address: match neighbor_pos(ps, id, 0) {
                        Some(k) => Some(k as u128),
                        None => None,
                    },
                },
            )
        } else {
            None
        },
        None => None,
    }
}

/// The edges of links of the router with the vertex `v`.
pub open spec fn link_edges(
    ns: Seq<NodeView>,
    v: int,
    id: u32,
    links: Seq<RouterLinkV3>,
    ps: Seq<SpfNeighborV3>,
) -> Seq<Edge>
    decreases links.len(),
{
    if links.len() == 0 {
        Seq::empty()
    } else {
        spf::with_edge(
            link_edges(ns, v, id, links.drop_last(), ps),
            link_edge(ns, v, id, links.last(), ps),
        )
    }
}

/// The edges from the network at position `i` to attached routers.
pub open spec fn attached_edges(
    ns: Seq<NodeView>,
    i: int,
    dr: u32,
    iid: u32,
    ids: Seq<u32>,
    ps: Seq<SpfNeighborV3>,
) -> Seq<Edge>
    decreases ids.len(),
{
    if ids.len() == 0 {
        Seq::empty()
    } else {
        spf::with_edge(
            attached_edges(ns, i, dr, iid, ids.drop_last(), ps),
            attached_edge(ns, i, dr, iid, ids.last(), ps),
        )
    }
}

/// The edges that the LSA at position `i` describes. All Router-LSAs of a router count for its
/// vertex.
pub open spec fn edges_at(ns: Seq<NodeView>, i: int, ps: Seq<SpfNeighborV3>) -> Seq<Edge> {
    match ns[i] {
        NodeView::Router(id, links) => match router_pos(ns, id, 0) {
            Some(v) => link_edges(ns, v, id, links, ps),
            None => Seq::empty(),
        },
        NodeView::Network(dr, iid, attached) => attached_edges(ns, i, dr, iid, attached, ps),
        NodeView::Other => Seq::empty(),
    }
}

/// The edges that the first `n` LSAs describe.
pub open spec fn edges_upto(ns: Seq<NodeView>, n: int, ps: Seq<SpfNeighborV3>) -> Seq<Edge>
    decreases n,
{
    if n <= 0 {
        Seq::empty()
    } else {
        edges_upto(ns, n - 1, ps) + edges_at(ns, n - 1, ps)
    }
}

/// The next hops that the starts of paths mean: those through neighbors.
pub open spec fn hops_of(labels: Seq<Label>, ps: Seq<SpfNeighborV3>) -> Seq<(u128, u32)>
    decreases labels.len(),
{
    if labels.len() == 0 {
        Seq::empty()
    } else {
        let front = hops_of(labels.drop_last(), ps);
        match labels.last() {
            Label::Via(k, _) => if k < ps.len() {
                front.push((ps[k as int].link_local, ps[k as int].sw_if_index))
            } else {
                front
            },
            _ => front,
        }
    }
}

/// The next hops of all vertices.
pub open spec fn all_hops(labels: Seq<Seq<Label>>, ps: Seq<SpfNeighborV3>) -> Seq<
    Seq<(u128, u32)>,
> {
    Seq::new(labels.len(), |v: int| hops_of(labels[v], ps))
}

/// The next hops with those of `more` that they lack.
pub open spec fn joined(hops: Seq<(u128, u32)>, more: Seq<(u128, u32)>) -> Seq<(u128, u32)>
    decreases more.len(),
{
    if more.len() == 0 {
        hops
    } else {
        let front = joined(hops, more.drop_last());
        if front.contains(more.last()) {
            front
        } else {
            front.push(more.last())
        }
    }
}

/// The position of the route to the prefix at or behind `from`.
pub open spec fn route_pos(rs: Seq<SpfRouteV3View>, prefix: u128, len: u8, from: int) -> Option<int>
    decreases rs.len() - from,
{
    if from < 0 || from >= rs.len() {
        None
    } else if rs[from].prefix == prefix && rs[from].prefix_len == len {
        Some(from)
    } else {
        route_pos(rs, prefix, len, from + 1)
    }
}

/// The routes with one more; of two routes to a prefix the cheaper stays, and two that cost the
/// same become one.
pub open spec fn with_route(rs: Seq<SpfRouteV3View>, r: SpfRouteV3View) -> Seq<SpfRouteV3View> {
    match route_pos(rs, r.prefix, r.prefix_len, 0) {
        Some(i) => if r.cost < rs[i].cost {
            rs.update(i, r)
        } else if r.cost == rs[i].cost {
            rs.update(
                i,
                SpfRouteV3View { next_hops: joined(rs[i].next_hops, r.next_hops), ..rs[i] },
            )
        } else {
            rs
        },
        None => rs.push(r),
    }
}

/// The routes with those to prefixes that hang on a vertex.
pub open spec fn with_prefixes(
    rs: Seq<SpfRouteV3View>,
    ps: Seq<Ospfv3Prefix>,
    d: u128,
    hops: Seq<(u128, u32)>,
) -> Seq<SpfRouteV3View>
    decreases ps.len(),
{
    if ps.len() == 0 {
        rs
    } else {
        let p = ps.last();
        with_route(
            with_prefixes(rs, ps.drop_last(), d, hops),
            SpfRouteV3View {
                prefix: p.address,
                prefix_len: p.prefix_length,
                cost: spf::held_cost(d + p.prefix_or_metric),
                kind: OspfRouteKind::Intra,
                next_hops: hops,
            },
        )
    }
}

/// The vertex that an Intra-Area-Prefix-LSA refers to.
pub open spec fn referenced(ns: Seq<NodeView>, body: Seq<u8>) -> Option<int> {
    if wire::u16_at(body, 2) == LsaV3Type::Router.spec_code() {
        router_pos(ns, wire::u32_at(body, 8), 0)
    } else if wire::u16_at(body, 2) == LsaV3Type::Network.spec_code() {
        network_pos(ns, wire::u32_at(body, 8), wire::u32_at(body, 4), 0)
    } else {
        None
    }
}

/// How vertices are reached: distances and next hops.
pub struct Reach {
    pub ds: Seq<Option<u128>>,
    pub hops: Seq<Seq<(u128, u32)>>,
}

impl Reach {
    /// The distance of a vertex that some neighbor leads to.
    pub open spec fn distance(self, v: Option<int>) -> Option<u128> {
        match v {
            Some(v) => if self.hops[v].len() == 0 {
                None
            } else {
                self.ds[v]
            },
            None => None,
        }
    }
}

/// The routes with those that an Intra-Area-Prefix-LSA gives.
pub open spec fn with_intra(
    rs: Seq<SpfRouteV3View>,
    ns: Seq<NodeView>,
    e: lsdb_v3::LsaEntryV3View,
    t: Reach,
) -> Seq<SpfRouteV3View> {
    if e.header.ls_type != LsaV3Type::IntraAreaPrefix || e.header.ls_age >= MAX_AGE {
        rs
    } else {
        match lsa::intra_area_prefix_parse(e.body()) {
            Ok(ps) => {
                let v = referenced(ns, e.body());
                match t.distance(v) {
                    Some(d) => with_prefixes(rs, ps, d, t.hops[v.unwrap()]),
                    None => rs,
                }
            },
            Err(_) => rs,
        }
    }
}

/// The routes that the Intra-Area-Prefix-LSAs give.
pub open spec fn intra_routes(es: Seq<lsdb_v3::LsaEntryV3View>, ns: Seq<NodeView>, t: Reach) -> Seq<
    SpfRouteV3View,
>
    decreases es.len(),
{
    if es.len() == 0 {
        Seq::empty()
    } else {
        with_intra(intra_routes(es.drop_last(), ns, t), ns, es.last(), t)
    }
}

/// The kind of route that an LSA announces, with its metric and prefix. LSAs of other areas and of
/// the outside start alike; in the latter, a bit says that the metric stands alone.
pub open spec fn announcement(e: lsdb_v3::LsaEntryV3View) -> Option<
    (OspfRouteKind, u32, Ospfv3Prefix),
> {
    let t = e.header.ls_type;
    let outside = t == LsaV3Type::AsExternal || t == LsaV3Type::Nssa;
    if e.header.ls_age >= MAX_AGE || !(outside || t == LsaV3Type::InterAreaPrefix) {
        None
    } else {
        match InterAreaPrefixLsaV3::spec_parse(e.body()) {
            Ok(b) => if b.metric >= LS_INFINITY {
                None
            } else {
                Some(
                    (
                        if !outside {
                            OspfRouteKind::Inter
                        } else if e.body()[0] & 4 != 0 {
                            OspfRouteKind::External2
                        } else {
                            OspfRouteKind::External1
                        },
                        b.metric,
                        b.prefix,
                    ),
                )
            },
            Err(_) => None,
        }
    }
}

/// The routes with the one that the LSA announces, if it is of the kind: by the router that the LSA
/// comes from.
pub open spec fn with_announced(
    rs: Seq<SpfRouteV3View>,
    ns: Seq<NodeView>,
    e: lsdb_v3::LsaEntryV3View,
    t: Reach,
    kind: OspfRouteKind,
) -> Seq<SpfRouteV3View> {
    let v = router_pos(ns, e.header.advertising_router, 0);
    match (announcement(e), t.distance(v)) {
        (Some((k, metric, p)), Some(d)) => if k != kind {
            rs
        } else {
            with_route(
                rs,
                SpfRouteV3View {
                    prefix: p.address,
                    prefix_len: p.prefix_length,
                    cost: if kind == OspfRouteKind::External2 {
                        metric
                    } else {
                        spf::held_cost(d + metric)
                    },
                    kind,
                    next_hops: t.hops[v.unwrap()],
                },
            )
        },
        _ => rs,
    }
}

/// The routes of a kind that the LSAs announce.
pub open spec fn announced_routes(
    es: Seq<lsdb_v3::LsaEntryV3View>,
    ns: Seq<NodeView>,
    t: Reach,
    kind: OspfRouteKind,
) -> Seq<SpfRouteV3View>
    decreases es.len(),
{
    if es.len() == 0 {
        Seq::empty()
    } else {
        with_announced(announced_routes(es.drop_last(), ns, t, kind), ns, es.last(), t, kind)
    }
}

/// The routes of `a`, then those of `b` to prefixes that have none yet.
pub open spec fn preferred(a: Seq<SpfRouteV3View>, b: Seq<SpfRouteV3View>) -> Seq<SpfRouteV3View>
    decreases b.len(),
{
    if b.len() == 0 {
        a
    } else {
        let front = preferred(a, b.drop_last());
        if route_pos(front, b.last().prefix, b.last().prefix_len, 0) is Some {
            front
        } else {
            front.push(b.last())
        }
    }
}

/// All routes: those within the area come before those between areas, and these before those to the
/// outside.
pub open spec fn routes_by(es: Seq<lsdb_v3::LsaEntryV3View>, t: Reach) -> Seq<SpfRouteV3View> {
    let ns = nodes_of(es);
    let inner = preferred(
        intra_routes(es, ns, t),
        announced_routes(es, ns, t, OspfRouteKind::Inter),
    );
    preferred(
        preferred(inner, announced_routes(es, ns, t, OspfRouteKind::External1)),
        announced_routes(es, ns, t, OspfRouteKind::External2),
    )
}

/// Whether the routes are those by cheapest walks from the router `id`. A router without a
/// Router-LSA has none.
pub open spec fn computed(
    es: Seq<lsdb_v3::LsaEntryV3View>,
    id: u32,
    ps: Seq<SpfNeighborV3>,
    rs: Seq<SpfRouteV3View>,
) -> bool {
    match router_pos(nodes_of(es), id, 0) {
        Some(root) => computed_from(es, edges_upto(nodes_of(es), es.len() as int, ps), root, ps, rs),
        None => rs == Seq::<SpfRouteV3View>::empty(),
    }
}

/// Whether the routes are those by cheapest walks from the vertex `root`.
pub open spec fn computed_from(
    es: Seq<lsdb_v3::LsaEntryV3View>,
    edges: Seq<Edge>,
    root: int,
    ps: Seq<SpfNeighborV3>,
    rs: Seq<SpfRouteV3View>,
) -> bool {
    exists|ds: Seq<Option<u128>>, labels: Seq<Seq<Label>>|
        {
            &&& ds.len() == es.len()
            &&& paths::distances(edges, root, ds)
            &&& #[trigger] spf::labelled(edges, root, ds, labels)
            &&& rs == routes_by(es, Reach { ds, hops: all_hops(labels, ps) })
        }
}

fn read_node(e: &LsaEntryV3) -> (r: Node)
    ensures
        r@ == node_of(e@),
{
    if e.header.ls_age >= MAX_AGE {
        return Node::Other;
    }
    let body = e.body();
    if e.header.ls_type == LsaV3Type::Router {
        match RouterLsaV3::parse(body.as_slice()) {
            Ok(l) => Node::Router(e.header.advertising_router, l.links),
            Err(_) => Node::Other,
        }
    } else if e.header.ls_type == LsaV3Type::Network {
        match NetworkLsaV3::parse(body.as_slice()) {
            Ok(l) => Node::Network(
                e.header.advertising_router,
                e.header.link_state_id,
                l.attached_routers,
            ),
            Err(_) => Node::Other,
        }
    } else {
        Node::Other
    }
}

fn read_nodes(es: &Vec<LsaEntryV3>) -> (r: Vec<Node>)
    ensures
        wire::views(r@) == nodes_of(wire::views(es@)),
{
    let ghost s = wire::views(es@);
    let mut out: Vec<Node> = Vec::new();
    let mut i: usize = 0;
    while i < es.len()
        invariant
            i <= es@.len(),
            out@.len() == i,
            s == wire::views(es@),
            forall|k: int| 0 <= k < i ==> (#[trigger] out@[k])@ == node_of(s[k]),
        decreases es.len() - i,
    {
        out.push(read_node(&es[i]));
        i = i + 1;
    }
    assert(wire::views(out@) =~= nodes_of(s));
    out
}

fn find_router(ns: &Vec<Node>, id: u32) -> (r: Option<usize>)
    ensures
        match (r, router_pos(wire::views(ns@), id, 0)) {
            (Some(i), Some(j)) => i == j && i < ns@.len(),
            (None, None) => true,
            _ => false,
        },
{
    let ghost s = wire::views(ns@);
    let mut i: usize = 0;
    while i < ns.len()
        invariant
            i <= ns@.len(),
            s == wire::views(ns@),
            router_pos(s, id, 0) == router_pos(s, id, i as int),
        decreases ns.len() - i,
    {
        assert(s[i as int] == ns@[i as int]@);
        if let Node::Router(r, _) = &ns[i] {
            if *r == id {
                return Some(i);
            }
        }
        i = i + 1;
    }
    None
}

fn find_network(ns: &Vec<Node>, dr: u32, iid: u32) -> (r: Option<usize>)
    ensures
        match (r, network_pos(wire::views(ns@), dr, iid, 0)) {
            (Some(i), Some(j)) => i == j && i < ns@.len(),
            (None, None) => true,
            _ => false,
        },
{
    let ghost s = wire::views(ns@);
    let mut i: usize = 0;
    while i < ns.len()
        invariant
            i <= ns@.len(),
            s == wire::views(ns@),
            network_pos(s, dr, iid, 0) == network_pos(s, dr, iid, i as int),
        decreases ns.len() - i,
    {
        assert(s[i as int] == ns@[i as int]@);
        if let Node::Network(r, id, _) = &ns[i] {
            if *r == dr && *id == iid {
                return Some(i);
            }
        }
        i = i + 1;
    }
    None
}

fn has_router_link(links: &Vec<RouterLinkV3>, id: u32) -> (r: bool)
    ensures
        r == joins_router(links@, id),
{
    let mut i: usize = 0;
    while i < links.len()
        invariant
            i <= links@.len(),
            forall|k: int|
                0 <= k < i ==> !((#[trigger] links@[k]).link_type == TYPE_POINT_TO_POINT
                    && links@[k].neighbor_router_id == id),
        decreases links.len() - i,
    {
        if links[i].link_type == TYPE_POINT_TO_POINT && links[i].neighbor_router_id == id {
            return true;
        }
        i = i + 1;
    }
    false
}

fn has_network_link(links: &Vec<RouterLinkV3>, dr: u32, iid: u32) -> (r: bool)
    ensures
        r == joins_network(links@, dr, iid),
{
    let mut i: usize = 0;
    while i < links.len()
        invariant
            i <= links@.len(),
            forall|k: int|
                0 <= k < i ==> !((#[trigger] links@[k]).link_type == TYPE_TRANSIT_NETWORK
                    && links@[k].neighbor_router_id == dr && links@[k].neighbor_interface_id
                    == iid),
        decreases links.len() - i,
    {
        if links[i].link_type == TYPE_TRANSIT_NETWORK && links[i].neighbor_router_id == dr
            && links[i].neighbor_interface_id == iid {
            return true;
        }
        i = i + 1;
    }
    false
}

fn router_named(ns: &Vec<Node>, id: u32, other: u32) -> (r: bool)
    ensures
        r == names_router(wire::views(ns@), id, other),
{
    let ghost s = wire::views(ns@);
    let mut i: usize = 0;
    while i < ns.len()
        invariant
            i <= ns@.len(),
            s == wire::views(ns@),
            forall|k: int|
                0 <= k < i ==> !((#[trigger] s[k]) matches NodeView::Router(r, links) && r == id
                    && joins_router(links, other)),
        decreases ns.len() - i,
    {
        assert(s[i as int] == ns@[i as int]@);
        if let Node::Router(r, links) = &ns[i] {
            if *r == id && has_router_link(links, other) {
                return true;
            }
        }
        i = i + 1;
    }
    false
}

fn network_named(ns: &Vec<Node>, id: u32, dr: u32, iid: u32) -> (r: bool)
    ensures
        r == names_network(wire::views(ns@), id, dr, iid),
{
    let ghost s = wire::views(ns@);
    let mut i: usize = 0;
    while i < ns.len()
        invariant
            i <= ns@.len(),
            s == wire::views(ns@),
            forall|k: int|
                0 <= k < i ==> !((#[trigger] s[k]) matches NodeView::Router(r, links) && r == id
                    && joins_network(links, dr, iid)),
        decreases ns.len() - i,
    {
        assert(s[i as int] == ns@[i as int]@);
        if let Node::Router(r, links) = &ns[i] {
            if *r == id && has_network_link(links, dr, iid) {
                return true;
            }
        }
        i = i + 1;
    }
    false
}

fn holds(v: &Vec<u32>, x: u32) -> (r: bool)
    ensures
        r == v@.contains(x),
{
    let mut i: usize = 0;
    while i < v.len()
        invariant
            i <= v@.len(),
            forall|k: int| 0 <= k < i ==> v@[k] != x,
        decreases v.len() - i,
    {
        if v[i] == x {
            return true;
        }
        i = i + 1;
    }
    false
}

fn find_neighbor(ps: &Vec<SpfNeighborV3>, id: u32) -> (r: Option<usize>)
    ensures
        match (r, neighbor_pos(ps@, id, 0)) {
            (Some(i), Some(j)) => i == j,
            (None, None) => true,
            _ => false,
        },
{
    let mut i: usize = 0;
    while i < ps.len()
        invariant
            i <= ps@.len(),
            neighbor_pos(ps@, id, 0) == neighbor_pos(ps@, id, i as int),
        decreases ps.len() - i,
    {
        if ps[i].router_id == id {
            return Some(i);
        }
        i = i + 1;
    }
    None
}

fn edge_of_link(ns: &Vec<Node>, v: usize, id: u32, l: &RouterLinkV3, ps: &Vec<SpfNeighborV3>) -> (r:
    Option<Edge>)
    requires
        v < ns@.len(),
    ensures
        r == link_edge(wire::views(ns@), v as int, id, *l, ps@),
        r matches Some(e) ==> e.from < ns@.len() && e.to < ns@.len() && e.first != Some(
            Label::Here,
        ),
{
    let ghost s = wire::views(ns@);
    if l.link_type == TYPE_POINT_TO_POINT {
        match find_router(ns, l.neighbor_router_id) {
            Some(t) => {
                if !router_named(ns, l.neighbor_router_id, id) {
                    return None;
                }
                let first = match find_neighbor(ps, l.neighbor_router_id) {
                    Some(k) => Some(Label::Via(k as u128, 0)),
                    None => None,
                };
                Some(Edge { from: v, to: t, cost: l.metric as u32, first, address: None })
            },
            None => None,
        }
    } else if l.link_type == TYPE_TRANSIT_NETWORK {
        match find_network(ns, l.neighbor_router_id, l.neighbor_interface_id) {
            Some(t) => {
                assert(s[t as int] == ns@[t as int]@);
                match &ns[t] {
                    Node::Network(_, _, attached) => if holds(attached, id) {
                        Some(
                            Edge {
                                from: v,
                                to: t,
                                cost: l.metric as u32,
                                first: Some(Label::Link(0)),
                                address: None,
                            },
                        )
                    } else {
                        None
                    },
                    _ => None,
                }
            },
            None => None,
        }
    } else {
        None
    }
}

fn edge_to_attached(
    ns: &Vec<Node>,
    i: usize,
    dr: u32,
    iid: u32,
    id: u32,
    ps: &Vec<SpfNeighborV3>,
) -> (r: Option<Edge>)
    requires
        i < ns@.len(),
    ensures
        r == attached_edge(wire::views(ns@), i as int, dr, iid, id, ps@),
        r matches Some(e) ==> e.from < ns@.len() && e.to < ns@.len() && e.first != Some(
            Label::Here,
        ),
{
    match find_router(ns, id) {
        Some(t) => {
            if !network_named(ns, id, dr, iid) {
                return None;
            }
            let address: Option<u128> = match find_neighbor(ps, id) {
                Some(k) => Some(k as u128),
                None => None,
            };
            Some(Edge { from: i, to: t, cost: 0, first: None, address })
        },
        None => None,
    }
}

fn push_link_edges(
    ns: &Vec<Node>,
    v: usize,
    id: u32,
    links: &Vec<RouterLinkV3>,
    ps: &Vec<SpfNeighborV3>,
    es: &mut Vec<Edge>,
)
    requires
        v < ns@.len(),
        paths::graph(ns@.len(), old(es)@),
    ensures
        final(es)@ == old(es)@ + link_edges(wire::views(ns@), v as int, id, links@, ps@),
        paths::graph(ns@.len(), final(es)@),
{
    let ghost s = wire::views(ns@);
    let ghost start = es@;
    let mut k: usize = 0;
    assert(links@.take(0) =~= Seq::empty());
    assert(start + Seq::<Edge>::empty() =~= start);
    while k < links.len()
        invariant
            k <= links@.len(),
            v < ns@.len(),
            s == wire::views(ns@),
            paths::graph(ns@.len(), es@),
            es@ == start + link_edges(s, v as int, id, links@.take(k as int), ps@),
        decreases links.len() - k,
    {
        let ghost had = link_edges(s, v as int, id, links@.take(k as int), ps@);
        assert(links@.take(k + 1).drop_last() =~= links@.take(k as int));
        match edge_of_link(ns, v, id, &links[k], ps) {
            Some(e) => {
                es.push(e);
                assert(es@ =~= start + had.push(e));
            },
            None => {},
        }
        k = k + 1;
    }
    assert(links@.take(k as int) =~= links@);
}

fn push_attached_edges(
    ns: &Vec<Node>,
    i: usize,
    dr: u32,
    iid: u32,
    ids: &Vec<u32>,
    ps: &Vec<SpfNeighborV3>,
    es: &mut Vec<Edge>,
)
    requires
        i < ns@.len(),
        paths::graph(ns@.len(), old(es)@),
    ensures
        final(es)@ == old(es)@ + attached_edges(wire::views(ns@), i as int, dr, iid, ids@, ps@),
        paths::graph(ns@.len(), final(es)@),
{
    let ghost s = wire::views(ns@);
    let ghost start = es@;
    let mut k: usize = 0;
    assert(ids@.take(0) =~= Seq::empty());
    assert(start + Seq::<Edge>::empty() =~= start);
    while k < ids.len()
        invariant
            k <= ids@.len(),
            i < ns@.len(),
            s == wire::views(ns@),
            paths::graph(ns@.len(), es@),
            es@ == start + attached_edges(s, i as int, dr, iid, ids@.take(k as int), ps@),
        decreases ids.len() - k,
    {
        let ghost had = attached_edges(s, i as int, dr, iid, ids@.take(k as int), ps@);
        assert(ids@.take(k + 1).drop_last() =~= ids@.take(k as int));
        match edge_to_attached(ns, i, dr, iid, ids[k], ps) {
            Some(e) => {
                es.push(e);
                assert(es@ =~= start + had.push(e));
            },
            None => {},
        }
        k = k + 1;
    }
    assert(ids@.take(k as int) =~= ids@);
}

fn graph_edges(ns: &Vec<Node>, ps: &Vec<SpfNeighborV3>) -> (r: Vec<Edge>)
    ensures
        r@ == edges_upto(wire::views(ns@), ns@.len() as int, ps@),
        paths::graph(ns@.len(), r@),
{
    let ghost s = wire::views(ns@);
    let mut es: Vec<Edge> = Vec::new();
    let mut i: usize = 0;
    while i < ns.len()
        invariant
            i <= ns@.len(),
            s == wire::views(ns@),
            paths::graph(ns@.len(), es@),
            es@ == edges_upto(s, i as int, ps@),
        decreases ns.len() - i,
    {
        assert(s[i as int] == ns@[i as int]@);
        let ghost had = es@;
        match &ns[i] {
            Node::Router(id, links) => match find_router(ns, *id) {
                Some(v) => {
                    push_link_edges(ns, v, *id, links, ps, &mut es);
                },
                None => {
                    assert(had + Seq::<Edge>::empty() =~= had);
                },
            },
            Node::Network(dr, iid, attached) => {
                push_attached_edges(ns, i, *dr, *iid, attached, ps, &mut es);
            },
            Node::Other => {
                assert(had + Seq::<Edge>::empty() =~= had);
            },
        }
        i = i + 1;
    }
    es
}

fn resolve(labels: &Vec<Label>, ps: &Vec<SpfNeighborV3>) -> (r: Vec<(u128, u32)>)
    ensures
        r@ == hops_of(labels@, ps@),
{
    let mut out: Vec<(u128, u32)> = Vec::new();
    let mut i: usize = 0;
    assert(labels@.take(0) =~= Seq::empty());
    while i < labels.len()
        invariant
            i <= labels@.len(),
            out@ == hops_of(labels@.take(i as int), ps@),
        decreases labels.len() - i,
    {
        assert(labels@.take(i + 1).drop_last() =~= labels@.take(i as int));
        if let Label::Via(k, _) = labels[i] {
            if k < ps.len() as u128 {
                let n = ps[k as usize];
                out.push((n.link_local, n.sw_if_index));
            }
        }
        i = i + 1;
    }
    assert(labels@.take(i as int) =~= labels@);
    out
}

fn copy_hops(hops: &Vec<(u128, u32)>) -> (r: Vec<(u128, u32)>)
    ensures
        r@ == hops@,
{
    let mut out: Vec<(u128, u32)> = Vec::new();
    let mut i: usize = 0;
    while i < hops.len()
        invariant
            i <= hops@.len(),
            out@ =~= hops@.take(i as int),
        decreases hops.len() - i,
    {
        out.push(hops[i]);
        i = i + 1;
    }
    out
}

fn holds_hop(hops: &Vec<(u128, u32)>, h: (u128, u32)) -> (r: bool)
    ensures
        r == hops@.contains(h),
{
    let mut i: usize = 0;
    while i < hops.len()
        invariant
            i <= hops@.len(),
            forall|k: int| 0 <= k < i ==> hops@[k] != h,
        decreases hops.len() - i,
    {
        if hops[i].0 == h.0 && hops[i].1 == h.1 {
            assert(hops@[i as int] == h);
            return true;
        }
        i = i + 1;
    }
    false
}

fn join_hops(hops: &mut Vec<(u128, u32)>, more: &Vec<(u128, u32)>)
    ensures
        final(hops)@ == joined(old(hops)@, more@),
{
    let ghost start = hops@;
    let mut i: usize = 0;
    assert(more@.take(0) =~= Seq::empty());
    while i < more.len()
        invariant
            i <= more@.len(),
            hops@ == joined(start, more@.take(i as int)),
        decreases more.len() - i,
    {
        assert(more@.take(i + 1).drop_last() =~= more@.take(i as int));
        if !holds_hop(hops, more[i]) {
            hops.push(more[i]);
        }
        i = i + 1;
    }
    assert(more@.take(i as int) =~= more@);
}

fn find_route(rs: &Vec<SpfRouteV3>, prefix: u128, len: u8) -> (r: Option<usize>)
    ensures
        match (r, route_pos(wire::views(rs@), prefix, len, 0)) {
            (Some(i), Some(j)) => i == j && i < rs@.len() && rs@[i as int].prefix == prefix
                && rs@[i as int].prefix_len == len,
            (None, None) => true,
            _ => false,
        },
{
    let ghost s = wire::views(rs@);
    let mut i: usize = 0;
    while i < rs.len()
        invariant
            i <= rs@.len(),
            s == wire::views(rs@),
            route_pos(s, prefix, len, 0) == route_pos(s, prefix, len, i as int),
        decreases rs.len() - i,
    {
        assert(s[i as int] == rs@[i as int]@);
        if rs[i].prefix == prefix && rs[i].prefix_len == len {
            return Some(i);
        }
        i = i + 1;
    }
    None
}

fn add_route(rs: &mut Vec<SpfRouteV3>, r: SpfRouteV3)
    ensures
        wire::views(final(rs)@) == with_route(wire::views(old(rs)@), r@),
{
    let ghost s = wire::views(rs@);
    match find_route(rs, r.prefix, r.prefix_len) {
        Some(i) => {
            assert(s[i as int] == rs@[i as int]@);
            if r.cost < rs[i].cost {
                rs.set(i, r);
            } else if r.cost == rs[i].cost {
                let kind = rs[i].kind;
                let mut hops = copy_hops(&rs[i].next_hops);
                join_hops(&mut hops, &r.next_hops);
                rs.set(
                    i,
                    SpfRouteV3 {
                        prefix: r.prefix,
                        prefix_len: r.prefix_len,
                        cost: r.cost,
                        kind,
                        next_hops: hops,
                    },
                );
            }
            assert(wire::views(rs@) =~= with_route(s, r@));
        },
        None => {
            rs.push(r);
        },
    }
}

fn add_cost(d: u128, m: u32) -> (r: u32)
    ensures
        r == spf::held_cost(d + m),
{
    if d > 0xffff_ffff {
        return 0xffff_ffff;
    }
    let c: u128 = d + m as u128;
    if c > 0xffff_ffff {
        0xffff_ffff
    } else {
        c as u32
    }
}

fn add_prefixes(rs: &mut Vec<SpfRouteV3>, ps: &Vec<Ospfv3Prefix>, d: u128, hops: &Vec<(u128, u32)>)
    ensures
        wire::views(final(rs)@) == with_prefixes(wire::views(old(rs)@), ps@, d, hops@),
{
    let ghost start = wire::views(rs@);
    let mut i: usize = 0;
    assert(ps@.take(0) =~= Seq::empty());
    while i < ps.len()
        invariant
            i <= ps@.len(),
            wire::views(rs@) == with_prefixes(start, ps@.take(i as int), d, hops@),
        decreases ps.len() - i,
    {
        assert(ps@.take(i + 1).drop_last() =~= ps@.take(i as int));
        add_route(
            rs,
            SpfRouteV3 {
                prefix: ps[i].address,
                prefix_len: ps[i].prefix_length,
                cost: add_cost(d, ps[i].prefix_or_metric as u32),
                kind: OspfRouteKind::Intra,
                next_hops: copy_hops(hops),
            },
        );
        i = i + 1;
    }
    assert(ps@.take(i as int) =~= ps@);
}

/// How vertices are reached.
struct Found {
    ds: Vec<Option<u128>>,
    hops: Vec<Vec<(u128, u32)>>,
}

impl Found {
    spec fn reach(self) -> Reach {
        Reach { ds: self.ds@, hops: Seq::new(self.hops@.len(), |v: int| self.hops@[v]@) }
    }

    spec fn of(self, n: nat) -> bool {
        self.ds@.len() == n && self.hops@.len() == n
    }

    fn distance(&self, v: Option<usize>) -> (r: Option<u128>)
        requires
            v matches Some(i) ==> i < self.ds@.len() && i < self.hops@.len(),
        ensures
            r == self.reach().distance(
                match v {
                    Some(i) => Some(i as int),
                    None => None,
                },
            ),
    {
        match v {
            Some(i) => if self.hops[i].len() == 0 {
                None
            } else {
                self.ds[i]
            },
            None => None,
        }
    }
}

fn add_intra(rs: &mut Vec<SpfRouteV3>, ns: &Vec<Node>, e: &LsaEntryV3, t: &Found)
    requires
        t.of(ns@.len()),
    ensures
        wire::views(final(rs)@) == with_intra(
            wire::views(old(rs)@),
            wire::views(ns@),
            e@,
            t.reach(),
        ),
{
    if e.header.ls_type != LsaV3Type::IntraAreaPrefix || e.header.ls_age >= MAX_AGE {
        return ;
    }
    let body = e.body();
    if let Ok(l) = IntraAreaPrefixLsaV3::parse(body.as_slice()) {
        let v: Option<usize> = if l.referenced_ls_type == LsaV3Type::Router.code() {
            find_router(ns, l.referenced_advertising_router)
        } else if l.referenced_ls_type == LsaV3Type::Network.code() {
            find_network(ns, l.referenced_advertising_router, l.referenced_link_state_id)
        } else {
            None
        };
        if let Some(d) = t.distance(v) {
            if let Some(i) = v {
                add_prefixes(rs, &l.prefixes, d, &t.hops[i]);
            }
        }
    }
}

fn read_announcement(e: &LsaEntryV3) -> (r: Option<(OspfRouteKind, u32, Ospfv3Prefix)>)
    ensures
        r == announcement(e@),
{
    let t = e.header.ls_type;
    let outside = t == LsaV3Type::AsExternal || t == LsaV3Type::Nssa;
    if e.header.ls_age >= MAX_AGE || !(outside || t == LsaV3Type::InterAreaPrefix) {
        return None;
    }
    let body = e.body();
    match InterAreaPrefixLsaV3::parse(body.as_slice()) {
        Ok(b) => if b.metric >= LS_INFINITY {
            None
        } else {
            let kind = if !outside {
                OspfRouteKind::Inter
            } else if body[0] & 4 != 0 {
                OspfRouteKind::External2
            } else {
                OspfRouteKind::External1
            };
            Some((kind, b.metric, b.prefix))
        },
        Err(_) => None,
    }
}

fn add_announced(
    rs: &mut Vec<SpfRouteV3>,
    ns: &Vec<Node>,
    e: &LsaEntryV3,
    t: &Found,
    kind: OspfRouteKind,
)
    requires
        t.of(ns@.len()),
    ensures
        wire::views(final(rs)@) == with_announced(
            wire::views(old(rs)@),
            wire::views(ns@),
            e@,
            t.reach(),
            kind,
        ),
{
    if let Some((k, metric, p)) = read_announcement(e) {
        if k != kind {
            return ;
        }
        let v = find_router(ns, e.header.advertising_router);
        if let Some(d) = t.distance(v) {
            if let Some(i) = v {
                let cost: u32 = if kind == OspfRouteKind::External2 {
                    metric
                } else {
                    add_cost(d, metric)
                };
                add_route(
                    rs,
                    SpfRouteV3 {
                        prefix: p.address,
                        prefix_len: p.prefix_length,
                        cost,
                        kind,
                        next_hops: copy_hops(&t.hops[i]),
                    },
                );
            }
        }
    }
}

fn announced_of(es: &Vec<LsaEntryV3>, ns: &Vec<Node>, t: &Found, kind: OspfRouteKind) -> (r: Vec<
    SpfRouteV3,
>)
    requires
        t.of(ns@.len()),
    ensures
        wire::views(r@) == announced_routes(
            wire::views(es@),
            wire::views(ns@),
            t.reach(),
            kind,
        ),
{
    let ghost s = wire::views(es@);
    let ghost nodes = wire::views(ns@);
    let mut rs: Vec<SpfRouteV3> = Vec::new();
    let mut i: usize = 0;
    assert(s.take(0) =~= Seq::empty());
    assert(wire::views(rs@) =~= Seq::empty());
    while i < es.len()
        invariant
            i <= es@.len(),
            t.of(ns@.len()),
            s == wire::views(es@),
            nodes == wire::views(ns@),
            wire::views(rs@) == announced_routes(s.take(i as int), nodes, t.reach(), kind),
        decreases es.len() - i,
    {
        assert(s.take(i + 1).drop_last() =~= s.take(i as int));
        assert(s.take(i + 1).last() == es@[i as int]@);
        add_announced(&mut rs, ns, &es[i], t, kind);
        i = i + 1;
    }
    assert(s.take(i as int) =~= s);
    rs
}

fn add_preferred(a: &mut Vec<SpfRouteV3>, b: Vec<SpfRouteV3>)
    ensures
        wire::views(final(a)@) == preferred(wire::views(old(a)@), wire::views(b@)),
{
    let ghost start = wire::views(a@);
    let ghost s = wire::views(b@);
    let mut i: usize = 0;
    assert(s.take(0) =~= Seq::empty());
    while i < b.len()
        invariant
            i <= b@.len(),
            s == wire::views(b@),
            wire::views(a@) == preferred(start, s.take(i as int)),
        decreases b.len() - i,
    {
        assert(s.take(i + 1).drop_last() =~= s.take(i as int));
        assert(s.take(i + 1).last() == b@[i as int]@);
        let r = &b[i];
        if find_route(a, r.prefix, r.prefix_len).is_none() {
            a.push(
                SpfRouteV3 {
                    prefix: r.prefix,
                    prefix_len: r.prefix_len,
                    cost: r.cost,
                    kind: r.kind,
                    next_hops: copy_hops(&r.next_hops),
                },
            );
        }
        i = i + 1;
    }
    assert(s.take(i as int) =~= s);
}

fn collect_routes(es: &Vec<LsaEntryV3>, ns: &Vec<Node>, t: &Found) -> (r: Vec<SpfRouteV3>)
    requires
        t.of(ns@.len()),
        wire::views(ns@) == nodes_of(wire::views(es@)),
    ensures
        wire::views(r@) == routes_by(wire::views(es@), t.reach()),
{
    let ghost s = wire::views(es@);
    let ghost nodes = wire::views(ns@);
    let mut rs: Vec<SpfRouteV3> = Vec::new();
    let mut i: usize = 0;
    assert(s.take(0) =~= Seq::empty());
    assert(wire::views(rs@) =~= Seq::empty());
    while i < es.len()
        invariant
            i <= es@.len(),
            t.of(ns@.len()),
            s == wire::views(es@),
            nodes == wire::views(ns@),
            wire::views(rs@) == intra_routes(s.take(i as int), nodes, t.reach()),
        decreases es.len() - i,
    {
        assert(s.take(i + 1).drop_last() =~= s.take(i as int));
        assert(s.take(i + 1).last() == es@[i as int]@);
        add_intra(&mut rs, ns, &es[i], t);
        i = i + 1;
    }
    assert(s.take(i as int) =~= s);
    add_preferred(&mut rs, announced_of(es, ns, t, OspfRouteKind::Inter));
    add_preferred(&mut rs, announced_of(es, ns, t, OspfRouteKind::External1));
    add_preferred(&mut rs, announced_of(es, ns, t, OspfRouteKind::External2));
    rs
}

/// Computes the routes of a router from the stored LSAs: to prefixes inside areas, between areas and
/// outside. Prefixes of its own links are left out.
pub fn calculate_spf_v3(router_id: u32, lsdb: &LsdbV3, neighbors: &Vec<SpfNeighborV3>) -> (r: Vec<
    SpfRouteV3,
>)
    ensures
        computed(lsdb@.entries, router_id, neighbors@, wire::views(r@)),
{
    calculate_from(router_id, lsdb.iter(), neighbors)
}

/// Computes the routes of a router from the given LSAs.
pub fn calculate_from(
    router_id: u32,
    entries: &Vec<LsaEntryV3>,
    neighbors: &Vec<SpfNeighborV3>,
) -> (r: Vec<SpfRouteV3>)
    ensures
        computed(wire::views(entries@), router_id, neighbors@, wire::views(r@)),
{
    let ghost s = wire::views(entries@);
    let ns = read_nodes(entries);
    let root: usize = match find_router(&ns, router_id) {
        Some(v) => v,
        None => {
            let none: Vec<SpfRouteV3> = Vec::new();
            assert(wire::views(none@) =~= Seq::empty());
            return none;
        },
    };
    let es = graph_edges(&ns, neighbors);
    let ds = shortest(ns.len(), &es, root);
    let lbs = labels(ns.len(), &es, root, &ds);
    let ghost ll = Seq::new(lbs@.len(), |v: int| lbs@[v]@);
    let mut hops: Vec<Vec<(u128, u32)>> = Vec::new();
    let mut v: usize = 0;
    while v < lbs.len()
        invariant
            v <= lbs@.len(),
            hops@.len() == v,
            ll == Seq::new(lbs@.len(), |v: int| lbs@[v]@),
            forall|k: int| 0 <= k < v ==> (#[trigger] hops@[k])@ == hops_of(ll[k], neighbors@),
        decreases lbs.len() - v,
    {
        hops.push(resolve(&lbs[v], neighbors));
        v = v + 1;
    }
    let ghost d0 = ds@;
    assert(spf::labelled(es@, root as int, d0, ll)) by {
        assert forall|v: int, l: Label| 0 <= v < ll.len() implies (#[trigger] ll[v].contains(l)
            <==> paths::leads(es@, root as int, d0, v, l)) by {
            assert(ll[v] == lbs@[v]@);
            assert(lbs@[v]@.contains(l) <==> paths::leads(es@, root as int, d0, v, l));
        }
    }
    let t = Found { ds, hops };
    assert(t.reach().hops =~= all_hops(ll, neighbors@));
    let rs = collect_routes(entries, &ns, &t);
    assert(wire::views(rs@) == routes_by(s, Reach { ds: d0, hops: all_hops(ll, neighbors@) }));
    rs
}

/// Whether no two routes lead to the same prefix.
pub open spec fn tidy(rs: Seq<SpfRouteV3View>) -> bool {
    forall|i: int, j: int|
        0 <= i < j < rs.len() ==> (#[trigger] rs[i]).prefix != (#[trigger] rs[j]).prefix
            || rs[i].prefix_len != rs[j].prefix_len
}

/// Whether some route leads to the prefix at no more than that cost.
pub open spec fn served(rs: Seq<SpfRouteV3View>, prefix: u128, len: u8, cost: u32) -> bool {
    exists|i: int|
        0 <= i < rs.len() && (#[trigger] rs[i]).prefix == prefix && rs[i].prefix_len == len
            && rs[i].cost <= cost
}

/// A route is found exactly if there is one to the prefix.
pub proof fn lemma_route_pos(rs: Seq<SpfRouteV3View>, prefix: u128, len: u8, from: int)
    requires
        0 <= from,
    ensures
        match route_pos(rs, prefix, len, from) {
            Some(i) => from <= i < rs.len() && rs[i].prefix == prefix && rs[i].prefix_len == len,
            None => forall|i: int|
                from <= i < rs.len() ==> (#[trigger] rs[i]).prefix != prefix || rs[i].prefix_len
                    != len,
        },
    decreases rs.len() - from,
{
    if from < rs.len() {
        lemma_route_pos(rs, prefix, len, from + 1);
    }
}

/// One more route keeps a table tidy and whatever it served served, and is itself served.
pub proof fn lemma_with_route(rs: Seq<SpfRouteV3View>, r: SpfRouteV3View)
    ensures
        tidy(rs) ==> tidy(with_route(rs, r)),
        served(with_route(rs, r), r.prefix, r.prefix_len, r.cost),
        forall|p: u128, len: u8, c: u32|
            served(rs, p, len, c) ==> #[trigger] served(with_route(rs, r), p, len, c),
{
    lemma_route_pos(rs, r.prefix, r.prefix_len, 0);
    let t = with_route(rs, r);
    match route_pos(rs, r.prefix, r.prefix_len, 0) {
        Some(i) => {
            assert(t[i].prefix == r.prefix);
        },
        None => {
            assert(t[rs.len() as int] == r);
        },
    }
    assert forall|p: u128, len: u8, c: u32| served(rs, p, len, c) implies #[trigger] served(
        t,
        p,
        len,
        c,
    ) by {
        let i = choose|i: int|
            0 <= i < rs.len() && (#[trigger] rs[i]).prefix == p && rs[i].prefix_len == len
                && rs[i].cost <= c;
        assert(t[i].prefix == p && t[i].cost <= c);
    }
}

proof fn lemma_prefixes(
    rs: Seq<SpfRouteV3View>,
    ps: Seq<Ospfv3Prefix>,
    d: u128,
    hops: Seq<(u128, u32)>,
)
    ensures
        tidy(rs) ==> tidy(with_prefixes(rs, ps, d, hops)),
        forall|p: u128, len: u8, c: u32|
            served(rs, p, len, c) ==> #[trigger] served(with_prefixes(rs, ps, d, hops), p, len, c),
        forall|k: int|
            0 <= k < ps.len() ==> served(
                with_prefixes(rs, ps, d, hops),
                (#[trigger] ps[k]).address,
                ps[k].prefix_length,
                spf::held_cost(d + ps[k].prefix_or_metric),
            ),
    decreases ps.len(),
{
    if ps.len() > 0 {
        let front = ps.drop_last();
        lemma_prefixes(rs, front, d, hops);
        let p = ps.last();
        lemma_with_route(
            with_prefixes(rs, front, d, hops),
            SpfRouteV3View {
                prefix: p.address,
                prefix_len: p.prefix_length,
                cost: spf::held_cost(d + p.prefix_or_metric),
                kind: OspfRouteKind::Intra,
                next_hops: hops,
            },
        );
        assert forall|k: int| 0 <= k < ps.len() implies served(
            with_prefixes(rs, ps, d, hops),
            (#[trigger] ps[k]).address,
            ps[k].prefix_length,
            spf::held_cost(d + ps[k].prefix_or_metric),
        ) by {
            if k < front.len() {
                assert(front[k] == ps[k]);
            }
        }
    }
}

proof fn lemma_intra(
    rs: Seq<SpfRouteV3View>,
    ns: Seq<NodeView>,
    e: lsdb_v3::LsaEntryV3View,
    t: Reach,
)
    ensures
        tidy(rs) ==> tidy(with_intra(rs, ns, e, t)),
        forall|p: u128, len: u8, c: u32|
            served(rs, p, len, c) ==> #[trigger] served(with_intra(rs, ns, e, t), p, len, c),
{
    match (lsa::intra_area_prefix_parse(e.body()), t.distance(referenced(ns, e.body()))) {
        (Ok(ps), Some(d)) => {
            lemma_prefixes(rs, ps, d, t.hops[referenced(ns, e.body()).unwrap()]);
        },
        _ => {},
    }
}

/// Every prefix that hangs on a vertex that we reach is served at the distance of the vertex and the
/// metric of the prefix, or below.
pub proof fn lemma_reached_served(
    es: Seq<lsdb_v3::LsaEntryV3View>,
    ns: Seq<NodeView>,
    t: Reach,
    i: int,
    k: int,
)
    requires
        0 <= i < es.len(),
        es[i].header.ls_type == LsaV3Type::IntraAreaPrefix,
        es[i].header.ls_age < MAX_AGE,
        lsa::intra_area_prefix_parse(es[i].body()) is Ok,
        0 <= k < lsa::intra_area_prefix_parse(es[i].body())->Ok_0.len(),
        t.distance(referenced(ns, es[i].body())) is Some,
    ensures
        ({
            let p = lsa::intra_area_prefix_parse(es[i].body())->Ok_0[k];
            let d = t.distance(referenced(ns, es[i].body()))->0;
            served(
                intra_routes(es, ns, t),
                p.address,
                p.prefix_length,
                spf::held_cost(d + p.prefix_or_metric),
            )
        }),
    decreases es.len(),
{
    let front = es.drop_last();
    let ps = lsa::intra_area_prefix_parse(es[i].body())->Ok_0;
    if i < front.len() {
        assert(front[i] == es[i]);
        lemma_reached_served(front, ns, t, i, k);
        lemma_intra(intra_routes(front, ns, t), ns, es.last(), t);
    } else {
        let d = t.distance(referenced(ns, es[i].body()))->0;
        lemma_prefixes(
            intra_routes(front, ns, t),
            ps,
            d,
            t.hops[referenced(ns, es[i].body()).unwrap()],
        );
    }
}

proof fn lemma_intra_tidy(es: Seq<lsdb_v3::LsaEntryV3View>, ns: Seq<NodeView>, t: Reach)
    ensures
        tidy(intra_routes(es, ns, t)),
    decreases es.len(),
{
    if es.len() > 0 {
        lemma_intra_tidy(es.drop_last(), ns, t);
        lemma_intra(intra_routes(es.drop_last(), ns, t), ns, es.last(), t);
    }
}

/// A route that is there already stays, a prefix without a route gets the one that is offered, and
/// no prefix has two.
pub proof fn lemma_preferred(a: Seq<SpfRouteV3View>, b: Seq<SpfRouteV3View>)
    ensures
        tidy(a) ==> tidy(preferred(a, b)),
        a.len() <= preferred(a, b).len(),
        preferred(a, b).take(a.len() as int) == a,
        forall|i: int|
            0 <= i < b.len() ==> exists|j: int|
                0 <= j < preferred(a, b).len() && (#[trigger] preferred(a, b)[j]).prefix == (
                #[trigger] b[i]).prefix && preferred(a, b)[j].prefix_len == b[i].prefix_len,
    decreases b.len(),
{
    let r = preferred(a, b);
    if b.len() > 0 {
        let rest = b.drop_last();
        let front = preferred(a, rest);
        lemma_preferred(a, rest);
        lemma_route_pos(front, b.last().prefix, b.last().prefix_len, 0);
        assert(r.take(a.len() as int) =~= front.take(a.len() as int));
        assert forall|i: int| 0 <= i < b.len() implies exists|j: int|
            0 <= j < r.len() && (#[trigger] r[j]).prefix == (#[trigger] b[i]).prefix
                && r[j].prefix_len == b[i].prefix_len by {
            if i < rest.len() {
                assert(rest[i] == b[i]);
                let j = choose|j: int|
                    0 <= j < front.len() && (#[trigger] front[j]).prefix == rest[i].prefix
                        && front[j].prefix_len == rest[i].prefix_len;
                assert(r[j] == front[j]);
            } else {
                match route_pos(front, b.last().prefix, b.last().prefix_len, 0) {
                    Some(j) => {
                        assert(r[j].prefix == b[i].prefix);
                    },
                    None => {
                        assert(r[front.len() as int].prefix == b[i].prefix);
                    },
                }
            }
        }
    } else {
        assert(r.take(a.len() as int) =~= a);
    }
}

/// The computed routes lead to each prefix at most once.
pub proof fn lemma_routes_tidy(
    es: Seq<lsdb_v3::LsaEntryV3View>,
    id: u32,
    ps: Seq<SpfNeighborV3>,
    rs: Seq<SpfRouteV3View>,
)
    requires
        computed(es, id, ps, rs),
    ensures
        tidy(rs),
{
    match router_pos(nodes_of(es), id, 0) {
        Some(root) => {
            let edges = edges_upto(nodes_of(es), es.len() as int, ps);
            let (ds, labels) = choose|ds: Seq<Option<u128>>, labels: Seq<Seq<Label>>|
                {
                    &&& ds.len() == es.len()
                    &&& paths::distances(edges, root, ds)
                    &&& #[trigger] spf::labelled(edges, root, ds, labels)
                    &&& rs == routes_by(es, Reach { ds, hops: all_hops(labels, ps) })
                };
            let t = Reach { ds, hops: all_hops(labels, ps) };
            let ns = nodes_of(es);
            let intra = intra_routes(es, ns, t);
            let inter = announced_routes(es, ns, t, OspfRouteKind::Inter);
            let one = announced_routes(es, ns, t, OspfRouteKind::External1);
            let two = announced_routes(es, ns, t, OspfRouteKind::External2);
            lemma_intra_tidy(es, ns, t);
            lemma_preferred(intra, inter);
            lemma_preferred(preferred(intra, inter), one);
            lemma_preferred(preferred(preferred(intra, inter), one), two);
        },
        None => {},
    }
}

} // verus!
