//! The LSAs that we issue.
use vstd::prelude::*;

use crate::area;
use crate::area::AreaType;
use crate::config;
use crate::config::{
    ParsedSummaryAddress, RedistributeConfig, RedistributeSource, RouteMap,
};
use crate::instance;
use crate::instance::{copy_rules, copy_summaries, OspfInstance, OspfInstanceView};
use crate::instance_v3::contains_u32;
use crate::lsdb;
use crate::packet::hello::OspfOptions;
use crate::packet::lsa;
use crate::packet::lsa::{
    AsExternalLsa, Lsa, LsaBody, LsaHeader, LsaKey, LsaType, NetworkLsa, RouterLink,
    RouterLinkType, SummaryLsa, B_FLAG, E_FLAG, INITIAL_SEQUENCE_NUMBER, MAX_AGE,
};
use crate::packet::lsa::RouterLsa;
use crate::prefix;
use crate::prefix::{apply_mask, prefix_covered_by, prefix_len_to_mask};
use crate::proto::interface;
use crate::proto::interface::{InterfaceState, NetworkType, OspfInterface};
use crate::proto::neighbor;
use crate::proto::neighbor::NeighborState;
use crate::proto::spf::SpfRoute;
use crate::wire;
use crate::wire::same_text;

verus! {

broadcast use {wire::lemma_views_push, wire::lemma_views_update};

/// The option bits of the LSAs that we issue.
pub open spec fn our_options() -> u8 {
    OspfOptions::spec_standard().0
}

/// A link to each Full neighbor.
pub open spec fn peer_links(
    f: interface::OspfInterfaceView,
    ns: Seq<neighbor::NeighborView>,
) -> Seq<RouterLink>
    decreases ns.len(),
{
    if ns.len() == 0 {
        Seq::empty()
    } else if ns.last().state == NeighborState::Full {
        peer_links(f, ns.drop_last()).push(
            RouterLink {
                link_id: ns.last().router_id,
                link_data: f.address,
                link_type: RouterLinkType::PointToPoint,
                num_tos: 0,
                metric: f.cost,
            },
        )
    } else {
        peer_links(f, ns.drop_last())
    }
}

/// The ids of the Full neighbors.
pub open spec fn full_ids(ns: Seq<neighbor::NeighborView>) -> Seq<u32>
    decreases ns.len(),
{
    if ns.len() == 0 {
        Seq::empty()
    } else if ns.last().state == NeighborState::Full {
        full_ids(ns.drop_last()).push(ns.last().router_id)
    } else {
        full_ids(ns.drop_last())
    }
}

/// A sorted sequence with `x` put in its place.
pub open spec fn placed(s: Seq<u32>, x: u32) -> Seq<u32>
    decreases s.len(),
{
    if s.len() == 0 || s.last() <= x {
        s.push(x)
    } else {
        placed(s.drop_last(), x).push(s.last())
    }
}

/// The elements in rising order.
pub open spec fn sorted(s: Seq<u32>) -> Seq<u32>
    decreases s.len(),
{
    if s.len() == 0 {
        s
    } else {
        placed(sorted(s.drop_last()), s.last())
    }
}

impl interface::OspfInterfaceView {
    /// Whether a neighbor is Full.
    pub open spec fn has_full(self) -> bool {
        exists|k: int|
            0 <= k < self.neighbors.len() && (#[trigger] self.neighbors[k]).state
                == NeighborState::Full
    }

    /// The network of the interface as a stub.
    pub open spec fn stub_link(self) -> RouterLink {
        RouterLink {
            link_id: self.address & self.mask,
            link_data: self.mask,
            link_type: RouterLinkType::StubNetwork,
            num_tos: 0,
            metric: self.cost,
        }
    }

    /// The links of the interface in our Router-LSA: on a point-to-point network each Full neighbor
    /// and the network as a stub; on a point-to-multipoint network each Full neighbor and our own
    /// address; else the transit network if a neighbor is Full, and the network as a stub if none
    /// is.
    pub open spec fn router_links(self) -> Seq<RouterLink> {
        match self.network_type {
            NetworkType::PointToPoint => peer_links(self, self.neighbors).push(self.stub_link()),
            NetworkType::PointToMultipoint => peer_links(self, self.neighbors).push(
                RouterLink {
                    link_id: self.address,
                    link_data: 0xffffffff,
                    link_type: RouterLinkType::StubNetwork,
                    num_tos: 0,
                    metric: 0,
                },
            ),
            NetworkType::Broadcast | NetworkType::NonBroadcast => if self.has_full() {
                seq![
                    RouterLink {
                        link_id: self.dr,
                        link_data: self.address,
                        link_type: RouterLinkType::TransitNetwork,
                        num_tos: 0,
                        metric: self.cost,
                    },
                ]
            } else {
                seq![self.stub_link()]
            },
        }
    }

    /// Whether we describe the network of the interface by a Network-LSA.
    pub open spec fn serves_network(self) -> bool {
        self.state == InterfaceState::DR && self.network_type == NetworkType::Broadcast
            && self.has_full()
    }
}

/// The links in the area of our Router-LSA: those of each interface of the area that is up.
pub open spec fn area_links(is: Seq<interface::OspfInterfaceView>, id: u32) -> Seq<RouterLink>
    decreases is.len(),
{
    if is.len() == 0 {
        Seq::empty()
    } else if is.last().area_id != id || is.last().state == InterfaceState::Down {
        area_links(is.drop_last(), id)
    } else {
        area_links(is.drop_last(), id) + is.last().router_links()
    }
}

/// The key of a Network-LSA of ours.
pub open spec fn own_key(t: LsaType, id: u32, me: u32) -> LsaKey {
    LsaKey { ls_type: t, link_state_id: id, advertising_router: me }
}

/// The routes that were computed inside one area.
#[derive(Debug)]
pub struct AreaRoutes {
    pub area_id: u32,
    pub routes: Vec<SpfRoute>,
}

/// The routes of one area.
pub struct AreaRoutesView {
    pub area_id: u32,
    pub routes: Seq<SpfRoute>,
}

impl View for AreaRoutes {
    type V = AreaRoutesView;

    open spec fn view(&self) -> AreaRoutesView {
        AreaRoutesView { area_id: self.area_id, routes: self.routes@ }
    }
}

/// The routes of the area at or behind `from`; none if there is no table for it.
pub open spec fn routes_of(ts: Seq<AreaRoutesView>, id: u32, from: int) -> Seq<SpfRoute>
    decreases ts.len() - from,
{
    if from < 0 || from >= ts.len() {
        Seq::empty()
    } else if ts[from].area_id == id {
        ts[from].routes
    } else {
        routes_of(ts, id, from + 1)
    }
}

/// The ids of the areas.
pub open spec fn area_ids(s: Seq<area::AreaView>) -> Seq<u32> {
    Seq::new(s.len(), |k: int| s[k].area_id)
}

/// A route of another protocol that may be redistributed.
#[derive(Debug)]
pub struct External {
    pub prefix: u32,
    pub mask: u32,
    /// For each statement of the rule's route map, in order, whether the route matches it.
    pub matched: Vec<bool>,
}

/// What a route of another protocol is.
pub struct ExternalView {
    pub prefix: u32,
    pub mask: u32,
    pub matched: Seq<bool>,
}

impl View for External {
    type V = ExternalView;

    open spec fn view(&self) -> ExternalView {
        ExternalView { prefix: self.prefix, mask: self.mask, matched: self.matched@ }
    }
}

/// Whether the first statement at or behind `from` that matches permits the route. A route that
/// none matches is denied.
pub open spec fn permitted(permits: Seq<bool>, matched: Seq<bool>, from: int) -> bool
    decreases permits.len() - from,
{
    if from < 0 || from >= permits.len() {
        false
    } else if from < matched.len() && matched[from] {
        permits[from]
    } else {
        permitted(permits, matched, from + 1)
    }
}

/// Whether the address lies in one of the summary ranges.
pub open spec fn summarised(p: u32, ss: Seq<ParsedSummaryAddress>) -> bool {
    exists|k: int|
        0 <= k < ss.len() && prefix::covered_v4(
            p,
            (#[trigger] ss[k]).prefix,
            ss[k].prefix_len,
        )
}

/// The routes that are announced: those in no summary range that the route map, if there is one,
/// permits.
pub open spec fn announced(
    es: Seq<ExternalView>,
    ss: Seq<ParsedSummaryAddress>,
    map: Option<config::RouteMapView>,
) -> Seq<(u32, u32)>
    decreases es.len(),
{
    if es.len() == 0 {
        Seq::empty()
    } else {
        let front = announced(es.drop_last(), ss, map);
        let e = es.last();
        if !summarised(e.prefix, ss) && (map matches Some(m) ==> permitted(
            m.permits,
            e.matched,
            0,
        )) {
            front.push((e.prefix, e.mask))
        } else {
            front
        }
    }
}

/// The first rule at or behind `from` that redistributes connected routes.
pub open spec fn connected_rule(
    rs: Seq<config::RedistributeConfigView>,
    from: int,
) -> Option<config::RedistributeConfigView>
    decreases rs.len() - from,
{
    if from < 0 || from >= rs.len() {
        None
    } else if rs[from].source == RedistributeSource::Connected {
        Some(rs[from])
    } else {
        connected_rule(rs, from + 1)
    }
}

/// The first route map at or behind `from` with the given name.
pub open spec fn map_named(
    ms: Seq<config::RouteMapView>,
    name: Seq<char>,
    from: int,
) -> Option<config::RouteMapView>
    decreases ms.len() - from,
{
    if from < 0 || from >= ms.len() {
        None
    } else if ms[from].name == name {
        Some(ms[from])
    } else {
        map_named(ms, name, from + 1)
    }
}

/// The link state ids that stay: the announced prefixes, the summary ranges and the default route.
pub open spec fn kept_ids(kept: Seq<(u32, u32)>, ss: Seq<ParsedSummaryAddress>) -> Seq<u32> {
    (Seq::new(kept.len(), |k: int| kept[k].0) + Seq::new(ss.len(), |k: int| ss[k].prefix)).push(0)
}

/// The keys of our LSAs among `hs` whose id is not in `keep`.
pub open spec fn withdrawn_keys(hs: Seq<LsaHeader>, me: u32, keep: Seq<u32>) -> Seq<LsaKey>
    decreases hs.len(),
{
    if hs.len() == 0 {
        Seq::empty()
    } else {
        let front = withdrawn_keys(hs.drop_last(), me, keep);
        let h = hs.last();
        if h.advertising_router == me && !keep.contains(h.link_state_id) {
            front.push(h.spec_key())
        } else {
            front
        }
    }
}

/// The instance of an LSA that withdraws it: one number higher, at the maximal age.
pub open spec fn withdrawal(l: lsa::LsaView) -> lsa::LsaView {
    lsa::LsaView {
        header: LsaHeader {
            ls_age: MAX_AGE,
            ls_sequence_number: lsdb::next_seq(l.header.ls_sequence_number),
            ..l.header
        },
        body: l.body,
    }.sealed()
}

impl OspfInstanceView {
    /// The flag octet of our Router-LSAs.
    pub open spec fn router_flags(self) -> u8 {
        ((if self.border() {
            1int
        } else {
            0int
        }) + (if self.redistribute.len() > 0 {
            2int
        } else {
            0int
        })) as u8
    }

    /// Our next Router-LSA in the area.
    pub open spec fn next_router_lsa(self, a: area::AreaView) -> lsa::LsaView {
        a.lsdb.next_instance(
            lsdb::router_key(self.router_id),
            our_options(),
            lsa::LsaBodyView::Router {
                flags: self.router_flags(),
                links: area_links(self.interfaces, a.area_id),
            },
        )
    }

    /// The area after our Router-LSA was issued in it. An area in which we have no link gets none.
    pub open spec fn with_router_lsa(self, a: area::AreaView, now: u64) -> area::AreaView {
        if area_links(self.interfaces, a.area_id).len() == 0 {
            a
        } else {
            area::AreaView { lsdb: a.lsdb.install(self.next_router_lsa(a), now), ..a }
        }
    }

    /// The instance after our Router-LSAs were issued.
    pub open spec fn with_router_lsas(self, now: u64) -> OspfInstanceView {
        OspfInstanceView {
            areas: Seq::new(
                self.areas.len(),
                |k: int| self.with_router_lsa(self.areas[k], now),
            ),
            ..self
        }
    }

    /// The Router-LSAs that are issued in the areas.
    pub open spec fn router_lsas(self, s: Seq<area::AreaView>) -> Seq<(u32, lsa::LsaView)>
        decreases s.len(),
    {
        if s.len() == 0 {
            Seq::empty()
        } else if area_links(self.interfaces, s.last().area_id).len() == 0 {
            self.router_lsas(s.drop_last())
        } else {
            self.router_lsas(s.drop_last()).push(
                (s.last().area_id, self.next_router_lsa(s.last())),
            )
        }
    }

    /// The instance after the next instance of an LSA of ours was issued in the area at position
    /// `a`, and that LSA.
    pub open spec fn issued_in(self, a: int, k: LsaKey, body: lsa::LsaBodyView, now: u64) -> (
        OspfInstanceView,
        lsa::LsaView,
    ) {
        let l = self.areas[a].lsdb.next_instance(k, our_options(), body);
        (
            OspfInstanceView {
                areas: self.areas.update(
                    a,
                    area::AreaView {
                        lsdb: self.areas[a].lsdb.install(l, now),
                        ..self.areas[a]
                    },
                ),
                ..self
            },
            l,
        )
    }

    /// The instance after the next instance of an AS-external LSA of ours was issued, and that LSA.
    pub open spec fn issued_external(self, id: u32, e: AsExternalLsa, now: u64) -> (
        OspfInstanceView,
        lsa::LsaView,
    ) {
        let l = self.as_external_lsdb.next_instance(
            own_key(LsaType::AsExternal, id, self.router_id),
            our_options(),
            lsa::LsaBodyView::AsExternal(e),
        );
        (
            OspfInstanceView {
                as_external_lsdb: self.as_external_lsdb.install(l, now),
                ..self
            },
            l,
        )
    }

    /// The routers on the network of an interface, in rising order.
    pub open spec fn attached(self, f: interface::OspfInterfaceView) -> Seq<u32> {
        sorted(full_ids(f.neighbors).push(self.router_id))
    }

    /// The instance after the Network-LSAs of the interfaces `is` were issued, and those LSAs.
    pub open spec fn network_lsas(self, is: Seq<interface::OspfInterfaceView>, now: u64) -> (
        OspfInstanceView,
        Seq<(u32, lsa::LsaView)>,
    )
        decreases is.len(),
    {
        if is.len() == 0 {
            (self, Seq::empty())
        } else {
            let front = self.network_lsas(is.drop_last(), now);
            let f = is.last();
            match instance::area_pos(front.0.areas, f.area_id, 0) {
                Some(a) if f.serves_network() => {
                    let r = front.0.issued_in(
                        a,
                        own_key(LsaType::Network, f.address, self.router_id),
                        lsa::LsaBodyView::Network {
                            network_mask: f.mask,
                            attached_routers: self.attached(f),
                        },
                        now,
                    );
                    (r.0, front.1.push((f.area_id, r.1)))
                },
                _ => front,
            }
        }
    }

    /// The instance after the default route was announced into each area of `ids` that takes no
    /// external routes, and those LSAs.
    pub open spec fn stub_defaults(self, ids: Seq<u32>, now: u64) -> (
        OspfInstanceView,
        Seq<(u32, lsa::LsaView)>,
    )
        decreases ids.len(),
    {
        if ids.len() == 0 {
            (self, Seq::empty())
        } else {
            let front = self.stub_defaults(ids.drop_last(), now);
            match instance::area_pos(front.0.areas, ids.last(), 0) {
                Some(a) if front.0.areas[a].area_type != AreaType::Normal => {
                    let r = front.0.issued_in(
                        a,
                        own_key(LsaType::SummaryNetwork, 0, self.router_id),
                        lsa::LsaBodyView::Summary(
                            SummaryLsa {
                                network_mask: 0,
                                metric: front.0.areas[a].default_cost,
                            },
                        ),
                        now,
                    );
                    (r.0, front.1.push((ids.last(), r.1)))
                },
                _ => front,
            }
        }
    }

    /// Whether the prefix is the network of one of our interfaces in the area.
    pub open spec fn local_in(self, prefix: u32, id: u32) -> bool {
        exists|k: int|
            0 <= k < self.interfaces.len() && (#[trigger] self.interfaces[k]).area_id == id
                && self.interfaces[k].address & self.interfaces[k].mask == prefix
    }

    /// The instance after the routes `rs` were announced into the area at position `a`, but not
    /// those that are local there, and those LSAs.
    pub open spec fn route_summaries(self, a: int, rs: Seq<SpfRoute>, now: u64) -> (
        OspfInstanceView,
        Seq<(u32, lsa::LsaView)>,
    )
        decreases rs.len(),
    {
        if rs.len() == 0 {
            (self, Seq::empty())
        } else {
            let front = self.route_summaries(a, rs.drop_last(), now);
            let r = rs.last();
            if self.local_in(r.prefix, self.areas[a].area_id) {
                front
            } else {
                let x = front.0.issued_in(
                    a,
                    own_key(LsaType::SummaryNetwork, r.prefix, self.router_id),
                    lsa::LsaBodyView::Summary(
                        SummaryLsa {
                            network_mask: prefix::mask_v4(r.prefix_len as int),
                            metric: r.cost,
                        },
                    ),
                    now,
                );
                (x.0, front.1.push((self.areas[a].area_id, x.1)))
            }
        }
    }

    /// The instance after the routes of the area `src` were announced into each other area of
    /// `ids`, and those LSAs.
    pub open spec fn dest_summaries(
        self,
        src: u32,
        ids: Seq<u32>,
        rs: Seq<SpfRoute>,
        now: u64,
    ) -> (OspfInstanceView, Seq<(u32, lsa::LsaView)>)
        decreases ids.len(),
    {
        if ids.len() == 0 {
            (self, Seq::empty())
        } else {
            let front = self.dest_summaries(src, ids.drop_last(), rs, now);
            match instance::area_pos(front.0.areas, ids.last(), 0) {
                Some(a) if ids.last() != src => {
                    let r = front.0.route_summaries(a, rs, now);
                    (r.0, front.1 + r.1)
                },
                _ => front,
            }
        }
    }

    /// Whether an interface of the area is up.
    pub open spec fn active_in(self, id: u32) -> bool {
        exists|k: int|
            0 <= k < self.interfaces.len() && (#[trigger] self.interfaces[k]).area_id == id
                && self.interfaces[k].state != InterfaceState::Down
    }

    /// The instance after the routes of each area of `srcs` were announced into the others of
    /// `ids`, and those LSAs.
    pub open spec fn source_summaries(
        self,
        srcs: Seq<u32>,
        ids: Seq<u32>,
        ts: Seq<AreaRoutesView>,
        now: u64,
    ) -> (OspfInstanceView, Seq<(u32, lsa::LsaView)>)
        decreases srcs.len(),
    {
        if srcs.len() == 0 {
            (self, Seq::empty())
        } else {
            let front = self.source_summaries(srcs.drop_last(), ids, ts, now);
            if self.active_in(srcs.last()) {
                let r = front.0.dest_summaries(
                    srcs.last(),
                    ids,
                    routes_of(ts, srcs.last(), 0),
                    now,
                );
                (r.0, front.1 + r.1)
            } else {
                front
            }
        }
    }

    /// The instance after a border router announced the routes of its areas to each other, and the
    /// LSAs that it issued.
    pub open spec fn summaries(self, ts: Seq<AreaRoutesView>, now: u64) -> (
        OspfInstanceView,
        Seq<(u32, lsa::LsaView)>,
    ) {
        if !self.border() {
            (self, Seq::empty())
        } else {
            let ids = area_ids(self.areas);
            let d = self.stub_defaults(ids, now);
            let s = d.0.source_summaries(ids, ids, ts, now);
            (s.0, d.1 + s.1)
        }
    }

    /// The instance after the withdrawn LSAs were installed at the maximal age.
    pub open spec fn withdrawn(self, ks: Seq<LsaKey>, now: u64) -> OspfInstanceView
        decreases ks.len(),
    {
        if ks.len() == 0 {
            self
        } else {
            let front = self.withdrawn(ks.drop_last(), now);
            match front.as_external_lsdb.lookup(ks.last()) {
                None => front,
                Some(e) => OspfInstanceView {
                    as_external_lsdb: front.as_external_lsdb.install(withdrawal(e.lsa), now),
                    ..front
                },
            }
        }
    }

    /// The instance after every AS-external LSA of ours that is alive and not in `keep` was
    /// withdrawn.
    pub open spec fn flushed_outside(self, keep: Seq<u32>, now: u64) -> OspfInstanceView {
        self.withdrawn(
            withdrawn_keys(
                lsdb::live_headers(self.as_external_lsdb.entries, now),
                self.router_id,
                keep,
            ),
            now,
        )
    }

    /// The instance after the routes `kept` were announced, and the LSAs.
    pub open spec fn external_lsas(
        self,
        kept: Seq<(u32, u32)>,
        metric: u32,
        metric_type: u8,
        now: u64,
    ) -> (OspfInstanceView, Seq<lsa::LsaView>)
        decreases kept.len(),
    {
        if kept.len() == 0 {
            (self, Seq::empty())
        } else {
            let front = self.external_lsas(kept.drop_last(), metric, metric_type, now);
            let r = front.0.issued_external(
                kept.last().0,
                AsExternalLsa {
                    network_mask: kept.last().1,
                    metric_type_2: metric_type == 2,
                    metric,
                    forwarding_address: 0,
                    external_route_tag: 0,
                },
                now,
            );
            (r.0, front.1.push(r.1))
        }
    }

    /// The instance after connected routes were redistributed, and the LSAs. Without a rule for
    /// them, or if the rule names an unknown route map, everything is withdrawn.
    pub open spec fn redistributed(
        self,
        rs: Seq<config::RedistributeConfigView>,
        es: Seq<ExternalView>,
        ss: Seq<ParsedSummaryAddress>,
        now: u64,
    ) -> (OspfInstanceView, Seq<lsa::LsaView>) {
        match connected_rule(rs, 0) {
            None => (self.flushed_outside(Seq::empty(), now), Seq::empty()),
            Some(rule) => {
                let map = match rule.route_map {
                    None => None,
                    Some(n) => map_named(self.route_maps, n, 0),
                };
                if rule.route_map is Some && map is None {
                    (self.flushed_outside(Seq::empty(), now), Seq::empty())
                } else {
                    let kept = announced(es, ss, map);
                    self.flushed_outside(kept_ids(kept, ss), now).external_lsas(
                        kept,
                        rule.metric,
                        rule.metric_type,
                        now,
                    )
                }
            },
        }
    }

    /// The route that our default-route LSA announces; nothing if there is none or it expired.
    pub open spec fn own_default(self, now: u64) -> Option<AsExternalLsa> {
        match self.as_external_lsdb.lookup(own_key(LsaType::AsExternal, 0, self.router_id)) {
            Some(e) => match e.lsa.body {
                lsa::LsaBodyView::AsExternal(b) if !e.expired(now) => Some(b),
                _ => None,
            },
            None => None,
        }
    }

    /// The instance after everything that it knows of the outside was announced anew, and the LSAs
    /// that announce it: the routes that may be redistributed, the aggregates of the summary ranges,
    /// and the default route where it was announced before.
    pub open spec fn announced_anew(self, es: Seq<ExternalView>, now: u64) -> (
        OspfInstanceView,
        Seq<lsa::LsaView>,
    ) {
        let r = self.redistributed(self.redistribute, es, self.summary_addresses, now);
        let g = r.0.aggregates(self.summary_addresses, now);
        match self.own_default(now) {
            Some(b) => {
                let d = g.0.issued_external(0, b, now);
                (d.0, (r.1 + g.1).push(d.1))
            },
            None => (g.0, r.1 + g.1),
        }
    }

    /// Of the AS-external LSAs of ours with the headers `hs`, those that reached the maximal age.
    pub open spec fn withdrawals(self, hs: Seq<LsaHeader>, now: u64) -> Seq<lsa::LsaView>
        decreases hs.len(),
    {
        if hs.len() == 0 {
            Seq::empty()
        } else {
            let front = self.withdrawals(hs.drop_last(), now);
            let h = hs.last();
            match self.as_external_lsdb.lookup(h.spec_key()) {
                Some(e) if h.advertising_router == self.router_id && e.expired(now) => front.push(
                    e.lsa,
                ),
                _ => front,
            }
        }
    }

    /// The instance after everything that it knows of the outside was announced anew, and the LSAs
    /// that have to be flooded: those that withdraw what is no longer announced, and those that
    /// announce the rest.
    pub open spec fn reannounced(self, es: Seq<ExternalView>, now: u64) -> (
        OspfInstanceView,
        Seq<lsa::LsaView>,
    ) {
        let r = self.announced_anew(es, now);
        (
            r.0,
            r.0.withdrawals(lsdb::live_headers(self.as_external_lsdb.entries, now), now) + r.1,
        )
    }

    /// The instance after the aggregates of the summary ranges were announced, and the LSAs.
    pub open spec fn aggregates(self, ss: Seq<ParsedSummaryAddress>, now: u64) -> (
        OspfInstanceView,
        Seq<lsa::LsaView>,
    )
        decreases ss.len(),
    {
        if ss.len() == 0 {
            (self, Seq::empty())
        } else {
            let front = self.aggregates(ss.drop_last(), now);
            let s = ss.last();
            if s.no_advertise {
                front
            } else {
                let r = front.0.issued_external(
                    s.prefix,
                    AsExternalLsa {
                        network_mask: prefix::mask_v4(s.prefix_len as int),
                        metric_type_2: s.metric_type == 2,
                        metric: s.metric,
                        forwarding_address: 0,
                        external_route_tag: s.tag,
                    },
                    now,
                );
                (r.0, front.1.push(r.1))
            }
        }
    }
}

impl OspfInterface {
    /// Whether a neighbor is Full.
    fn any_full(&self) -> (r: bool)
        ensures
            r == self@.has_full(),
    {
        let mut i: usize = 0;
        while i < self.neighbors.len()
            invariant
                i <= self.neighbors@.len(),
                forall|k: int|
                    0 <= k < i ==> (#[trigger] self@.neighbors[k]).state != NeighborState::Full,
            decreases self.neighbors.len() - i,
        {
            assert(self@.neighbors[i as int] == self.neighbors@[i as int]@);
            if self.neighbors[i].state == NeighborState::Full {
                return true;
            }
            i = i + 1;
        }
        false
    }

    /// The network of the interface as a stub.
    fn stub(&self) -> (l: RouterLink)
        ensures
            l == self@.stub_link(),
    {
        RouterLink {
            link_id: apply_mask(self.address, self.mask),
            link_data: self.mask,
            link_type: RouterLinkType::StubNetwork,
            num_tos: 0,
            metric: self.cost,
        }
    }

    /// A link to each Full neighbor.
    fn links_to_peers(&self) -> (r: Vec<RouterLink>)
        ensures
            r@ == peer_links(self@, self@.neighbors),
    {
        let mut v: Vec<RouterLink> = Vec::new();
        let ghost ns = self@.neighbors;
        let mut i: usize = 0;
        assert(ns.take(0) =~= Seq::empty());
        while i < self.neighbors.len()
            invariant
                i <= self.neighbors@.len(),
                ns == self@.neighbors,
                v@ == peer_links(self@, ns.take(i as int)),
            decreases self.neighbors.len() - i,
        {
            assert(ns.take(i + 1).drop_last() =~= ns.take(i as int));
            assert(self.neighbors@[i as int]@ == ns[i as int]);
            if self.neighbors[i].state == NeighborState::Full {
                v.push(
                    RouterLink {
                        link_id: self.neighbors[i].router_id,
                        link_data: self.address,
                        link_type: RouterLinkType::PointToPoint,
                        num_tos: 0,
                        metric: self.cost,
                    },
                );
            }
            i = i + 1;
        }
        assert(ns.take(i as int) =~= ns);
        v
    }

    /// The links of the interface in our Router-LSA.
    pub fn links(&self) -> (r: Vec<RouterLink>)
        ensures
            r@ == self@.router_links(),
    {
        match self.network_type {
            NetworkType::PointToPoint => {
                let mut v = self.links_to_peers();
                v.push(self.stub());
                v
            },
            NetworkType::PointToMultipoint => {
                let mut v = self.links_to_peers();
                v.push(
                    RouterLink {
                        link_id: self.address,
                        link_data: 0xffffffff,
                        link_type: RouterLinkType::StubNetwork,
                        num_tos: 0,
                        metric: 0,
                    },
                );
                v
            },
            NetworkType::Broadcast | NetworkType::NonBroadcast => {
                let mut v: Vec<RouterLink> = Vec::new();
                if self.any_full() {
                    v.push(
                        RouterLink {
                            link_id: self.dr,
                            link_data: self.address,
                            link_type: RouterLinkType::TransitNetwork,
                            num_tos: 0,
                            metric: self.cost,
                        },
                    );
                } else {
                    v.push(self.stub());
                }
                assert(v@ =~= self@.router_links());
                v
            },
        }
    }

    /// The ids of the Full neighbors.
    fn full_neighbors(&self) -> (r: Vec<u32>)
        ensures
            r@ == full_ids(self@.neighbors),
    {
        let mut v: Vec<u32> = Vec::new();
        let ghost ns = self@.neighbors;
        let mut i: usize = 0;
        assert(ns.take(0) =~= Seq::empty());
        while i < self.neighbors.len()
            invariant
                i <= self.neighbors@.len(),
                ns == self@.neighbors,
                v@ == full_ids(ns.take(i as int)),
            decreases self.neighbors.len() - i,
        {
            assert(ns.take(i + 1).drop_last() =~= ns.take(i as int));
            assert(self.neighbors@[i as int]@ == ns[i as int]);
            if self.neighbors[i].state == NeighborState::Full {
                v.push(self.neighbors[i].router_id);
            }
            i = i + 1;
        }
        assert(ns.take(i as int) =~= ns);
        v
    }
}

/// Puts `x` in its place in a sorted vector.
fn place(v: &mut Vec<u32>, x: u32)
    ensures
        final(v)@ == placed(old(v)@, x),
{
    let ghost s = v@;
    let mut i: usize = v.len();
    assert(s.take(i as int) =~= s);
    assert(s.subrange(i as int, s.len() as int) =~= Seq::empty());
    assert(placed(s, x) =~= placed(s.take(i as int), x) + s.subrange(i as int, s.len() as int));
    while i > 0 && v[i - 1] > x
        invariant
            i <= v@.len(),
            v@ == s,
            placed(s, x) == placed(s.take(i as int), x) + s.subrange(i as int, s.len() as int),
        decreases i,
    {
        let ghost t = s.take(i as int);
        assert(t.last() == s[i - 1]);
        assert(t.drop_last() =~= s.take(i - 1));
        i = i - 1;
        assert(placed(t, x) + s.subrange(i + 1, s.len() as int) =~= placed(s.take(i as int), x)
            + s.subrange(i as int, s.len() as int));
    }
    assert(i > 0 ==> s.take(i as int).last() == s[i - 1]);
    v.insert(i, x);
    assert(v@ =~= placed(s, x));
}

/// The elements in rising order.
fn sort(xs: &Vec<u32>) -> (r: Vec<u32>)
    ensures
        r@ == sorted(xs@),
{
    let mut v: Vec<u32> = Vec::new();
    let mut i: usize = 0;
    assert(xs@.take(0) =~= Seq::empty());
    assert(v@ =~= sorted(xs@.take(0)));
    while i < xs.len()
        invariant
            i <= xs@.len(),
            v@ == sorted(xs@.take(i as int)),
        decreases xs.len() - i,
    {
        assert(xs@.take(i + 1).drop_last() =~= xs@.take(i as int));
        place(&mut v, xs[i]);
        i = i + 1;
    }
    assert(xs@.take(i as int) =~= xs@);
    v
}

/// Whether the route map permits a route that matches the statements marked in `matched`. The first
/// statement that matches decides; a route that none matches is denied.
pub fn evaluate_route_map(map: &RouteMap, matched: &Vec<bool>) -> (r: bool)
    ensures
        r == permitted(map@.permits, matched@, 0),
{
    let mut i: usize = 0;
    while i < map.permits.len()
        invariant
            i <= map.permits@.len(),
            permitted(map.permits@, matched@, 0) == permitted(map.permits@, matched@, i as int),
        decreases map.permits.len() - i,
    {
        if i < matched.len() && matched[i] {
            return map.permits[i];
        }
        i = i + 1;
    }
    false
}

/// Whether the address lies in one of the summary ranges.
fn is_summarised(p: u32, ss: &Vec<ParsedSummaryAddress>) -> (r: bool)
    ensures
        r == summarised(p, ss@),
{
    let mut i: usize = 0;
    while i < ss.len()
        invariant
            i <= ss@.len(),
            forall|k: int|
                0 <= k < i ==> !prefix::covered_v4(
                    p,
                    (#[trigger] ss@[k]).prefix,
                    ss@[k].prefix_len,
                ),
        decreases ss.len() - i,
    {
        if prefix_covered_by(p, ss[i].prefix, ss[i].prefix_len) {
            return true;
        }
        i = i + 1;
    }
    false
}

impl OspfInstance {
    /// The links of our Router-LSA in the area.
    fn links_in(&self, id: u32) -> (r: Vec<RouterLink>)
        ensures
            r@ == area_links(self@.interfaces, id),
    {
        let mut v: Vec<RouterLink> = Vec::new();
        let ghost is = self@.interfaces;
        let mut i: usize = 0;
        assert(is.take(0) =~= Seq::empty());
        while i < self.interfaces.len()
            invariant
                i <= self.interfaces@.len(),
                is == self@.interfaces,
                v@ == area_links(is.take(i as int), id),
            decreases self.interfaces.len() - i,
        {
            assert(is.take(i + 1).drop_last() =~= is.take(i as int));
            assert(self.interfaces@[i as int]@ == is[i as int]);
            if self.interfaces[i].area_id == id && self.interfaces[i].state
                != InterfaceState::Down {
                let mut more = self.interfaces[i].links();
                v.append(&mut more);
            }
            i = i + 1;
        }
        assert(is.take(i as int) =~= is);
        v
    }

    /// Issues our Router-LSA in every area in which we have a link. It says whether we border the
    /// backbone and whether we redistribute routes.
    pub fn originate_router_lsas(&mut self, now: u64) -> (r: Vec<(u32, Lsa)>)
        ensures
            final(self)@ == old(self)@.with_router_lsas(now),
            wire::views(r@) == old(self)@.router_lsas(old(self)@.areas),
    {
        let ghost me = self@;
        let ghost s = me.areas;
        let border = self.is_abr();
        let asbr = self.redistribute.len() > 0;
        let flags: u8 = (if border {
            B_FLAG
        } else {
            0
        }) + (if asbr {
            E_FLAG
        } else {
            0
        });
        assert(flags == me.router_flags());
        let mut out: Vec<(u32, Lsa)> = Vec::new();
        let mut i: usize = 0;
        assert(s.take(0) =~= Seq::empty());
        assert(wire::views(out@) =~= Seq::empty());
        while i < self.areas.len()
            invariant
                i <= self.areas@.len(),
                self.areas@.len() == s.len(),
                s == me.areas,
                flags == me.router_flags(),
                self@ == (OspfInstanceView { areas: self@.areas, ..me }),
                forall|k: int|
                    0 <= k < i ==> (#[trigger] self.areas@[k])@ == me.with_router_lsa(s[k], now),
                forall|k: int| i <= k < s.len() ==> (#[trigger] self.areas@[k])@ == s[k],
                wire::views(out@) == me.router_lsas(s.take(i as int)),
            decreases self.areas.len() - i,
        {
            assert(s.take(i + 1).drop_last() =~= s.take(i as int));
            assert(self.areas@[i as int]@ == s[i as int]);
            let id: u32 = self.areas[i].area_id;
            let links = self.links_in(id);
            if links.len() > 0 {
                let options: u8 = OspfOptions::standard().0;
                let l = self.areas[i].lsdb.originate_router_lsa(
                    self.router_id,
                    id,
                    flags,
                    links,
                    options,
                    now,
                );
                out.push((id, l));
            }
            i = i + 1;
        }
        assert(s.take(i as int) =~= s);
        assert(self@.areas =~= me.with_router_lsas(now).areas);
        out
    }

    /// Issues our Router-LSAs and gives the first one; a blank one if there is none.
    pub fn originate_router_lsa(&mut self, now: u64) -> (l: Lsa)
        ensures
            final(self)@ == old(self)@.with_router_lsas(now),
            ({
                let ls = old(self)@.router_lsas(old(self)@.areas);
                l@ == (if ls.len() > 0 {
                    ls[0].1
                } else {
                    lsa::LsaView {
                        header: LsaHeader {
                            ls_age: 0,
                            options: 0,
                            ls_type: LsaType::Router,
                            link_state_id: old(self)@.router_id,
                            advertising_router: old(self)@.router_id,
                            ls_sequence_number: INITIAL_SEQUENCE_NUMBER,
                            ls_checksum: 0,
                            length: 24,
                        },
                        body: lsa::LsaBodyView::Router { flags: 0, links: Seq::empty() },
                    }
                })
            }),
    {
        let ghost me = self@;
        let ls = self.originate_router_lsas(now);
        if ls.len() > 0 {
            assert(wire::views(ls@)[0] == ls@[0]@);
            ls[0].1.duplicate()
        } else {
            let r = RouterLsa { flags: 0, links: Vec::new() };
            assert(r.links@ =~= Seq::empty());
            Lsa {
                header: LsaHeader {
                    ls_age: 0,
                    options: 0,
                    ls_type: LsaType::Router,
                    link_state_id: self.router_id,
                    advertising_router: self.router_id,
                    ls_sequence_number: INITIAL_SEQUENCE_NUMBER,
                    ls_checksum: 0,
                    length: 24,
                },
                body: LsaBody::Router(r),
            }
        }
    }

    /// Issues the next instance of an LSA of ours in the area at position `a`.
    fn issue_in(&mut self, a: usize, k: LsaKey, body: LsaBody, now: u64) -> (l: Lsa)
        requires
            a < old(self)@.areas.len(),
        ensures
            final(self)@ == old(self)@.issued_in(a as int, k, body@, now).0,
            l@ == old(self)@.issued_in(a as int, k, body@, now).1,
            final(self).areas@.len() == old(self).areas@.len(),
    {
        let ghost me = self@;
        assert(self.areas@[a as int]@ == me.areas[a as int]);
        let options: u8 = OspfOptions::standard().0;
        let l = self.areas[a].lsdb.build_next(&k, options, body);
        let copy = l.duplicate();
        let _r = self.areas[a].lsdb.install(copy, now);
        assert(self@.areas =~= me.issued_in(a as int, k, body@, now).0.areas);
        l
    }

    /// Issues the next instance of an AS-external LSA of ours.
    fn issue_external(&mut self, id: u32, e: AsExternalLsa, now: u64) -> (l: Lsa)
        ensures
            final(self)@ == old(self)@.issued_external(id, e, now).0,
            l@ == old(self)@.issued_external(id, e, now).1,
    {
        let k = LsaKey {
            ls_type: LsaType::AsExternal,
            link_state_id: id,
            advertising_router: self.router_id,
        };
        let options: u8 = OspfOptions::standard().0;
        let l = self.as_external_lsdb.build_next(&k, options, LsaBody::AsExternal(e));
        let copy = l.duplicate();
        let _r = self.as_external_lsdb.install(copy, now);
        l
    }

    /// Issues a Network-LSA for each broadcast network whose designated router we are and on which
    /// a neighbor is Full. It lists the Full neighbors and us.
    pub fn originate_network_lsas(&mut self, now: u64) -> (r: Vec<(u32, Lsa)>)
        ensures
            (final(self)@, wire::views(r@)) == old(self)@.network_lsas(
                old(self)@.interfaces,
                now,
            ),
    {
        let ghost me = self@;
        let ghost is = me.interfaces;
        let mut out: Vec<(u32, Lsa)> = Vec::new();
        let mut i: usize = 0;
        assert(is.take(0) =~= Seq::empty());
        assert(wire::views(out@) =~= Seq::empty());
        while i < self.interfaces.len()
            invariant
                i <= self.interfaces@.len(),
                is == me.interfaces,
                self@.interfaces == is,
                self@.router_id == me.router_id,
                (self@, wire::views(out@)) == me.network_lsas(is.take(i as int), now),
            decreases self.interfaces.len() - i,
        {
            assert(is.take(i + 1).drop_last() =~= is.take(i as int));
            assert(self.interfaces@[i as int]@ == is[i as int]);
            let f = &self.interfaces[i];
            if f.state == InterfaceState::DR && f.network_type == NetworkType::Broadcast
                && f.any_full() {
                let mut ids = f.full_neighbors();
                ids.push(self.router_id);
                let attached = sort(&ids);
                let id: u32 = f.area_id;
                let address: u32 = f.address;
                let mask: u32 = f.mask;
                if let Some(a) = self.find_area(id) {
                    let k = LsaKey {
                        ls_type: LsaType::Network,
                        link_state_id: address,
                        advertising_router: self.router_id,
                    };
                    let l = self.issue_in(
                        a,
                        k,
                        LsaBody::Network(
                            NetworkLsa { network_mask: mask, attached_routers: attached },
                        ),
                        now,
                    );
                    out.push((id, l));
                }
            }
            i = i + 1;
        }
        assert(is.take(i as int) =~= is);
        out
    }

    /// Announces the default route into each area of `ids` that takes no external routes.
    fn announce_stub_defaults(&mut self, ids: &Vec<u32>, now: u64) -> (r: Vec<(u32, Lsa)>)
        ensures
            (final(self)@, wire::views(r@)) == old(self)@.stub_defaults(ids@, now),
            final(self)@.interfaces == old(self)@.interfaces,
            final(self)@.router_id == old(self)@.router_id,
    {
        let ghost me = self@;
        let mut out: Vec<(u32, Lsa)> = Vec::new();
        let mut i: usize = 0;
        assert(ids@.take(0) =~= Seq::empty());
        assert(wire::views(out@) =~= Seq::empty());
        while i < ids.len()
            invariant
                i <= ids@.len(),
                self@.interfaces == me.interfaces,
                self@.router_id == me.router_id,
                (self@, wire::views(out@)) == me.stub_defaults(ids@.take(i as int), now),
            decreases ids.len() - i,
        {
            assert(ids@.take(i + 1).drop_last() =~= ids@.take(i as int));
            if let Some(a) = self.find_area(ids[i]) {
                assert(self.areas@[a as int]@ == self@.areas[a as int]);
                if self.areas[a].area_type != AreaType::Normal {
                    let k = LsaKey {
                        ls_type: LsaType::SummaryNetwork,
                        link_state_id: 0,
                        advertising_router: self.router_id,
                    };
                    let metric: u32 = self.areas[a].default_cost;
                    let l = self.issue_in(
                        a,
                        k,
                        LsaBody::Summary(SummaryLsa { network_mask: 0, metric }),
                        now,
                    );
                    out.push((ids[i], l));
                }
            }
            i = i + 1;
        }
        assert(ids@.take(i as int) =~= ids@);
        out
    }

    /// Whether the prefix is the network of one of our interfaces in the area.
    fn is_local_in(&self, prefix: u32, id: u32) -> (r: bool)
        ensures
            r == self@.local_in(prefix, id),
    {
        let mut i: usize = 0;
        while i < self.interfaces.len()
            invariant
                i <= self.interfaces@.len(),
                forall|k: int|
                    0 <= k < i ==> !((#[trigger] self@.interfaces[k]).area_id == id
                        && self@.interfaces[k].address & self@.interfaces[k].mask == prefix),
            decreases self.interfaces.len() - i,
        {
            assert(self@.interfaces[i as int] == self.interfaces@[i as int]@);
            if self.interfaces[i].area_id == id && apply_mask(
                self.interfaces[i].address,
                self.interfaces[i].mask,
            ) == prefix {
                return true;
            }
            i = i + 1;
        }
        false
    }

    /// Whether an interface of the area is up.
    pub fn is_active_in(&self, id: u32) -> (r: bool)
        ensures
            r == self@.active_in(id),
    {
        let mut i: usize = 0;
        while i < self.interfaces.len()
            invariant
                i <= self.interfaces@.len(),
                forall|k: int|
                    0 <= k < i ==> !((#[trigger] self@.interfaces[k]).area_id == id
                        && self@.interfaces[k].state != InterfaceState::Down),
            decreases self.interfaces.len() - i,
        {
            assert(self@.interfaces[i as int] == self.interfaces@[i as int]@);
            if self.interfaces[i].area_id == id && self.interfaces[i].state
                != InterfaceState::Down {
                return true;
            }
            i = i + 1;
        }
        false
    }

    /// Announces routes into the area at position `a`.
    fn announce_routes(&mut self, a: usize, rs: &Vec<SpfRoute>, now: u64) -> (r: Vec<(u32, Lsa)>)
        requires
            a < old(self)@.areas.len(),
            forall|k: int| 0 <= k < rs@.len() ==> (#[trigger] rs@[k]).prefix_len <= 32,
        ensures
            (final(self)@, wire::views(r@)) == old(self)@.route_summaries(a as int, rs@, now),
            final(self)@.interfaces == old(self)@.interfaces,
            final(self)@.router_id == old(self)@.router_id,
    {
        let ghost me = self@;
        assert(self.areas@[a as int]@ == me.areas[a as int]);
        let id: u32 = self.areas[a].area_id;
        let mut out: Vec<(u32, Lsa)> = Vec::new();
        let mut i: usize = 0;
        assert(rs@.take(0) =~= Seq::empty());
        assert(wire::views(out@) =~= Seq::empty());
        while i < rs.len()
            invariant
                i <= rs@.len(),
                forall|k: int| 0 <= k < rs@.len() ==> (#[trigger] rs@[k]).prefix_len <= 32,
                a < self@.areas.len(),
                id == me.areas[a as int].area_id,
                self@.interfaces == me.interfaces,
                self@.router_id == me.router_id,
                (self@, wire::views(out@)) == me.route_summaries(
                    a as int,
                    rs@.take(i as int),
                    now,
                ),
            decreases rs.len() - i,
        {
            assert(rs@.take(i + 1).drop_last() =~= rs@.take(i as int));
            let x = rs[i];
            assert(self@.local_in(x.prefix, id) == me.local_in(x.prefix, id));
            if !self.is_local_in(x.prefix, id) {
                let k = LsaKey {
                    ls_type: LsaType::SummaryNetwork,
                    link_state_id: x.prefix,
                    advertising_router: self.router_id,
                };
                let l = self.issue_in(
                    a,
                    k,
                    LsaBody::Summary(
                        SummaryLsa {
                            network_mask: prefix_len_to_mask(x.prefix_len),
                            metric: x.cost,
                        },
                    ),
                    now,
                );
                out.push((id, l));
            }
            i = i + 1;
        }
        assert(rs@.take(i as int) =~= rs@);
        out
    }

    /// Announces the routes of the area `src` into each other area of `ids`.
    fn announce_to(&mut self, src: u32, ids: &Vec<u32>, rs: &Vec<SpfRoute>, now: u64) -> (r: Vec<
        (u32, Lsa),
    >)
        requires
            forall|k: int| 0 <= k < rs@.len() ==> (#[trigger] rs@[k]).prefix_len <= 32,
        ensures
            (final(self)@, wire::views(r@)) == old(self)@.dest_summaries(src, ids@, rs@, now),
            final(self)@.interfaces == old(self)@.interfaces,
            final(self)@.router_id == old(self)@.router_id,
    {
        let ghost me = self@;
        let mut out: Vec<(u32, Lsa)> = Vec::new();
        let mut i: usize = 0;
        assert(ids@.take(0) =~= Seq::empty());
        assert(wire::views(out@) =~= Seq::empty());
        while i < ids.len()
            invariant
                i <= ids@.len(),
                forall|k: int| 0 <= k < rs@.len() ==> (#[trigger] rs@[k]).prefix_len <= 32,
                self@.interfaces == me.interfaces,
                self@.router_id == me.router_id,
                (self@, wire::views(out@)) == me.dest_summaries(
                    src,
                    ids@.take(i as int),
                    rs@,
                    now,
                ),
            decreases ids.len() - i,
        {
            assert(ids@.take(i + 1).drop_last() =~= ids@.take(i as int));
            if ids[i] != src {
                if let Some(a) = self.find_area(ids[i]) {
                    let ghost front = wire::views(out@);
                    let mut more = self.announce_routes(a, rs, now);
                    let ghost tail = wire::views(more@);
                    out.append(&mut more);
                    assert(wire::views(out@) =~= front + tail);
                }
            }
            i = i + 1;
        }
        assert(ids@.take(i as int) =~= ids@);
        out
    }

    /// As a border router, announces the routes of each area into the others, and the default route
    /// into areas that take no external routes. `tables` holds the routes that were computed inside
    /// each area. A router that borders nothing issues nothing.
    pub fn announce_tables(&mut self, tables: &Vec<AreaRoutes>, now: u64) -> (r: Vec<
        (u32, Lsa),
    >)
        requires
            forall|t: int, k: int|
                0 <= t < tables@.len() && 0 <= k < tables@[t].routes@.len() ==> (
                #[trigger] tables@[t].routes@[k]).prefix_len <= 32,
        ensures
            (final(self)@, wire::views(r@)) == old(self)@.summaries(wire::views(tables@), now),
    {
        if !self.is_abr() {
            let none: Vec<(u32, Lsa)> = Vec::new();
            assert(wire::views(none@) =~= Seq::empty());
            return none;
        }
        let ghost me = self@;
        let ghost ts = wire::views(tables@);
        let mut ids: Vec<u32> = Vec::new();
        let mut j: usize = 0;
        while j < self.areas.len()
            invariant
                j <= self.areas@.len(),
                self@ == me,
                ids@ == area_ids(me.areas).take(j as int),
            decreases self.areas.len() - j,
        {
            assert(self.areas@[j as int]@ == me.areas[j as int]);
            ids.push(self.areas[j].area_id);
            j = j + 1;
            assert(ids@ =~= area_ids(me.areas).take(j as int));
        }
        assert(ids@ =~= area_ids(me.areas));
        let mut out = self.announce_stub_defaults(&ids, now);
        let ghost d = self@;
        let ghost first = wire::views(out@);
        let mut i: usize = 0;
        assert(ids@.take(0) =~= Seq::empty());
        assert(first + Seq::<(u32, lsa::LsaView)>::empty() =~= first);
        while i < ids.len()
            invariant
                i <= ids@.len(),
                ts == wire::views(tables@),
                forall|t: int, k: int|
                    0 <= t < tables@.len() && 0 <= k < tables@[t].routes@.len() ==> (
                    #[trigger] tables@[t].routes@[k]).prefix_len <= 32,
                self@.interfaces == d.interfaces,
                self@.router_id == d.router_id,
                self@ == d.source_summaries(ids@.take(i as int), ids@, ts, now).0,
                wire::views(out@) == first + d.source_summaries(
                    ids@.take(i as int),
                    ids@,
                    ts,
                    now,
                ).1,
            decreases ids.len() - i,
        {
            assert(ids@.take(i + 1).drop_last() =~= ids@.take(i as int));
            let id: u32 = ids[i];
            assert(self@.active_in(id) == d.active_in(id));
            if self.is_active_in(id) {
                let ghost before = wire::views(out@);
                let ghost front = d.source_summaries(ids@.take(i as int), ids@, ts, now);
                match find_table(tables, id) {
                    Some(t) => {
                        let mut more = self.announce_to(id, &ids, &tables[t].routes, now);
                        let ghost tail = wire::views(more@);
                        out.append(&mut more);
                        assert(wire::views(out@) =~= before + tail);
                        assert((first + front.1) + tail =~= first + (front.1 + tail));
                    },
                    None => {
                        proof {
                            lemma_nothing_to_announce(front.0, id, ids@, now);
                        }
                        assert(before =~= first + (front.1 + Seq::<
                            (u32, lsa::LsaView),
                        >::empty()));
                    },
                }
            }
            i = i + 1;
        }
        assert(ids@.take(i as int) =~= ids@);
        out
    }

    /// Withdraws every AS-external LSA of ours whose id is not in `keep`: it is stored once more at
    /// the maximal age.
    pub fn flush_self_externals_outside(&mut self, keep: &Vec<u32>, now: u64)
        ensures
            final(self)@ == old(self)@.flushed_outside(keep@, now),
    {
        let ghost me = self@;
        let hs = self.as_external_lsdb.all_headers(now);
        let mut keys: Vec<LsaKey> = Vec::new();
        let mut i: usize = 0;
        assert(hs@.take(0) =~= Seq::empty());
        while i < hs.len()
            invariant
                i <= hs@.len(),
                self@ == me,
                keys@ == withdrawn_keys(hs@.take(i as int), me.router_id, keep@),
            decreases hs.len() - i,
        {
            assert(hs@.take(i + 1).drop_last() =~= hs@.take(i as int));
            if hs[i].advertising_router == self.router_id && !contains_u32(
                keep,
                hs[i].link_state_id,
            ) {
                keys.push(hs[i].key());
            }
            i = i + 1;
        }
        assert(hs@.take(i as int) =~= hs@);
        let mut k: usize = 0;
        assert(keys@.take(0) =~= Seq::empty());
        while k < keys.len()
            invariant
                k <= keys@.len(),
                self@ == me.withdrawn(keys@.take(k as int), now),
            decreases keys.len() - k,
        {
            assert(keys@.take(k + 1).drop_last() =~= keys@.take(k as int));
            let found = match self.as_external_lsdb.get(&keys[k]) {
                Some(e) => Some(e.lsa.duplicate()),
                None => None,
            };
            if let Some(l) = found {
                let mut l = l;
                l.header.ls_age = MAX_AGE;
                l.header.ls_sequence_number = l.header.ls_sequence_number.wrapping_add(1);
                let sealed = l.seal();
                let _r = self.as_external_lsdb.install(sealed, now);
            }
            k = k + 1;
        }
        assert(keys@.take(k as int) =~= keys@);
    }

    /// Announces the given routes as AS-external LSAs if a rule redistributes connected routes, but
    /// not those that lie in a summary range or that the rule's route map denies. What we announced
    /// before and is gone now is withdrawn; so is everything without such a rule, or if the rule
    /// names an unknown route map.
    pub fn originate_external_lsas(
        &mut self,
        redistribute: &Vec<RedistributeConfig>,
        externals: &Vec<External>,
        summaries: &Vec<ParsedSummaryAddress>,
        now: u64,
    ) -> (r: Vec<Lsa>)
        ensures
            (final(self)@, wire::views(r@)) == old(self)@.redistributed(
                wire::views(redistribute@),
                wire::views(externals@),
                summaries@,
                now,
            ),
    {
        let ghost me = self@;
        let none: Vec<Lsa> = Vec::new();
        assert(wire::views(none@) =~= Seq::empty());
        let rule = match find_connected(redistribute) {
            None => {
                let keep: Vec<u32> = Vec::new();
                assert(keep@ =~= Seq::empty());
                self.flush_self_externals_outside(&keep, now);
                return none;
            },
            Some(i) => &redistribute[i],
        };
        let map: Option<RouteMap> = match &rule.route_map {
            None => None,
            Some(name) => match find_map(&self.route_maps, name.as_str()) {
                Some(i) => {
                    assert(self.route_maps@[i as int]@ == me.route_maps[i as int]);
                    Some(self.route_maps[i].duplicate())
                },
                None => {
                    let keep: Vec<u32> = Vec::new();
                    assert(keep@ =~= Seq::empty());
                    self.flush_self_externals_outside(&keep, now);
                    return none;
                },
            },
        };
        let kept = announced_routes(externals, summaries, &map);
        let keep = ids_to_keep(&kept, summaries);
        self.flush_self_externals_outside(&keep, now);
        self.announce_externals(&kept, rule.metric, rule.metric_type, now)
    }

    /// Announces routes as AS-external LSAs.
    fn announce_externals(
        &mut self,
        kept: &Vec<(u32, u32)>,
        metric: u32,
        metric_type: u8,
        now: u64,
    ) -> (r: Vec<Lsa>)
        ensures
            (final(self)@, wire::views(r@)) == old(self)@.external_lsas(
                kept@,
                metric,
                metric_type,
                now,
            ),
    {
        let ghost me = self@;
        let mut out: Vec<Lsa> = Vec::new();
        let mut i: usize = 0;
        assert(kept@.take(0) =~= Seq::empty());
        assert(wire::views(out@) =~= Seq::empty());
        while i < kept.len()
            invariant
                i <= kept@.len(),
                (self@, wire::views(out@)) == me.external_lsas(
                    kept@.take(i as int),
                    metric,
                    metric_type,
                    now,
                ),
            decreases kept.len() - i,
        {
            assert(kept@.take(i + 1).drop_last() =~= kept@.take(i as int));
            let l = self.issue_external(
                kept[i].0,
                AsExternalLsa {
                    network_mask: kept[i].1,
                    metric_type_2: metric_type == 2,
                    metric,
                    forwarding_address: 0,
                    external_route_tag: 0,
                },
                now,
            );
            out.push(l);
            i = i + 1;
        }
        assert(kept@.take(i as int) =~= kept@);
        out
    }

    /// The route that our default-route LSA announces, if there is one.
    fn own_default(&self, now: u64) -> (r: Option<AsExternalLsa>)
        ensures
            r == self@.own_default(now),
    {
        let k = LsaKey {
            ls_type: LsaType::AsExternal,
            link_state_id: 0,
            advertising_router: self.router_id,
        };
        match self.as_external_lsdb.get(&k) {
            Some(e) => if e.is_max_age(now) {
                None
            } else {
                match &e.lsa.body {
                    LsaBody::AsExternal(b) => Some(*b),
                    _ => None,
                }
            },
            None => None,
        }
    }

    /// Announces anew what is known of the outside, `es` being what may be redistributed, and
    /// withdraws the rest. What has to be flooded comes back.
    pub fn reannounce(&mut self, es: &Vec<External>, now: u64) -> (r: Vec<Lsa>)
        requires
            forall|k: int|
                0 <= k < old(self)@.summary_addresses.len() && !(
                #[trigger] old(self)@.summary_addresses[k]).no_advertise
                    ==> old(self)@.summary_addresses[k].prefix_len <= 32,
        ensures
            (final(self)@, wire::views(r@)) == old(self)@.reannounced(wire::views(es@), now),
    {
        let held = self.as_external_lsdb.all_headers(now);
        let mut fresh = self.announce_anew(es, now);
        let ghost second = wire::views(fresh@);
        let mut ls = self.withdrawals(&held, now);
        let ghost first = wire::views(ls@);
        ls.append(&mut fresh);
        assert(wire::views(ls@) =~= first + second);
        ls
    }

    /// Of our AS-external LSAs with the given headers, those that reached the maximal age.
    fn withdrawals(&self, hs: &Vec<LsaHeader>, now: u64) -> (r: Vec<Lsa>)
        ensures
            wire::views(r@) == self@.withdrawals(hs@, now),
    {
        let mut out: Vec<Lsa> = Vec::new();
        let mut i: usize = 0;
        assert(hs@.take(0) =~= Seq::empty());
        assert(wire::views(out@) =~= Seq::empty());
        while i < hs.len()
            invariant
                i <= hs@.len(),
                wire::views(out@) == self@.withdrawals(hs@.take(i as int), now),
            decreases hs.len() - i,
        {
            assert(hs@.take(i + 1).drop_last() =~= hs@.take(i as int));
            let h = hs[i];
            if let Some(e) = self.as_external_lsdb.get(&h.key()) {
                if h.advertising_router == self.router_id && e.is_max_age(now) {
                    out.push(e.lsa.duplicate());
                }
            }
            i = i + 1;
        }
        assert(hs@.take(i as int) =~= hs@);
        out
    }

    /// Announces anew what is known of the outside, `es` being what may be redistributed. What was
    /// announced comes back.
    fn announce_anew(&mut self, es: &Vec<External>, now: u64) -> (r: Vec<Lsa>)
        requires
            forall|k: int|
                0 <= k < old(self)@.summary_addresses.len() && !(
                #[trigger] old(self)@.summary_addresses[k]).no_advertise
                    ==> old(self)@.summary_addresses[k].prefix_len <= 32,
        ensures
            (final(self)@, wire::views(r@)) == old(self)@.announced_anew(wire::views(es@), now),
    {
        let summaries = copy_summaries(&self.summary_addresses);
        assert(summaries@ == self@.summary_addresses);
        let default = self.own_default(now);
        let mut ls = self.announce_outside(es, &summaries, now);
        if let Some(b) = default {
            let l = self.issue_external(0, b, now);
            ls.push(l);
        }
        ls
    }

    /// Announces what may be redistributed and the aggregates of the summary ranges.
    fn announce_outside(
        &mut self,
        es: &Vec<External>,
        summaries: &Vec<ParsedSummaryAddress>,
        now: u64,
    ) -> (r: Vec<Lsa>)
        requires
            forall|k: int|
                0 <= k < summaries@.len() && !(#[trigger] summaries@[k]).no_advertise
                    ==> summaries@[k].prefix_len <= 32,
        ensures
            ({
                let f = old(self)@.redistributed(
                    old(self)@.redistribute,
                    wire::views(es@),
                    summaries@,
                    now,
                );
                let g = f.0.aggregates(summaries@, now);
                final(self)@ == g.0 && wire::views(r@) == f.1 + g.1
            }),
    {
        let rules = copy_rules(&self.redistribute);
        let mut ls = self.originate_external_lsas(&rules, es, summaries, now);
        let ghost first = wire::views(ls@);
        let mut more = self.originate_summary_address_lsas(summaries, now);
        let ghost second = wire::views(more@);
        ls.append(&mut more);
        assert(wire::views(ls@) =~= first + second);
        ls
    }

    /// Announces the aggregate of each summary range that is to be advertised.
    pub fn originate_summary_address_lsas(
        &mut self,
        entries: &Vec<ParsedSummaryAddress>,
        now: u64,
    ) -> (r: Vec<Lsa>)
        requires
            forall|k: int|
                0 <= k < entries@.len() && !(#[trigger] entries@[k]).no_advertise
                    ==> entries@[k].prefix_len <= 32,
        ensures
            (final(self)@, wire::views(r@)) == old(self)@.aggregates(entries@, now),
    {
        let ghost me = self@;
        let mut out: Vec<Lsa> = Vec::new();
        let mut i: usize = 0;
        assert(entries@.take(0) =~= Seq::empty());
        assert(wire::views(out@) =~= Seq::empty());
        while i < entries.len()
            invariant
                i <= entries@.len(),
                forall|k: int|
                    0 <= k < entries@.len() && !(#[trigger] entries@[k]).no_advertise
                        ==> entries@[k].prefix_len <= 32,
                (self@, wire::views(out@)) == me.aggregates(entries@.take(i as int), now),
            decreases entries.len() - i,
        {
            assert(entries@.take(i + 1).drop_last() =~= entries@.take(i as int));
            let e = entries[i];
            if !e.no_advertise {
                let l = self.issue_external(
                    e.prefix,
                    AsExternalLsa {
                        network_mask: prefix_len_to_mask(e.prefix_len),
                        metric_type_2: e.metric_type == 2,
                        metric: e.metric,
                        forwarding_address: 0,
                        external_route_tag: e.tag,
                    },
                    now,
                );
                out.push(l);
            }
            i = i + 1;
        }
        assert(entries@.take(i as int) =~= entries@);
        out
    }

    /// Announces the default route as an AS-external LSA.
    pub fn originate_default_route_lsa(&mut self, metric: u32, metric_type: u8, now: u64) -> (l:
        Lsa)
        ensures
            (final(self)@, l@) == old(self)@.issued_external(
                0,
                (AsExternalLsa {
                    network_mask: 0,
                    metric_type_2: metric_type == 2,
                    metric,
                    forwarding_address: 0,
                    external_route_tag: 0,
                }),
                now,
            ),
    {
        self.issue_external(
            0,
            AsExternalLsa {
                network_mask: 0,
                metric_type_2: metric_type == 2,
                metric,
                forwarding_address: 0,
                external_route_tag: 0,
            },
            now,
        )
    }
}

/// The position of the table of the area.
fn find_table(ts: &Vec<AreaRoutes>, id: u32) -> (r: Option<usize>)
    ensures
        match r {
            Some(t) => t < ts@.len() && ts@[t as int].routes@ == routes_of(
                wire::views(ts@),
                id,
                0,
            ),
            None => routes_of(wire::views(ts@), id, 0) == Seq::<SpfRoute>::empty(),
        },
{
    let ghost s = wire::views(ts@);
    let mut i: usize = 0;
    while i < ts.len()
        invariant
            i <= ts@.len(),
            s == wire::views(ts@),
            routes_of(s, id, 0) == routes_of(s, id, i as int),
        decreases ts.len() - i,
    {
        assert(s[i as int] == ts@[i as int]@);
        if ts[i].area_id == id {
            return Some(i);
        }
        i = i + 1;
    }
    None
}

/// The position of the first rule that redistributes connected routes.
pub fn find_connected(rs: &Vec<RedistributeConfig>) -> (r: Option<usize>)
    ensures
        match (r, connected_rule(wire::views(rs@), 0)) {
            (Some(i), Some(v)) => i < rs@.len() && rs@[i as int]@ == v,
            (None, None) => true,
            _ => false,
        },
{
    let ghost s = wire::views(rs@);
    let mut i: usize = 0;
    while i < rs.len()
        invariant
            i <= rs@.len(),
            s == wire::views(rs@),
            connected_rule(s, 0) == connected_rule(s, i as int),
        decreases rs.len() - i,
    {
        assert(s[i as int] == rs@[i as int]@);
        if rs[i].source == RedistributeSource::Connected {
            return Some(i);
        }
        i = i + 1;
    }
    None
}

/// The position of the first route map with the given name.
pub fn find_map(ms: &Vec<RouteMap>, name: &str) -> (r: Option<usize>)
    ensures
        match (r, map_named(wire::views(ms@), name@, 0)) {
            (Some(i), Some(v)) => i < ms@.len() && ms@[i as int]@ == v,
            (None, None) => true,
            _ => false,
        },
{
    let ghost s = wire::views(ms@);
    let mut i: usize = 0;
    while i < ms.len()
        invariant
            i <= ms@.len(),
            s == wire::views(ms@),
            map_named(s, name@, 0) == map_named(s, name@, i as int),
        decreases ms.len() - i,
    {
        assert(s[i as int] == ms@[i as int]@);
        if same_text(ms[i].name.as_str(), name) {
            return Some(i);
        }
        i = i + 1;
    }
    None
}

/// What an optional route map is.
pub open spec fn opt_view(map: Option<RouteMap>) -> Option<config::RouteMapView> {
    match map {
        Some(m) => Some(m@),
        None => None,
    }
}

/// The routes that are announced.
fn announced_routes(
    es: &Vec<External>,
    ss: &Vec<ParsedSummaryAddress>,
    map: &Option<RouteMap>,
) -> (r: Vec<(u32, u32)>)
    ensures
        r@ == announced(wire::views(es@), ss@, opt_view(*map)),
{
    let ghost s = wire::views(es@);
    let ghost mv = opt_view(*map);
    let mut v: Vec<(u32, u32)> = Vec::new();
    let mut i: usize = 0;
    assert(s.take(0) =~= Seq::empty());
    while i < es.len()
        invariant
            i <= es@.len(),
            s == wire::views(es@),
            mv == opt_view(*map),
            v@ == announced(s.take(i as int), ss@, mv),
        decreases es.len() - i,
    {
        assert(s.take(i + 1).drop_last() =~= s.take(i as int));
        assert(s[i as int] == es@[i as int]@);
        if !is_summarised(es[i].prefix, ss) {
            let pass = match map {
                Some(m) => evaluate_route_map(m, &es[i].matched),
                None => true,
            };
            if pass {
                v.push((es[i].prefix, es[i].mask));
            }
        }
        i = i + 1;
    }
    assert(s.take(i as int) =~= s);
    v
}

/// The link state ids that stay.
fn ids_to_keep(kept: &Vec<(u32, u32)>, ss: &Vec<ParsedSummaryAddress>) -> (r: Vec<u32>)
    ensures
        r@ == kept_ids(kept@, ss@),
{
    let ghost a = Seq::new(kept@.len(), |k: int| kept@[k].0);
    let ghost b = Seq::new(ss@.len(), |k: int| ss@[k].prefix);
    let mut v: Vec<u32> = Vec::new();
    let mut i: usize = 0;
    while i < kept.len()
        invariant
            i <= kept@.len(),
            a == Seq::new(kept@.len(), |k: int| kept@[k].0),
            v@ == a.take(i as int),
        decreases kept.len() - i,
    {
        v.push(kept[i].0);
        i = i + 1;
        assert(v@ =~= a.take(i as int));
    }
    assert(v@ =~= a + b.take(0));
    let mut j: usize = 0;
    while j < ss.len()
        invariant
            j <= ss@.len(),
            b == Seq::new(ss@.len(), |k: int| ss@[k].prefix),
            v@ == a + b.take(j as int),
        decreases ss.len() - j,
    {
        v.push(ss[j].prefix);
        j = j + 1;
        assert(v@ =~= a + b.take(j as int));
    }
    assert(b.take(j as int) =~= b);
    v.push(0);
    v
}

/// Without routes nothing is announced.
proof fn lemma_nothing_to_announce(s: OspfInstanceView, src: u32, ids: Seq<u32>, now: u64)
    ensures
        s.dest_summaries(src, ids, Seq::empty(), now) == (s, Seq::<(u32, lsa::LsaView)>::empty()),
    decreases ids.len(),
{
    if ids.len() > 0 {
        lemma_nothing_to_announce(s, src, ids.drop_last(), now);
        assert(Seq::<(u32, lsa::LsaView)>::empty() + Seq::<(u32, lsa::LsaView)>::empty() =~= Seq::<
            (u32, lsa::LsaView),
        >::empty());
    }
}

proof fn lemma_placed(s: Seq<u32>, x: u32)
    requires
        forall|i: int, j: int| 0 <= i < j < s.len() ==> s[i] <= s[j],
    ensures
        forall|i: int, j: int|
            0 <= i < j < placed(s, x).len() ==> #[trigger] placed(s, x)[i] <= #[trigger] placed(
                s,
                x,
            )[j],
        placed(s, x).to_multiset() == s.to_multiset().insert(x),
        placed(s, x).len() == s.len() + 1,
        placed(s, x).len() > 0 && placed(s, x).last() == (if s.len() > 0 && s.last() > x {
            s.last()
        } else {
            x
        }),
    decreases s.len(),
{
    vstd::seq_lib::to_multiset_build(s, x);
    if s.len() > 0 && s.last() > x {
        let front = s.drop_last();
        lemma_placed(front, x);
        let t = placed(front, x);
        vstd::seq_lib::to_multiset_build(front, s.last());
        vstd::seq_lib::to_multiset_build(t, s.last());
        assert(s =~= front.push(s.last()));
        assert(t.last() <= s.last());
        assert(s.to_multiset().insert(x) =~= front.to_multiset().insert(x).insert(s.last()));
    }
}

/// Sorting puts the elements into rising order and neither adds, drops nor changes any.
pub proof fn lemma_sorted(s: Seq<u32>)
    ensures
        forall|i: int, j: int| 0 <= i < j < sorted(s).len() ==> sorted(s)[i] <= sorted(s)[j],
        sorted(s).to_multiset() == s.to_multiset(),
        sorted(s).len() == s.len(),
    decreases s.len(),
{
    if s.len() > 0 {
        lemma_sorted(s.drop_last());
        lemma_placed(sorted(s.drop_last()), s.last());
        vstd::seq_lib::to_multiset_build(s.drop_last(), s.last());
        assert(s =~= s.drop_last().push(s.last()));
    }
}

} // verus!
