//! Origination of our own LSAs.
use vstd::prelude::*;

use crate::config;
use crate::config::{ParsedSummaryAddress6, RedistributeConfig, RouteMap};
use crate::instance::originate as redistribution;
use crate::instance::originate::{evaluate_route_map, find_connected, find_map};
use crate::instance_v3;
use crate::instance_v3::{
    InstanceV3, InstanceV3View, InterfaceStateV3, InterfaceV3, InterfaceV3View, NeighborStateV3,
    NeighborV3View,
};
use crate::lsdb_v3::{LsaEntryV3, LsaEntryV3View, LsaKeyV3};
use crate::packet::checksum;
use crate::packet::checksum::fletcher16;
use crate::packet_v3::lsa;
use crate::packet_v3::lsa::{
    AsExternalLsaV3, IntraAreaPrefixLsaV3, LinkLsaV3, NetworkLsaV3, RouterLinkV3, RouterLsaV3,
    FLAG_B, FLAG_E, TYPE_POINT_TO_POINT, TYPE_TRANSIT_NETWORK,
};
use crate::packet_v3::prefix::Ospfv3Prefix;
use crate::packet_v3::{
    length_field, LsaV3Header, LsaV3Type, Options, INITIAL_SEQUENCE_NUMBER, LSA_V3_HEADER_LEN, MAX_AGE,
};
use crate::wire;
use crate::wire::{copy_range, put_bytes};

verus! {

broadcast use {wire::lemma_views_push, wire::lemma_views_update};

/// The sequence number after `x`.
pub open spec fn next_sequence(x: i32) -> i32 {
    if x == i32::MAX {
        i32::MIN
    } else {
        (x + 1) as i32
    }
}

/// An LSA with its checksum filled in: the octets of `header` and `body`, summed without the age
/// and with the checksum field taken as zero.
pub open spec fn sealed(header: LsaV3Header, body: Seq<u8>, area: Option<u32>) -> LsaEntryV3View {
    let blank = header.bytes() + body;
    let c = checksum::fletcher_octets(blank.skip(2), 14);
    LsaEntryV3View {
        header: LsaV3Header { ls_checksum: (c.0 * 256 + c.1) as u16, ..header },
        raw: blank.update(16, c.0).update(17, c.1),
        area,
    }
}

/// The octets of a header and a body with the checksum filled in.
fn seal(header: LsaV3Header, body: &[u8], area: Option<u32>) -> (e: LsaEntryV3)
    ensures
        e@ == sealed(header, body@, area),
{
    let mut raw: Vec<u8> = Vec::new();
    header.encode(&mut raw);
    assert(raw@ =~= header.bytes());
    put_bytes(&mut raw, body);
    let ghost blank = header.bytes() + body@;
    assert(raw@ == blank);
    let tail = copy_range(raw.as_slice(), 2, raw.len());
    assert(tail@ =~= blank.skip(2));
    let c = fletcher16(tail.as_slice(), 14);
    raw.set(16, c.0);
    raw.set(17, c.1);
    let ls_checksum: u16 = (c.0 as u16) * 256 + c.1 as u16;
    let sealed_header = LsaV3Header {
        ls_age: header.ls_age,
        ls_type: header.ls_type,
        link_state_id: header.link_state_id,
        advertising_router: header.advertising_router,
        ls_sequence_number: header.ls_sequence_number,
        ls_checksum,
        length: header.length,
    };
    LsaEntryV3 { header: sealed_header, raw, area }
}

/// The length field of an LSA with a body of `n` octets.
pub open spec fn lsa_length(n: int) -> u16 {
    ((LSA_V3_HEADER_LEN + n) % 65536) as u16
}

/// The links that one interface contributes to our Router-LSA.
pub open spec fn links_of(iface: InterfaceV3View, router_id: u32) -> Seq<RouterLinkV3> {
    if !iface.network_type.spec_elects() {
        adjacency_links(iface, iface.neighbors)
    } else if iface.dr == 0 {
        Seq::empty()
    } else if iface.dr == router_id {
        seq![transit_link(iface, iface.interface_id)]
    } else {
        match instance_v3::neighbor_pos(iface.neighbors, iface.dr, 0) {
            Some(j) => if iface.neighbors[j].state == NeighborStateV3::Full {
                seq![transit_link(iface, iface.neighbors[j].interface_id)]
            } else {
                Seq::empty()
            },
            None => Seq::empty(),
        }
    }
}

/// The link to the transit network of `iface`, whose designated router has the given interface id.
pub open spec fn transit_link(iface: InterfaceV3View, dr_interface_id: u32) -> RouterLinkV3 {
    RouterLinkV3 {
        link_type: TYPE_TRANSIT_NETWORK,
        metric: 1,
        interface_id: iface.interface_id,
        neighbor_interface_id: dr_interface_id,
        neighbor_router_id: iface.dr,
    }
}

/// One point-to-point link per Full neighbor among `ns`.
pub open spec fn adjacency_links(iface: InterfaceV3View, ns: Seq<NeighborV3View>) -> Seq<RouterLinkV3>
    decreases ns.len(),
{
    if ns.len() == 0 {
        Seq::empty()
    } else {
        let front = adjacency_links(iface, ns.drop_last());
        let n = ns.last();
        if n.state == NeighborStateV3::Full {
            front.push(
                RouterLinkV3 {
                    link_type: TYPE_POINT_TO_POINT,
                    metric: 1,
                    interface_id: iface.interface_id,
                    neighbor_interface_id: n.interface_id,
                    neighbor_router_id: n.router_id,
                },
            )
        } else {
            front
        }
    }
}

/// The links of our Router-LSA in `area`.
pub open spec fn area_links(ifs: Seq<InterfaceV3View>, area: u32, router_id: u32) -> Seq<RouterLinkV3>
    decreases ifs.len(),
{
    if ifs.len() == 0 {
        Seq::empty()
    } else {
        let front = area_links(ifs.drop_last(), area, router_id);
        if ifs.last().area_id == area {
            front + links_of(ifs.last(), router_id)
        } else {
            front
        }
    }
}

/// The flags of our Router-LSA.
pub open spec fn router_flags(abr: bool, asbr: bool) -> u8 {
    if abr && asbr {
        3
    } else if abr {
        FLAG_B
    } else if asbr {
        FLAG_E
    } else {
        0
    }
}

/// The router ids of the Full neighbors among `ns`.
pub open spec fn full_ids(ns: Seq<NeighborV3View>) -> Seq<u32>
    decreases ns.len(),
{
    if ns.len() == 0 {
        Seq::empty()
    } else {
        let front = full_ids(ns.drop_last());
        if ns.last().state == NeighborStateV3::Full {
            front.push(ns.last().router_id)
        } else {
            front
        }
    }
}

/// Whether we describe the network of the interface: we are its designated router and have a Full
/// neighbor on it.
pub open spec fn describes_network(iface: InterfaceV3View) -> bool {
    iface.network_type.spec_elects() && iface.state == InterfaceStateV3::DR && full_ids(
        iface.neighbors,
    ).len() > 0
}

/// The plain prefixes of an interface.
pub open spec fn plain_prefixes(ps: Seq<(u128, u8)>) -> Seq<Ospfv3Prefix> {
    Seq::new(ps.len(), |i: int| Ospfv3Prefix::spec_plain(ps[i].0, ps[i].1))
}

/// The prefixes in `area` that no Network-LSA of ours covers.
pub open spec fn router_prefixes(ifs: Seq<InterfaceV3View>, area: u32) -> Seq<Ospfv3Prefix>
    decreases ifs.len(),
{
    if ifs.len() == 0 {
        Seq::empty()
    } else {
        let front = router_prefixes(ifs.drop_last(), area);
        let iface = ifs.last();
        if iface.area_id == area && !describes_network(iface) {
            front + plain_prefixes(iface.global_prefixes)
        } else {
            front
        }
    }
}

/// Whether the address lies in one of the summary ranges.
pub open spec fn covered_by_any(addr: u128, summaries: Seq<ParsedSummaryAddress6>) -> bool {
    exists|i: int|
        0 <= i < summaries.len() && crate::prefix::covered_v6(
            addr,
            (#[trigger] summaries[i]).prefix,
            summaries[i].prefix_len,
        )
}

/// An IPv6 route of another protocol that may be redistributed.
#[derive(Debug)]
pub struct ExternalV6 {
    pub prefix: u128,
    pub prefix_len: u8,
    /// For each statement of the rule's route map, in order, whether the route matches it.
    pub matched: Vec<bool>,
}

/// What an IPv6 route of another protocol is.
pub struct ExternalV6View {
    pub prefix: u128,
    pub prefix_len: u8,
    pub matched: Seq<bool>,
}

impl View for ExternalV6 {
    type V = ExternalV6View;

    open spec fn view(&self) -> ExternalV6View {
        ExternalV6View {
            prefix: self.prefix,
            prefix_len: self.prefix_len,
            matched: self.matched@,
        }
    }
}

/// Whether a route is announced on its own: it lies in no summary range, and the route map, if there
/// is one, permits it.
pub open spec fn announceable(
    e: ExternalV6View,
    summaries: Seq<ParsedSummaryAddress6>,
    map: Option<config::RouteMapView>,
) -> bool {
    &&& !covered_by_any(e.prefix, summaries)
    &&& map matches Some(m) ==> redistribution::permitted(m.permits, e.matched, 0)
}

/// The prefixes that are announced on their own, in order.
pub open spec fn announced(
    externals: Seq<ExternalV6View>,
    summaries: Seq<ParsedSummaryAddress6>,
    map: Option<config::RouteMapView>,
) -> Seq<(u128, u8)>
    decreases externals.len(),
{
    if externals.len() == 0 {
        Seq::empty()
    } else {
        let front = announced(externals.drop_last(), summaries, map);
        let e = externals.last();
        if announceable(e, summaries, map) {
            front.push((e.prefix, e.prefix_len))
        } else {
            front
        }
    }
}

/// The link state ids that stay: 1 to `n` for the externals, 0x1000 on for the summaries, and 0
/// for the default route.
pub open spec fn external_ids(n: int, summaries: int) -> Seq<u32> {
    Seq::new(n as nat, |i: int| (i + 1) as u32) + Seq::new(
        summaries as nat,
        |i: int| (0x1000 + i) as u32,
    ) + seq![0u32]
}

/// Whether an entry is an AS-external LSA of ours that is to be withdrawn.
pub open spec fn withdrawable(e: LsaEntryV3View, router_id: u32, keep: Seq<u32>) -> bool {
    e.header.ls_type == LsaV3Type::AsExternal && e.header.advertising_router == router_id
        && !keep.contains(e.header.link_state_id)
}

/// The keys of the entries that are to be withdrawn, in order.
pub open spec fn withdrawn_keys(es: Seq<LsaEntryV3View>, router_id: u32, keep: Seq<u32>) -> Seq<LsaKeyV3>
    decreases es.len(),
{
    if es.len() == 0 {
        Seq::empty()
    } else {
        let front = withdrawn_keys(es.drop_last(), router_id, keep);
        if withdrawable(es.last(), router_id, keep) {
            front.push(es.last().key())
        } else {
            front
        }
    }
}

/// The entry as it is withdrawn: at the maximal age and with the next sequence number.
pub open spec fn aged_out(e: LsaEntryV3View) -> LsaEntryV3View {
    sealed(
        LsaV3Header {
            ls_age: MAX_AGE,
            ls_sequence_number: next_sequence(e.header.ls_sequence_number),
            ..e.header
        },
        e.body(),
        e.area,
    )
}

impl InstanceV3View {
    /// Our LSA with the given body, numbered after the copy that we hold.
    pub open spec fn self_lsa(self, ls_type: LsaV3Type, id: u32, body: Seq<u8>, area: Option<u32>) -> LsaEntryV3View {
        let key = LsaKeyV3 {
            area,
            ls_type,
            link_state_id: id,
            advertising_router: self.router_id,
        };
        sealed(
            LsaV3Header {
                ls_age: 0,
                ls_type,
                link_state_id: id,
                advertising_router: self.router_id,
                ls_sequence_number: match self.lsdb.lookup(key) {
                    Some(e) => next_sequence(e.header.ls_sequence_number),
                    None => INITIAL_SEQUENCE_NUMBER,
                },
                ls_checksum: 0,
                length: lsa_length(body.len() as int),
            },
            body,
            area,
        )
    }

    /// The instance with `e` stored and flooded.
    pub open spec fn published(self, e: LsaEntryV3View) -> InstanceV3View {
        (InstanceV3View { lsdb: self.lsdb.insert(e), ..self }).flooded(e, None)
    }

    /// The instance with our LSA originated.
    pub open spec fn originated(self, ls_type: LsaV3Type, id: u32, body: Seq<u8>, area: Option<u32>) -> InstanceV3View {
        self.published(self.self_lsa(ls_type, id, body, area))
    }

    /// The instance with our Router-LSAs for `areas` originated.
    pub open spec fn router_lsas(self, areas: Seq<u32>, flags: u8) -> InstanceV3View
        decreases areas.len(),
    {
        if areas.len() == 0 {
            self
        } else {
            let before = self.router_lsas(areas.drop_last(), flags);
            before.originated(
                LsaV3Type::Router,
                0,
                lsa::router_lsa_bytes(
                    flags,
                    Options::spec_standard().0,
                    area_links(before.interfaces, areas.last(), self.router_id),
                ),
                Some(areas.last()),
            )
        }
    }

    /// The instance with one Router-LSA per area originated.
    pub open spec fn with_router_lsas(self) -> InstanceV3View {
        self.router_lsas(
            instance_v3::areas_of(self.interfaces),
            router_flags(self.is_abr(), self.asbr),
        )
    }

    /// The instance with the Network-LSAs for the interfaces among `ifs` originated.
    pub open spec fn network_lsas(self, ifs: Seq<InterfaceV3View>) -> InstanceV3View
        decreases ifs.len(),
    {
        if ifs.len() == 0 {
            self
        } else {
            let before = self.network_lsas(ifs.drop_last());
            let iface = ifs.last();
            if describes_network(iface) {
                before.originated(
                    LsaV3Type::Network,
                    iface.interface_id,
                    lsa::network_lsa_bytes(
                        Options::spec_standard().0,
                        seq![self.router_id] + full_ids(iface.neighbors),
                    ),
                    Some(iface.area_id),
                )
            } else {
                before
            }
        }
    }

    /// The instance with the Link-LSAs for the interfaces among `ifs` originated; each stays on
    /// its link.
    pub open spec fn link_lsas(self, ifs: Seq<InterfaceV3View>) -> InstanceV3View
        decreases ifs.len(),
    {
        if ifs.len() == 0 {
            self
        } else {
            let before = self.link_lsas(ifs.drop_last());
            let iface = ifs.last();
            if iface.state == InterfaceStateV3::Down || iface.io.link_local == 0 {
                before
            } else {
                let e = before.self_lsa(
                    LsaV3Type::Link,
                    iface.interface_id,
                    lsa::link_lsa_bytes(
                        iface.priority,
                        Options::spec_standard().0,
                        iface.io.link_local,
                        plain_prefixes(iface.global_prefixes),
                    ),
                    Some(iface.area_id),
                );
                (InstanceV3View { lsdb: before.lsdb.insert(e), ..before }).flooded_on_link(
                    e,
                    iface.io.sw_if_index,
                    None,
                )
            }
        }
    }

    /// The instance with the prefix LSAs that refer to our Network-LSAs originated.
    pub open spec fn network_prefix_lsas(self, ifs: Seq<InterfaceV3View>) -> InstanceV3View
        decreases ifs.len(),
    {
        if ifs.len() == 0 {
            self
        } else {
            let before = self.network_prefix_lsas(ifs.drop_last());
            let iface = ifs.last();
            if describes_network(iface) && iface.global_prefixes.len() > 0 {
                before.originated(
                    LsaV3Type::IntraAreaPrefix,
                    iface.interface_id,
                    lsa::intra_area_prefix_bytes(
                        LsaV3Type::Network.spec_code(),
                        iface.interface_id,
                        self.router_id,
                        plain_prefixes(iface.global_prefixes),
                    ),
                    Some(iface.area_id),
                )
            } else {
                before
            }
        }
    }

    /// The instance with the prefix LSAs that refer to our Router-LSAs originated; `ifs` holds the
    /// interfaces whose prefixes they list.
    pub open spec fn router_prefix_lsas(self, areas: Seq<u32>, ifs: Seq<InterfaceV3View>) -> InstanceV3View
        decreases areas.len(),
    {
        if areas.len() == 0 {
            self
        } else {
            self.router_prefix_lsas(areas.drop_last(), ifs).originated(
                LsaV3Type::IntraAreaPrefix,
                0,
                lsa::intra_area_prefix_bytes(
                    LsaV3Type::Router.spec_code(),
                    0,
                    self.router_id,
                    router_prefixes(ifs, areas.last()),
                ),
                Some(areas.last()),
            )
        }
    }

    /// The instance with all Intra-Area-Prefix-LSAs originated: one per network that we describe,
    /// and one per area with all other prefixes, even if there are none.
    pub open spec fn with_prefix_lsas(self) -> InstanceV3View {
        self.network_prefix_lsas(self.interfaces).router_prefix_lsas(
            instance_v3::areas_of(self.interfaces),
            self.interfaces,
        )
    }

    /// The instance with the aggregates for the summary ranges originated.
    pub open spec fn summary_lsas(self, es: Seq<ParsedSummaryAddress6>) -> InstanceV3View
        decreases es.len(),
    {
        if es.len() == 0 {
            self
        } else {
            let before = self.summary_lsas(es.drop_last());
            let e = es.last();
            if e.no_advertise {
                before
            } else {
                before.originated(
                    LsaV3Type::AsExternal,
                    (0x1000 + (es.len() - 1)) as u32,
                    AsExternalLsaV3::spec_external(
                        e.metric_type == 2,
                        e.metric,
                        e.prefix,
                        e.prefix_len,
                        e.tag,
                    ).bytes(),
                    None,
                )
            }
        }
    }

    /// The instance with the LSAs under `keys` withdrawn.
    pub open spec fn withdrawn(self, keys: Seq<LsaKeyV3>) -> InstanceV3View
        decreases keys.len(),
    {
        if keys.len() == 0 {
            self
        } else {
            let before = self.withdrawn(keys.drop_last());
            match before.lsdb.lookup(keys.last()) {
                Some(e) => before.published(aged_out(e)),
                None => before,
            }
        }
    }

    /// The instance with every AS-external LSA of ours withdrawn whose id is not in `keep`.
    pub open spec fn flushed_outside(self, keep: Seq<u32>) -> InstanceV3View {
        self.withdrawn(withdrawn_keys(self.lsdb.entries, self.router_id, keep))
    }

    /// The instance with one AS-external LSA per prefix originated, numbered from 1 on.
    pub open spec fn external_lsas(self, ps: Seq<(u128, u8)>, metric: u32, type_2: bool) -> InstanceV3View
        decreases ps.len(),
    {
        if ps.len() == 0 {
            self
        } else {
            self.external_lsas(ps.drop_last(), metric, type_2).originated(
                LsaV3Type::AsExternal,
                ps.len() as u32,
                AsExternalLsaV3::spec_external(
                    type_2,
                    metric,
                    ps.last().0,
                    ps.last().1,
                    0,
                ).bytes(),
                None,
            )
        }
    }

    /// The rule that redistributes connected routes, with the route map that it names. There is none
    /// on a router that redistributes nothing, and none if the rule names an unknown route map.
    pub open spec fn rule_in_force(self) -> Option<
        (config::RedistributeConfigView, Option<config::RouteMapView>),
    > {
        match redistribution::connected_rule(self.redistribute, 0) {
            Some(rule) if self.asbr => match rule.route_map {
                None => Some((rule, None)),
                Some(n) => match redistribution::map_named(self.route_maps, n, 0) {
                    Some(m) => Some((rule, Some(m))),
                    None => None,
                },
            },
            _ => None,
        }
    }

    /// The instance after redistribution: what no rule redistributes any more is withdrawn, and
    /// the prefixes outside the summary ranges that the rule's route map permits are announced.
    pub open spec fn redistributed(
        self,
        externals: Seq<ExternalV6View>,
        summaries: Seq<ParsedSummaryAddress6>,
    ) -> InstanceV3View {
        match self.rule_in_force() {
            Some((rule, map)) => {
                let kept = announced(externals, summaries, map);
                self.flushed_outside(
                    external_ids(kept.len() as int, summaries.len() as int),
                ).external_lsas(kept, rule.metric, rule.metric_type == 2)
            },
            None => self.flushed_outside(Seq::empty()),
        }
    }

    /// Whether an interface asks for our LSAs to be originated anew.
    pub open spec fn refresh_pending(self) -> bool {
        exists|i: int|
            0 <= i < self.interfaces.len() && (
            #[trigger] self.interfaces[i]).needs_router_lsa_refresh
    }

    /// The instance with all Network-LSAs originated.
    pub open spec fn with_network_lsas(self) -> InstanceV3View {
        self.network_lsas(self.interfaces)
    }

    /// The instance with all Link-LSAs originated.
    pub open spec fn with_link_lsas(self) -> InstanceV3View {
        self.link_lsas(self.interfaces)
    }

    /// The instance after a pending refresh of our LSAs.
    pub open spec fn self_refreshed(self) -> InstanceV3View {
        if self.refresh_pending() {
            self.requests_taken().with_router_lsas().with_network_lsas().with_prefix_lsas()
                .with_link_lsas()
        } else {
            self
        }
    }

    /// The instance with the requests of all interfaces struck off.
    pub open spec fn requests_taken(self) -> InstanceV3View {
        InstanceV3View {
            interfaces: Seq::new(
                self.interfaces.len(),
                |i: int| InterfaceV3View { needs_router_lsa_refresh: false, ..self.interfaces[i] },
            ),
            ..self
        }
    }
}

impl InterfaceV3 {
    /// The links that the interface contributes to our Router-LSA.
    fn append_links(&self, router_id: u32, links: &mut Vec<RouterLinkV3>)
        ensures
            final(links)@ == old(links)@ + links_of(self@, router_id),
    {
        let ghost start = links@;
        if !self.network_type.elects() {
            let ghost ns = self@.neighbors;
            let mut i: usize = 0;
            assert(ns.take(0) =~= Seq::empty());
            assert(links@ =~= start + adjacency_links(self@, ns.take(0)));
            while i < self.neighbors.len()
                invariant
                    i <= self.neighbors@.len(),
                    ns == self@.neighbors,
                    links@ == start + adjacency_links(self@, ns.take(i as int)),
                decreases self.neighbors.len() - i,
            {
                assert(ns.take(i + 1).drop_last() =~= ns.take(i as int));
                let n = &self.neighbors[i];
                assert(n@ == ns[i as int]);
                if n.state == NeighborStateV3::Full {
                    links.push(
                        RouterLinkV3 {
                            link_type: TYPE_POINT_TO_POINT,
                            metric: 1,
                            interface_id: self.interface_id,
                            neighbor_interface_id: n.interface_id,
                            neighbor_router_id: n.router_id,
                        },
                    );
                }
                i = i + 1;
                assert(links@ =~= start + adjacency_links(self@, ns.take(i as int)));
            }
            assert(ns.take(i as int) =~= ns);
        } else {
            assert(start + Seq::<RouterLinkV3>::empty() =~= start);
            if self.dr == 0 {
                return ;
            }
            let dr_interface_id: u32 = if self.dr == router_id {
                self.interface_id
            } else {
                match self.find_neighbor(self.dr) {
                    Some(j) => {
                        assert(self.neighbors@[j as int]@ == self@.neighbors[j as int]);
                        if self.neighbors[j].state != NeighborStateV3::Full {
                            return ;
                        }
                        self.neighbors[j].interface_id
                    },
                    None => {
                        return ;
                    },
                }
            };
            links.push(
                RouterLinkV3 {
                    link_type: TYPE_TRANSIT_NETWORK,
                    metric: 1,
                    interface_id: self.interface_id,
                    neighbor_interface_id: dr_interface_id,
                    neighbor_router_id: self.dr,
                },
            );
            assert(links@ =~= start + links_of(self@, router_id));
        }
    }

    /// The router ids of the Full neighbors.
    pub fn full_neighbors(&self) -> (r: Vec<u32>)
        ensures
            r@ == full_ids(self@.neighbors),
    {
        let mut v: Vec<u32> = Vec::new();
        let ghost ns = self@.neighbors;
        let mut i: usize = 0;
        assert(ns.take(0) =~= Seq::empty());
        while i < self.neighbors.len()
            invariant
                i <= self.neighbors@.len(),
                ns == self@.neighbors,
                v@ == full_ids(ns.take(i as int)),
            decreases self.neighbors.len() - i,
        {
            assert(ns.take(i + 1).drop_last() =~= ns.take(i as int));
            assert(self.neighbors@[i as int]@ == ns[i as int]);
            if self.neighbors[i].state == NeighborStateV3::Full {
                v.push(self.neighbors[i].router_id);
            }
            i = i + 1;
        }
        assert(ns.take(i as int) =~= ns);
        v
    }

    /// Whether we describe the network of the interface.
    fn has_network_lsa(&self) -> (r: bool)
        ensures
            r == describes_network(self@),
    {
        self.network_type.elects() && self.state == InterfaceStateV3::DR && self.full_neighbors().len()
            > 0
    }

    /// The plain prefixes of the interface.
    fn prefix_list(&self) -> (r: Vec<Ospfv3Prefix>)
        ensures
            r@ == plain_prefixes(self@.global_prefixes),
    {
        let mut v: Vec<Ospfv3Prefix> = Vec::new();
        let mut i: usize = 0;
        while i < self.global_prefixes.len()
            invariant
                i <= self.global_prefixes@.len(),
                v@ == plain_prefixes(self@.global_prefixes).take(i as int),
            decreases self.global_prefixes.len() - i,
        {
            let p = self.global_prefixes[i];
            v.push(Ospfv3Prefix::plain(p.0, p.1));
            i = i + 1;
            assert(v@ =~= plain_prefixes(self@.global_prefixes).take(i as int));
        }
        assert(v@ =~= plain_prefixes(self@.global_prefixes));
        v
    }
}

impl InstanceV3 {
    /// Our LSA with the given body, numbered after the copy that we hold.
    pub fn build_self_lsa(&self, ls_type: LsaV3Type, link_state_id: u32, body: &Vec<u8>, area: Option<u32>) -> (e:
        LsaEntryV3)
        ensures
            e@ == self@.self_lsa(ls_type, link_state_id, body@, area),
    {
        let key = LsaKeyV3 {
            area,
            ls_type,
            link_state_id,
            advertising_router: self.router_id,
        };
        let seq: i32 = match self.lsdb.get(&key) {
            Some(e) => e.header.ls_sequence_number.wrapping_add(1),
            None => INITIAL_SEQUENCE_NUMBER,
        };
        let header = LsaV3Header {
            ls_age: 0,
            ls_type,
            link_state_id,
            advertising_router: self.router_id,
            ls_sequence_number: seq,
            ls_checksum: 0,
            length: length_field(LSA_V3_HEADER_LEN, body.len()),
        };
        seal(header, body.as_slice(), area)
    }

    /// Originates our LSA with the given body: numbers and seals it, stores it and floods it.
    pub fn insert_self_lsa(&mut self, ls_type: LsaV3Type, link_state_id: u32, body: &Vec<u8>, area: Option<u32>)
        ensures
            final(self)@ == old(self)@.originated(ls_type, link_state_id, body@, area),
            final(self).interfaces@.len() == old(self).interfaces@.len(),
    {
        let entry = self.build_self_lsa(ls_type, link_state_id, body, area);
        self.lsdb.insert(entry.duplicate());
        self.flood_lsa(&entry, None);
    }

    /// The links of our Router-LSA in `area`.
    fn links_in(&self, area: u32) -> (r: Vec<RouterLinkV3>)
        ensures
            r@ == area_links(self@.interfaces, area, self@.router_id),
    {
        let mut links: Vec<RouterLinkV3> = Vec::new();
        let ghost ifs = self@.interfaces;
        let mut i: usize = 0;
        assert(ifs.take(0) =~= Seq::empty());
        while i < self.interfaces.len()
            invariant
                i <= self.interfaces@.len(),
                ifs == self@.interfaces,
                links@ == area_links(ifs.take(i as int), area, self@.router_id),
            decreases self.interfaces.len() - i,
        {
            assert(ifs.take(i + 1).drop_last() =~= ifs.take(i as int));
            assert(self.interfaces@[i as int]@ == ifs[i as int]);
            if self.interfaces[i].area_id == area {
                self.interfaces[i].append_links(self.router_id, &mut links);
            }
            i = i + 1;
        }
        assert(ifs.take(i as int) =~= ifs);
        links
    }

    /// Originates one Router-LSA per area. It lists a transit link per multi-access network whose
    /// designated router we are or have a Full adjacency with, and a point-to-point link per Full
    /// adjacency elsewhere.
    pub fn originate_router_lsa(&mut self)
        ensures
            final(self)@ == old(self)@.with_router_lsas(),
    {
        let ghost me = self@;
        let abr = self.is_abr();
        let flags: u8 = if abr && self.asbr {
            3
        } else if abr {
            FLAG_B
        } else if self.asbr {
            FLAG_E
        } else {
            0
        };
        let areas = self.areas();
        let mut i: usize = 0;
        assert(areas@.take(0) =~= Seq::empty());
        while i < areas.len()
            invariant
                i <= areas@.len(),
                self@ == me.router_lsas(areas@.take(i as int), flags),
                self@.router_id == me.router_id,
            decreases areas.len() - i,
        {
            assert(areas@.take(i + 1).drop_last() =~= areas@.take(i as int));
            let links = self.links_in(areas[i]);
            let lsa = RouterLsaV3 { flags, options: Options::standard().0, links };
            let mut body: Vec<u8> = Vec::new();
            lsa.encode(&mut body);
            assert(body@ =~= lsa::router_lsa_bytes(flags, lsa.options, lsa.links@));
            self.insert_self_lsa(LsaV3Type::Router, 0, &body, Some(areas[i]));
            i = i + 1;
        }
        assert(areas@.take(i as int) =~= areas@);
    }

    /// Originates a Network-LSA per network whose designated router we are and on which we have a
    /// Full neighbor. It lists us and the Full neighbors.
    pub fn originate_network_lsas(&mut self)
        ensures
            final(self)@ == old(self)@.with_network_lsas(),
    {
        let ghost me = self@;
        let ghost ifs = me.interfaces;
        let mut i: usize = 0;
        assert(ifs.take(0) =~= Seq::empty());
        // Floods change no field that the LSAs are built from, so each is built when its turn comes.
        while i < self.interfaces.len()
            invariant
                i <= self.interfaces@.len(),
                self.interfaces@.len() == ifs.len(),
                ifs == me.interfaces,
                self@ == me.network_lsas(ifs.take(i as int)),
                same_topology(self@.interfaces, ifs),
                self@.router_id == me.router_id,
            decreases self.interfaces.len() - i,
        {
            assert(ifs.take(i + 1).drop_last() =~= ifs.take(i as int));
            assert(self.interfaces@[i as int]@ == self@.interfaces[i as int]);
            proof {
                lemma_same_facts(self@.interfaces[i as int], ifs[i as int]);
            }
            if self.interfaces[i].has_network_lsa() {
                let mut routers: Vec<u32> = Vec::new();
                routers.push(self.router_id);
                let mut full = self.interfaces[i].full_neighbors();
                routers.append(&mut full);
                assert(routers@ =~= seq![me.router_id] + full_ids(ifs[i as int].neighbors));
                let nlsa = NetworkLsaV3 {
                    options: Options::standard().0,
                    attached_routers: routers,
                };
                let mut body: Vec<u8> = Vec::new();
                nlsa.encode(&mut body);
                assert(body@ =~= lsa::network_lsa_bytes(nlsa.options, nlsa.attached_routers@));
                let id: u32 = self.interfaces[i].interface_id;
                let area: u32 = self.interfaces[i].area_id;
                let ghost before = self@;
                self.insert_self_lsa(LsaV3Type::Network, id, &body, Some(area));
                proof {
                    lemma_originated_topology(before, LsaV3Type::Network, id, body@, Some(area));
                    lemma_topology_chain(self@.interfaces, before.interfaces, ifs);
                }
            }
            i = i + 1;
        }
        assert(ifs.take(i as int) =~= ifs);
    }

    /// Originates a Link-LSA per interface that is up and has a link-local address. It is flooded
    /// on its own link only.
    pub fn originate_link_lsas(&mut self)
        ensures
            final(self)@ == old(self)@.with_link_lsas(),
    {
        let ghost me = self@;
        let ghost ifs = me.interfaces;
        let mut i: usize = 0;
        assert(ifs.take(0) =~= Seq::empty());
        while i < self.interfaces.len()
            invariant
                i <= self.interfaces@.len(),
                self.interfaces@.len() == ifs.len(),
                ifs == me.interfaces,
                self@ == me.link_lsas(ifs.take(i as int)),
                same_topology(self@.interfaces, ifs),
                self@.router_id == me.router_id,
            decreases self.interfaces.len() - i,
        {
            assert(ifs.take(i + 1).drop_last() =~= ifs.take(i as int));
            assert(self.interfaces@[i as int]@ == self@.interfaces[i as int]);
            proof {
                lemma_same_facts(self@.interfaces[i as int], ifs[i as int]);
            }
            if self.interfaces[i].state != InterfaceStateV3::Down
                && self.interfaces[i].io.link_local != 0 {
                let prefixes = self.interfaces[i].prefix_list();
                let llsa = LinkLsaV3 {
                    router_priority: self.interfaces[i].priority,
                    options: Options::standard().0,
                    link_local_address: self.interfaces[i].io.link_local,
                    prefixes,
                };
                let mut body: Vec<u8> = Vec::new();
                llsa.encode(&mut body);
                assert(body@ =~= lsa::link_lsa_bytes(
                    llsa.router_priority,
                    llsa.options,
                    llsa.link_local_address,
                    llsa.prefixes@,
                ));
                let id: u32 = self.interfaces[i].interface_id;
                let area: u32 = self.interfaces[i].area_id;
                let idx: u32 = self.interfaces[i].io.sw_if_index;
                let ghost before = self@;
                let entry = self.build_self_lsa(LsaV3Type::Link, id, &body, Some(area));
                self.lsdb.insert(entry.duplicate());
                let ghost inserted = self@;
                self.flood_lsa_link_scope(&entry, idx);
                proof {
                    lemma_link_flood_topology(inserted, entry@, idx);
                    lemma_topology_chain(self@.interfaces, before.interfaces, ifs);
                }
            }
            i = i + 1;
        }
        assert(ifs.take(i as int) =~= ifs);
    }

    /// The prefixes in `area` that no Network-LSA of ours covers.
    fn uncovered_prefixes(&self, area: u32) -> (r: Vec<Ospfv3Prefix>)
        ensures
            r@ == router_prefixes(self@.interfaces, area),
    {
        let mut v: Vec<Ospfv3Prefix> = Vec::new();
        let ghost ifs = self@.interfaces;
        let mut i: usize = 0;
        assert(ifs.take(0) =~= Seq::empty());
        while i < self.interfaces.len()
            invariant
                i <= self.interfaces@.len(),
                ifs == self@.interfaces,
                v@ == router_prefixes(ifs.take(i as int), area),
            decreases self.interfaces.len() - i,
        {
            assert(ifs.take(i + 1).drop_last() =~= ifs.take(i as int));
            assert(self.interfaces@[i as int]@ == ifs[i as int]);
            if self.interfaces[i].area_id == area && !self.interfaces[i].has_network_lsa() {
                let mut more = self.interfaces[i].prefix_list();
                v.append(&mut more);
                assert(v@ =~= router_prefixes(ifs.take(i + 1), area));
            }
            i = i + 1;
        }
        assert(ifs.take(i as int) =~= ifs);
        v
    }

    /// Originates the Intra-Area-Prefix-LSAs: one that refers to each Network-LSA of ours whose
    /// link has prefixes, and one per area that refers to our Router-LSA and lists all other
    /// prefixes, even if there are none.
    pub fn originate_intra_area_prefix_lsas(&mut self)
        ensures
            final(self)@ == old(self)@.with_prefix_lsas(),
    {
        let ghost me = self@;
        let ghost ifs = me.interfaces;
        let areas = self.areas();
        let mut i: usize = 0;
        assert(ifs.take(0) =~= Seq::empty());
        while i < self.interfaces.len()
            invariant
                i <= self.interfaces@.len(),
                self.interfaces@.len() == ifs.len(),
                ifs == me.interfaces,
                self@ == me.network_prefix_lsas(ifs.take(i as int)),
                same_topology(self@.interfaces, ifs),
                self@.router_id == me.router_id,
            decreases self.interfaces.len() - i,
        {
            assert(ifs.take(i + 1).drop_last() =~= ifs.take(i as int));
            assert(self.interfaces@[i as int]@ == self@.interfaces[i as int]);
            proof {
                lemma_same_facts(self@.interfaces[i as int], ifs[i as int]);
            }
            if self.interfaces[i].has_network_lsa() && self.interfaces[i].global_prefixes.len() > 0 {
                let id: u32 = self.interfaces[i].interface_id;
                let area: u32 = self.interfaces[i].area_id;
                let body = prefix_body(
                    LsaV3Type::Network,
                    id,
                    self.router_id,
                    self.interfaces[i].prefix_list(),
                );
                let ghost before = self@;
                self.insert_self_lsa(LsaV3Type::IntraAreaPrefix, id, &body, Some(area));
                proof {
                    lemma_originated_topology(
                        before,
                        LsaV3Type::IntraAreaPrefix,
                        id,
                        body@,
                        Some(area),
                    );
                    lemma_topology_chain(self@.interfaces, before.interfaces, ifs);
                }
            }
            i = i + 1;
        }
        assert(ifs.take(i as int) =~= ifs);
        let ghost mid = self@;
        let mut a: usize = 0;
        assert(areas@.take(0) =~= Seq::empty());
        while a < areas.len()
            invariant
                a <= areas@.len(),
                ifs == me.interfaces,
                mid.router_id == me.router_id,
                self@ == mid.router_prefix_lsas(areas@.take(a as int), ifs),
                same_topology(self@.interfaces, ifs),
                self@.router_id == me.router_id,
            decreases areas.len() - a,
        {
            assert(areas@.take(a + 1).drop_last() =~= areas@.take(a as int));
            proof {
                lemma_same_router_prefixes(self@.interfaces, ifs, areas@[a as int]);
            }
            let body = prefix_body(
                LsaV3Type::Router,
                0,
                self.router_id,
                self.uncovered_prefixes(areas[a]),
            );
            let ghost before = self@;
            self.insert_self_lsa(LsaV3Type::IntraAreaPrefix, 0, &body, Some(areas[a]));
            proof {
                lemma_originated_topology(
                    before,
                    LsaV3Type::IntraAreaPrefix,
                    0,
                    body@,
                    Some(areas@[a as int]),
                );
                lemma_topology_chain(self@.interfaces, before.interfaces, ifs);
            }
            a = a + 1;
        }
        assert(areas@.take(a as int) =~= areas@);
    }

    /// Originates the aggregate of each summary range that is to be advertised, under the ids from
    /// 0x1000 on.
    pub fn originate_summary_address_lsas(&mut self, entries: &Vec<ParsedSummaryAddress6>)
        requires
            entries@.len() <= 0xffffefff,
        ensures
            final(self)@ == old(self)@.summary_lsas(entries@),
    {
        let ghost me = self@;
        let mut i: usize = 0;
        assert(entries@.take(0) =~= Seq::empty());
        while i < entries.len()
            invariant
                i <= entries@.len(),
                entries@.len() <= 0xffffefff,
                self@ == me.summary_lsas(entries@.take(i as int)),
            decreases entries.len() - i,
        {
            assert(entries@.take(i + 1).drop_last() =~= entries@.take(i as int));
            let e = entries[i];
            if !e.no_advertise {
                let ext = AsExternalLsaV3::external(
                    e.metric_type == 2,
                    e.metric,
                    e.prefix,
                    e.prefix_len,
                    e.tag,
                );
                let mut body: Vec<u8> = Vec::new();
                ext.encode(&mut body);
                assert(body@ =~= ext.bytes());
                self.insert_self_lsa(LsaV3Type::AsExternal, 0x1000 + i as u32, &body, None);
            }
            i = i + 1;
        }
        assert(entries@.take(i as int) =~= entries@);
    }

    /// Originates the default route, under id 0.
    pub fn originate_default_route_lsa(&mut self, metric: u32, metric_type: u8)
        ensures
            final(self)@ == old(self)@.originated(
                LsaV3Type::AsExternal,
                0,
                AsExternalLsaV3::spec_external(metric_type == 2, metric, 0, 0, 0).bytes(),
                None,
            ),
    {
        let ext = AsExternalLsaV3::external(metric_type == 2, metric, 0, 0, 0);
        let mut body: Vec<u8> = Vec::new();
        ext.encode(&mut body);
        assert(body@ =~= ext.bytes());
        self.insert_self_lsa(LsaV3Type::AsExternal, 0, &body, None);
    }

    /// Withdraws every AS-external LSA of ours whose id is not in `keep`: it is flooded once more
    /// at the maximal age.
    pub fn flush_self_externals_outside(&mut self, keep: &Vec<u32>)
        ensures
            final(self)@ == old(self)@.flushed_outside(keep@),
    {
        let ghost me = self@;
        let ghost es = me.lsdb.entries;
        let mut keys: Vec<LsaKeyV3> = Vec::new();
        let mut i: usize = 0;
        assert(es.take(0) =~= Seq::empty());
        while i < self.lsdb.len()
            invariant
                i <= es.len(),
                es == me.lsdb.entries,
                self@ == me,
                keys@ == withdrawn_keys(es.take(i as int), me.router_id, keep@),
            decreases es.len() - i,
        {
            assert(es.take(i + 1).drop_last() =~= es.take(i as int));
            let e = self.lsdb.entry(i);
            if e.header.ls_type == LsaV3Type::AsExternal && e.header.advertising_router
                == self.router_id && !instance_v3::contains_u32(keep, e.header.link_state_id) {
                keys.push(e.key());
            }
            i = i + 1;
        }
        assert(es.take(i as int) =~= es);
        let mut k: usize = 0;
        assert(keys@.take(0) =~= Seq::empty());
        while k < keys.len()
            invariant
                k <= keys@.len(),
                self@ == me.withdrawn(keys@.take(k as int)),
            decreases keys.len() - k,
        {
            assert(keys@.take(k + 1).drop_last() =~= keys@.take(k as int));
            let ghost before = self@;
            let found = match self.lsdb.get(&keys[k]) {
                Some(e) => Some(e.duplicate()),
                None => None,
            };
            if let Some(existing) = found {
                let mut header = existing.header;
                header.ls_age = MAX_AGE;
                header.ls_sequence_number = header.ls_sequence_number.wrapping_add(1);
                let body = existing.body();
                let entry = seal(header, body.as_slice(), existing.area);
                assert(entry@ == aged_out(existing@));
                self.lsdb.insert(entry.duplicate());
                self.flood_lsa(&entry, None);
            }
            k = k + 1;
        }
        assert(keys@.take(k as int) =~= keys@);
    }

    /// Announces the given routes as AS-external LSAs, under the ids from 1 on, if a rule
    /// redistributes connected routes, but not those that lie in a summary range or that the rule's
    /// route map denies. What we announced before and is gone now is withdrawn; so is everything
    /// without such a rule, or if the rule names an unknown route map.
    pub fn originate_external_lsas(
        &mut self,
        externals: Vec<ExternalV6>,
        summaries: &Vec<ParsedSummaryAddress6>,
    )
        requires
            externals@.len() < 0xffffffff,
            summaries@.len() <= 0xffffefff,
        ensures
            final(self)@ == old(self)@.redistributed(wire::views(externals@), summaries@),
    {
        let ghost me = self@;
        let empty: Vec<u32> = Vec::new();
        let found = if self.asbr {
            find_connected(&self.redistribute)
        } else {
            None
        };
        let rule: Option<RedistributeConfig> = match found {
            Some(i) => Some(self.redistribute[i].duplicate()),
            None => None,
        };
        let mut known = rule.is_some();
        let mut map: Option<RouteMap> = None;
        if let Some(x) = &rule {
            if let Some(name) = &x.route_map {
                match find_map(&self.route_maps, name.as_str()) {
                    Some(i) => {
                        map = Some(self.route_maps[i].duplicate());
                    },
                    None => {
                        known = false;
                    },
                }
            }
        }
        assert(known <==> me.rule_in_force() is Some);
        match rule {
            Some(x) if known => {
                assert(me.rule_in_force() == Some((x@, redistribution::opt_view(map))));
                let kept = announced_prefixes(&externals, summaries, &map);
                let mut keep: Vec<u32> = Vec::new();
                let mut i: usize = 0;
                while i < kept.len()
                    invariant
                        i <= kept@.len() < 0xffffffff,
                        keep@ == Seq::new(i as nat, |q: int| (q + 1) as u32),
                    decreases kept.len() - i,
                {
                    keep.push(i as u32 + 1);
                    i = i + 1;
                    assert(keep@ =~= Seq::new(i as nat, |q: int| (q + 1) as u32));
                }
                let mut s: usize = 0;
                let ghost firsts = keep@;
                while s < summaries.len()
                    invariant
                        s <= summaries@.len() <= 0xffffefff,
                        keep@ == firsts + Seq::new(s as nat, |q: int| (0x1000 + q) as u32),
                    decreases summaries.len() - s,
                {
                    keep.push(0x1000 + s as u32);
                    s = s + 1;
                    assert(keep@ =~= firsts + Seq::new(s as nat, |q: int| (0x1000 + q) as u32));
                }
                keep.push(0);
                assert(keep@ =~= external_ids(kept@.len() as int, summaries@.len() as int));
                self.flush_self_externals_outside(&keep);
                let ghost mid = self@;
                let mut k: usize = 0;
                assert(kept@.take(0) =~= Seq::empty());
                while k < kept.len()
                    invariant
                        k <= kept@.len() < 0xffffffff,
                        self@ == mid.external_lsas(
                            kept@.take(k as int),
                            x.metric,
                            x.metric_type == 2,
                        ),
                    decreases kept.len() - k,
                {
                    assert(kept@.take(k + 1).drop_last() =~= kept@.take(k as int));
                    let p = kept[k];
                    let ext = AsExternalLsaV3::external(
                        x.metric_type == 2,
                        x.metric,
                        p.0,
                        p.1,
                        0,
                    );
                    let mut body: Vec<u8> = Vec::new();
                    ext.encode(&mut body);
                    assert(body@ =~= ext.bytes());
                    self.insert_self_lsa(LsaV3Type::AsExternal, k as u32 + 1, &body, None);
                    k = k + 1;
                }
                assert(kept@.take(k as int) =~= kept@);
            },
            _ => {
                self.flush_self_externals_outside(&empty);
            },
        }
    }

    /// Strikes off all requests to originate our LSAs anew and says whether there was one.
    fn take_requests(&mut self) -> (found: bool)
        ensures
            found == old(self)@.refresh_pending(),
            final(self)@ == old(self)@.requests_taken(),
    {
        let ghost me = self@;
        let ghost taken = me.requests_taken().interfaces;
        let mut found = false;
        let mut i: usize = 0;
        while i < self.interfaces.len()
            invariant
                i <= self.interfaces@.len(),
                me == old(self)@,
                taken == me.requests_taken().interfaces,
                self.interfaces@.len() == me.interfaces.len(),
                self@ == (InstanceV3View { interfaces: self@.interfaces, ..me }),
                forall|k: int| 0 <= k < i ==> (#[trigger] self.interfaces@[k])@ == taken[k],
                forall|k: int|
                    i <= k < me.interfaces.len() ==> (#[trigger] self.interfaces@[k])@
                        == me.interfaces[k],
                found <==> exists|k: int|
                    0 <= k < i && (#[trigger] me.interfaces[k]).needs_router_lsa_refresh,
            decreases self.interfaces.len() - i,
        {
            assert(self.interfaces@[i as int]@ == me.interfaces[i as int]);
            if self.interfaces[i].needs_router_lsa_refresh {
                found = true;
                assert(me.interfaces[i as int].needs_router_lsa_refresh);
            }
            self.interfaces[i].needs_router_lsa_refresh = false;
            i = i + 1;
        }
        assert(self@.interfaces =~= taken);
        found
    }

    /// Where an interface asks for it, strikes off all such requests and originates all our LSAs
    /// anew.
    pub fn refresh_router_lsa_if_needed(&mut self)
        ensures
            final(self)@ == old(self)@.self_refreshed(),
    {
        if self.take_requests() {
            self.originate_router_lsa();
            self.originate_network_lsas();
            self.originate_intra_area_prefix_lsas();
            self.originate_link_lsas();
        } else {
            assert(self@.interfaces =~= old(self)@.interfaces);
        }
    }
}

/// The body of an Intra-Area-Prefix-LSA that refers to an LSA of ours.
fn prefix_body(ls_type: LsaV3Type, id: u32, router_id: u32, prefixes: Vec<Ospfv3Prefix>) -> (body: Vec<
    u8,
>)
    ensures
        body@ == lsa::intra_area_prefix_bytes(ls_type.spec_code(), id, router_id, prefixes@),
{
    let plsa = IntraAreaPrefixLsaV3 {
        referenced_ls_type: ls_type.code(),
        referenced_link_state_id: id,
        referenced_advertising_router: router_id,
        prefixes,
    };
    let mut body: Vec<u8> = Vec::new();
    plsa.encode(&mut body);
    assert(body@ =~= lsa::intra_area_prefix_bytes(
        ls_type.spec_code(),
        id,
        router_id,
        plsa.prefixes@,
    ));
    body
}

/// Whether the address lies in one of the summary ranges.
fn is_covered(addr: u128, summaries: &Vec<ParsedSummaryAddress6>) -> (r: bool)
    ensures
        r == covered_by_any(addr, summaries@),
{
    let mut i: usize = 0;
    while i < summaries.len()
        invariant
            i <= summaries@.len(),
            forall|k: int|
                0 <= k < i ==> !crate::prefix::covered_v6(
                    addr,
                    (#[trigger] summaries@[k]).prefix,
                    summaries@[k].prefix_len,
                ),
        decreases summaries.len() - i,
    {
        if crate::prefix::prefix_covered_by_v6(addr, summaries[i].prefix, summaries[i].prefix_len) {
            return true;
        }
        i = i + 1;
    }
    false
}

/// The prefixes that are announced on their own, in order.
fn announced_prefixes(
    externals: &Vec<ExternalV6>,
    summaries: &Vec<ParsedSummaryAddress6>,
    map: &Option<RouteMap>,
) -> (r: Vec<(u128, u8)>)
    ensures
        r@ == announced(wire::views(externals@), summaries@, redistribution::opt_view(*map)),
        r@.len() <= externals@.len(),
{
    let ghost es = wire::views(externals@);
    let ghost m = redistribution::opt_view(*map);
    let mut v: Vec<(u128, u8)> = Vec::new();
    let mut i: usize = 0;
    assert(es.take(0) =~= Seq::empty());
    while i < externals.len()
        invariant
            i <= externals@.len(),
            es == wire::views(externals@),
            m == redistribution::opt_view(*map),
            v@ == announced(es.take(i as int), summaries@, m),
            v@.len() <= i,
        decreases externals.len() - i,
    {
        assert(es.take(i + 1).drop_last() =~= es.take(i as int));
        let e = &externals[i];
        assert(es.take(i + 1).last() == e@);
        if !is_covered(e.prefix, summaries) {
            let pass = match map {
                Some(x) => evaluate_route_map(x, &e.matched),
                None => true,
            };
            if pass {
                v.push((e.prefix, e.prefix_len));
            }
        }
        i = i + 1;
    }
    assert(es.take(i as int) =~= es);
    v
}

/// Whether two neighbors differ at most in what is queued for them.
pub open spec fn same_neighbor(a: NeighborV3View, b: NeighborV3View) -> bool {
    a == (NeighborV3View { pending_lsu: a.pending_lsu, ..b })
}

/// Whether two interfaces differ at most in what is queued for their neighbors.
pub open spec fn same_interface(a: InterfaceV3View, b: InterfaceV3View) -> bool {
    &&& a == (InterfaceV3View { neighbors: a.neighbors, ..b })
    &&& a.neighbors.len() == b.neighbors.len()
    &&& forall|i: int|
        0 <= i < a.neighbors.len() ==> same_neighbor(#[trigger] a.neighbors[i], b.neighbors[i])
}

/// Whether two lists of interfaces differ at most in what is queued for neighbors.
pub open spec fn same_topology(a: Seq<InterfaceV3View>, b: Seq<InterfaceV3View>) -> bool {
    &&& a.len() == b.len()
    &&& forall|i: int| 0 <= i < a.len() ==> same_interface(#[trigger] a[i], b[i])
}

/// Differing at most in what is queued carries over.
pub proof fn lemma_topology_chain(
    a: Seq<InterfaceV3View>,
    b: Seq<InterfaceV3View>,
    c: Seq<InterfaceV3View>,
)
    requires
        same_topology(a, b),
        same_topology(b, c),
    ensures
        same_topology(a, c),
{
    assert forall|i: int| 0 <= i < a.len() implies same_interface(#[trigger] a[i], c[i]) by {
        assert(same_interface(a[i], b[i]));
        assert(same_interface(b[i], c[i]));
        assert forall|j: int| 0 <= j < a[i].neighbors.len() implies same_neighbor(
            #[trigger] a[i].neighbors[j],
            c[i].neighbors[j],
        ) by {
            assert(same_neighbor(a[i].neighbors[j], b[i].neighbors[j]));
            assert(same_neighbor(b[i].neighbors[j], c[i].neighbors[j]));
        }
    }
}

/// Flooding changes nothing but what is queued for neighbors.
pub proof fn lemma_flood_topology(inst: InstanceV3View, e: LsaEntryV3View, exclude: Option<(u32, u32)>)
    ensures
        same_topology(inst.flooded(e, exclude).interfaces, inst.interfaces),
{
    assert forall|i: int| 0 <= i < inst.interfaces.len() implies same_interface(
        #[trigger] inst.flooded(e, exclude).interfaces[i],
        inst.interfaces[i],
    ) by {}
}

/// Originating an LSA changes nothing of the interfaces but what is queued for neighbors.
pub proof fn lemma_originated_topology(
    inst: InstanceV3View,
    ls_type: LsaV3Type,
    id: u32,
    body: Seq<u8>,
    area: Option<u32>,
)
    ensures
        same_topology(inst.originated(ls_type, id, body, area).interfaces, inst.interfaces),
{
    let e = inst.self_lsa(ls_type, id, body, area);
    lemma_flood_topology(InstanceV3View { lsdb: inst.lsdb.insert(e), ..inst }, e, None);
}

proof fn lemma_link_flood_topology(inst: InstanceV3View, e: LsaEntryV3View, idx: u32)
    ensures
        same_topology(inst.flooded_on_link(e, idx, None).interfaces, inst.interfaces),
{
    let after = inst.flooded_on_link(e, idx, None);
    instance_v3::lemma_iface_pos(inst.interfaces, idx, 0);
    assert forall|i: int| 0 <= i < inst.interfaces.len() implies same_interface(
        #[trigger] after.interfaces[i],
        inst.interfaces[i],
    ) by {}
}

proof fn lemma_same_full(a: Seq<NeighborV3View>, b: Seq<NeighborV3View>)
    requires
        a.len() == b.len(),
        forall|i: int| 0 <= i < a.len() ==> same_neighbor(#[trigger] a[i], b[i]),
    ensures
        full_ids(a) == full_ids(b),
    decreases a.len(),
{
    if a.len() > 0 {
        assert forall|i: int| 0 <= i < a.len() - 1 implies same_neighbor(
            #[trigger] a.drop_last()[i],
            b.drop_last()[i],
        ) by {
            assert(same_neighbor(a[i], b[i]));
        }
        lemma_same_full(a.drop_last(), b.drop_last());
        assert(same_neighbor(a[a.len() - 1], b[b.len() - 1]));
    }
}

proof fn lemma_same_facts(a: InterfaceV3View, b: InterfaceV3View)
    requires
        same_interface(a, b),
    ensures
        full_ids(a.neighbors) == full_ids(b.neighbors),
        describes_network(a) == describes_network(b),
{
    lemma_same_full(a.neighbors, b.neighbors);
}

proof fn lemma_same_router_prefixes(a: Seq<InterfaceV3View>, b: Seq<InterfaceV3View>, area: u32)
    requires
        same_topology(a, b),
    ensures
        router_prefixes(a, area) == router_prefixes(b, area),
    decreases a.len(),
{
    if a.len() > 0 {
        assert forall|i: int| 0 <= i < a.len() - 1 implies same_interface(
            #[trigger] a.drop_last()[i],
            b.drop_last()[i],
        ) by {
            assert(same_interface(a[i], b[i]));
        }
        lemma_same_router_prefixes(a.drop_last(), b.drop_last(), area);
        assert(same_interface(a[a.len() - 1], b[b.len() - 1]));
        lemma_same_facts(a.last(), b.last());
    }
}

} // verus!
