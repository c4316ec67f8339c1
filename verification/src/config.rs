//! Daemon configuration.
use vstd::prelude::*;

use crate::packet::auth::AuthKey;
use crate::proto::spf::OspfRouteKind;
use crate::wire;
use crate::wire::same_text;

pub mod assemble;
pub mod assemble_v3;
pub mod key_laws;
pub mod list_laws;
pub mod laws;
pub mod restart;
pub mod yaml;

verus! {

/// A protocol whose routes are redistributed.
#[derive(Clone, Copy, Debug, PartialEq, Eq, Structural)]
pub enum RedistributeSource {
    Connected,
    Static,
    Bgp,
    Kernel,
}

/// A named list of statements that filters routes. The clauses of a statement are matched by the
/// caller; what is kept here is what each statement does with a route that it matches.
#[derive(Debug)]
pub struct RouteMap {
    pub name: String,
    /// For each statement, in order, whether it permits what it matches.
    pub permits: Vec<bool>,
}

/// What a route map is.
pub struct RouteMapView {
    pub name: Seq<char>,
    pub permits: Seq<bool>,
}

impl View for RouteMap {
    type V = RouteMapView;

    open spec fn view(&self) -> RouteMapView {
        RouteMapView { name: self.name@, permits: self.permits@ }
    }
}

/// A redistribution rule.
#[derive(Debug)]
pub struct RedistributeConfig {
    pub source: RedistributeSource,
    /// Metric to advertise.
    pub metric: u32,
    /// E1 (1) or E2 (2).
    pub metric_type: u8,
    /// The route map that filters the candidates; nothing lets every route pass.
    pub route_map: Option<String>,
}

/// What a redistribution rule says.
pub struct RedistributeConfigView {
    pub source: RedistributeSource,
    pub metric: u32,
    pub metric_type: u8,
    pub route_map: Option<Seq<char>>,
}

impl View for RedistributeConfig {
    type V = RedistributeConfigView;

    open spec fn view(&self) -> RedistributeConfigView {
        RedistributeConfigView {
            source: self.source,
            metric: self.metric,
            metric_type: self.metric_type,
            route_map: match self.route_map {
                Some(n) => Some(n@),
                None => None,
            },
        }
    }
}

impl RedistributeConfig {
    /// A copy of the rule.
    pub fn duplicate(&self) -> (r: RedistributeConfig)
        ensures
            r@ == self@,
    {
        RedistributeConfig {
            source: self.source,
            metric: self.metric,
            metric_type: self.metric_type,
            route_map: match &self.route_map {
                Some(n) => Some(n.as_str().to_owned()),
                None => None,
            },
        }
    }
}

impl RouteMap {
    /// A copy of the map.
    pub fn duplicate(&self) -> (r: RouteMap)
        ensures
            r@ == self@,
    {
        let mut permits: Vec<bool> = Vec::new();
        let mut i: usize = 0;
        while i < self.permits.len()
            invariant
                i <= self.permits@.len(),
                permits@ == self.permits@.take(i as int),
            decreases self.permits.len() - i,
        {
            permits.push(self.permits[i]);
            i = i + 1;
            assert(permits@ =~= self.permits@.take(i as int));
        }
        assert(permits@ =~= self.permits@);
        RouteMap { name: self.name.as_str().to_owned(), permits }
    }
}

/// An IPv4 summary range, ready for origination.
#[derive(Clone, Copy, Debug, PartialEq, Eq, Structural)]
pub struct ParsedSummaryAddress {
    pub prefix: u32,
    pub prefix_len: u8,
    pub no_advertise: bool,
    pub tag: u32,
    pub metric: u32,
    pub metric_type: u8,
}

/// An IPv6 summary range, ready for origination.
#[derive(Clone, Copy, Debug, PartialEq, Eq, Structural)]
pub struct ParsedSummaryAddress6 {
    pub prefix: u128,
    pub prefix_len: u8,
    pub no_advertise: bool,
    pub tag: u32,
    pub metric: u32,
    pub metric_type: u8,
}

/// How a configured area treats external routes.
#[derive(Clone, Copy, Debug, PartialEq, Eq, Structural)]
pub enum AreaType {
    Normal,
    Stub,
    Nssa,
}

/// A configured area.
#[derive(Clone, Copy, Debug, PartialEq, Eq, Structural)]
pub struct AreaConfig {
    pub area_id: u32,
    pub area_type: AreaType,
    /// Metric of the default route that border routers announce into a stub area.
    pub default_cost: u32,
}

impl RedistributeSource {
    /// The protocol of that name.
    pub open spec fn named(s: Seq<char>) -> Option<RedistributeSource> {
        if s == "connected"@ {
            Some(RedistributeSource::Connected)
        } else if s == "static"@ {
            Some(RedistributeSource::Static)
        } else if s == "bgp"@ {
            Some(RedistributeSource::Bgp)
        } else if s == "kernel"@ {
            Some(RedistributeSource::Kernel)
        } else {
            None
        }
    }

    /// The protocol of that name.
    pub fn parse(s: &str) -> (r: Option<RedistributeSource>)
        ensures
            r == RedistributeSource::named(s@),
    {
        if same_text(s, "connected") {
            Some(RedistributeSource::Connected)
        } else if same_text(s, "static") {
            Some(RedistributeSource::Static)
        } else if same_text(s, "bgp") {
            Some(RedistributeSource::Bgp)
        } else if same_text(s, "kernel") {
            Some(RedistributeSource::Kernel)
        } else {
            None
        }
    }
}

/// A configured OSPFv2 interface.
#[derive(Debug)]
pub struct OspfInterfaceConfig {
    pub name: String,
    pub address: u32,
    pub prefix_len: u8,
    pub area_id: u32,
    pub cost: u16,
    pub passive: bool,
    pub network_type: String,
    pub hello_interval: u16,
    pub dead_interval: u32,
    /// Seconds between LSA retransmissions.
    pub retransmit_interval: u16,
    pub priority: u8,
    pub auth_key: AuthKey,
    /// Address and priority of each configured neighbor of a non-broadcast network.
    pub static_neighbors: Vec<(u32, u8)>,
}

/// What a configured OSPFv2 interface is.
pub struct OspfInterfaceConfigView {
    pub name: Seq<char>,
    pub address: u32,
    pub prefix_len: u8,
    pub area_id: u32,
    pub cost: u16,
    pub passive: bool,
    pub network_type: Seq<char>,
    pub hello_interval: u16,
    pub dead_interval: u32,
    pub retransmit_interval: u16,
    pub priority: u8,
    pub auth_key: crate::packet::auth::AuthKeyView,
    pub static_neighbors: Seq<(u32, u8)>,
}

impl View for OspfInterfaceConfig {
    type V = OspfInterfaceConfigView;

    open spec fn view(&self) -> OspfInterfaceConfigView {
        OspfInterfaceConfigView {
            name: self.name@,
            address: self.address,
            prefix_len: self.prefix_len,
            area_id: self.area_id,
            cost: self.cost,
            passive: self.passive,
            network_type: self.network_type@,
            hello_interval: self.hello_interval,
            dead_interval: self.dead_interval,
            retransmit_interval: self.retransmit_interval,
            priority: self.priority,
            auth_key: self.auth_key@,
            static_neighbors: self.static_neighbors@,
        }
    }
}

/// A validated OSPFv2 configuration.
#[derive(Debug)]
pub struct OspfDaemonConfig {
    /// The VRF that the instance serves; nothing for the default one.
    pub vrf_name: Option<String>,
    /// The IPv4 FIB that routes go to.
    pub table_id_v4: u32,
    pub router_id: u32,
    pub reference_bandwidth: u32,
    pub spf_delay_ms: u64,
    pub spf_holdtime_ms: u64,
    pub spf_max_holdtime_ms: u64,
    pub interfaces: Vec<OspfInterfaceConfig>,
    pub redistribute: Vec<RedistributeConfig>,
    pub areas: Vec<AreaConfig>,
    /// One admin distance for every kind of route.
    pub distance: Option<u8>,
    pub distance_intra: Option<u8>,
    pub distance_inter: Option<u8>,
    pub distance_external: Option<u8>,
    /// Whether 0.0.0.0/0 is announced.
    pub default_originate: bool,
    pub default_originate_metric: u32,
    pub default_originate_metric_type: u8,
    pub summary_addresses: Vec<ParsedSummaryAddress>,
    /// The route maps that redistribution rules may refer to.
    pub route_maps: Vec<RouteMap>,
}

/// What a validated OSPFv2 configuration says.
pub struct OspfDaemonConfigView {
    pub vrf_name: Option<Seq<char>>,
    pub table_id_v4: u32,
    pub router_id: u32,
    pub reference_bandwidth: u32,
    pub spf_delay_ms: u64,
    pub spf_holdtime_ms: u64,
    pub spf_max_holdtime_ms: u64,
    pub interfaces: Seq<OspfInterfaceConfigView>,
    pub redistribute: Seq<RedistributeConfigView>,
    pub areas: Seq<AreaConfig>,
    pub distance: Option<u8>,
    pub distance_intra: Option<u8>,
    pub distance_inter: Option<u8>,
    pub distance_external: Option<u8>,
    pub default_originate: bool,
    pub default_originate_metric: u32,
    pub default_originate_metric_type: u8,
    pub summary_addresses: Seq<ParsedSummaryAddress>,
    pub route_maps: Seq<RouteMapView>,
}

/// What an optional text holds.
pub open spec fn opt_text(o: Option<String>) -> Option<Seq<char>> {
    match o {
        Some(s) => Some(s@),
        None => None,
    }
}

impl View for OspfDaemonConfig {
    type V = OspfDaemonConfigView;

    open spec fn view(&self) -> OspfDaemonConfigView {
        OspfDaemonConfigView {
            vrf_name: opt_text(self.vrf_name),
            table_id_v4: self.table_id_v4,
            router_id: self.router_id,
            reference_bandwidth: self.reference_bandwidth,
            spf_delay_ms: self.spf_delay_ms,
            spf_holdtime_ms: self.spf_holdtime_ms,
            spf_max_holdtime_ms: self.spf_max_holdtime_ms,
            interfaces: wire::views(self.interfaces@),
            redistribute: wire::views(self.redistribute@),
            areas: self.areas@,
            distance: self.distance,
            distance_intra: self.distance_intra,
            distance_inter: self.distance_inter,
            distance_external: self.distance_external,
            default_originate: self.default_originate,
            default_originate_metric: self.default_originate_metric,
            default_originate_metric_type: self.default_originate_metric_type,
            summary_addresses: self.summary_addresses@,
            route_maps: wire::views(self.route_maps@),
        }
    }
}

impl OspfDaemonConfigView {
    /// The admin distance of a kind of route: its own if one is given, else the common one.
    pub open spec fn distance_of(self, kind: OspfRouteKind) -> Option<u8> {
        let own = match kind {
            OspfRouteKind::Intra => self.distance_intra,
            OspfRouteKind::Inter => self.distance_inter,
            OspfRouteKind::External1 | OspfRouteKind::External2 => self.distance_external,
        };
        if own is Some {
            own
        } else {
            self.distance
        }
    }
}

impl OspfDaemonConfig {
    /// The admin distance of a kind of route; nothing leaves it to the routing table.
    pub fn admin_distance_for(&self, kind: OspfRouteKind) -> (r: Option<u8>)
        ensures
            r == self@.distance_of(kind),
    {
        let own = match kind {
            OspfRouteKind::Intra => self.distance_intra,
            OspfRouteKind::Inter => self.distance_inter,
            OspfRouteKind::External1 | OspfRouteKind::External2 => self.distance_external,
        };
        if own.is_some() {
            own
        } else {
            self.distance
        }
    }
}

/// A configured OSPFv3 interface.
#[derive(Debug)]
pub struct Ospf6InterfaceConfig {
    pub name: String,
    pub area_id: u32,
    pub cost: u16,
    pub passive: bool,
    pub network_type: String,
    pub hello_interval: u16,
    pub dead_interval: u32,
    pub priority: u8,
    pub instance_id: u8,
    /// Seconds between LSA retransmissions.
    pub retransmit_interval: u16,
    /// Seconds added to the age of an LSA that leaves the interface.
    pub transmit_delay: u16,
    /// Link-local address and priority of each configured neighbor of a non-broadcast network.
    pub static_neighbors: Vec<(u128, u8)>,
}

/// What a configured OSPFv3 interface is.
pub struct Ospf6InterfaceConfigView {
    pub name: Seq<char>,
    pub area_id: u32,
    pub cost: u16,
    pub passive: bool,
    pub network_type: Seq<char>,
    pub hello_interval: u16,
    pub dead_interval: u32,
    pub priority: u8,
    pub instance_id: u8,
    pub retransmit_interval: u16,
    pub transmit_delay: u16,
    pub static_neighbors: Seq<(u128, u8)>,
}

impl View for Ospf6InterfaceConfig {
    type V = Ospf6InterfaceConfigView;

    open spec fn view(&self) -> Ospf6InterfaceConfigView {
        Ospf6InterfaceConfigView {
            name: self.name@,
            area_id: self.area_id,
            cost: self.cost,
            passive: self.passive,
            network_type: self.network_type@,
            hello_interval: self.hello_interval,
            dead_interval: self.dead_interval,
            priority: self.priority,
            instance_id: self.instance_id,
            retransmit_interval: self.retransmit_interval,
            transmit_delay: self.transmit_delay,
            static_neighbors: self.static_neighbors@,
        }
    }
}

/// A validated OSPFv3 configuration.
#[derive(Debug)]
pub struct Ospf6DaemonConfig {
    /// The VRF that the instance serves; nothing for the default one.
    pub vrf_name: Option<String>,
    /// The IPv6 FIB that routes go to.
    pub table_id_v6: u32,
    pub router_id: u32,
    pub reference_bandwidth: u32,
    pub interfaces: Vec<Ospf6InterfaceConfig>,
    pub redistribute: Vec<RedistributeConfig>,
    pub areas: Vec<AreaConfig>,
    /// One admin distance for every kind of route.
    pub distance: Option<u8>,
    /// Whether ::/0 is announced.
    pub default_originate: bool,
    pub default_originate_metric: u32,
    pub default_originate_metric_type: u8,
    pub summary_addresses: Vec<ParsedSummaryAddress6>,
    /// The route maps that redistribution rules may refer to.
    pub route_maps: Vec<RouteMap>,
}

/// What a validated OSPFv3 configuration says.
pub struct Ospf6DaemonConfigView {
    pub vrf_name: Option<Seq<char>>,
    pub table_id_v6: u32,
    pub router_id: u32,
    pub reference_bandwidth: u32,
    pub interfaces: Seq<Ospf6InterfaceConfigView>,
    pub redistribute: Seq<RedistributeConfigView>,
    pub areas: Seq<AreaConfig>,
    pub distance: Option<u8>,
    pub default_originate: bool,
    pub default_originate_metric: u32,
    pub default_originate_metric_type: u8,
    pub summary_addresses: Seq<ParsedSummaryAddress6>,
    pub route_maps: Seq<RouteMapView>,
}

impl View for Ospf6DaemonConfig {
    type V = Ospf6DaemonConfigView;

    open spec fn view(&self) -> Ospf6DaemonConfigView {
        Ospf6DaemonConfigView {
            vrf_name: opt_text(self.vrf_name),
            table_id_v6: self.table_id_v6,
            router_id: self.router_id,
            reference_bandwidth: self.reference_bandwidth,
            interfaces: wire::views(self.interfaces@),
            redistribute: wire::views(self.redistribute@),
            areas: self.areas@,
            distance: self.distance,
            default_originate: self.default_originate,
            default_originate_metric: self.default_originate_metric,
            default_originate_metric_type: self.default_originate_metric_type,
            summary_addresses: self.summary_addresses@,
            route_maps: wire::views(self.route_maps@),
        }
    }
}

impl Ospf6DaemonConfig {
    /// The admin distance of routes, of whatever kind; nothing leaves it to the routing table.
    pub fn admin_distance_for(&self, _kind: OspfRouteKind) -> (r: Option<u8>)
        ensures
            r == self@.distance,
    {
        self.distance
    }
}

} // verus!
