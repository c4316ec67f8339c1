//! What the OSPFv3 daemon is started with, and what its event loop does at each event.
use vstd::prelude::*;

use crate::area::AreaType;
use crate::config;
use crate::config::{
    AreaConfig, Ospf6DaemonConfig, Ospf6InterfaceConfig, ParsedSummaryAddress6,
    RedistributeConfig, RouteMap,
};
use crate::instance;
use crate::instance::setup;
use crate::instance::setup::{find_found, FoundInterface};
use crate::instance::{copy_maps, copy_rules};
use crate::instance_v3;
use crate::instance_v3::distinct;
use crate::instance_v3::exchange;
use crate::instance_v3::originate;
use crate::instance_v3::originate::ExternalV6;
use crate::instance_v3::reload::copy_summaries;
use crate::instance_v3::{
    contains_u32, InstanceV3, InstanceV3View, NetworkTypeV3, StaticNeighborV3,
};
use crate::io_v3;
use crate::io_v3::{IoInterfaceV3, TxPacketV3, V3IoBackend};
use crate::lsdb_v3;
use crate::packet_v3::lsa::AsExternalLsaV3;
use crate::packet_v3::LsaV3Type;
use crate::spf_v3::SpfRouteV3View;
use crate::wire;
use crate::wire::same_text;

verus! {

broadcast use {wire::lemma_views_push, wire::lemma_views_update};

/// An interface to start with.
#[derive(Debug)]
pub struct V3InterfaceConfig {
    pub name: String,
    pub sw_if_index: u32,
    pub kernel_ifindex: u32,
    pub link_local: u128,
    /// Global addresses with the lengths of their prefixes.
    pub global_prefixes: Vec<(u128, u8)>,
    pub area_id: u32,
    pub network_type: NetworkTypeV3,
    pub hello_interval: u16,
    pub dead_interval: u16,
    pub retransmit_interval: u16,
    pub transmit_delay: u16,
    pub priority: u8,
    /// Link-local address and priority of each configured neighbor of a non-broadcast network.
    pub static_neighbors: Vec<(u128, u8)>,
    pub mac_address: [u8; 6],
    pub outer_vlan_id: Option<u16>,
    pub inner_vlan_id: Option<u16>,
}

/// What an interface to start with is.
pub struct V3InterfaceConfigView {
    pub name: Seq<char>,
    pub sw_if_index: u32,
    pub kernel_ifindex: u32,
    pub link_local: u128,
    pub global_prefixes: Seq<(u128, u8)>,
    pub area_id: u32,
    pub network_type: NetworkTypeV3,
    pub hello_interval: u16,
    pub dead_interval: u16,
    pub retransmit_interval: u16,
    pub transmit_delay: u16,
    pub priority: u8,
    pub static_neighbors: Seq<(u128, u8)>,
    pub mac_address: Seq<u8>,
    pub outer_vlan_id: Option<u16>,
    pub inner_vlan_id: Option<u16>,
}

impl View for V3InterfaceConfig {
    type V = V3InterfaceConfigView;

    open spec fn view(&self) -> V3InterfaceConfigView {
        V3InterfaceConfigView {
            name: self.name@,
            sw_if_index: self.sw_if_index,
            kernel_ifindex: self.kernel_ifindex,
            link_local: self.link_local,
            global_prefixes: self.global_prefixes@,
            area_id: self.area_id,
            network_type: self.network_type,
            hello_interval: self.hello_interval,
            dead_interval: self.dead_interval,
            retransmit_interval: self.retransmit_interval,
            transmit_delay: self.transmit_delay,
            priority: self.priority,
            static_neighbors: self.static_neighbors@,
            mac_address: self.mac_address@,
            outer_vlan_id: self.outer_vlan_id,
            inner_vlan_id: self.inner_vlan_id,
        }
    }
}

/// What the OSPFv3 daemon is started with.
#[derive(Debug)]
pub struct V3DaemonConfig {
    pub vrf_name: Option<String>,
    pub table_id_v6: u32,
    pub router_id: u32,
    pub interfaces: Vec<V3InterfaceConfig>,
    /// The type of each configured area.
    pub areas: Vec<(u32, AreaType)>,
    /// The redistribution rules. Any rule makes us an AS boundary router.
    pub redistribute: Vec<RedistributeConfig>,
    /// The route maps that redistribution rules name.
    pub route_maps: Vec<RouteMap>,
    /// One admin distance for every kind of route.
    pub distance: Option<u8>,
    /// Whether ::/0 is announced.
    pub default_originate: bool,
    pub default_originate_metric: u32,
    pub default_originate_metric_type: u8,
    pub summary_addresses: Vec<ParsedSummaryAddress6>,
    pub io_backend: V3IoBackend,
}

/// What the OSPFv3 daemon is started with.
pub struct V3DaemonConfigView {
    pub vrf_name: Option<Seq<char>>,
    pub table_id_v6: u32,
    pub router_id: u32,
    pub interfaces: Seq<V3InterfaceConfigView>,
    pub areas: Seq<(u32, AreaType)>,
    pub redistribute: Seq<config::RedistributeConfigView>,
    pub route_maps: Seq<config::RouteMapView>,
    pub distance: Option<u8>,
    pub default_originate: bool,
    pub default_originate_metric: u32,
    pub default_originate_metric_type: u8,
    pub summary_addresses: Seq<ParsedSummaryAddress6>,
    pub io_backend: V3IoBackend,
}

impl View for V3DaemonConfig {
    type V = V3DaemonConfigView;

    open spec fn view(&self) -> V3DaemonConfigView {
        V3DaemonConfigView {
            vrf_name: config::opt_text(self.vrf_name),
            table_id_v6: self.table_id_v6,
            router_id: self.router_id,
            interfaces: wire::views(self.interfaces@),
            areas: self.areas@,
            redistribute: wire::views(self.redistribute@),
            route_maps: wire::views(self.route_maps@),
            distance: self.distance,
            default_originate: self.default_originate,
            default_originate_metric: self.default_originate_metric,
            default_originate_metric_type: self.default_originate_metric_type,
            summary_addresses: self.summary_addresses@,
            io_backend: self.io_backend,
        }
    }
}

/// The kind of network that the text names; broadcast if it names none.
pub open spec fn network_type_of(text: Seq<char>) -> NetworkTypeV3 {
    if text == "point-to-point"@ {
        NetworkTypeV3::PointToPoint
    } else if text == "non-broadcast"@ {
        NetworkTypeV3::NonBroadcast
    } else if text == "point-to-multipoint"@ {
        NetworkTypeV3::PointToMultipoint
    } else {
        NetworkTypeV3::Broadcast
    }
}

/// The kind of network that the text names.
pub fn parse_network_type_v3(text: &str) -> (t: NetworkTypeV3)
    ensures
        t == network_type_of(text@),
{
    if same_text(text, "point-to-point") {
        NetworkTypeV3::PointToPoint
    } else if same_text(text, "non-broadcast") {
        NetworkTypeV3::NonBroadcast
    } else if same_text(text, "point-to-multipoint") {
        NetworkTypeV3::PointToMultipoint
    } else {
        NetworkTypeV3::Broadcast
    }
}

/// The interface that a configuration entry describes, before its addresses are known: nothing if
/// the forwarder does not know it, or if raw sockets are used and the kernel does not know it.
pub open spec fn enrolled_interface(
    c: config::Ospf6InterfaceConfigView,
    s: Seq<setup::FoundInterfaceView>,
    raw: bool,
) -> Option<V3InterfaceConfigView> {
    match setup::found_pos(s, c.name, 0) {
        None => None,
        Some(i) => if raw && s[i].kernel_ifindex is None {
            None
        } else {
            Some(
                V3InterfaceConfigView {
                    name: c.name,
                    sw_if_index: s[i].sw_if_index,
                    kernel_ifindex: match s[i].kernel_ifindex {
                        Some(k) => k,
                        None => 0,
                    },
                    link_local: 0,
                    global_prefixes: Seq::empty(),
                    area_id: c.area_id,
                    network_type: network_type_of(c.network_type),
                    hello_interval: c.hello_interval,
                    dead_interval: (c.dead_interval % 65536) as u16,
                    retransmit_interval: c.retransmit_interval,
                    transmit_delay: c.transmit_delay,
                    priority: c.priority,
                    static_neighbors: c.static_neighbors,
                    mac_address: s[i].mac_address,
                    outer_vlan_id: s[i].outer_vlan_id,
                    inner_vlan_id: s[i].inner_vlan_id,
                },
            )
        },
    }
}

/// The interfaces that a configuration describes.
pub open spec fn enrolled_interfaces(
    cs: Seq<config::Ospf6InterfaceConfigView>,
    s: Seq<setup::FoundInterfaceView>,
    raw: bool,
) -> Seq<V3InterfaceConfigView>
    decreases cs.len(),
{
    if cs.len() == 0 {
        Seq::empty()
    } else {
        match enrolled_interface(cs.last(), s, raw) {
            Some(f) => enrolled_interfaces(cs.drop_last(), s, raw).push(f),
            None => enrolled_interfaces(cs.drop_last(), s, raw),
        }
    }
}

/// The types of the configured areas.
pub open spec fn area_types(s: Seq<AreaConfig>) -> Seq<(u32, AreaType)> {
    Seq::new(s.len(), |k: int| (s[k].area_id, instance::area_type_of(s[k].area_type)))
}

/// What the daemon of a configuration is started with.
pub open spec fn daemon_config(
    c: config::Ospf6DaemonConfigView,
    s: Seq<setup::FoundInterfaceView>,
    backend: V3IoBackend,
) -> V3DaemonConfigView {
    V3DaemonConfigView {
        vrf_name: c.vrf_name,
        table_id_v6: c.table_id_v6,
        router_id: c.router_id,
        interfaces: enrolled_interfaces(c.interfaces, s, backend == V3IoBackend::Raw),
        areas: area_types(c.areas),
        redistribute: c.redistribute,
        route_maps: c.route_maps,
        distance: c.distance,
        default_originate: c.default_originate,
        default_originate_metric: c.default_originate_metric,
        default_originate_metric_type: c.default_originate_metric_type,
        summary_addresses: c.summary_addresses,
        io_backend: backend,
    }
}

/// A copy of addresses with numbers.
pub fn copy_pairs(v: &Vec<(u128, u8)>) -> (r: Vec<(u128, u8)>)
    ensures
        r@ == v@,
{
    let mut r: Vec<(u128, u8)> = Vec::new();
    let mut i: usize = 0;
    while i < v.len()
        invariant
            i <= v@.len(),
            r@ == v@.take(i as int),
        decreases v.len() - i,
    {
        r.push(v[i]);
        i = i + 1;
        assert(r@ =~= v@.take(i as int));
    }
    assert(v@.take(i as int) =~= v@);
    r
}

fn enroll(c: &Ospf6InterfaceConfig, found: &Vec<FoundInterface>, raw: bool) -> (r: Option<
    V3InterfaceConfig,
>)
    ensures
        match (r, enrolled_interface(c@, wire::views(found@), raw)) {
            (Some(f), Some(v)) => f@ == v,
            (None, None) => true,
            _ => false,
        },
{
    let i: usize = match find_found(found, c.name.as_str()) {
        None => {
            return None;
        },
        Some(i) => i,
    };
    let f = &found[i];
    assert(wire::views(found@)[i as int] == f@);
    let kernel_ifindex: u32 = match f.kernel_ifindex {
        Some(k) => k,
        None => {
            if raw {
                return None;
            }
            0
        },
    };
    let none: Vec<(u128, u8)> = Vec::new();
    assert(none@ =~= Seq::empty());
    Some(
        V3InterfaceConfig {
            name: c.name.as_str().to_owned(),
            sw_if_index: f.sw_if_index,
            kernel_ifindex,
            link_local: 0,
            global_prefixes: none,
            area_id: c.area_id,
            network_type: parse_network_type_v3(c.network_type.as_str()),
            hello_interval: c.hello_interval,
            dead_interval: (c.dead_interval % 65536) as u16,
            retransmit_interval: c.retransmit_interval,
            transmit_delay: c.transmit_delay,
            priority: c.priority,
            static_neighbors: copy_pairs(&c.static_neighbors),
            mac_address: f.mac_address,
            outer_vlan_id: f.outer_vlan_id,
            inner_vlan_id: f.inner_vlan_id,
        },
    )
}

fn copy_area_types(areas: &Vec<AreaConfig>) -> (r: Vec<(u32, AreaType)>)
    ensures
        r@ == area_types(areas@),
{
    let mut r: Vec<(u32, AreaType)> = Vec::new();
    let mut i: usize = 0;
    while i < areas.len()
        invariant
            i <= areas@.len(),
            r@ =~= Seq::new(
                i as nat,
                |k: int| (areas@[k].area_id, instance::area_type_of(areas@[k].area_type)),
            ),
        decreases areas.len() - i,
    {
        let t = match areas[i].area_type {
            config::AreaType::Normal => AreaType::Normal,
            config::AreaType::Stub => AreaType::Stub,
            config::AreaType::Nssa => AreaType::Nssa,
        };
        r.push((areas[i].area_id, t));
        i = i + 1;
    }
    r
}

/// What the daemon of a configuration is started with.
pub fn v3_daemon_config(
    c: &Ospf6DaemonConfig,
    found: &Vec<FoundInterface>,
    backend: V3IoBackend,
) -> (r: V3DaemonConfig)
    ensures
        r@ == daemon_config(c@, wire::views(found@), backend),
{
    let raw = backend == V3IoBackend::Raw;
    let ghost cs = c@.interfaces;
    let ghost fs = wire::views(found@);
    let mut interfaces: Vec<V3InterfaceConfig> = Vec::new();
    let mut i: usize = 0;
    assert(cs.take(0) =~= Seq::empty());
    assert(wire::views(interfaces@) =~= Seq::empty());
    while i < c.interfaces.len()
        invariant
            i <= c.interfaces@.len(),
            cs == c@.interfaces,
            fs == wire::views(found@),
            wire::views(interfaces@) == enrolled_interfaces(cs.take(i as int), fs, raw),
        decreases c.interfaces.len() - i,
    {
        assert(cs.take(i + 1).drop_last() =~= cs.take(i as int));
        assert(cs.take(i + 1).last() == c.interfaces@[i as int]@);
        match enroll(&c.interfaces[i], found, raw) {
            Some(f) => {
                interfaces.push(f);
            },
            None => {},
        }
        i = i + 1;
    }
    assert(cs.take(i as int) =~= cs);
    V3DaemonConfig {
        vrf_name: match &c.vrf_name {
            Some(n) => Some(n.as_str().to_owned()),
            None => None,
        },
        table_id_v6: c.table_id_v6,
        router_id: c.router_id,
        interfaces,
        areas: copy_area_types(&c.areas),
        redistribute: copy_rules(&c.redistribute),
        route_maps: copy_maps(&c.route_maps),
        distance: c.distance,
        default_originate: c.default_originate,
        default_originate_metric: c.default_originate_metric,
        default_originate_metric_type: c.default_originate_metric_type,
        summary_addresses: copy_summaries(&c.summary_addresses),
        io_backend: backend,
    }
}

/// The addresses of an interface.
#[derive(Debug)]
pub struct DiscoveredAddrs {
    pub link_local: Option<u128>,
    /// Addresses that are not link-local, with the lengths of their prefixes.
    pub global_prefixes: Vec<(u128, u8)>,
}

/// Whether the address is link-local: fe80::/10.
pub open spec fn link_local(a: u128) -> bool {
    a / 0x400000000000000000000000000000 == 0x3fa
}

/// The addresses that are not link-local.
pub open spec fn global_only(s: Seq<(u128, u8)>) -> Seq<(u128, u8)>
    decreases s.len(),
{
    if s.len() == 0 {
        Seq::empty()
    } else if link_local(s.last().0) {
        global_only(s.drop_last())
    } else {
        global_only(s.drop_last()).push(s.last())
    }
}

/// Sorts out the addresses that the forwarder reported: the link-local one, which counts only if it
/// is set, and the others.
pub fn discover_addrs(reported: Option<u128>, dump: &Vec<(u128, u8)>) -> (r: DiscoveredAddrs)
    ensures
        r.link_local == (if reported == Some(0u128) {
            None
        } else {
            reported
        }),
        r.global_prefixes@ == global_only(dump@),
{
    let mut v: Vec<(u128, u8)> = Vec::new();
    let mut i: usize = 0;
    assert(dump@.take(0) =~= Seq::empty());
    while i < dump.len()
        invariant
            i <= dump@.len(),
            v@ == global_only(dump@.take(i as int)),
        decreases dump.len() - i,
    {
        assert(dump@.take(i + 1).drop_last() =~= dump@.take(i as int));
        if dump[i].0 / 0x400000000000000000000000000000 != 0x3fa {
            v.push(dump[i]);
        }
        i = i + 1;
    }
    assert(dump@.take(i as int) =~= dump@);
    DiscoveredAddrs {
        link_local: match reported {
            Some(a) => if a == 0 {
                None
            } else {
                Some(a)
            },
            None => None,
        },
        global_prefixes: v,
    }
}

/// The addresses of an interface outside the protocol.
#[derive(Debug)]
pub struct FoundPrefixes {
    pub sw_if_index: u32,
    pub admin_up: bool,
    pub prefixes: Vec<(u128, u8)>,
}

/// The addresses of an interface outside the protocol.
pub struct FoundPrefixesView {
    pub sw_if_index: u32,
    pub admin_up: bool,
    pub prefixes: Seq<(u128, u8)>,
}

impl View for FoundPrefixes {
    type V = FoundPrefixesView;

    open spec fn view(&self) -> FoundPrefixesView {
        FoundPrefixesView {
            sw_if_index: self.sw_if_index,
            admin_up: self.admin_up,
            prefixes: self.prefixes@,
        }
    }
}

/// The prefixes of interfaces that are up and not served.
pub open spec fn external_prefixes(s: Seq<FoundPrefixesView>, enrolled: Seq<u32>) -> Seq<(u128, u8)>
    decreases s.len(),
{
    if s.len() == 0 {
        Seq::empty()
    } else {
        let front = external_prefixes(s.drop_last(), enrolled);
        if !enrolled.contains(s.last().sw_if_index) && s.last().admin_up {
            front + s.last().prefixes
        } else {
            front
        }
    }
}

/// The prefixes that may be redistributed: those of interfaces that are up and not served.
pub fn discover_externals(found: &Vec<FoundPrefixes>, enrolled: &Vec<u32>) -> (r: Vec<(u128, u8)>)
    ensures
        r@ == external_prefixes(wire::views(found@), enrolled@),
{
    let ghost s = wire::views(found@);
    let mut out: Vec<(u128, u8)> = Vec::new();
    let mut i: usize = 0;
    assert(s.take(0) =~= Seq::empty());
    while i < found.len()
        invariant
            i <= found@.len(),
            s == wire::views(found@),
            out@ == external_prefixes(s.take(i as int), enrolled@),
        decreases found.len() - i,
    {
        assert(s.take(i + 1).drop_last() =~= s.take(i as int));
        let f = &found[i];
        assert(s.take(i + 1).last() == f@);
        if !contains_u32(enrolled, f.sw_if_index) && f.admin_up {
            let ghost before = out@;
            let mut more = copy_pairs(&f.prefixes);
            out.append(&mut more);
            assert(out@ =~= before + f.prefixes@);
        }
        i = i + 1;
    }
    assert(s.take(i as int) =~= s);
    out
}

/// The configured neighbors as an interface keeps them.
pub open spec fn static_list(s: Seq<(u128, u8)>) -> Seq<StaticNeighborV3> {
    Seq::new(s.len(), |k: int| StaticNeighborV3 { link_local: s[k].0, priority: s[k].1 })
}

impl V3InterfaceConfigView {
    /// The interface as packets go through it.
    pub open spec fn io(self) -> io_v3::IoInterfaceV3View {
        io_v3::IoInterfaceV3View {
            name: self.name,
            sw_if_index: self.sw_if_index,
            kernel_ifindex: self.kernel_ifindex,
            link_local: self.link_local,
            mac_address: self.mac_address,
            outer_vlan_id: self.outer_vlan_id,
            inner_vlan_id: self.inner_vlan_id,
        }
    }

    /// The interface with its addresses: nothing without a link-local one.
    pub open spec fn addressed(self, ll: Option<u128>, prefixes: Seq<(u128, u8)>) -> Option<
        V3InterfaceConfigView,
    > {
        match ll {
            Some(a) => Some(
                V3InterfaceConfigView { link_local: a, global_prefixes: prefixes, ..self },
            ),
            None => None,
        }
    }
}

impl V3InterfaceConfig {
    /// The interface as packets go through it.
    pub fn io(&self) -> (r: IoInterfaceV3)
        ensures
            r@ == self@.io(),
    {
        IoInterfaceV3 {
            name: self.name.as_str().to_owned(),
            sw_if_index: self.sw_if_index,
            kernel_ifindex: self.kernel_ifindex,
            link_local: self.link_local,
            mac_address: self.mac_address,
            outer_vlan_id: self.outer_vlan_id,
            inner_vlan_id: self.inner_vlan_id,
        }
    }

    /// The interface with its addresses; one without a link-local address cannot be used.
    pub fn with_addrs(self, addrs: DiscoveredAddrs) -> (r: Option<V3InterfaceConfig>)
        ensures
            match (r, self@.addressed(addrs.link_local, addrs.global_prefixes@)) {
                (Some(f), Some(v)) => f@ == v,
                (None, None) => true,
                _ => false,
            },
    {
        match addrs.link_local {
            None => None,
            Some(a) => Some(
                V3InterfaceConfig {
                    name: self.name,
                    sw_if_index: self.sw_if_index,
                    kernel_ifindex: self.kernel_ifindex,
                    link_local: a,
                    global_prefixes: addrs.global_prefixes,
                    area_id: self.area_id,
                    network_type: self.network_type,
                    hello_interval: self.hello_interval,
                    dead_interval: self.dead_interval,
                    retransmit_interval: self.retransmit_interval,
                    transmit_delay: self.transmit_delay,
                    priority: self.priority,
                    static_neighbors: self.static_neighbors,
                    mac_address: self.mac_address,
                    outer_vlan_id: self.outer_vlan_id,
                    inner_vlan_id: self.inner_vlan_id,
                },
            ),
        }
    }
}

impl InstanceV3View {
    /// The instance with an area type set.
    pub open spec fn with_area_type(self, area: u32, t: AreaType) -> InstanceV3View {
        InstanceV3View {
            area_types: match instance_v3::area_pos(self.area_types, area, 0) {
                Some(i) => self.area_types.update(i, (area, t)),
                None => self.area_types.push((area, t)),
            },
            ..self
        }
    }

    /// The instance with area types set.
    pub open spec fn with_area_types(self, s: Seq<(u32, AreaType)>) -> InstanceV3View
        decreases s.len(),
    {
        if s.len() == 0 {
            self
        } else {
            self.with_area_types(s.drop_last()).with_area_type(s.last().0, s.last().1)
        }
    }

    /// The instance with an interface added.
    pub open spec fn with_config(self, f: V3InterfaceConfigView, now: u64) -> InstanceV3View {
        let a = self.with_interface(
            InstanceV3View::fresh_interface(
                f.io(),
                f.area_id,
                f.network_type,
                f.hello_interval,
                f.dead_interval,
                f.priority,
                f.global_prefixes,
                f.retransmit_interval,
                f.transmit_delay,
                now,
            ),
        );
        if f.static_neighbors.len() > 0 {
            a.with_static(f.sw_if_index, static_list(f.static_neighbors))
        } else {
            a
        }
    }

    /// The instance with interfaces added.
    pub open spec fn with_configs(self, s: Seq<V3InterfaceConfigView>, now: u64) -> InstanceV3View
        decreases s.len(),
    {
        if s.len() == 0 {
            self
        } else {
            self.with_configs(s.drop_last(), now).with_config(s.last(), now)
        }
    }

    /// The instance filled in from what the daemon is started with.
    pub open spec fn populated(self, c: V3DaemonConfigView, now: u64) -> InstanceV3View {
        (InstanceV3View {
            redistribute: c.redistribute,
            route_maps: c.route_maps,
            summary_addresses: c.summary_addresses,
            asbr: c.redistribute.len() > 0,
            ..self
        }).with_area_types(c.areas).with_configs(c.interfaces, now)
    }

    /// The instance after its first LSAs were issued, `ts` being the routes inside its areas.
    /// Anything that is announced from outside makes us an AS boundary router.
    pub open spec fn launched(
        self,
        c: V3DaemonConfigView,
        ts: Seq<Seq<SpfRouteV3View>>,
        externals: Seq<originate::ExternalV6View>,
    ) -> InstanceV3View {
        let a = self.with_router_lsas().with_prefix_lsas().with_tables(ts);
        let b = if c.redistribute.len() > 0 {
            a.redistributed(externals, c.summary_addresses)
        } else {
            a
        };
        let d = if c.default_originate {
            (InstanceV3View { asbr: true, ..b }).originated(
                LsaV3Type::AsExternal,
                0,
                AsExternalLsaV3::spec_external(
                    c.default_originate_metric_type == 2,
                    c.default_originate_metric,
                    0,
                    0,
                    0,
                ).bytes(),
                None,
            )
        } else {
            b
        };
        if c.summary_addresses.len() > 0 {
            (InstanceV3View { asbr: true, ..d }).summary_lsas(c.summary_addresses)
        } else {
            d
        }
    }

    /// The instance after due Hellos went out.
    pub open spec fn greeted(self, now: u64) -> InstanceV3View {
        InstanceV3View {
            interfaces: Seq::new(
                self.interfaces.len(),
                |i: int| self.interfaces[i].after_hello(now),
            ),
            ..self
        }
    }

    /// The instance after due Database Descriptions went out.
    pub open spec fn described(self, now: u64) -> InstanceV3View {
        InstanceV3View {
            interfaces: Seq::new(
                self.interfaces.len(),
                |i: int|
                    self.interfaces[i].after_dds(lsdb_v3::entry_headers(self.lsdb.entries), now),
            ),
            ..self
        }
    }

    /// The instance after queued requests, updates and acknowledgments went out.
    pub open spec fn drained(self) -> InstanceV3View {
        InstanceV3View {
            interfaces: Seq::new(
                self.interfaces.len(),
                |i: int| self.interfaces[i].after_queued(),
            ),
            ..self
        }
    }

    /// The instance after silent neighbors were given up.
    pub open spec fn pruned(self, now: u64) -> InstanceV3View {
        InstanceV3View {
            interfaces: Seq::new(
                self.interfaces.len(),
                |i: int| self.interfaces[i].expired(self.router_id, now),
            ),
            ..self
        }
    }
}

/// Addresses and state of an interface as the forwarder reports them.
#[derive(Debug)]
pub struct SnapshotV3 {
    pub sw_if_index: u32,
    pub link_local: Option<u128>,
    pub prefixes: Vec<(u128, u8)>,
    pub up: bool,
}

/// Addresses and state of an interface.
pub struct SnapshotV3View {
    pub sw_if_index: u32,
    pub link_local: Option<u128>,
    pub prefixes: Seq<(u128, u8)>,
    pub up: bool,
}

impl View for SnapshotV3 {
    type V = SnapshotV3View;

    open spec fn view(&self) -> SnapshotV3View {
        SnapshotV3View {
            sw_if_index: self.sw_if_index,
            link_local: self.link_local,
            prefixes: self.prefixes@,
            up: self.up,
        }
    }
}

impl InstanceV3View {
    /// The instance after a snapshot and whether it changed anything.
    pub open spec fn snapped(self, s: SnapshotV3View) -> (InstanceV3View, bool) {
        match instance_v3::iface_pos(self.interfaces, s.sw_if_index, 0) {
            None => (self, false),
            Some(i) => {
                let r = self.interfaces[i].refreshed(s.link_local, s.prefixes, s.up);
                (InstanceV3View { interfaces: self.interfaces.update(i, r.0), ..self }, r.1)
            },
        }
    }

    /// The instance after snapshots and whether any changed anything.
    pub open spec fn snapped_all(self, ss: Seq<SnapshotV3View>) -> (InstanceV3View, bool)
        decreases ss.len(),
    {
        if ss.len() == 0 {
            (self, false)
        } else {
            let front = self.snapped_all(ss.drop_last());
            let r = front.0.snapped(ss.last());
            (r.0, front.1 || r.1)
        }
    }
}

impl InstanceV3 {
    /// Fills the instance in from what the daemon is started with.
    pub fn populate(&mut self, c: &V3DaemonConfig, now: u64)
        ensures
            final(self)@ == old(self)@.populated(c@, now),
    {
        let ghost start = self@;
        self.set_asbr(c.redistribute.len() > 0);
        self.redistribute = copy_rules(&c.redistribute);
        self.route_maps = copy_maps(&c.route_maps);
        self.summary_addresses = copy_summaries(&c.summary_addresses);
        let ghost first = self@;
        let mut i: usize = 0;
        assert(c.areas@.take(0) =~= Seq::empty());
        while i < c.areas.len()
            invariant
                i <= c.areas@.len(),
                self@ == first.with_area_types(c.areas@.take(i as int)),
            decreases c.areas.len() - i,
        {
            assert(c.areas@.take(i + 1).drop_last() =~= c.areas@.take(i as int));
            self.set_area_type(c.areas[i].0, c.areas[i].1);
            i = i + 1;
        }
        assert(c.areas@.take(i as int) =~= c.areas@);
        let ghost second = self@;
        let ghost fs = c@.interfaces;
        let mut j: usize = 0;
        assert(fs.take(0) =~= Seq::empty());
        while j < c.interfaces.len()
            invariant
                j <= c.interfaces@.len(),
                fs == c@.interfaces,
                self@ == second.with_configs(fs.take(j as int), now),
            decreases c.interfaces.len() - j,
        {
            assert(fs.take(j + 1).drop_last() =~= fs.take(j as int));
            let f = &c.interfaces[j];
            assert(fs.take(j + 1).last() == f@);
            self.add_interface_full(
                f.io(),
                f.area_id,
                f.network_type,
                f.hello_interval,
                f.dead_interval,
                f.priority,
                copy_pairs(&f.global_prefixes),
                f.retransmit_interval,
                f.transmit_delay,
                now,
            );
            if f.static_neighbors.len() > 0 {
                let mut ns: Vec<StaticNeighborV3> = Vec::new();
                let mut k: usize = 0;
                while k < f.static_neighbors.len()
                    invariant
                        k <= f.static_neighbors@.len(),
                        ns@ =~= static_list(f.static_neighbors@).take(k as int),
                    decreases f.static_neighbors.len() - k,
                {
                    ns.push(
                        StaticNeighborV3 {
                            link_local: f.static_neighbors[k].0,
                            priority: f.static_neighbors[k].1,
                        },
                    );
                    k = k + 1;
                }
                assert(ns@ =~= static_list(f.static_neighbors@));
                self.set_static_neighbors_v3(f.sw_if_index, ns);
            }
            j = j + 1;
        }
        assert(fs.take(j as int) =~= fs);
    }

    /// Issues the first LSAs. `externals` are the routes that may be redistributed.
    pub fn launch(&mut self, c: &V3DaemonConfig, externals: Vec<ExternalV6>)
        requires
            externals@.len() < 0xffffffff,
            c.summary_addresses@.len() <= 0xffffefff,
        ensures
            exists|ts: Seq<Seq<SpfRouteV3View>>|
                #[trigger] old(self)@.with_router_lsas().with_prefix_lsas().are_area_tables(ts)
                    && final(self)@ == old(self)@.launched(c@, ts, wire::views(externals@)),
    {
        self.originate_router_lsa();
        self.originate_intra_area_prefix_lsas();
        self.originate_inter_area_prefix_lsas();
        if c.redistribute.len() > 0 {
            self.originate_external_lsas(externals, &c.summary_addresses);
        }
        if c.default_originate {
            self.set_asbr(true);
            self.originate_default_route_lsa(
                c.default_originate_metric,
                c.default_originate_metric_type,
            );
        }
        if c.summary_addresses.len() > 0 {
            self.set_asbr(true);
            self.originate_summary_address_lsas(&c.summary_addresses);
        }
    }

    /// What happens every second: due Hellos and Database Descriptions, then what is queued.
    pub fn on_hello_tick(&mut self, now: u64) -> (out: Vec<TxPacketV3>)
        ensures
            ({
                let a = old(self)@.greeted(now);
                let b = a.described(now);
                &&& final(self)@ == b.drained()
                &&& wire::views(out@) == instance_v3::all_hellos(
                    old(self)@.interfaces,
                    old(self)@.router_id,
                    now,
                ) + exchange::all_dds(a.interfaces, a.router_id, now) + exchange::all_queued(
                    b.interfaces,
                    b.router_id,
                )
            }),
    {
        let mut out = self.hello_tick(now);
        let ghost x = out@;
        let mut dds = self.emit_pending_dds(now);
        let ghost y = dds@;
        out.append(&mut dds);
        assert(out@ =~= x + y);
        let mut rest = self.emit_pending_lsdb_packets();
        let ghost z = rest@;
        out.append(&mut rest);
        assert(out@ =~= x + y + z);
        assert(wire::views(out@) =~= wire::views(x) + wire::views(y) + wire::views(z));
        out
    }

    /// Gives silent neighbors up, and issues our LSAs anew if an interface asks for it.
    pub fn on_expire_tick(&mut self, now: u64)
        ensures
            final(self)@ == old(self)@.pruned(now).self_refreshed(),
    {
        self.expire_neighbors(now);
        self.refresh_router_lsa_if_needed();
    }

    /// Takes over what the forwarder reports of the interfaces. After a change our LSAs are issued
    /// anew where an interface asks for it. Says whether routes have to be computed.
    pub fn on_interface_refresh(&mut self, snapshots: &Vec<SnapshotV3>) -> (changed: bool)
        ensures
            ({
                let r = old(self)@.snapped_all(wire::views(snapshots@));
                &&& changed == r.1
                &&& final(self)@ == (if r.1 {
                    r.0.self_refreshed()
                } else {
                    r.0
                })
            }),
    {
        let ghost start = self@;
        let ghost ss = wire::views(snapshots@);
        let mut any = false;
        let mut i: usize = 0;
        assert(ss.take(0) =~= Seq::empty());
        while i < snapshots.len()
            invariant
                i <= snapshots@.len(),
                ss == wire::views(snapshots@),
                (self@, any) == start.snapped_all(ss.take(i as int)),
            decreases snapshots.len() - i,
        {
            assert(ss.take(i + 1).drop_last() =~= ss.take(i as int));
            let s = &snapshots[i];
            assert(ss.take(i + 1).last() == s@);
            let changed = self.refresh_interface_state(
                s.sw_if_index,
                s.link_local,
                copy_pairs(&s.prefixes),
                s.up,
            );
            if changed {
                any = true;
            }
            i = i + 1;
        }
        assert(ss.take(i as int) =~= ss);
        if any {
            self.refresh_router_lsa_if_needed();
        }
        any
    }

    /// The indices of the interfaces.
    pub fn interface_indices(&self) -> (r: Vec<u32>)
        ensures
            r@ == Seq::new(
                self@.interfaces.len(),
                |k: int| self@.interfaces[k].io.sw_if_index,
            ),
    {
        let mut v: Vec<u32> = Vec::new();
        let mut i: usize = 0;
        while i < self.interfaces.len()
            invariant
                i <= self.interfaces@.len(),
                v@ =~= Seq::new(i as nat, |k: int| self@.interfaces[k].io.sw_if_index),
            decreases self.interfaces.len() - i,
        {
            v.push(self.interfaces[i].io.sw_if_index);
            i = i + 1;
        }
        v
    }
}

/// What route computation last saw.
#[derive(Clone, Copy, Debug, PartialEq, Eq, Structural)]
pub struct SpfMark {
    /// The generation of the database; it moves with every new instance of an LSA, also where the
    /// size of the database stays the same.
    pub generation: u64,
    pub neighbors: usize,
}

/// Whether routes have to be computed: nothing was computed yet, or the database or the number of
/// full neighbors moved since.
pub fn spf_needed(last: Option<SpfMark>, generation: u64, neighbors: usize) -> (b: bool)
    ensures
        b == (last != Some(SpfMark { generation, neighbors })),
{
    match last {
        None => true,
        Some(m) => m.generation != generation || m.neighbors != neighbors,
    }
}

proof fn lemma_area_types_keep(me: InstanceV3View, s: Seq<(u32, AreaType)>)
    ensures
        me.with_area_types(s).interfaces == me.interfaces,
        me.with_area_types(s).lsdb == me.lsdb,
    decreases s.len(),
{
    if s.len() > 0 {
        lemma_area_types_keep(me, s.drop_last());
    }
}

proof fn lemma_configs_wf(me: InstanceV3View, s: Seq<V3InterfaceConfigView>, now: u64)
    requires
        me.wf(),
    ensures
        me.with_configs(s, now).wf(),
    decreases s.len(),
{
    if s.len() > 0 {
        lemma_configs_wf(me, s.drop_last(), now);
        let before = me.with_configs(s.drop_last(), now);
        let f = s.last();
        let fresh = InstanceV3View::fresh_interface(
            f.io(),
            f.area_id,
            f.network_type,
            f.hello_interval,
            f.dead_interval,
            f.priority,
            f.global_prefixes,
            f.retransmit_interval,
            f.transmit_delay,
            now,
        );
        let mid = before.with_interface(fresh);
        distinct::lemma_interface_wf(before, fresh);
        instance_v3::lemma_iface_pos(mid.interfaces, f.sw_if_index, 0);
        match instance_v3::iface_pos(mid.interfaces, f.sw_if_index, 0) {
            Some(i) => {
                assert(mid.interfaces[i].wf());
            },
            None => {},
        }
    }
}

/// Starting the daemon keeps everything distinct: no interface, neighbor or LSA is listed twice.
pub proof fn lemma_started_wf(
    me: InstanceV3View,
    c: V3DaemonConfigView,
    ts: Seq<Seq<SpfRouteV3View>>,
    externals: Seq<originate::ExternalV6View>,
    now: u64,
)
    requires
        me.wf(),
    ensures
        me.populated(c, now).wf(),
        me.launched(c, ts, externals).wf(),
{
    let first = InstanceV3View {
        redistribute: c.redistribute,
        route_maps: c.route_maps,
        summary_addresses: c.summary_addresses,
        asbr: c.redistribute.len() > 0,
        ..me
    };
    lemma_area_types_keep(first, c.areas);
    lemma_configs_wf(first.with_area_types(c.areas), c.interfaces, now);
    distinct::lemma_origination_wf(me);
    let r = me.with_router_lsas();
    distinct::lemma_origination_wf(r);
    distinct::lemma_spf_wf(r.with_prefix_lsas(), ts);
    let a = r.with_prefix_lsas().with_tables(ts);
    distinct::lemma_redistribution_wf(a, externals, c.summary_addresses, Seq::empty());
    let b = if c.redistribute.len() > 0 {
        a.redistributed(externals, c.summary_addresses)
    } else {
        a
    };
    let b2 = InstanceV3View { asbr: true, ..b };
    let body = AsExternalLsaV3::spec_external(
        c.default_originate_metric_type == 2,
        c.default_originate_metric,
        0,
        0,
        0,
    ).bytes();
    distinct::lemma_originated_wf(b2, LsaV3Type::AsExternal, 0, body, None);
    let d = if c.default_originate {
        b2.originated(LsaV3Type::AsExternal, 0, body, None)
    } else {
        b
    };
    distinct::lemma_redistribution_wf(
        InstanceV3View { asbr: true, ..d },
        externals,
        c.summary_addresses,
        Seq::empty(),
    );
}

} // verus!
