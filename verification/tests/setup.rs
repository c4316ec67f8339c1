use ospfd::config::{
    AreaConfig, AreaType, Ospf6DaemonConfig, Ospf6InterfaceConfig, OspfDaemonConfig,
    OspfInterfaceConfig, ParsedSummaryAddress, RedistributeConfig, RedistributeSource,
    RouteMap,
};
use ospfd::daemon_v3::{
    discover_addrs, discover_externals, v3_daemon_config, DiscoveredAddrs, FoundPrefixes,
};
use ospfd::instance::originate::External;
use ospfd::instance::setup::{
    bind_v2, bind_v3, discover_externals_v4, extend_interfaces, ControlBinding, FoundAddresses,
    FoundInterface,
};
use ospfd::instance::OspfInstance;
use ospfd::instance_v3::originate::ExternalV6;
use ospfd::instance_v3::{InstanceV3, NetworkTypeV3};
use ospfd::io::IoInterface;
use ospfd::io_v3::V3IoBackend;
use ospfd::lsdb_v3::LsaKeyV3;
use ospfd::packet::auth::AuthKey;
use ospfd::packet::lsa::{LsaBody, LsaKey, LsaType};
use ospfd::packet_v3::lsa::AsExternalLsaV3;
use ospfd::packet_v3::{LsaV3Type, LSA_V3_HEADER_LEN};
use ospfd::proto::interface::InterfaceState;
use ospfd::proto::spf::OspfRouteKind;

const START: u64 = 4_000_000;

fn ip(a: u8, b: u8, c: u8, d: u8) -> u32 {
    u32::from_be_bytes([a, b, c, d])
}

fn link_local(n: u128) -> u128 {
    (0xfe80 << 112) | n
}

fn net(n: u128) -> u128 {
    (0x2001_0db8 << 96) | (n << 80)
}

fn interface(name: &str) -> OspfInterfaceConfig {
    OspfInterfaceConfig {
        name: name.to_string(),
        address: ip(10, 0, 0, 1),
        prefix_len: 24,
        area_id: 0,
        cost: 10,
        passive: false,
        network_type: "broadcast".to_string(),
        hello_interval: 10,
        dead_interval: 40,
        retransmit_interval: 5,
        priority: 1,
        auth_key: AuthKey::Null,
        static_neighbors: Vec::new(),
    }
}

fn config(interfaces: Vec<OspfInterfaceConfig>) -> OspfDaemonConfig {
    OspfDaemonConfig {
        vrf_name: None,
        table_id_v4: 0,
        router_id: 1,
        reference_bandwidth: 100,
        spf_delay_ms: 50,
        spf_holdtime_ms: 200,
        spf_max_holdtime_ms: 5000,
        interfaces,
        redistribute: Vec::new(),
        areas: Vec::new(),
        distance: None,
        distance_intra: None,
        distance_inter: None,
        distance_external: None,
        default_originate: false,
        default_originate_metric: 1,
        default_originate_metric_type: 2,
        summary_addresses: Vec::new(),
        route_maps: Vec::new(),
    }
}

fn found(name: &str, sw_if_index: u32, kernel_ifindex: Option<u32>) -> FoundInterface {
    FoundInterface {
        name: name.to_string(),
        sw_if_index,
        mac_address: [2, 0, 0, 0, 0, sw_if_index as u8],
        outer_vlan_id: None,
        inner_vlan_id: None,
        address: None,
        kernel_ifindex,
    }
}

#[test]
fn the_forwarder_decides_on_addresses() {
    let mut inst = OspfInstance::new(&config(vec![interface("a"), interface("b"), interface("c")]));
    let mut moved = found("a", 5, Some(50));
    moved.address = Some((ip(10, 9, 9, 9), 16));
    let io = inst.resolve_interfaces(&vec![moved, found("b", 6, None)], true);
    assert_eq!(inst.interfaces[0].address, ip(10, 9, 9, 9));
    assert_eq!(inst.interfaces[0].mask, ip(255, 255, 0, 0));
    assert_eq!(inst.interfaces[1].address, ip(10, 0, 0, 1));
    assert_eq!(inst.interfaces[1].sw_if_index, 6);
    assert_eq!(inst.interfaces[2].sw_if_index, 0);
    let names: Vec<(&str, u32, u32)> =
        io.iter().map(|i| (i.name.as_str(), i.sw_if_index, i.kernel_ifindex)).collect();
    assert_eq!(names, vec![("a", 5, 50)]);
}

#[test]
fn punt_sockets_need_no_kernel_interface() {
    let mut inst = OspfInstance::new(&config(vec![interface("b")]));
    let io = inst.resolve_interfaces(&vec![found("b", 6, None)], false);
    assert_eq!((io[0].sw_if_index, io[0].kernel_ifindex), (6, 0));
    assert_eq!(io[0].mac_address, [2, 0, 0, 0, 0, 6]);
}

#[test]
fn launching_issues_the_first_lsas() {
    let mut c = config(vec![interface("a"), interface("b")]);
    c.default_originate = true;
    c.default_originate_metric = 33;
    c.default_originate_metric_type = 1;
    c.redistribute = vec![RedistributeConfig {
        source: RedistributeSource::Connected,
        metric: 20,
        metric_type: 2,
        route_map: None,
    }];
    c.summary_addresses = vec![ParsedSummaryAddress {
        prefix: ip(172, 16, 0, 0),
        prefix_len: 12,
        no_advertise: false,
        tag: 4,
        metric: 9,
        metric_type: 2,
    }];
    let mut inst = OspfInstance::new(&c);
    inst.resolve_interfaces(&vec![found("a", 5, Some(50))], true);
    let outside = vec![External {
        prefix: ip(192, 168, 4, 0),
        mask: ip(255, 255, 255, 0),
        matched: Vec::new(),
    }];
    inst.launch(&c, &outside, START);
    assert_ne!(inst.interfaces[0].state, InterfaceState::Down);
    assert_eq!(inst.interfaces[1].state, InterfaceState::Down);
    assert_eq!(inst.spf_due(), Some(START + 50));
    let external = |id: u32| {
        let key = LsaKey { ls_type: LsaType::AsExternal, link_state_id: id, advertising_router: 1 };
        match &inst.as_external_lsdb.get(&key).unwrap().lsa.body {
            LsaBody::AsExternal(b) => (b.network_mask, b.metric_type_2, b.metric),
            _ => panic!("not external"),
        }
    };
    assert_eq!(external(0), (0, false, 33));
    assert_eq!(external(ip(172, 16, 0, 0)), (ip(255, 240, 0, 0), true, 9));
    assert_eq!(external(ip(192, 168, 4, 0)), (ip(255, 255, 255, 0), true, 20));
    assert_eq!(inst.as_external_lsdb.len(), 3);
}

fn addresses(sw_if_index: u32, admin_up: bool, table: Option<u32>) -> FoundAddresses {
    FoundAddresses {
        sw_if_index,
        admin_up,
        table,
        addresses: vec![(ip(10, 0, sw_if_index as u8, 7), 24)],
    }
}

#[test]
fn networks_outside_the_protocol_are_found_by_table() {
    let all = vec![
        addresses(1, true, Some(4)),
        addresses(2, true, Some(4)),
        addresses(3, false, Some(4)),
        addresses(4, true, Some(0)),
        addresses(5, true, None),
    ];
    let mask = ip(255, 255, 255, 0);
    assert_eq!(discover_externals_v4(&all, &vec![1], 4), vec![(ip(10, 0, 2, 0), mask)]);
    assert_eq!(discover_externals_v4(&all, &Vec::new(), 0), vec![(ip(10, 0, 4, 0), mask)]);
}

#[test]
fn prefixes_outside_the_protocol_are_found() {
    let prefixes = |sw_if_index: u32, admin_up: bool| FoundPrefixes {
        sw_if_index,
        admin_up,
        prefixes: vec![(net(sw_if_index as u128), 64)],
    };
    let all = vec![prefixes(1, true), prefixes(2, false), prefixes(3, true)];
    assert_eq!(discover_externals(&all, &vec![1]), vec![(net(3), 64)]);
}

#[test]
fn addresses_are_sorted_out() {
    let dump = vec![(link_local(9), 64), (net(1), 64), (0xfebf << 112, 10), (0xfec0 << 112, 10)];
    let d = discover_addrs(Some(link_local(9)), &dump);
    assert_eq!(d.link_local, Some(link_local(9)));
    assert_eq!(d.global_prefixes, vec![(net(1), 64), (0xfec0 << 112, 10)]);
    assert_eq!(discover_addrs(Some(0), &dump).link_local, None);
    assert_eq!(discover_addrs(None, &dump).link_local, None);
}

fn v3_interface(name: &str, network_type: &str) -> Ospf6InterfaceConfig {
    Ospf6InterfaceConfig {
        name: name.to_string(),
        area_id: 0,
        cost: 10,
        passive: false,
        network_type: network_type.to_string(),
        hello_interval: 10,
        dead_interval: 0x10028,
        retransmit_interval: 5,
        transmit_delay: 1,
        priority: 1,
        instance_id: 0,
        static_neighbors: Vec::new(),
    }
}

fn v3_config() -> Ospf6DaemonConfig {
    Ospf6DaemonConfig {
        vrf_name: Some("blue".to_string()),
        table_id_v6: 12,
        router_id: 1,
        reference_bandwidth: 100,
        interfaces: vec![v3_interface("a", "point-to-point"), v3_interface("b", "other")],
        redistribute: Vec::new(),
        areas: vec![AreaConfig { area_id: 0, area_type: AreaType::Normal, default_cost: 1 }],
        distance: Some(99),
        default_originate: true,
        default_originate_metric: 7,
        default_originate_metric_type: 1,
        summary_addresses: Vec::new(),
        route_maps: Vec::new(),
    }
}

#[test]
fn an_ospfv3_daemon_starts_on_the_interfaces_that_exist() {
    let both = vec![found("a", 5, None), found("b", 6, Some(60))];
    let raw = v3_daemon_config(&v3_config(), &both, V3IoBackend::Raw);
    assert_eq!(raw.interfaces.len(), 1);
    assert_eq!(raw.interfaces[0].kernel_ifindex, 60);
    assert_eq!(raw.interfaces[0].network_type, NetworkTypeV3::Broadcast);
    let mut punt = v3_daemon_config(&v3_config(), &both, V3IoBackend::Punt);
    assert_eq!(punt.interfaces.len(), 2);
    assert_eq!(punt.interfaces[0].network_type, NetworkTypeV3::PointToPoint);
    assert_eq!(punt.interfaces[0].dead_interval, 0x28);
    assert_eq!((punt.table_id_v6, punt.distance), (12, Some(99)));

    let b = punt.interfaces.pop().unwrap();
    let a = punt.interfaces.pop().unwrap();
    let none = DiscoveredAddrs { link_local: None, global_prefixes: vec![(net(1), 64)] };
    assert!(b.with_addrs(none).is_none());
    let addrs =
        DiscoveredAddrs { link_local: Some(link_local(5)), global_prefixes: vec![(net(1), 64)] };
    punt.interfaces = vec![a.with_addrs(addrs).unwrap()];

    let mut inst = InstanceV3::new(1);
    inst.populate(&punt, START);
    assert_eq!((inst.redistribute.len(), inst.route_maps.len()), (0, 0));
    inst.launch(&punt, Vec::new());
    assert_eq!(inst.interface_indices(), vec![5]);
    let key = LsaKeyV3 {
        area: None,
        ls_type: LsaV3Type::AsExternal,
        link_state_id: 0,
        advertising_router: 1,
    };
    assert!(inst.lsdb.get(&key).is_some());
}

#[test]
fn an_ospfv3_daemon_filters_by_the_route_map_of_its_rule() {
    let mut c = v3_config();
    c.default_originate = false;
    c.redistribute = vec![RedistributeConfig {
        source: RedistributeSource::Connected,
        metric: 3,
        metric_type: 2,
        route_map: Some("edge".to_string()),
    }];
    c.route_maps = vec![RouteMap { name: "edge".to_string(), permits: vec![true] }];
    let daemon = v3_daemon_config(&c, &vec![found("a", 5, None)], V3IoBackend::Punt);
    let mut inst = InstanceV3::new(1);
    inst.populate(&daemon, START);
    let outside = vec![
        ExternalV6 { prefix: net(8), prefix_len: 64, matched: vec![false] },
        ExternalV6 { prefix: net(9), prefix_len: 64, matched: vec![true] },
    ];
    inst.launch(&daemon, outside);
    let entries = inst.lsdb.iter();
    let externals: Vec<_> =
        entries.iter().filter(|e| e.header.ls_type == LsaV3Type::AsExternal).collect();
    assert_eq!(externals.len(), 1);
    let mut body = Vec::new();
    AsExternalLsaV3::external(true, 3, net(9), 64, 0).encode(&mut body);
    assert_eq!(externals[0].raw[LSA_V3_HEADER_LEN..], body[..]);
}

#[test]
fn control_sockets_are_bound_by_vrf() {
    let blue = Some("blue".to_string());
    let mut all: Vec<ControlBinding> = Vec::new();
    bind_v2(&mut all, &None, 0);
    bind_v2(&mut all, &blue, 1);
    bind_v3(&mut all, &blue);
    assert_eq!(all.len(), 2);
    assert_eq!((all[0].path.as_str(), all[0].v2, all[0].v3), ("/run/ospfd.sock", Some(0), false));
    assert_eq!(
        (all[1].path.as_str(), all[1].v2, all[1].v3),
        ("/run/ospfd@blue.sock", Some(1), true)
    );
    bind_v3(&mut all, &Some("red".to_string()));
    assert_eq!((all[2].v2, all[2].v3), (None, true));
}

#[test]
fn an_interface_is_registered_once() {
    let io = |sw_if_index: u32| IoInterface {
        name: format!("eth{sw_if_index}"),
        sw_if_index,
        kernel_ifindex: 0,
        address: 0,
        mac_address: [0; 6],
        outer_vlan_id: None,
        inner_vlan_id: None,
    };
    let mut all: Vec<IoInterface> = Vec::new();
    extend_interfaces(&mut all, &vec![io(1), io(2)]);
    extend_interfaces(&mut all, &vec![io(2), io(3)]);
    let indices: Vec<u32> = all.iter().map(|i| i.sw_if_index).collect();
    assert_eq!(indices, vec![1, 2, 3]);
}

#[test]
fn distances_fall_back_to_the_common_one() {
    let mut c = config(Vec::new());
    assert_eq!(c.admin_distance_for(OspfRouteKind::Intra), None);
    c.distance = Some(100);
    c.distance_external = Some(150);
    assert_eq!(c.admin_distance_for(OspfRouteKind::Intra), Some(100));
    assert_eq!(c.admin_distance_for(OspfRouteKind::Inter), Some(100));
    assert_eq!(c.admin_distance_for(OspfRouteKind::External1), Some(150));
    assert_eq!(c.admin_distance_for(OspfRouteKind::External2), Some(150));
}
