use ospfd::config::{OspfDaemonConfig, OspfInterfaceConfig, ParsedSummaryAddress};
use ospfd::control::collect::{handle_request, matches_ls_type};
use ospfd::control::collect_v3::{handle_request_v3, matches_ls_type_v3};
use ospfd::control::print::{prefix_from_mask, print_response};
use ospfd::control::reply::{
    is_v3_request, ControlRequest, ControlResponse, InstalledRoute, Route6NextHop, Route6Status,
    Routes6Reply,
};
use ospfd::instance::OspfInstance;
use ospfd::instance_v3::{InstanceV3, NetworkTypeV3};
use ospfd::io_v3::IoInterfaceV3;
use ospfd::packet::auth::AuthKey;
use ospfd::packet::lsa::LsaType;
use ospfd::packet_v3::LsaV3Type;
use ospfd::proto::interface::InterfaceState;
use ospfd::proto::neighbor::{Neighbor, NeighborState};

const NOW: u64 = 5_000_000;

fn ip(a: u8, b: u8, c: u8, d: u8) -> u32 {
    u32::from_be_bytes([a, b, c, d])
}

fn small_instance() -> OspfInstance {
    let config = OspfDaemonConfig {
        vrf_name: None,
        table_id_v4: 0,
        router_id: ip(1, 1, 1, 1),
        reference_bandwidth: 100,
        spf_delay_ms: 50,
        spf_holdtime_ms: 200,
        spf_max_holdtime_ms: 5000,
        interfaces: vec![OspfInterfaceConfig {
            name: "wan".to_string(),
            address: ip(10, 0, 0, 1),
            prefix_len: 24,
            area_id: 0,
            cost: 10,
            passive: false,
            network_type: "broadcast".to_string(),
            hello_interval: 10,
            dead_interval: 40,
            retransmit_interval: 5,
            priority: 1,
            auth_key: AuthKey::Null,
            static_neighbors: Vec::new(),
        }],
        redistribute: Vec::new(),
        areas: Vec::new(),
        distance: None,
        distance_intra: None,
        distance_inter: None,
        distance_external: None,
        default_originate: false,
        default_originate_metric: 1,
        default_originate_metric_type: 2,
        summary_addresses: vec![ParsedSummaryAddress {
            prefix: ip(10, 64, 0, 0),
            prefix_len: 10,
            no_advertise: true,
            tag: 7,
            metric: 20,
            metric_type: 2,
        }],
        route_maps: Vec::new(),
    };
    let mut instance = OspfInstance::new(&config);
    instance.interfaces[0].sw_if_index = 3;
    instance.interfaces[0].state = InterfaceState::DR;
    instance.originate_router_lsas(NOW);
    instance
}

fn shown(req: ControlRequest, installed: &Vec<InstalledRoute>) -> String {
    print_response(&handle_request(&req, &small_instance(), installed, NOW)).unwrap()
}

#[test]
fn status_is_printed_line_by_line() {
    let text = shown(ControlRequest::Status, &Vec::new());
    assert_eq!(
        text,
        "Router ID:             1.1.1.1\n\
         ABR:                   false\n\
         AS-External LSAs:      0\n\
         Installed routes:      0\n\
         \n\
         Areas:\n\
         \x20 0.0.0.0  LSAs=1    ifaces=1  full_neighbors=0\n\
         \n\
         Summary addresses:\n\
         \x20 10.64.0.0/10  metric=20 type=2 tag=7 no-advertise\n"
    );
}

#[test]
fn interfaces_are_printed_in_columns() {
    let text = shown(ControlRequest::Interfaces, &Vec::new());
    let lines: Vec<&str> = text.lines().collect();
    assert_eq!(
        lines[0],
        "Name         Address          Area         State          Cost Pri Hello Neighbors"
    );
    assert_eq!(
        lines[1],
        "wan          10.0.0.1/24      0.0.0.0      DR             10   1   10    0"
    );
    assert_eq!(lines.len(), 2);
}

#[test]
fn database_marks_our_own_lsas() {
    let all = shown(ControlRequest::Database { area: None, ls_type: None }, &Vec::new());
    let lines: Vec<&str> = all.lines().collect();
    assert_eq!(lines.len(), 2);
    assert!(lines[1].starts_with("0.0.0.0      "));
    assert!(lines[1].contains("0x80000001"));
    assert!(lines[1].ends_with(" (self)"));
    let other = ControlRequest::Database { area: Some("0.0.0.9".to_string()), ls_type: None };
    assert_eq!(shown(other, &Vec::new()), "LSDB is empty.\n");
}

#[test]
fn routes_are_printed_in_columns() {
    assert_eq!(shown(ControlRequest::Routes, &Vec::new()), "No OSPF routes installed.\n");
    let route = InstalledRoute {
        prefix: ip(10, 9, 0, 0),
        prefix_len: 16,
        next_hop: ip(10, 0, 0, 2),
        sw_if_index: 3,
        cost: 20,
    };
    let text = shown(ControlRequest::Routes, &vec![route]);
    assert_eq!(
        text,
        "Prefix               Next Hop         Cost   sw_if_index\n\
         10.9.0.0/16          10.0.0.2         20     3\n"
    );
}

#[test]
fn neighbors_show_the_time_that_is_left() {
    let mut instance = small_instance();
    assert_eq!(
        print_response(&handle_request(&ControlRequest::Neighbors, &instance, &Vec::new(), NOW))
            .unwrap(),
        "No neighbors.\n"
    );
    let mut n = Neighbor::new(ip(2, 2, 2, 2), ip(10, 0, 0, 2), NOW);
    n.state = NeighborState::Full;
    instance.interfaces[0].neighbors.push(n);
    let r = handle_request(&ControlRequest::Neighbors, &instance, &Vec::new(), NOW + 5000);
    let text = print_response(&r).unwrap();
    let lines: Vec<&str> = text.lines().collect();
    assert_eq!(lines.len(), 2);
    assert!(lines[1].starts_with("2.2.2.2          10.0.0.2         wan        Full       "));
    assert!(lines[1].ends_with(" 35s"));
}

#[test]
fn requests_go_to_their_version() {
    assert!(!is_v3_request(&ControlRequest::Routes));
    assert!(is_v3_request(&ControlRequest::Routes6));
    let wrong = handle_request(&ControlRequest::Status6, &small_instance(), &Vec::new(), NOW);
    assert!(matches!(wrong, ControlResponse::Error { .. }));
    assert!(print_response(&wrong).is_err());
}

#[test]
fn v3_replies_come_from_the_v3_instance() {
    let mut inst = InstanceV3::new(ip(3, 3, 3, 3));
    inst.add_interface(
        IoInterfaceV3 {
            name: "eth0".to_string(),
            sw_if_index: 1,
            kernel_ifindex: 1,
            link_local: (0xfe80 << 112) | 1,
            mac_address: [0; 6],
            outer_vlan_id: None,
            inner_vlan_id: None,
        },
        0,
        NetworkTypeV3::Broadcast,
        10,
        40,
        1,
        Vec::new(),
        NOW,
    );
    inst.originate_router_lsa();
    let text = print_response(&handle_request_v3(&ControlRequest::Status6, &inst, NOW)).unwrap();
    assert!(text.starts_with("Router ID:             3.3.3.3\n"));
    assert!(text.contains("LSAs=1 "));
    let db = ControlRequest::Database6 { area: None, ls_type: None };
    let text = print_response(&handle_request_v3(&db, &inst, NOW)).unwrap();
    assert_eq!(text.lines().count(), 2);
    let wrong = handle_request_v3(&ControlRequest::Status, &inst, NOW);
    assert!(matches!(wrong, ControlResponse::Error { .. }));
}

#[test]
fn ipv6_routes_list_all_their_next_hops() {
    let hop = |n: u32| Route6NextHop { address: format!("fe80::{n}"), sw_if_index: n };
    let reply = ControlResponse::Routes6(Routes6Reply {
        routes: vec![Route6Status {
            prefix: "2001:db8::".to_string(),
            prefix_len: 32,
            cost: 5,
            next_hops: vec![hop(1), hop(2)],
        }],
    });
    assert_eq!(
        print_response(&reply).unwrap(),
        "Prefix                                   Cost   Next Hops\n\
         2001:db8::/32                            5      fe80::1%1, fe80::2%2\n"
    );
    let none = ControlResponse::Routes6(Routes6Reply { routes: Vec::new() });
    assert_eq!(print_response(&none).unwrap(), "No OSPFv3 routes installed.\n");
}

#[test]
fn filters_name_lsa_types() {
    assert!(matches_ls_type(&LsaType::Router, "router"));
    assert!(!matches_ls_type(&LsaType::Router, "network"));
    assert!(matches_ls_type_v3(&LsaV3Type::Network, "network"));
    assert!(!matches_ls_type_v3(&LsaV3Type::Network, "router"));
}

#[test]
fn masks_are_shown_as_lengths() {
    assert_eq!(prefix_from_mask("255.255.255.0"), 24);
    assert_eq!(prefix_from_mask("255.255.255.255"), 32);
    assert_eq!(prefix_from_mask("0.0.0.0"), 0);
}
