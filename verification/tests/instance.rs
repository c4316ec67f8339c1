use ospfd::config::{
    AreaConfig, AreaType, OspfDaemonConfig, OspfInterfaceConfig, ParsedSummaryAddress,
    RedistributeConfig, RedistributeSource, RouteMap,
};
use ospfd::instance::originate::{evaluate_route_map, External};
use ospfd::instance::OspfInstance;
use ospfd::packet::auth::AuthKey;
use ospfd::packet::dd::{DbDescPacket, DD_FLAG_M, DD_FLAG_MS};
use ospfd::packet::hello::OspfOptions;
use ospfd::packet::lsa::{
    AsExternalLsa, Lsa, LsaBody, LsaHeader, LsaType, NetworkLsa, RouterLink, RouterLinkType,
    RouterLsa, SummaryLsa, B_FLAG, E_FLAG,
};
use ospfd::packet::lsr::LsRequestPacket;
use ospfd::packet::lsu::LsUpdatePacket;
use ospfd::packet::{verify_ospf_checksum, OspfPacket, ALL_SPF_ROUTERS};
use ospfd::prefix::{mask_to_prefix_len_v4, prefix_covered_by, prefix_len_to_mask};
use ospfd::proto::interface::{InterfaceState, NetworkType};
use ospfd::proto::neighbor::{Neighbor, NeighborState};
use ospfd::proto::spf::{
    calculate_external_routes, calculate_inter_area_routes, calculate_spf_with_paths, NextHop,
    OspfRouteKind, RouterPath, SpfInterface, SpfNeighbor,
};

fn ip(a: u8, b: u8, c: u8, d: u8) -> u32 {
    u32::from_be_bytes([a, b, c, d])
}

fn interface(name: &str, address: u32, network_type: &str) -> OspfInterfaceConfig {
    OspfInterfaceConfig {
        name: name.to_string(),
        address,
        prefix_len: 24,
        area_id: 0,
        cost: 10,
        passive: false,
        network_type: network_type.to_string(),
        hello_interval: 10,
        dead_interval: 40,
        retransmit_interval: 5,
        priority: 1,
        auth_key: AuthKey::Null,
        static_neighbors: Vec::new(),
    }
}

fn config(router_id: u32, interfaces: Vec<OspfInterfaceConfig>) -> OspfDaemonConfig {
    OspfDaemonConfig {
        vrf_name: None,
        table_id_v4: 0,
        router_id,
        reference_bandwidth: 100,
        spf_delay_ms: 50,
        spf_holdtime_ms: 200,
        spf_max_holdtime_ms: 5000,
        interfaces,
        redistribute: Vec::new(),
        areas: Vec::new(),
        distance: None,
        distance_intra: None,
        distance_inter: None,
        distance_external: None,
        default_originate: false,
        default_originate_metric: 1,
        default_originate_metric_type: 2,
        summary_addresses: Vec::new(),
        route_maps: Vec::new(),
    }
}

fn connected(route_map: Option<&str>) -> RedistributeConfig {
    RedistributeConfig {
        source: RedistributeSource::Connected,
        metric: 20,
        metric_type: 2,
        route_map: route_map.map(str::to_string),
    }
}

fn external(prefix: u32, mask: u32) -> External {
    External { prefix, mask, matched: Vec::new() }
}

#[test]
fn test_prefix_len_to_mask() {
    assert_eq!(prefix_len_to_mask(24), ip(255, 255, 255, 0));
    assert_eq!(prefix_len_to_mask(30), ip(255, 255, 255, 252));
    assert_eq!(prefix_len_to_mask(32), ip(255, 255, 255, 255));
    assert_eq!(prefix_len_to_mask(16), ip(255, 255, 0, 0));
    assert_eq!(prefix_len_to_mask(0), 0);
}

#[test]
fn test_build_hello() {
    let config = config(ip(1, 1, 1, 1), vec![interface("wan", ip(10, 0, 0, 1), "broadcast")]);
    let instance = OspfInstance::new(&config);
    assert_eq!(instance.interfaces.len(), 1);

    let hello_pkt = instance.build_hello(&instance.interfaces[0]);
    let encoded = hello_pkt.encode();
    assert!(verify_ospf_checksum(&encoded));

    match hello_pkt {
        OspfPacket::Hello(header, hello) => {
            assert_eq!(header.router_id, ip(1, 1, 1, 1));
            assert_eq!(hello.hello_interval, 10);
            assert_eq!(hello.router_dead_interval, 40);
        }
        _ => panic!("expected Hello"),
    }
}

fn empty_dd(flags: u8, seq: u32) -> DbDescPacket {
    DbDescPacket {
        interface_mtu: 1500,
        options: OspfOptions::standard(),
        flags,
        dd_sequence_number: seq,
        lsa_headers: Vec::new(),
    }
}

fn peer_of(instance: &OspfInstance) -> &Neighbor {
    &instance.interfaces[0].neighbors[0]
}

#[test]
fn dd_master_defers_exchange_done_until_own_dd_sent() {
    // The higher router id makes us the master.
    let config = config(ip(10, 0, 0, 2), vec![interface("wan", ip(10, 0, 0, 2), "broadcast")]);
    let mut instance = OspfInstance::new(&config);
    instance.interfaces[0].state = InterfaceState::DR;
    instance.interfaces[0].dr = ip(10, 0, 0, 2);

    let peer_rid = ip(10, 0, 0, 1);
    let peer_addr = ip(10, 0, 0, 1);
    let mut neighbor = Neighbor::new(peer_rid, peer_addr, 0);
    neighbor.state = NeighborState::ExStart;
    neighbor.dd_seq_number = 0x8000_0001;
    neighbor.priority = 1;
    instance.interfaces[0].neighbors.push(neighbor);

    instance.originate_router_lsa(0);
    assert!(
        !instance.areas[0].lsdb.all_headers(0).is_empty(),
        "precondition: area LSDB must not be empty"
    );

    let mut responses = Vec::new();
    instance.process_dd(0, peer_addr, peer_rid, &empty_dd(0, 0x8000_0001), 0, &mut responses);

    let ns = peer_of(&instance);
    assert_eq!(
        ns.state,
        NeighborState::Exchange,
        "master must stay in Exchange until its own LSDB has been described"
    );
    assert!(ns.is_master, "we have the higher router-id, so we are master");
    assert!(ns.sent_m_clear, "build_dd should have fired once, emitting our M=0 final DD");

    let response_dd = responses
        .iter()
        .find_map(|(_sw, _dst, pkt)| match pkt {
            OspfPacket::DatabaseDescription(_h, d) => Some(d),
            _ => None,
        })
        .expect("process_dd must emit a DD response to peer");
    assert!(
        !response_dd.lsa_headers.is_empty(),
        "our content DD must carry at least our Router-LSA header"
    );
    assert!((response_dd.flags & DD_FLAG_MS) != 0, "master DDs have MS=1");

    let next_seq = peer_of(&instance).dd_seq_number;
    let mut responses2 = Vec::new();
    instance.process_dd(0, peer_addr, peer_rid, &empty_dd(0, next_seq), 0, &mut responses2);
    let final_state = peer_of(&instance).state;
    assert!(
        final_state.reached(NeighborState::Loading),
        "second peer DD with M=0 should finally trigger ExchangeDone; got {final_state:?}"
    );
}

#[test]
fn p2mp_router_lsa_emits_per_neighbor_host_links() {
    let mut p2mp0 = interface("p2mp0", ip(10, 0, 0, 1), "point-to-multipoint");
    p2mp0.hello_interval = 30;
    p2mp0.dead_interval = 120;
    let mut instance = OspfInstance::new(&config(ip(1, 1, 1, 1), vec![p2mp0]));
    assert_eq!(instance.interfaces[0].network_type, NetworkType::PointToMultipoint);

    for (rid, addr) in
        [(ip(2, 2, 2, 2), ip(10, 0, 0, 2)), (ip(3, 3, 3, 3), ip(10, 0, 0, 3))]
    {
        let mut n = Neighbor::new(rid, addr, 0);
        n.state = NeighborState::Full;
        instance.interfaces[0].neighbors.push(n);
    }
    instance.interfaces[0].state = InterfaceState::PointToPoint;

    let lsas = instance.originate_router_lsas(0);
    assert_eq!(lsas.len(), 1);
    let LsaBody::Router(rlsa) = &lsas[0].1.body else {
        panic!("expected Router-LSA");
    };
    let p2p_links: Vec<_> =
        rlsa.links.iter().filter(|l| l.link_type == RouterLinkType::PointToPoint).collect();
    assert_eq!(p2p_links.len(), 2, "two P2P link entries (one per Full peer)");
    let stubs: Vec<_> =
        rlsa.links.iter().filter(|l| l.link_type == RouterLinkType::StubNetwork).collect();
    assert_eq!(stubs.len(), 1, "one host stub for our own /32");
    assert_eq!(stubs[0].link_id, ip(10, 0, 0, 1));
    assert_eq!(stubs[0].link_data, ip(255, 255, 255, 255));
}

#[test]
fn router_lsa_sets_e_flag_when_redistribute_configured() {
    let mut config =
        config(ip(10, 100, 0, 18), vec![interface("lan.110", ip(192, 168, 37, 5), "broadcast")]);
    config.redistribute = vec![connected(None)];
    let mut instance = OspfInstance::new(&config);
    instance.interfaces[0].state = InterfaceState::Waiting;

    let lsas = instance.originate_router_lsas(0);
    assert!(!lsas.is_empty(), "should originate at least one Router-LSA");
    for (_, lsa) in &lsas {
        let LsaBody::Router(rlsa) = &lsa.body else {
            panic!("expected Router-LSA");
        };
        assert!(
            rlsa.flags & E_FLAG != 0,
            "E flag must be set when redistribute is configured (flags=0x{:02x})",
            rlsa.flags,
        );
        assert!(
            rlsa.flags & B_FLAG == 0,
            "B flag must NOT be set on a single-area instance (flags=0x{:02x})",
            rlsa.flags,
        );
    }

    config.redistribute.clear();
    let _ = instance.reload_config(&config, 0);
    let lsas = instance.originate_router_lsas(0);
    for (_, lsa) in &lsas {
        let LsaBody::Router(rlsa) = &lsa.body else {
            panic!("expected Router-LSA");
        };
        assert!(
            rlsa.flags & E_FLAG == 0,
            "E flag must clear when redistribute drops to empty (flags=0x{:02x})",
            rlsa.flags,
        );
    }
}

#[test]
fn dd_paging_splits_large_lsdb_across_multiple_dds() {
    let mut config =
        config(ip(2, 2, 2, 2), vec![interface("wan", ip(10, 0, 0, 2), "broadcast")]);
    config.redistribute = vec![connected(None)];
    let mut instance = OspfInstance::new(&config);
    let externals: Vec<External> =
        (0..150u8).map(|i| external(ip(100, 0, i, 0), ip(255, 255, 255, 0))).collect();
    instance.originate_external_lsas(&config.redistribute, &externals, &vec![], 0);
    let lsdb_size = instance.as_external_lsdb.all_headers(0).len();
    assert_eq!(lsdb_size, 150);

    let peer_rid = ip(1, 1, 1, 1);
    let peer_addr = ip(10, 0, 0, 1);
    let mut neighbor = Neighbor::new(peer_rid, peer_addr, 0);
    neighbor.state = NeighborState::ExStart;
    neighbor.dd_seq_number = 0x8000_0001;
    instance.interfaces[0].neighbors.push(neighbor);
    instance.interfaces[0].state = InterfaceState::DR;

    let mut responses = Vec::new();
    instance.process_dd(0, peer_addr, peer_rid, &empty_dd(0, 0x8000_0001), 0, &mut responses);

    let first_dd = responses
        .iter()
        .find_map(|(_, _, p)| match p {
            OspfPacket::DatabaseDescription(_, d) => Some(d),
            _ => None,
        })
        .expect("first DD should have been emitted");
    assert!(first_dd.has_more(), "first DD must have M=1 — more chunks remain");
    assert_eq!(first_dd.lsa_headers.len(), 60);
    assert!(
        !peer_of(&instance).sent_m_clear,
        "sent_m_clear must NOT be true after the first chunk"
    );
    assert_eq!(
        peer_of(&instance).db_summary_list.len(),
        90,
        "queue should have 150 - 60 = 90 headers remaining"
    );

    let mut total_headers_sent = first_dd.lsa_headers.len();
    let mut iterations = 0;
    while !peer_of(&instance).db_summary_list.is_empty() || !peer_of(&instance).sent_m_clear {
        iterations += 1;
        assert!(iterations < 10, "should converge in well under 10 ticks");
        let next_seq = peer_of(&instance).dd_seq_number;
        let still_more = !peer_of(&instance).db_summary_list.is_empty();
        let peer_flags = if still_more { DD_FLAG_M } else { 0 };
        let mut r = Vec::new();
        instance.process_dd(0, peer_addr, peer_rid, &empty_dd(peer_flags, next_seq), 0, &mut r);
        for (_, _, p) in &r {
            if let OspfPacket::DatabaseDescription(_, d) = p {
                total_headers_sent += d.lsa_headers.len();
            }
        }
    }
    assert_eq!(
        total_headers_sent, 150,
        "all 150 LSDB headers must reach the wire across multiple DDs"
    );
    assert!(
        peer_of(&instance).sent_m_clear,
        "after queue drain, sent_m_clear must be true so peer M=0 ends Exchange"
    );
}

fn alive_count(inst: &OspfInstance) -> usize {
    inst.as_external_lsdb
        .all_entries()
        .iter()
        .filter(|e| e.lsa.header.advertising_router == inst.router_id && !e.is_max_age(0))
        .count()
}

fn max_age_count(inst: &OspfInstance) -> usize {
    inst.as_external_lsdb
        .all_entries()
        .iter()
        .filter(|e| e.lsa.header.advertising_router == inst.router_id && e.is_max_age(0))
        .count()
}

#[test]
fn external_lsas_originated_from_input_set_and_flushed_on_shrink() {
    let mut config = config(ip(1, 1, 1, 1), Vec::new());
    config.redistribute = vec![connected(None)];
    let mut instance = OspfInstance::new(&config);

    let three = vec![
        external(ip(10, 1, 0, 0), ip(255, 255, 0, 0)),
        external(ip(10, 2, 0, 0), ip(255, 255, 0, 0)),
        external(ip(10, 3, 0, 0), ip(255, 255, 0, 0)),
    ];
    instance.originate_external_lsas(&config.redistribute, &three, &vec![], 0);
    assert_eq!(alive_count(&instance), 3, "three externals alive");
    assert_eq!(max_age_count(&instance), 0);

    // Shrink to one: the other two are withdrawn.
    let one = vec![external(ip(10, 1, 0, 0), ip(255, 255, 0, 0))];
    instance.originate_external_lsas(&config.redistribute, &one, &vec![], 0);
    assert_eq!(alive_count(&instance), 1);
    assert_eq!(max_age_count(&instance), 2);

    // None: everything is withdrawn.
    instance.originate_external_lsas(&config.redistribute, &vec![], &vec![], 0);
    assert_eq!(alive_count(&instance), 0);
    assert_eq!(max_age_count(&instance), 3);
}

#[test]
fn external_components_inside_summary_are_suppressed() {
    let mut config = config(ip(1, 1, 1, 1), Vec::new());
    config.redistribute = vec![connected(None)];
    let mut instance = OspfInstance::new(&config);

    let summaries = vec![ParsedSummaryAddress {
        prefix: ip(10, 0, 0, 0),
        prefix_len: 8,
        no_advertise: false,
        tag: 0,
        metric: 100,
        metric_type: 2,
    }];
    let externals = vec![
        external(ip(10, 1, 0, 0), ip(255, 255, 0, 0)),
        external(ip(10, 2, 0, 0), ip(255, 255, 0, 0)),
        external(ip(192, 168, 1, 0), ip(255, 255, 255, 0)),
    ];
    let result = instance.originate_external_lsas(&config.redistribute, &externals, &summaries, 0);
    assert_eq!(result.len(), 1, "only the non-covered prefix should be emitted");
    assert_eq!(result[0].header.link_state_id, ip(192, 168, 1, 0));

    let alive: Vec<_> = instance
        .as_external_lsdb
        .all_entries()
        .iter()
        .filter(|e| e.lsa.header.advertising_router == config.router_id && !e.is_max_age(0))
        .collect();
    assert_eq!(alive.len(), 1);
    assert_eq!(alive[0].lsa.key().link_state_id, ip(192, 168, 1, 0));
}

#[test]
fn prefix_covered_by_handles_edge_cases() {
    // Default (0/0) covers everything.
    assert!(prefix_covered_by(ip(8, 8, 8, 8), 0, 0));
    // /32 only matches itself.
    assert!(prefix_covered_by(ip(10, 0, 0, 1), ip(10, 0, 0, 1), 32));
    assert!(!prefix_covered_by(ip(10, 0, 0, 2), ip(10, 0, 0, 1), 32));
    // /24 covers all hosts in subnet.
    assert!(prefix_covered_by(ip(10, 0, 0, 100), ip(10, 0, 0, 0), 24));
    // Non-matching higher bits.
    assert!(!prefix_covered_by(ip(11, 0, 0, 0), ip(10, 0, 0, 0), 8));
}

#[test]
fn route_map_filters_externals_in_originate() {
    // The first statement permits 10.0.0.0/24, the second denies everything.
    let matched = |prefix: u32| vec![prefix == ip(10, 0, 0, 0), true];
    let mut config = config(ip(1, 1, 1, 1), Vec::new());
    config.redistribute = vec![connected(Some("edge-out"))];
    config.route_maps = vec![RouteMap { name: "edge-out".into(), permits: vec![true, false] }];
    let mut instance = OspfInstance::new(&config);

    let externals: Vec<External> = [ip(10, 0, 0, 0), ip(192, 168, 1, 0)]
        .iter()
        .map(|p| External { prefix: *p, mask: ip(255, 255, 255, 0), matched: matched(*p) })
        .collect();
    let lsas = instance.originate_external_lsas(&config.redistribute, &externals, &vec![], 0);
    assert_eq!(lsas.len(), 1);
    assert_eq!(lsas[0].header.link_state_id, ip(10, 0, 0, 0));
}

#[test]
fn unknown_route_map_name_is_treated_as_deny() {
    let mut config = config(ip(1, 1, 1, 1), Vec::new());
    config.redistribute = vec![connected(Some("does-not-exist"))];
    let mut instance = OspfInstance::new(&config);
    let externals = vec![external(ip(10, 0, 0, 0), ip(255, 255, 255, 0))];
    let lsas = instance.originate_external_lsas(&config.redistribute, &externals, &vec![], 0);
    assert!(lsas.is_empty());
}

#[test]
fn evaluate_route_map_default_deny_on_no_match() {
    // One statement permits what lies in 23.0.0.0/8.
    let map = RouteMap { name: "only-23".into(), permits: vec![true] };
    let matched = |prefix: u32| vec![prefix_covered_by(prefix, ip(23, 0, 0, 0), 8)];
    assert!(evaluate_route_map(&map, &matched(ip(23, 1, 0, 0))));
    assert!(!evaluate_route_map(&map, &matched(ip(10, 0, 0, 0))));
}

#[test]
fn mask_to_prefix_len_basic() {
    assert_eq!(mask_to_prefix_len_v4(ip(255, 255, 255, 0)), 24);
    assert_eq!(mask_to_prefix_len_v4(ip(255, 0, 0, 0)), 8);
    assert_eq!(mask_to_prefix_len_v4(0), 0);
    assert_eq!(mask_to_prefix_len_v4(ip(255, 255, 255, 255)), 32);
}

fn lsa(ls_type: LsaType, link_state_id: u32, advertising_router: u32, body: LsaBody) -> Lsa {
    Lsa {
        header: LsaHeader {
            ls_age: 0,
            options: 2,
            ls_type,
            link_state_id,
            advertising_router,
            ls_sequence_number: 1,
            ls_checksum: 0,
            length: 0,
        },
        body,
    }
}

fn router_lsa(id: u32, links: Vec<RouterLink>) -> Lsa {
    lsa(LsaType::Router, id, id, LsaBody::Router(RouterLsa { flags: 0, links }))
}

fn link(link_type: RouterLinkType, link_id: u32, link_data: u32, metric: u16) -> RouterLink {
    RouterLink { link_id, link_data, link_type, num_tos: 0, metric }
}

/// Two routers on the network 10.0.0.0/24, and a third behind a point-to-point link of the second.
fn small_area() -> Vec<Lsa> {
    let net = ip(10, 0, 0, 2);
    vec![
        router_lsa(1, vec![link(RouterLinkType::TransitNetwork, net, ip(10, 0, 0, 1), 10)]),
        router_lsa(
            2,
            vec![
                link(RouterLinkType::TransitNetwork, net, ip(10, 0, 0, 2), 5),
                link(RouterLinkType::PointToPoint, 3, 0, 7),
                link(RouterLinkType::StubNetwork, ip(20, 0, 0, 0), ip(255, 255, 0, 0), 3),
            ],
        ),
        router_lsa(
            3,
            vec![
                link(RouterLinkType::PointToPoint, 2, 0, 7),
                link(RouterLinkType::StubNetwork, ip(20, 0, 0, 0), ip(255, 255, 0, 0), 1),
                link(RouterLinkType::StubNetwork, ip(30, 0, 0, 0), ip(255, 0, 0, 0), 1),
            ],
        ),
        // Not connected: nobody names it.
        router_lsa(
            4,
            vec![
                link(RouterLinkType::PointToPoint, 2, 0, 1),
                link(RouterLinkType::StubNetwork, ip(40, 0, 0, 0), ip(255, 0, 0, 0), 1),
            ],
        ),
        lsa(
            LsaType::Network,
            net,
            2,
            LsaBody::Network(NetworkLsa {
                network_mask: ip(255, 255, 255, 0),
                attached_routers: vec![1, 2],
            }),
        ),
    ]
}

#[test]
fn routes_follow_cheapest_paths() {
    let is = vec![SpfInterface {
        address: ip(10, 0, 0, 1),
        mask: ip(255, 255, 255, 0),
        sw_if_index: 9,
        cost: 10,
    }];
    let ns = vec![SpfNeighbor { router_id: 2, address: ip(10, 0, 0, 2), sw_if_index: 9 }];
    let (mut routes, paths) = calculate_spf_with_paths(1, &small_area(), &is, &ns);
    routes.sort_by_key(|r| r.prefix);
    let via = NextHop { address: ip(10, 0, 0, 2), sw_if_index: 9 };
    let seen: Vec<(u32, u8, u32, NextHop)> =
        routes.iter().map(|r| (r.prefix, r.prefix_len, r.cost, r.next_hop)).collect();
    assert_eq!(
        seen,
        vec![
            (ip(10, 0, 0, 0), 24, 10, NextHop { address: 0, sw_if_index: 9 }),
            (ip(20, 0, 0, 0), 16, 13, via),
            (ip(30, 0, 0, 0), 8, 18, via),
        ]
    );
    assert_eq!(
        paths,
        vec![
            RouterPath { router_id: 2, cost: 10, next_hop: via },
            RouterPath { router_id: 3, cost: 17, next_hop: via },
        ]
    );
    // A router without a Router-LSA has no routes.
    assert!(calculate_spf_with_paths(77, &small_area(), &is, &ns).0.is_empty());
}

#[test]
fn summaries_and_externals_go_by_their_router() {
    let next_hop = NextHop { address: 5, sw_if_index: 6 };
    let paths = vec![RouterPath { router_id: 2, cost: 10, next_hop }];
    let mask = ip(255, 255, 0, 0);
    let summary = |adv: u32, metric: u32| {
        lsa(
            LsaType::SummaryNetwork,
            ip(50, 1, 0, 0),
            adv,
            LsaBody::Summary(SummaryLsa { network_mask: mask, metric }),
        )
    };
    let r = calculate_inter_area_routes(&vec![summary(2, 4)], &paths);
    assert_eq!((r[0].prefix, r[0].prefix_len, r[0].cost), (ip(50, 1, 0, 0), 16, 14));
    assert_eq!(r[0].kind, OspfRouteKind::Inter);
    assert!(calculate_inter_area_routes(&vec![summary(3, 4)], &paths).is_empty());
    assert!(calculate_inter_area_routes(&vec![summary(2, 0xffffff)], &paths).is_empty());

    let ext = |type_2: bool| {
        lsa(
            LsaType::AsExternal,
            ip(60, 0, 0, 0),
            2,
            LsaBody::AsExternal(AsExternalLsa {
                network_mask: mask,
                metric_type_2: type_2,
                metric: 20,
                forwarding_address: 0,
                external_route_tag: 0,
            }),
        )
    };
    let one = calculate_external_routes(&vec![ext(false)], &paths);
    assert_eq!((one[0].cost, one[0].kind), (30, OspfRouteKind::External1));
    let two = calculate_external_routes(&vec![ext(true)], &paths);
    assert_eq!((two[0].cost, two[0].kind, two[0].next_hop), (20, OspfRouteKind::External2, next_hop));
}

#[test]
fn computing_routes_clears_the_schedule() {
    let config = config(1, vec![interface("wan", ip(10, 0, 0, 1), "broadcast")]);
    let mut instance = OspfInstance::new(&config);
    instance.schedule_spf(1_000);
    assert_eq!(instance.spf_due(), Some(1_050));
    let routes = instance.run_spf(1_050);
    assert!(routes.is_empty());
    assert_eq!(instance.spf_due(), None);
    assert_eq!(instance.spf_last_run, Some(1_050));
    // Too soon after the last run: held back.
    instance.schedule_spf(1_060);
    assert!(instance.spf_due().unwrap() > 1_110);
}

fn external_lsa(seq: i32) -> Lsa {
    let mut l = lsa(
        LsaType::AsExternal,
        ip(20, 0, 0, 0),
        ip(7, 7, 7, 7),
        LsaBody::AsExternal(AsExternalLsa {
            network_mask: ip(255, 0, 0, 0),
            metric_type_2: true,
            metric: 20,
            forwarding_address: 0,
            external_route_tag: 0,
        }),
    );
    l.header.ls_sequence_number = seq;
    l
}

#[test]
fn an_older_external_is_answered_with_ours() {
    let peer = ip(10, 0, 0, 2);
    let c = config(ip(1, 1, 1, 1), vec![interface("eth0", ip(10, 0, 0, 1), "point-to-point")]);
    let mut inst = OspfInstance::new(&c);
    inst.as_external_lsdb.install(external_lsa(9), 0);
    let mut out = Vec::new();
    let update = LsUpdatePacket { lsas: vec![external_lsa(8)] };
    inst.process_lsu(0, peer, ip(2, 2, 2, 2), &update, 0, &mut out);
    // No acknowledgment, no flooding: our copy goes back to the sender.
    assert_eq!(out.len(), 1);
    assert_eq!(out[0].1, peer);
    match &out[0].2 {
        OspfPacket::LinkStateUpdate(_, u) => {
            assert_eq!(u.lsas.len(), 1);
            assert_eq!(u.lsas[0].header.ls_sequence_number, 9);
            assert_eq!(u.lsas[0].header.ls_type, LsaType::AsExternal);
        }
        p => panic!("unexpected {p:?}"),
    }
    // The same instance again is acknowledged.
    out.clear();
    let update = LsUpdatePacket { lsas: vec![external_lsa(9)] };
    inst.process_lsu(0, peer, ip(2, 2, 2, 2), &update, 0, &mut out);
    assert!(matches!(&out[..], [(_, dst, OspfPacket::LinkStateAck(_, _))] if *dst == peer));
}

#[test]
fn externals_stay_out_of_stub_areas() {
    let peer = ip(10, 0, 0, 2);
    for (area_type, taken) in [(AreaType::Normal, 1), (AreaType::Stub, 0), (AreaType::Nssa, 0)] {
        let mut c =
            config(ip(1, 1, 1, 1), vec![interface("eth0", ip(10, 0, 0, 1), "point-to-point")]);
        c.interfaces[0].area_id = 7;
        c.areas = vec![AreaConfig { area_id: 7, area_type, default_cost: 1 }];
        let mut inst = OspfInstance::new(&c);
        let mut out = Vec::new();
        let update = LsUpdatePacket { lsas: vec![external_lsa(1)] };
        inst.process_lsu(0, peer, ip(2, 2, 2, 2), &update, 0, &mut out);
        assert_eq!(inst.as_external_lsdb.all_headers(0).len(), taken);
        assert_eq!(out.len(), taken);
    }
}

#[test]
fn flooding_skips_the_sender_and_the_deaf() {
    let names = ["a", "b", "c", "d"];
    let interfaces =
        names.iter().map(|n| interface(n, ip(10, 0, 0, 1), "point-to-point")).collect();
    let mut inst = OspfInstance::new(&config(ip(1, 1, 1, 1), interfaces));
    for (k, f) in inst.interfaces.iter_mut().enumerate() {
        f.sw_if_index = k as u32;
        f.state = InterfaceState::PointToPoint;
        let mut n = Neighbor::new(ip(2, 2, 2, k as u8), ip(10, 0, 0, 2), 0);
        n.state = NeighborState::Exchange;
        f.neighbors.push(n);
    }
    inst.interfaces[2].state = InterfaceState::Down;
    inst.interfaces[3].neighbors[0].state = NeighborState::ExStart;
    let mut out = Vec::new();
    inst.flood_lsas_to_others(0, ip(2, 2, 2, 0), &vec![external_lsa(1)], &mut out);
    assert_eq!(out.iter().map(|p| (p.0, p.1)).collect::<Vec<_>>(), vec![(1, ALL_SPF_ROUTERS)]);
    out.clear();
    inst.flood_lsas_to_others(usize::MAX, ip(2, 2, 2, 1), &vec![external_lsa(1)], &mut out);
    assert_eq!(out.iter().map(|p| p.0).collect::<Vec<_>>(), vec![0]);
}

#[test]
fn requests_are_answered_all_or_not_at_all() {
    let peer = ip(2, 2, 2, 2);
    let mut inst = OspfInstance::new(&config(
        ip(1, 1, 1, 1),
        vec![interface("eth0", ip(10, 0, 0, 1), "point-to-point")],
    ));
    let mut n = Neighbor::new(peer, ip(10, 0, 0, 2), 0);
    n.state = NeighborState::Full;
    inst.interfaces[0].neighbors.push(n);
    inst.as_external_lsdb.install(external_lsa(3), 0);
    inst.areas[0].lsdb.install(router_lsa(9, Vec::new()), 0);
    let keys = [router_lsa(9, Vec::new()).key(), external_lsa(3).key()];
    let mut out = Vec::new();
    let request = LsRequestPacket { requests: keys.to_vec() };
    inst.process_lsr(0, ip(10, 0, 0, 2), peer, &request, 0, &mut out);
    match &out[..] {
        [(_, dst, OspfPacket::LinkStateUpdate(_, u))] => {
            assert_eq!(*dst, ip(10, 0, 0, 2));
            assert_eq!(u.lsas.iter().map(|l| l.key()).collect::<Vec<_>>(), keys);
        }
        o => panic!("unexpected {o:?}"),
    }
    assert_eq!(inst.interfaces[0].neighbors[0].state, NeighborState::Full);
    out.clear();
    let missing = router_lsa(8, Vec::new()).key();
    let request = LsRequestPacket { requests: vec![keys[0], missing] };
    inst.process_lsr(0, ip(10, 0, 0, 2), peer, &request, 0, &mut out);
    assert!(out.is_empty());
    assert_eq!(inst.interfaces[0].neighbors[0].state, NeighborState::ExStart);
}
