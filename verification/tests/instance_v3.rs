use ospfd::area::AreaType;
use ospfd::config::{ParsedSummaryAddress6, RedistributeConfig, RedistributeSource, RouteMap};
use ospfd::instance_v3::originate::ExternalV6;
use ospfd::instance_v3::{
    InstanceV3, InterfaceStateV3, InterfaceV3, NeighborStateV3, NeighborV3, NetworkTypeV3,
    StaticNeighborV3,
};
use ospfd::io_v3::{IoInterfaceV3, RxPacketV3};
use ospfd::lsdb_v3::{LsaEntryV3, LsaKeyV3};
use ospfd::packet_v3::dd::DbDescV3Packet;
use ospfd::packet_v3::hello::HelloV3Packet;
use ospfd::packet_v3::lsa::{
    AsExternalLsaV3, InterAreaPrefixLsaV3, RouterLsaV3, FLAG_E, TYPE_POINT_TO_POINT,
};
use ospfd::packet_v3::lsu::{LsUpdateV3Packet, LsaV3Raw};
use ospfd::packet_v3::prefix::Ospfv3Prefix;
use ospfd::packet_v3::{
    LsaV3Header, LsaV3Type, Options, Ospfv3Header, Ospfv3PacketType, DD_V3_FLAG_I, DD_V3_FLAG_M,
    DD_V3_FLAG_MS, INITIAL_SEQUENCE_NUMBER, LSA_V3_HEADER_LEN, MAX_AGE, OSPFV3_HEADER_LEN,
};
use ospfd::prefix::prefix_covered_by_v6;
use ospfd::proto::spf::OspfRouteKind;

/// An hour and a little, so that what was never sent is long overdue.
const NOW: u64 = 4_000_000;

fn ip(a: u8, b: u8, c: u8, d: u8) -> u32 {
    u32::from_be_bytes([a, b, c, d])
}

/// An address by its leading 16-bit groups and its last one.
fn ip6(head: &[u16], last: u16) -> u128 {
    let mut a: u128 = 0;
    for (i, g) in head.iter().enumerate() {
        a |= (*g as u128) << (112 - 16 * i);
    }
    a | last as u128
}

fn test_io(name: &str, sw_if_index: u32) -> IoInterfaceV3 {
    IoInterfaceV3 {
        name: name.to_string(),
        sw_if_index,
        kernel_ifindex: sw_if_index,
        link_local: ip6(&[0xfe80], 1),
        mac_address: [0; 6],
        outer_vlan_id: None,
        inner_vlan_id: None,
    }
}

fn iface(inst: &InstanceV3, sw_if_index: u32) -> &InterfaceV3 {
    inst.interfaces.iter().find(|i| i.io.sw_if_index == sw_if_index).unwrap()
}

fn iface_mut(inst: &mut InstanceV3, sw_if_index: u32) -> &mut InterfaceV3 {
    inst.interfaces.iter_mut().find(|i| i.io.sw_if_index == sw_if_index).unwrap()
}

fn nbr(inst: &InstanceV3, sw_if_index: u32, router_id: u32) -> &NeighborV3 {
    iface(inst, sw_if_index).neighbors.iter().find(|n| n.router_id == router_id).unwrap()
}

fn nbr_mut(inst: &mut InstanceV3, sw_if_index: u32, router_id: u32) -> &mut NeighborV3 {
    iface_mut(inst, sw_if_index).neighbors.iter_mut().find(|n| n.router_id == router_id).unwrap()
}

fn with_interface(self_rid: u32, network_type: NetworkTypeV3, priority: u8) -> InstanceV3 {
    let mut inst = InstanceV3::new(self_rid);
    inst.add_interface(
        test_io("eth0", 1),
        0,
        network_type,
        10,
        40,
        priority,
        Vec::new(),
        NOW,
    );
    inst
}

fn inst_with_iface(self_rid: u32) -> InstanceV3 {
    with_interface(self_rid, NetworkTypeV3::Broadcast, 1)
}

#[test]
fn test_instance_creation() {
    let inst = inst_with_iface(ip(1, 1, 1, 1));
    assert_eq!(inst.interfaces.len(), 1);
    assert_eq!(iface(&inst, 1).state, InterfaceStateV3::Waiting);
}

#[test]
fn test_originate_inter_area_prefix_lsas_as_abr() {
    let self_rid = ip(1, 1, 1, 1);
    let mut inst = InstanceV3::new(self_rid);
    let area0 = 0;
    let area1 = ip(0, 0, 0, 1);
    let mut io0 = test_io("eth0", 1);
    io0.link_local = ip6(&[0xfe80], 1);
    let mut io1 = test_io("eth1", 2);
    io1.link_local = ip6(&[0xfe80], 2);
    let p0 = ip6(&[0x2001, 0xdb8, 0], 0);
    let p1 = ip6(&[0x2001, 0xdb8, 1], 0);
    inst.add_interface(io0, area0, NetworkTypeV3::PointToPoint, 10, 40, 1, vec![(p0, 64)], NOW);
    inst.add_interface(io1, area1, NetworkTypeV3::PointToPoint, 10, 40, 1, vec![(p1, 64)], NOW);
    assert!(inst.is_abr(), "should be ABR with backbone + area1");

    inst.originate_router_lsa();
    inst.originate_intra_area_prefix_lsas();
    inst.originate_inter_area_prefix_lsas();

    let mut area0_has_area1_prefix = false;
    let mut area1_has_area0_prefix = false;
    for entry in inst.lsdb.iter() {
        if entry.header.ls_type != LsaV3Type::InterAreaPrefix {
            continue;
        }
        if entry.header.advertising_router != self_rid {
            continue;
        }
        let body = &entry.raw[LSA_V3_HEADER_LEN..];
        let ia = InterAreaPrefixLsaV3::parse(body).unwrap();
        let addr = ia.prefix.address;
        if entry.area == Some(area0) && addr == p1 {
            area0_has_area1_prefix = true;
        }
        if entry.area == Some(area1) && addr == p0 {
            area1_has_area0_prefix = true;
        }
    }
    assert!(area0_has_area1_prefix, "area 0 should summarize area 1");
    assert!(area1_has_area0_prefix, "area 1 should summarize area 0");
}

fn connected(route_map: Option<&str>) -> RedistributeConfig {
    RedistributeConfig {
        source: RedistributeSource::Connected,
        metric: 20,
        metric_type: 2,
        route_map: route_map.map(|n| n.to_string()),
    }
}

fn route(prefix: u128, prefix_len: u8, matched: Vec<bool>) -> ExternalV6 {
    ExternalV6 { prefix, prefix_len, matched }
}

fn routes(prefixes: &[(u128, u8)]) -> Vec<ExternalV6> {
    prefixes.iter().map(|p| route(p.0, p.1, Vec::new())).collect()
}

#[test]
fn test_originate_external_lsas() {
    let self_rid = ip(1, 1, 1, 1);
    let mut inst = inst_with_iface(self_rid);
    inst.set_asbr(true);
    inst.redistribute = vec![connected(None)];

    let externals =
        vec![(ip6(&[0x2001, 0xdb8, 1], 0), 64u8), (ip6(&[0x2001, 0xdb8, 2], 0), 64u8)];
    inst.originate_external_lsas(routes(&externals), &vec![]);

    let type5: Vec<_> = inst
        .lsdb
        .iter()
        .iter()
        .filter(|e| {
            e.header.ls_type == LsaV3Type::AsExternal
                && e.header.advertising_router == self_rid
                && e.area.is_none()
        })
        .collect();
    assert_eq!(type5.len(), 2, "expected 2 self-originated Type 5 LSAs");

    let old_seq: i32 = type5[0].header.ls_sequence_number;
    let key = LsaKeyV3 {
        area: None,
        ls_type: LsaV3Type::AsExternal,
        link_state_id: type5[0].header.link_state_id,
        advertising_router: self_rid,
    };
    inst.originate_external_lsas(routes(&externals), &vec![]);
    let new_seq = inst.lsdb.get(&key).unwrap().header.ls_sequence_number;
    assert!(new_seq > old_seq, "sequence should bump on refresh");

    let rlsa_key = LsaKeyV3 {
        area: Some(0),
        ls_type: LsaV3Type::Router,
        link_state_id: 0,
        advertising_router: self_rid,
    };
    inst.originate_router_lsa();
    let rlsa = inst.lsdb.get(&rlsa_key).unwrap();
    let flags = rlsa.raw[LSA_V3_HEADER_LEN];
    assert!(flags & FLAG_E != 0, "E flag should be set when ASBR");
}

fn own_externals(inst: &InstanceV3, at_max_age: bool) -> usize {
    inst.lsdb
        .iter()
        .iter()
        .filter(|e| {
            e.header.ls_type == LsaV3Type::AsExternal
                && e.header.advertising_router == inst.router_id
                && (e.header.ls_age == MAX_AGE) == at_max_age
        })
        .count()
}

#[test]
fn test_external_lsa_flush_on_shrinking_set() {
    let mut inst = inst_with_iface(ip(1, 1, 1, 1));
    inst.set_asbr(true);
    inst.redistribute = vec![connected(None)];

    let three = vec![
        (ip6(&[0x2001, 0xdb8, 1], 0), 64u8),
        (ip6(&[0x2001, 0xdb8, 2], 0), 64u8),
        (ip6(&[0x2001, 0xdb8, 3], 0), 64u8),
    ];
    inst.originate_external_lsas(routes(&three), &vec![]);
    assert_eq!(own_externals(&inst, false), 3, "three externals should be alive");
    assert_eq!(own_externals(&inst, true), 0);

    let one = vec![(ip6(&[0x2001, 0xdb8, 1], 0), 64u8)];
    inst.originate_external_lsas(routes(&one), &vec![]);
    assert_eq!(own_externals(&inst, false), 1, "exactly one external should remain alive");
    assert_eq!(own_externals(&inst, true), 2, "two flushed externals should be MaxAge-marked");

    inst.originate_external_lsas(Vec::new(), &vec![]);
    assert_eq!(own_externals(&inst, false), 0);
    assert_eq!(own_externals(&inst, true), 3);
}

fn neighbor(router_id: u32, state: NeighborStateV3) -> NeighborV3 {
    NeighborV3 {
        router_id,
        interface_id: 5,
        link_local: ip6(&[0xfe80], router_id.to_be_bytes()[3] as u16),
        priority: 1,
        dr: 0,
        bdr: 0,
        state,
        last_hello: NOW,
        dd_master: false,
        dd_seq: 0,
        dd_summary_recv: Vec::new(),
        dd_summary_tx: Vec::new(),
        last_dd_tx: None,
        last_dd_sent: NOW - 3_600_000,
        request_list: Vec::new(),
        pending_acks: Vec::new(),
        pending_lsu: Vec::new(),
        lsr_pending: false,
        dd_response_pending: false,
        dd_send_final: false,
        dd_peer_done: false,
    }
}

fn add_neighbor(inst: &mut InstanceV3, sw_if_index: u32, router_id: u32, state: NeighborStateV3) {
    iface_mut(inst, sw_if_index).neighbors.push(neighbor(router_id, state));
}

#[test]
fn p2mp_v3_skips_election_and_emits_per_neighbor_links() {
    let self_rid = ip(1, 1, 1, 1);
    let mut inst = with_interface(self_rid, NetworkTypeV3::PointToMultipoint, 1);
    assert_eq!(
        iface(&inst, 1).state,
        InterfaceStateV3::PointToPoint,
        "P2MP starts in PointToPoint state, not Waiting"
    );

    for (rid, ll) in
        [(ip(2, 2, 2, 2), ip6(&[0xfe80], 2)), (ip(3, 3, 3, 3), ip6(&[0xfe80], 3))]
    {
        add_neighbor(&mut inst, 1, rid, NeighborStateV3::Full);
        nbr_mut(&mut inst, 1, rid).link_local = ll;
    }

    inst.originate_router_lsa();
    let key = LsaKeyV3 {
        area: Some(0),
        ls_type: LsaV3Type::Router,
        link_state_id: 0,
        advertising_router: self_rid,
    };
    let entry = inst.lsdb.get(&key).expect("self Router-LSA present");
    let lsa = RouterLsaV3::parse(&entry.raw[LSA_V3_HEADER_LEN..]).expect("parses");
    let p2p_count = lsa.links.iter().filter(|l| l.link_type == TYPE_POINT_TO_POINT).count();
    assert_eq!(
        p2p_count, 2,
        "P2MP Router-LSA should have one TYPE_POINT_TO_POINT link per Full peer"
    );
}

#[test]
fn dr_election_v3_incumbent_preserved_against_higher_priority_arrival() {
    let self_rid = ip(1, 1, 1, 1);
    let mut inst = with_interface(self_rid, NetworkTypeV3::Broadcast, 5);

    iface_mut(&mut inst, 1).dr_election(self_rid);
    assert_eq!(iface(&inst, 1).dr, self_rid, "alone on segment, we should be DR");

    let intruder = ip(2, 2, 2, 2);
    let mut n = neighbor(intruder, NeighborStateV3::TwoWay);
    n.interface_id = 99;
    n.priority = 250;
    n.last_dd_sent = NOW;
    iface_mut(&mut inst, 1).neighbors.push(n);
    iface_mut(&mut inst, 1).dr_election(self_rid);
    assert_eq!(
        iface(&inst, 1).dr,
        self_rid,
        "incumbent DR must NOT be displaced by higher-priority newcomer"
    );
    assert_eq!(iface(&inst, 1).bdr, intruder, "newcomer should become BDR (no other candidates)");
}

#[test]
fn external_components_inside_summary_v6_are_suppressed() {
    let self_rid = ip(1, 1, 1, 1);
    let mut inst = inst_with_iface(self_rid);
    inst.set_asbr(true);
    inst.redistribute = vec![connected(None)];

    let summaries = vec![ParsedSummaryAddress6 {
        prefix: ip6(&[0x2001, 0xdb8], 0),
        prefix_len: 32,
        no_advertise: false,
        tag: 0,
        metric: 100,
        metric_type: 2,
    }];
    let externals = vec![
        (ip6(&[0x2001, 0xdb8, 1], 0), 48u8),
        (ip6(&[0x2001, 0xdb8, 2], 0), 48u8),
        (ip6(&[0x2001, 0xdead], 0), 48u8),
    ];
    inst.originate_external_lsas(routes(&externals), &summaries);

    let alive: Vec<_> = inst
        .lsdb
        .iter()
        .iter()
        .filter(|e| {
            e.header.ls_type == LsaV3Type::AsExternal
                && e.header.advertising_router == self_rid
                && e.header.ls_age < MAX_AGE
        })
        .collect();
    assert_eq!(alive.len(), 1, "only the 2001:dead::/48 component should be present");
    assert_eq!(alive[0].header.link_state_id, ip(0, 0, 0, 1));
}

#[test]
fn a_route_map_filters_v6_externals() {
    let mut inst = inst_with_iface(ip(1, 1, 1, 1));
    inst.set_asbr(true);
    inst.route_maps = vec![
        RouteMap { name: "other".to_string(), permits: vec![true] },
        RouteMap { name: "edge-out".to_string(), permits: vec![false, true] },
    ];
    inst.redistribute = vec![connected(Some("edge-out"))];
    let permitted = ip6(&[0x2001, 0xdb8, 2], 0);
    let candidates = vec![
        route(ip6(&[0x2001, 0xdb8, 1], 0), 64, vec![true, true]),
        route(permitted, 64, vec![false, true]),
        route(ip6(&[0x2001, 0xdb8, 3], 0), 64, vec![false, false]),
    ];
    inst.originate_external_lsas(candidates, &vec![]);
    assert_eq!((own_externals(&inst, false), own_externals(&inst, true)), (1, 0));
    let key = LsaKeyV3 {
        area: None,
        ls_type: LsaV3Type::AsExternal,
        link_state_id: 1,
        advertising_router: ip(1, 1, 1, 1),
    };
    let mut body = Vec::new();
    AsExternalLsaV3::external(true, 20, permitted, 64, 0).encode(&mut body);
    assert_eq!(inst.lsdb.get(&key).unwrap().raw[LSA_V3_HEADER_LEN..], body[..]);
}

#[test]
fn an_unknown_route_map_announces_no_v6_externals() {
    let mut inst = inst_with_iface(ip(1, 1, 1, 1));
    inst.set_asbr(true);
    inst.route_maps = vec![RouteMap { name: "edge-out".to_string(), permits: vec![true] }];
    inst.redistribute = vec![connected(Some("edge-out"))];
    let candidates = || vec![route(ip6(&[0x2001, 0xdb8, 1], 0), 64, vec![true])];
    inst.originate_external_lsas(candidates(), &vec![]);
    assert_eq!((own_externals(&inst, false), own_externals(&inst, true)), (1, 0));
    inst.redistribute = vec![connected(Some("does-not-exist"))];
    inst.originate_external_lsas(candidates(), &vec![]);
    assert_eq!((own_externals(&inst, false), own_externals(&inst, true)), (0, 1));
}

#[test]
fn prefix_covered_by_v6_handles_edge_cases() {
    let cover = ip6(&[0x2001, 0xdb8], 0);
    // /0 covers everything.
    assert!(prefix_covered_by_v6(ip6(&[0x2001, 0xdb8, 1], 1), 0, 0));
    // /32 matches 2001:db8::/32.
    assert!(prefix_covered_by_v6(ip6(&[0x2001, 0xdb8, 1], 1), cover, 32));
    // Outside.
    assert!(!prefix_covered_by_v6(ip6(&[0x2001, 0xdead], 1), cover, 32));
    // /128 only matches itself.
    let host = ip6(&[0x2001, 0xdb8], 1);
    assert!(prefix_covered_by_v6(host, host, 128));
    assert!(!prefix_covered_by_v6(ip6(&[0x2001, 0xdb8], 2), host, 128));
}

#[test]
fn test_hello_tick_emits_packet() {
    let mut inst = inst_with_iface(ip(1, 1, 1, 1));
    let packets = inst.hello_tick(NOW);
    assert_eq!(packets.len(), 1);
    let hdr = Ospfv3Header::parse(&packets[0].data).unwrap();
    assert_eq!(hdr.packet_type, Ospfv3PacketType::Hello);
    assert_eq!(hdr.router_id, ip(1, 1, 1, 1));
}

fn packet(packet_type: Ospfv3PacketType, src_rid: u32, body: &[u8]) -> Vec<u8> {
    let mut hdr = Ospfv3Header::new(packet_type, src_rid, 0);
    hdr.packet_length = (OSPFV3_HEADER_LEN + body.len()) as u16;
    let mut data = Vec::new();
    hdr.encode(&mut data);
    data.extend_from_slice(body);
    data
}

fn receive(inst: &mut InstanceV3, src: u16, data: Vec<u8>) {
    inst.handle_rx(
        RxPacketV3 { sw_if_index: 1, src_addr: ip6(&[0xfe80], src), dst_addr: 0, data },
        NOW,
    )
    .unwrap();
}

fn peer_hello(neighbors: Vec<u32>) -> Vec<u8> {
    let hello = HelloV3Packet {
        interface_id: 5,
        router_priority: 1,
        options: Options::standard(),
        hello_interval: 10,
        router_dead_interval: 40,
        designated_router_id: 0,
        backup_designated_router_id: 0,
        neighbors,
    };
    let mut body = Vec::new();
    hello.encode(&mut body);
    packet(Ospfv3PacketType::Hello, ip(2, 2, 2, 2), &body)
}

#[test]
fn test_neighbor_discovery_one_way() {
    let mut inst = inst_with_iface(ip(1, 1, 1, 1));
    receive(&mut inst, 2, peer_hello(vec![]));
    assert_eq!(nbr(&inst, 1, ip(2, 2, 2, 2)).state, NeighborStateV3::Init);
}

#[test]
fn test_router_lsa_origination_empty() {
    let mut inst = inst_with_iface(ip(1, 1, 1, 1));
    inst.originate_router_lsa();
    assert_eq!(inst.lsdb.len(), 1);
    let hdr = inst.lsdb.headers()[0];
    assert_eq!(hdr.ls_type, LsaV3Type::Router);
    assert_eq!(hdr.advertising_router, ip(1, 1, 1, 1));
    assert_eq!(hdr.ls_sequence_number, INITIAL_SEQUENCE_NUMBER);
    inst.originate_router_lsa();
    let hdr = inst.lsdb.headers()[0];
    assert_eq!(hdr.ls_sequence_number, INITIAL_SEQUENCE_NUMBER.wrapping_add(1));
}

#[test]
fn test_neighbor_two_way_when_peer_lists_us() {
    let self_rid = ip(1, 1, 1, 1);
    let mut inst = inst_with_iface(self_rid);
    receive(&mut inst, 2, peer_hello(vec![self_rid]));
    // The higher router id becomes designated router, the lower its backup, and both form an
    // adjacency.
    assert_eq!(nbr(&inst, 1, ip(2, 2, 2, 2)).state, NeighborStateV3::ExStart);
    assert_eq!(iface(&inst, 1).dr, ip(2, 2, 2, 2));
    assert_eq!(iface(&inst, 1).bdr, ip(1, 1, 1, 1));
    assert_eq!(iface(&inst, 1).state, InterfaceStateV3::Backup);
}

#[test]
fn test_nssa_rejects_type5_lsa() {
    let self_rid = ip(1, 1, 1, 1);
    let area_id = ip(0, 0, 0, 10);
    let mut inst = InstanceV3::new(self_rid);
    inst.set_area_type(area_id, AreaType::Nssa);
    inst.add_interface(
        test_io("eth0", 1),
        area_id,
        NetworkTypeV3::Broadcast,
        10,
        40,
        1,
        Vec::new(),
        NOW,
    );

    let ext = AsExternalLsaV3 {
        metric_type_2: false,
        forwarding_present: false,
        tag_present: false,
        metric: 100,
        prefix: Ospfv3Prefix {
            prefix_length: 64,
            prefix_options: 0,
            prefix_or_metric: 0,
            address: ip6(&[0x2001, 0xdb8, 0xffff], 0),
        },
        referenced_ls_type: 0,
        forwarding_address: None,
        external_route_tag: None,
        referenced_link_state_id: None,
    };
    let mut body = Vec::new();
    ext.encode(&mut body);
    let header = LsaV3Header {
        ls_age: 0,
        ls_type: LsaV3Type::AsExternal,
        link_state_id: ip(0, 0, 0, 1),
        advertising_router: ip(2, 2, 2, 2),
        ls_sequence_number: INITIAL_SEQUENCE_NUMBER,
        ls_checksum: 0,
        length: (LSA_V3_HEADER_LEN + body.len()) as u16,
    };
    let mut raw = Vec::new();
    header.encode(&mut raw);
    raw.extend_from_slice(&body);

    let pkt = LsUpdateV3Packet { lsas: vec![LsaV3Raw { header, raw }] };
    inst.process_lsu(1, ip(2, 2, 2, 2), pkt);

    let key = LsaKeyV3 {
        area: None,
        ls_type: LsaV3Type::AsExternal,
        link_state_id: ip(0, 0, 0, 1),
        advertising_router: ip(2, 2, 2, 2),
    };
    assert!(
        inst.lsdb.get(&key).is_none(),
        "Type 5 LSA should have been rejected by NSSA area"
    );
}

fn dd_packet_bytes(src_rid: u32, flags: u8, seq: u32, headers: Vec<LsaV3Header>) -> Vec<u8> {
    let dd = DbDescV3Packet {
        options: Options::standard().0,
        interface_mtu: 1500,
        flags,
        dd_sequence_number: seq,
        lsa_headers: headers,
    };
    let mut body = Vec::new();
    dd.encode(&mut body);
    packet(Ospfv3PacketType::DatabaseDescription, src_rid, &body)
}

#[test]
fn test_dd_master_negotiation() {
    let self_rid = ip(2, 2, 2, 2);
    let peer = ip(1, 1, 1, 1);
    let mut inst = inst_with_iface(self_rid);
    inst.originate_router_lsa();

    add_neighbor(&mut inst, 1, peer, NeighborStateV3::ExStart);
    let our_seq = 42;
    nbr_mut(&mut inst, 1, peer).dd_seq = our_seq;

    receive(&mut inst, 1, dd_packet_bytes(peer, 0, our_seq, Vec::new()));
    assert_eq!(nbr(&inst, 1, peer).state, NeighborStateV3::Exchange);
    assert!(nbr(&inst, 1, peer).dd_master);
}

#[test]
fn dd_v3_master_defers_exchange_done_until_own_dd_sent() {
    let self_rid = ip(2, 2, 2, 2);
    let peer = ip(1, 1, 1, 1);
    let mut inst = inst_with_iface(self_rid);
    inst.originate_router_lsa();
    let our_lsdb_size = inst.lsdb.headers().len();
    assert!(our_lsdb_size > 0, "precondition: LSDB must have at least one header");

    add_neighbor(&mut inst, 1, peer, NeighborStateV3::ExStart);
    let our_seq = 42;
    nbr_mut(&mut inst, 1, peer).dd_seq = our_seq;

    receive(&mut inst, 1, dd_packet_bytes(peer, 0, our_seq, Vec::new()));
    {
        let n = nbr(&inst, 1, peer);
        assert_eq!(
            n.state,
            NeighborStateV3::Exchange,
            "master must stay in Exchange until its own LSDB has been sent"
        );
        assert!(n.dd_master, "we have higher RID, so master");
        assert!(n.dd_peer_done, "peer's M=0 should be remembered");
        assert_eq!(
            n.dd_summary_tx.len(),
            our_lsdb_size,
            "tx queue should hold our headers, ready to send"
        );
    }

    let pkts = inst.emit_pending_dds(NOW);
    assert!(!pkts.is_empty(), "emit_pending_dds must produce a content DD before finalising");
    let n = nbr(&inst, 1, peer);
    assert!(n.dd_summary_tx.is_empty(), "tx queue should be drained after build_dd");
    assert!(
        n.state.reached(NeighborStateV3::Loading),
        "with peer M=0 and our tx empty, must finalise to Loading or Full"
    );
}

#[test]
fn test_dd_slave_negotiation() {
    let self_rid = ip(1, 1, 1, 1);
    let peer = ip(2, 2, 2, 2);
    let mut inst = inst_with_iface(self_rid);
    inst.originate_router_lsa();
    add_neighbor(&mut inst, 1, peer, NeighborStateV3::ExStart);

    let peer_seq = 1234;
    let flags = DD_V3_FLAG_I | DD_V3_FLAG_M | DD_V3_FLAG_MS;
    receive(&mut inst, 2, dd_packet_bytes(peer, flags, peer_seq, Vec::new()));

    let n = nbr(&inst, 1, peer);
    assert_eq!(n.state, NeighborStateV3::Exchange);
    assert_eq!(n.dd_master, false);
    assert_eq!(n.dd_seq, peer_seq);
}

#[test]
fn test_loading_to_full_on_request_drain() {
    let self_rid = ip(1, 1, 1, 1);
    let peer = ip(2, 2, 2, 2);
    let mut inst = inst_with_iface(self_rid);
    add_neighbor(&mut inst, 1, peer, NeighborStateV3::Loading);

    let needed_header = LsaV3Header {
        ls_age: 0,
        ls_type: LsaV3Type::Router,
        link_state_id: 0,
        advertising_router: peer,
        ls_sequence_number: INITIAL_SEQUENCE_NUMBER,
        ls_checksum: 0,
        length: LSA_V3_HEADER_LEN as u16 + 4,
    };
    nbr_mut(&mut inst, 1, peer).request_list.push(needed_header);

    let mut raw = Vec::new();
    needed_header.encode(&mut raw);
    raw.extend_from_slice(&[0, 0, 0, 0]);
    let pkt = LsUpdateV3Packet { lsas: vec![LsaV3Raw { header: needed_header, raw }] };
    inst.process_lsu(1, peer, pkt);

    assert_eq!(nbr(&inst, 1, peer).state, NeighborStateV3::Full);
    assert!(nbr(&inst, 1, peer).request_list.is_empty());
}

#[test]
fn test_restart_seq_bumps_stale_self_lsa() {
    let self_rid = ip(2, 2, 2, 2);
    let peer = ip(1, 1, 1, 1);
    let mut inst = inst_with_iface(self_rid);
    inst.originate_router_lsa();
    add_neighbor(&mut inst, 1, peer, NeighborStateV3::ExStart);
    nbr_mut(&mut inst, 1, peer).dd_seq = 10;
    iface_mut(&mut inst, 1).needs_router_lsa_refresh = false;

    let stale_seq: i32 = 0x8000_0050u32 as i32;
    let stale_header = LsaV3Header {
        ls_age: 60,
        ls_type: LsaV3Type::Router,
        link_state_id: 0,
        advertising_router: self_rid,
        ls_sequence_number: stale_seq,
        ls_checksum: 0,
        length: 24,
    };
    receive(&mut inst, 1, dd_packet_bytes(peer, 0, 10, vec![stale_header]));

    let key = LsaKeyV3 {
        area: Some(0),
        ls_type: LsaV3Type::Router,
        link_state_id: 0,
        advertising_router: self_rid,
    };
    let bumped = inst.lsdb.get(&key).unwrap();
    assert_eq!(bumped.header.ls_sequence_number, stale_seq);
    assert!(iface(&inst, 1).needs_router_lsa_refresh);
}

#[test]
fn test_refresh_detects_link_local_change() {
    let mut inst = inst_with_iface(ip(1, 1, 1, 1));
    let new_ll = ip6(&[0xfe80], 0xfeed);
    let changed = inst.refresh_interface_state(1, Some(new_ll), Vec::new(), true);
    assert!(changed);
    assert_eq!(iface(&inst, 1).io.link_local, new_ll);
    assert!(iface(&inst, 1).needs_router_lsa_refresh);
}

#[test]
fn test_refresh_down_clears_neighbors() {
    let peer = ip(2, 2, 2, 2);
    let mut inst = inst_with_iface(ip(1, 1, 1, 1));
    iface_mut(&mut inst, 1).state = InterfaceStateV3::DR;
    add_neighbor(&mut inst, 1, peer, NeighborStateV3::Full);
    assert_eq!(iface(&inst, 1).neighbors.len(), 1);

    let ll = ip6(&[0xfe80], 1);
    let changed = inst.refresh_interface_state(1, Some(ll), Vec::new(), false);
    assert!(changed);
    assert_eq!(iface(&inst, 1).state, InterfaceStateV3::Down);
    assert!(iface(&inst, 1).neighbors.is_empty());
}

#[test]
fn test_refresh_up_transitions_to_waiting() {
    let mut inst = inst_with_iface(ip(1, 1, 1, 1));
    iface_mut(&mut inst, 1).state = InterfaceStateV3::Down;
    let ll = ip6(&[0xfe80], 1);
    let changed = inst.refresh_interface_state(1, Some(ll), Vec::new(), true);
    assert!(changed);
    assert_eq!(iface(&inst, 1).state, InterfaceStateV3::Waiting);
}

fn network_key(self_rid: u32) -> LsaKeyV3 {
    LsaKeyV3 {
        area: Some(0),
        ls_type: LsaV3Type::Network,
        link_state_id: 1,
        advertising_router: self_rid,
    }
}

#[test]
fn test_network_lsa_originated_when_dr_with_full_neighbor() {
    let self_rid = ip(1, 1, 1, 1);
    let mut inst = inst_with_iface(self_rid);
    iface_mut(&mut inst, 1).state = InterfaceStateV3::DR;
    add_neighbor(&mut inst, 1, ip(2, 2, 2, 2), NeighborStateV3::Full);

    inst.originate_network_lsas();

    let entry = inst.lsdb.get(&network_key(self_rid)).expect("Network-LSA not originated");
    // Body = 4-byte options + 2 routers × 4 bytes = 12 bytes
    assert_eq!(entry.raw.len(), LSA_V3_HEADER_LEN + 12);
}

#[test]
fn test_network_lsa_not_originated_without_full_neighbor() {
    let self_rid = ip(1, 1, 1, 1);
    let mut inst = inst_with_iface(self_rid);
    iface_mut(&mut inst, 1).state = InterfaceStateV3::DR;
    inst.originate_network_lsas();
    assert!(inst.lsdb.get(&network_key(self_rid)).is_none());
}

#[test]
fn test_intra_area_prefix_lsa_originated_from_router() {
    let self_rid = ip(1, 1, 1, 1);
    let mut inst = InstanceV3::new(self_rid);
    let prefixes = vec![(ip6(&[0x2001, 0xdb8, 0xcafe], 0), 64)];
    inst.add_interface(
        test_io("eth0", 1),
        0,
        NetworkTypeV3::Broadcast,
        10,
        40,
        1,
        prefixes,
        NOW,
    );
    inst.originate_intra_area_prefix_lsas();

    let key = LsaKeyV3 {
        area: Some(0),
        ls_type: LsaV3Type::IntraAreaPrefix,
        link_state_id: 0,
        advertising_router: self_rid,
    };
    assert!(inst.lsdb.get(&key).is_some());
}

#[test]
fn test_flood_lsa_split_horizon() {
    let peer_a = ip(2, 2, 2, 2);
    let peer_b = ip(3, 3, 3, 3);
    let mut inst = inst_with_iface(ip(1, 1, 1, 1));
    inst.add_interface(
        test_io("eth1", 2),
        0,
        NetworkTypeV3::Broadcast,
        10,
        40,
        1,
        Vec::new(),
        NOW,
    );
    add_neighbor(&mut inst, 1, peer_a, NeighborStateV3::Full);
    add_neighbor(&mut inst, 2, peer_b, NeighborStateV3::Full);

    let header = LsaV3Header {
        ls_age: 0,
        ls_type: LsaV3Type::Router,
        link_state_id: 0,
        advertising_router: ip(9, 9, 9, 9),
        ls_sequence_number: INITIAL_SEQUENCE_NUMBER,
        ls_checksum: 0,
        length: 24,
    };
    let mut raw = Vec::new();
    header.encode(&mut raw);
    raw.extend_from_slice(&[0, 0, 0, 0]);
    let entry = LsaEntryV3 { header, raw, area: Some(0) };

    inst.flood_lsa(&entry, Some((1, peer_a)));

    assert!(
        nbr(&inst, 1, peer_a).pending_lsu.is_empty(),
        "source neighbor must not receive the flood"
    );
    assert_eq!(
        nbr(&inst, 2, peer_b).pending_lsu.len(),
        1,
        "non-source neighbor should receive the flood"
    );
}

/// Two routers that are joined point to point, each with a prefix of its own: what the second one
/// stores becomes a route of the first.
#[test]
fn routes_reach_the_prefixes_of_a_peer() {
    let (a, b) = (ip(1, 1, 1, 1), ip(2, 2, 2, 2));
    let prefix = ip6(&[0x2001, 0xdb8, 7], 0);
    let mut far = with_interface(b, NetworkTypeV3::PointToPoint, 1);
    iface_mut(&mut far, 1).global_prefixes = vec![(prefix, 64)];
    add_neighbor(&mut far, 1, a, NeighborStateV3::Full);
    far.originate_router_lsa();
    far.originate_intra_area_prefix_lsas();

    let mut near = with_interface(a, NetworkTypeV3::PointToPoint, 1);
    add_neighbor(&mut near, 1, b, NeighborStateV3::Full);
    near.originate_router_lsa();
    assert!(near.run_spf().is_empty());
    for e in far.lsdb.iter() {
        near.lsdb.insert(e.duplicate());
    }
    let routes = near.run_spf();
    assert_eq!(routes.len(), 1);
    assert_eq!((routes[0].prefix, routes[0].prefix_len), (prefix, 64));
    assert_eq!(routes[0].kind, OspfRouteKind::Intra);
    assert_eq!(routes[0].next_hops, vec![(ip6(&[0xfe80], 2), 1)]);
}

fn update_of(ls_type: LsaV3Type) -> LsUpdateV3Packet {
    let header = LsaV3Header {
        ls_age: 1,
        ls_type,
        link_state_id: 1,
        advertising_router: ip(2, 2, 2, 2),
        ls_sequence_number: INITIAL_SEQUENCE_NUMBER,
        ls_checksum: 0,
        length: LSA_V3_HEADER_LEN as u16 + 4,
    };
    let mut raw = Vec::new();
    header.encode(&mut raw);
    raw.extend_from_slice(&[0; 4]);
    LsUpdateV3Packet { lsas: vec![LsaV3Raw { header, raw }] }
}

#[test]
fn only_externals_stay_out_of_stub_areas() {
    for (area_type, ls_type, taken) in [
        (AreaType::Normal, LsaV3Type::Nssa, 1),
        (AreaType::Stub, LsaV3Type::Nssa, 1),
        (AreaType::Nssa, LsaV3Type::Nssa, 1),
        (AreaType::Normal, LsaV3Type::AsExternal, 1),
        (AreaType::Stub, LsaV3Type::AsExternal, 0),
        (AreaType::Nssa, LsaV3Type::AsExternal, 0),
        (AreaType::Stub, LsaV3Type::Router, 1),
    ] {
        let mut inst = inst_with_iface(ip(1, 1, 1, 1));
        inst.set_area_type(0, area_type);
        inst.process_lsu(1, ip(2, 2, 2, 2), update_of(ls_type));
        assert_eq!(inst.lsdb.len(), taken, "{area_type:?} {ls_type:?}");
    }
}

#[test]
fn several_requests_are_served_by_one_refresh() {
    let me = ip(1, 1, 1, 1);
    let mut inst = inst_with_iface(me);
    inst.add_interface(
        test_io("eth1", 2),
        0,
        NetworkTypeV3::PointToPoint,
        10,
        40,
        1,
        Vec::new(),
        NOW,
    );
    let key = LsaKeyV3 {
        area: Some(0),
        ls_type: LsaV3Type::Router,
        link_state_id: 0,
        advertising_router: me,
    };
    iface_mut(&mut inst, 1).needs_router_lsa_refresh = true;
    iface_mut(&mut inst, 2).needs_router_lsa_refresh = true;
    inst.refresh_router_lsa_if_needed();
    let first = inst.lsdb.get(&key).unwrap().header.ls_sequence_number;
    assert!(inst.interfaces.iter().all(|i| !i.needs_router_lsa_refresh));
    inst.refresh_router_lsa_if_needed();
    assert_eq!(inst.lsdb.get(&key).unwrap().header.ls_sequence_number, first);
}

#[test]
fn a_lost_adjacency_asks_for_a_new_router_lsa() {
    let peer = ip(2, 2, 2, 2);
    for (state, asks) in [(NeighborStateV3::Full, true), (NeighborStateV3::TwoWay, false)] {
        let mut inst = with_interface(ip(1, 1, 1, 1), NetworkTypeV3::PointToPoint, 1);
        add_neighbor(&mut inst, 1, peer, state);
        iface_mut(&mut inst, 1).needs_router_lsa_refresh = false;
        inst.expire_neighbors(NOW + 39_999);
        assert_eq!(iface(&inst, 1).neighbors.len(), 1);
        assert!(!iface(&inst, 1).needs_router_lsa_refresh);
        inst.expire_neighbors(NOW + 40_000);
        assert!(iface(&inst, 1).neighbors.is_empty());
        assert_eq!(iface(&inst, 1).needs_router_lsa_refresh, asks);
    }

    // A Hello that no longer lists us takes the adjacency down.
    let mut inst = with_interface(ip(1, 1, 1, 1), NetworkTypeV3::PointToPoint, 1);
    add_neighbor(&mut inst, 1, peer, NeighborStateV3::Full);
    iface_mut(&mut inst, 1).needs_router_lsa_refresh = false;
    let hello = HelloV3Packet {
        interface_id: 5,
        router_priority: 1,
        options: Options::standard(),
        hello_interval: 10,
        router_dead_interval: 40,
        designated_router_id: 0,
        backup_designated_router_id: 0,
        neighbors: Vec::new(),
    };
    iface_mut(&mut inst, 1).process_hello(ip(1, 1, 1, 1), peer, ip6(&[0xfe80], 2), &hello, NOW);
    assert_eq!(nbr(&inst, 1, peer).state, NeighborStateV3::Init);
    assert!(iface(&inst, 1).needs_router_lsa_refresh);
}

#[test]
fn neighbors_are_set_on_non_broadcast_interfaces_only() {
    for (network_type, count) in [(NetworkTypeV3::NonBroadcast, 1), (NetworkTypeV3::Broadcast, 0)] {
        let mut inst = with_interface(ip(1, 1, 1, 1), network_type, 1);
        let peer = StaticNeighborV3 { link_local: ip6(&[0xfe80], 9), priority: 0 };
        inst.set_static_neighbors_v3(1, vec![peer]);
        assert_eq!(iface(&inst, 1).static_neighbors.len(), count);
    }
}

#[test]
fn a_border_router_of_three_areas_announces_every_prefix() {
    let me = ip(1, 1, 1, 1);
    let mut inst = InstanceV3::new(me);
    for area in 0..3u32 {
        let prefixes =
            (0..2).map(|k| (ip6(&[0x2001, 0xdb8, area as u16, k], 0), 64)).collect::<Vec<_>>();
        let kind = NetworkTypeV3::PointToPoint;
        inst.add_interface(test_io("eth", area + 1), area, kind, 10, 40, 1, prefixes, NOW);
    }
    inst.originate_router_lsa();
    inst.originate_intra_area_prefix_lsas();
    inst.originate_inter_area_prefix_lsas();
    for dest in 0..3u32 {
        let mut heard: Vec<u128> = inst
            .lsdb
            .iter()
            .iter()
            .filter(|e| e.header.ls_type == LsaV3Type::InterAreaPrefix && e.area == Some(dest))
            .map(|e| InterAreaPrefixLsaV3::parse(&e.raw[LSA_V3_HEADER_LEN..]).unwrap())
            .map(|l| l.prefix.address)
            .collect();
        heard.sort();
        let expected: Vec<u128> = (0..3u16)
            .filter(|a| *a as u32 != dest)
            .flat_map(|a| (0..2).map(move |k| ip6(&[0x2001, 0xdb8, a, k], 0)))
            .collect();
        assert_eq!(heard, expected, "area {dest}");
    }
}

#[test]
fn a_link_lsa_stays_on_its_link() {
    let sender = ip(2, 2, 2, 2);
    for (ls_type, beyond) in [(LsaV3Type::Link, 0), (LsaV3Type::Router, 1)] {
        let mut inst = with_interface(ip(1, 1, 1, 1), NetworkTypeV3::Broadcast, 1);
        let kind = NetworkTypeV3::PointToPoint;
        inst.add_interface(test_io("eth1", 2), 0, kind, 10, 40, 1, Vec::new(), NOW);
        add_neighbor(&mut inst, 1, sender, NeighborStateV3::Full);
        add_neighbor(&mut inst, 1, ip(3, 3, 3, 3), NeighborStateV3::Full);
        add_neighbor(&mut inst, 2, ip(4, 4, 4, 4), NeighborStateV3::Full);
        inst.process_lsu(1, sender, update_of(ls_type));
        assert!(nbr(&inst, 1, sender).pending_lsu.is_empty());
        assert_eq!(nbr(&inst, 1, ip(3, 3, 3, 3)).pending_lsu.len(), 1);
        assert_eq!(nbr(&inst, 2, ip(4, 4, 4, 4)).pending_lsu.len(), beyond);
    }
}
