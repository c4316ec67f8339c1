use ospfd::config::{
    Ospf6DaemonConfig, Ospf6InterfaceConfig, ParsedSummaryAddress6, RedistributeConfig,
    RedistributeSource, RouteMap,
};
use ospfd::daemon_v3::{SnapshotV3, SpfMark};
use ospfd::instance_v3::originate::ExternalV6;
use ospfd::instance_v3::step::{Effect, Event};
use ospfd::instance_v3::{InstanceV3, InterfaceStateV3, NeighborStateV3, NetworkTypeV3};
use ospfd::io_v3::{IoInterfaceV3, RxPacketV3, TxPacketV3};
use ospfd::packet_v3::{LsaV3Type, ALL_SPF_ROUTERS_V6, MAX_AGE};
use ospfd::proto::spf::OspfRouteKind;
use ospfd::spf_v3::SpfRouteV3;

const START: u64 = 4_000_000;

fn link_local(n: u128) -> u128 {
    (0xfe80 << 112) | n
}

fn net(n: u128) -> u128 {
    (0x2001_0db8 << 96) | (n << 80)
}

fn router(id: u32, prefixes: Vec<(u128, u8)>) -> InstanceV3 {
    let mut inst = InstanceV3::new(id);
    let io = IoInterfaceV3 {
        name: "eth0".to_string(),
        sw_if_index: 1,
        kernel_ifindex: id,
        link_local: link_local(id as u128),
        mac_address: [0; 6],
        outer_vlan_id: None,
        inner_vlan_id: None,
    };
    inst.add_interface(io, 0, NetworkTypeV3::PointToPoint, 10, 40, 1, prefixes, START);
    inst
}

struct Node {
    inst: InstanceV3,
    mark: Option<SpfMark>,
}

fn node(id: u32, prefixes: Vec<(u128, u8)>) -> Node {
    Node { inst: router(id, prefixes), mark: None }
}

impl Node {
    fn step(&mut self, event: Event, now: u64) -> Vec<Effect> {
        self.inst.step(&mut self.mark, event, now)
    }

    fn packets(&mut self, event: Event, now: u64) -> Vec<TxPacketV3> {
        self.step(event, now)
            .into_iter()
            .filter_map(|e| match e {
                Effect::Send(p) => Some(p),
                _ => None,
            })
            .collect()
    }

    fn take(&mut self, packets: Vec<TxPacketV3>, now: u64) {
        for p in packets {
            let rx = RxPacketV3 {
                sw_if_index: 1,
                src_addr: p.src_addr,
                dst_addr: p.dst_addr,
                data: p.data,
            };
            assert!(self.step(Event::Received(rx), now).is_empty());
        }
    }

    fn routes(&mut self, now: u64) -> Vec<SpfRouteV3> {
        match self.step(Event::SpfTick, now).pop() {
            Some(Effect::Push(rs)) => rs,
            e => panic!("unexpected {e:?}"),
        }
    }
}

/// Two routers on one link, each with its own event loop, for the given number of seconds.
fn talk(a: &mut Node, b: &mut Node, seconds: u64) -> u64 {
    let mut now = START;
    for _ in 0..seconds {
        now += 1000;
        let to_b = a.packets(Event::HelloTick, now);
        let to_a = b.packets(Event::HelloTick, now);
        b.take(to_b, now);
        a.take(to_a, now);
        a.step(Event::ExpireTick, now);
        b.step(Event::ExpireTick, now);
    }
    now
}

#[test]
fn two_v3_routers_become_adjacent_and_learn_routes() {
    let mut a = node(1, vec![(net(1), 64)]);
    let mut b = node(2, vec![(net(2), 64)]);
    let now = talk(&mut a, &mut b, 60);
    assert_eq!(a.inst.interfaces[0].neighbors[0].state, NeighborStateV3::Full);
    assert_eq!(b.inst.interfaces[0].neighbors[0].state, NeighborStateV3::Full);

    let learned = a.routes(now);
    let lan = learned.iter().find(|r| r.prefix == net(2)).unwrap();
    assert_eq!(lan.prefix_len, 64);
    assert_eq!(lan.kind, OspfRouteKind::Intra);
    assert_eq!(lan.next_hops, vec![(link_local(2), 1)]);

    // Nothing moved since, so nothing is computed.
    assert!(a.step(Event::SpfTick, now + 2000).is_empty());
    a.mark = None;
    assert_eq!(a.step(Event::SpfTick, now + 4000).len(), 1);
}

#[test]
fn v3_hellos_keep_to_their_interval() {
    let mut a = node(1, Vec::new());
    let first = a.packets(Event::HelloTick, START);
    assert_eq!(first.len(), 1);
    assert_eq!(first[0].dst_addr, ALL_SPF_ROUTERS_V6);
    assert_eq!(first[0].src_addr, link_local(1));
    assert!(a.packets(Event::HelloTick, START + 9000).is_empty());
    assert_eq!(a.packets(Event::HelloTick, START + 10_000).len(), 1);
}

#[test]
fn v3_silence_ends_an_adjacency() {
    let mut a = node(1, Vec::new());
    let mut b = node(2, Vec::new());
    let now = talk(&mut a, &mut b, 60);
    assert_eq!(a.inst.interfaces[0].neighbors.len(), 1);
    a.step(Event::ExpireTick, now + 39_000 - 10_000);
    assert_eq!(a.inst.interfaces[0].neighbors.len(), 1);
    a.step(Event::ExpireTick, now + 41_000);
    assert!(a.inst.interfaces[0].neighbors.is_empty());
}

#[test]
fn unreadable_v3_packets_are_reported() {
    let mut a = node(1, Vec::new());
    let rx = RxPacketV3 {
        sw_if_index: 1,
        src_addr: link_local(2),
        dst_addr: ALL_SPF_ROUTERS_V6,
        data: vec![2; 16],
    };
    let effects = a.step(Event::Received(rx), START);
    assert!(matches!(effects[..], [Effect::Unreadable(_)]));
}

fn snapshot(link_local: Option<u128>, up: bool) -> SnapshotV3 {
    SnapshotV3 { sw_if_index: 1, link_local, prefixes: Vec::new(), up }
}

#[test]
fn a_lost_link_tears_adjacencies_down() {
    let mut a = node(1, Vec::new());
    let mut b = node(2, Vec::new());
    let now = talk(&mut a, &mut b, 60);
    a.mark = Some(SpfMark { generation: 1, neighbors: 1 });
    let effects = a.step(Event::Refreshed(vec![snapshot(Some(link_local(1)), false)]), now);
    assert!(effects.is_empty());
    assert_eq!(a.inst.interfaces[0].state, InterfaceStateV3::Down);
    assert!(a.inst.interfaces[0].neighbors.is_empty());
    assert_eq!(a.mark, None);
    a.step(Event::Refreshed(vec![snapshot(Some(link_local(1)), true)]), now);
    assert_eq!(a.inst.interfaces[0].state, InterfaceStateV3::PointToPoint);
}

fn own_externals(inst: &InstanceV3, withdrawn: bool) -> usize {
    inst.lsdb
        .iter()
        .iter()
        .filter(|e| e.header.ls_type == LsaV3Type::AsExternal)
        .filter(|e| (e.header.ls_age == MAX_AGE) == withdrawn)
        .count()
}

fn connected(route_map: Option<&str>) -> RedistributeConfig {
    RedistributeConfig {
        source: RedistributeSource::Connected,
        metric: 20,
        metric_type: 2,
        route_map: route_map.map(|n| n.to_string()),
    }
}

fn routes(prefixes: &[u128]) -> Vec<ExternalV6> {
    prefixes
        .iter()
        .map(|p| ExternalV6 { prefix: *p, prefix_len: 64, matched: vec![true] })
        .collect()
}

#[test]
fn redistribution_follows_what_is_found() {
    let mut a = node(1, Vec::new());
    a.inst.redistribute = vec![connected(None)];
    a.inst.set_asbr(true);
    a.inst.summary_addresses = vec![ParsedSummaryAddress6 {
        prefix: net(0x100),
        prefix_len: 40,
        no_advertise: false,
        tag: 0,
        metric: 20,
        metric_type: 2,
    }];
    let effects = a.step(Event::Refreshed(Vec::new()), START);
    assert!(matches!(effects[..], [Effect::Discover]));
    a.step(Event::Discovered(routes(&[net(5), net(6), net(0x101)])), START);
    assert_eq!(own_externals(&a.inst, false), 2);
    a.step(Event::Discovered(routes(&[net(5)])), START);
    assert_eq!((own_externals(&a.inst, false), own_externals(&a.inst, true)), (1, 1));
}

fn configured(router_id: u32) -> Ospf6DaemonConfig {
    Ospf6DaemonConfig {
        vrf_name: None,
        table_id_v6: 0,
        router_id,
        reference_bandwidth: 100,
        interfaces: vec![Ospf6InterfaceConfig {
            name: "eth0".to_string(),
            area_id: 0,
            cost: 10,
            passive: false,
            network_type: "point-to-point".to_string(),
            hello_interval: 10,
            dead_interval: 40,
            retransmit_interval: 5,
            transmit_delay: 1,
            priority: 1,
            instance_id: 0,
            static_neighbors: Vec::new(),
        }],
        redistribute: Vec::new(),
        areas: Vec::new(),
        distance: None,
        default_originate: false,
        default_originate_metric: 1,
        default_originate_metric_type: 2,
        summary_addresses: Vec::new(),
        route_maps: Vec::new(),
    }
}

#[test]
fn v3_reload_applies_what_can_change_and_names_the_rest() {
    let mut a = node(1, Vec::new());
    assert!(matches!(a.step(Event::Reloaded(configured(1)), START)[..], [Effect::Applied(false)]));
    let mut new = configured(2);
    new.interfaces[0].hello_interval = 3;
    new.interfaces[0].area_id = 7;
    new.redistribute = vec![RedistributeConfig {
        source: RedistributeSource::Static,
        metric: 5,
        metric_type: 1,
        route_map: None,
    }];
    let effects = a.step(Event::Reloaded(new), START);
    let texts: Vec<String> = effects.iter().map(|e| format!("{e:?}")).collect();
    assert_eq!(
        texts,
        vec!["Restart(RouterId)", "Restart(Area(\"eth0\"))", "Applied(true)", "Discover"]
    );
    assert_eq!(a.inst.interfaces[0].hello_interval, 3);
    assert_eq!(a.inst.interfaces[0].area_id, 0);
    assert_eq!(a.inst.router_id, 1);
    assert_eq!(a.inst.redistribute.len(), 1);
    let rule = &a.inst.redistribute[0];
    assert_eq!((rule.source, rule.metric, rule.metric_type), (RedistributeSource::Static, 5, 1));
    assert!(a.inst.is_asbr());
    assert!(matches!(a.step(Event::ReloadFailed, START)[..], [Effect::Kept]));
}

#[test]
fn v3_reload_takes_the_route_map_of_a_rule_over() {
    let mut a = node(1, Vec::new());
    a.inst.route_maps = vec![RouteMap { name: "none".to_string(), permits: vec![false] }];
    let c = |route_map: Option<&str>| {
        let mut c = configured(1);
        c.redistribute = vec![connected(route_map)];
        c
    };
    let effects = a.step(Event::Reloaded(c(None)), START);
    assert!(matches!(effects[..], [Effect::Applied(true), Effect::Discover]));
    a.step(Event::Discovered(routes(&[net(5)])), START);
    assert_eq!((own_externals(&a.inst, false), own_externals(&a.inst, true)), (1, 0));
    let effects = a.step(Event::Reloaded(c(Some("none"))), START);
    assert!(matches!(effects[..], [Effect::Applied(true), Effect::Discover]));
    a.step(Event::Discovered(routes(&[net(5)])), START);
    assert_eq!((own_externals(&a.inst, false), own_externals(&a.inst, true)), (0, 1));
    let effects = a.step(Event::Reloaded(c(Some("none"))), START);
    assert!(matches!(effects[..], [Effect::Applied(false)]));
}
