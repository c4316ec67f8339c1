use ospfd::config::restart::RestartReason;
use ospfd::config::{
    OspfDaemonConfig, OspfInterfaceConfig, ParsedSummaryAddress, RedistributeConfig,
    RedistributeSource,
};
use ospfd::instance::daemon::{AuthWarnings, Snapshot};
use ospfd::instance::originate::External;
use ospfd::instance::step::{Effect, Event};
use ospfd::instance::OspfInstance;
use ospfd::io::{RxPacket, TxPacket};
use ospfd::packet::auth::AuthKey;
use ospfd::packet::{OspfPacket, ALL_SPF_ROUTERS};
use ospfd::proto::interface::InterfaceState;
use ospfd::proto::neighbor::NeighborState;
use ospfd::proto::spf::{OspfRouteKind, SpfRoute};

const START: u64 = 4_000_000;

fn ip(a: u8, b: u8, c: u8, d: u8) -> u32 {
    u32::from_be_bytes([a, b, c, d])
}

fn interface(name: &str, address: u32, prefix_len: u8) -> OspfInterfaceConfig {
    OspfInterfaceConfig {
        name: name.to_string(),
        address,
        prefix_len,
        area_id: 0,
        cost: 10,
        passive: false,
        network_type: "point-to-point".to_string(),
        hello_interval: 10,
        dead_interval: 40,
        retransmit_interval: 5,
        priority: 1,
        auth_key: AuthKey::Null,
        static_neighbors: Vec::new(),
    }
}

fn config(router_id: u32, interfaces: Vec<OspfInterfaceConfig>) -> OspfDaemonConfig {
    OspfDaemonConfig {
        vrf_name: None,
        table_id_v4: 0,
        router_id,
        reference_bandwidth: 100,
        spf_delay_ms: 50,
        spf_holdtime_ms: 200,
        spf_max_holdtime_ms: 5000,
        interfaces,
        redistribute: Vec::new(),
        areas: Vec::new(),
        distance: None,
        distance_intra: None,
        distance_inter: None,
        distance_external: None,
        default_originate: false,
        default_originate_metric: 1,
        default_originate_metric_type: 2,
        summary_addresses: Vec::new(),
        route_maps: Vec::new(),
    }
}

/// A running instance; its interfaces have the indices 1, 2 and so on.
fn running(config: &OspfDaemonConfig) -> OspfInstance {
    let mut instance = OspfInstance::new(config);
    for (i, f) in instance.interfaces.iter_mut().enumerate() {
        f.sw_if_index = i as u32 + 1;
    }
    instance.launch(config, &Vec::new(), START);
    instance
}

fn step(instance: &mut OspfInstance, event: Event, now: u64) -> Vec<Effect> {
    instance.step(&mut AuthWarnings::new(), event, now)
}

/// The packets that leave through the interface with index 1.
fn sent(effects: Vec<Effect>) -> Vec<TxPacket> {
    effects
        .into_iter()
        .filter_map(|e| match e {
            Effect::Send(p) if p.sw_if_index == 1 => Some(p),
            _ => None,
        })
        .collect()
}

fn arriving(p: TxPacket) -> Event {
    let rx = RxPacket {
        sw_if_index: 1,
        src_addr: p.src_addr,
        dst_addr: p.dst_addr,
        data: p.data,
    };
    Event::Received(rx, false)
}

/// Two routers on one link, each with its own event loop, for the given number of seconds.
fn talk(a: &mut OspfInstance, b: &mut OspfInstance, seconds: u64) -> u64 {
    let mut now = START;
    for _ in 0..seconds {
        now += 1000;
        step(a, Event::NeighborTick, now);
        step(b, Event::NeighborTick, now);
        let mut to_b = sent(step(a, Event::HelloTick, now));
        let mut to_a = sent(step(b, Event::HelloTick, now));
        while !to_a.is_empty() || !to_b.is_empty() {
            let (for_a, for_b) = (to_a, to_b);
            to_a = Vec::new();
            to_b = Vec::new();
            for p in for_b {
                to_a.extend(sent(step(b, arriving(p), now)));
            }
            for p in for_a {
                to_b.extend(sent(step(a, arriving(p), now)));
            }
        }
    }
    now
}

fn routes(instance: &mut OspfInstance, now: u64) -> Vec<SpfRoute> {
    let mut effects = step(instance, Event::SpfDue, now);
    assert_eq!(effects.len(), 1);
    match effects.remove(0) {
        Effect::Push(rs) => rs,
        e => panic!("unexpected {e:?}"),
    }
}

#[test]
fn two_routers_become_adjacent_and_learn_routes() {
    let mut a = running(&config(ip(1, 1, 1, 1), vec![interface("wan", ip(10, 0, 0, 1), 24)]));
    let mut b = running(&config(
        ip(2, 2, 2, 2),
        vec![interface("wan", ip(10, 0, 0, 2), 24), interface("lan", ip(10, 9, 0, 1), 16)],
    ));
    let now = talk(&mut a, &mut b, 40);
    assert_eq!(a.interfaces[0].neighbors[0].state, NeighborState::Full);
    assert_eq!(b.interfaces[0].neighbors[0].state, NeighborState::Full);
    assert!(a.interfaces[0].neighbors[0].is_master != b.interfaces[0].neighbors[0].is_master);

    let learned = routes(&mut a, now);
    let lan = learned.iter().find(|r| r.prefix == ip(10, 9, 0, 0)).unwrap();
    assert_eq!(lan.prefix_len, 16);
    assert_eq!(lan.cost, 20);
    assert_eq!(lan.kind, OspfRouteKind::Intra);
    assert_eq!(lan.next_hop.address, ip(10, 0, 0, 2));
    assert_eq!(lan.next_hop.sw_if_index, 1);
}

#[test]
fn externals_of_a_neighbor_are_learned() {
    let rule = RedistributeConfig {
        source: RedistributeSource::Connected,
        metric: 20,
        metric_type: 2,
        route_map: None,
    };
    let mut cb = config(ip(2, 2, 2, 2), vec![interface("wan", ip(10, 0, 0, 2), 24)]);
    cb.redistribute = vec![rule];
    let mut a = running(&config(ip(1, 1, 1, 1), vec![interface("wan", ip(10, 0, 0, 1), 24)]));
    let mut b = running(&cb);
    let found = External { prefix: ip(172, 16, 0, 0), mask: ip(255, 240, 0, 0), matched: Vec::new() };
    step(&mut b, Event::Discovered(vec![found]), START);
    let now = talk(&mut a, &mut b, 40);
    let learned = routes(&mut a, now);
    let out = learned.iter().find(|r| r.prefix == ip(172, 16, 0, 0)).unwrap();
    assert_eq!(out.prefix_len, 12);
    assert_eq!(out.kind, OspfRouteKind::External2);
    assert_eq!(out.cost, 20);

    // What is no longer there is withdrawn.
    assert_eq!(ages(&b, now + 100).len(), 1);
    step(&mut b, Event::Discovered(Vec::new()), now + 100);
    assert_eq!(ages(&b, now + 100), Vec::<u16>::new());
}

/// The ages of the AS-external LSAs that are still announced.
fn ages(instance: &OspfInstance, now: u64) -> Vec<u16> {
    instance.as_external_lsdb.all_headers(now).iter().map(|h| h.ls_age).collect()
}

#[test]
fn silence_ends_an_adjacency() {
    let mut a = running(&config(ip(1, 1, 1, 1), vec![interface("wan", ip(10, 0, 0, 1), 24)]));
    let mut b = running(&config(ip(2, 2, 2, 2), vec![interface("wan", ip(10, 0, 0, 2), 24)]));
    let now = talk(&mut a, &mut b, 40);
    assert_eq!(a.interfaces[0].neighbors[0].state, NeighborState::Full);
    step(&mut a, Event::NeighborTick, now + 60_000);
    assert!(a.interfaces[0].neighbors.iter().all(|n| n.state == NeighborState::Down));
}

#[test]
fn hellos_keep_to_their_interval() {
    let mut a = running(&config(ip(1, 1, 1, 1), vec![interface("wan", ip(10, 0, 0, 1), 24)]));
    let first = sent(step(&mut a, Event::HelloTick, START + 20_000));
    assert_eq!(first.len(), 1);
    assert_eq!(first[0].dst_addr, ALL_SPF_ROUTERS);
    assert_eq!(first[0].src_addr, ip(10, 0, 0, 1));
    assert!(matches!(OspfPacket::parse(&first[0].data), Ok(OspfPacket::Hello(_, _))));
    assert!(step(&mut a, Event::HelloTick, START + 29_000).is_empty());
    assert_eq!(sent(step(&mut a, Event::HelloTick, START + 30_000)).len(), 1);
}

#[test]
fn failed_authentication_is_warned_of_once_a_minute() {
    let mut c = config(ip(1, 1, 1, 1), vec![interface("wan", ip(10, 0, 0, 1), 24)]);
    c.interfaces[0].auth_key = AuthKey::Simple(b"geheim".to_vec());
    let mut a = running(&c);
    let mut b = running(&config(ip(2, 2, 2, 2), vec![interface("wan", ip(10, 0, 0, 2), 24)]));
    let hello = sent(step(&mut b, Event::HelloTick, START + 1000)).remove(0);
    let mut warnings = AuthWarnings::new();
    let mut seen = Vec::new();
    for now in [START + 1000, START + 11_000, START + 61_500] {
        let p = TxPacket { data: hello.data.clone(), ..hello };
        seen.extend(a.step(&mut warnings, arriving(p), now));
    }
    assert!(matches!(seen[0], Effect::WarnAuth(1, src) if src == ip(10, 0, 0, 2)));
    assert!(matches!(seen[1], Effect::NoteAuth(1, _)));
    assert!(matches!(seen[2], Effect::WarnAuth(1, _)));
    assert_eq!(seen.len(), 3);
    assert!(a.interfaces[0].neighbors.is_empty());
}

#[test]
fn passwords_and_digests_leave_differently() {
    let mut c = config(ip(1, 1, 1, 1), vec![interface("wan", ip(10, 0, 0, 1), 24)]);
    c.interfaces[0].auth_key = AuthKey::Simple(b"geheim".to_vec());
    let plain = sent(step(&mut running(&c), Event::HelloTick, START + 1000));
    assert_eq!(&plain[0].data[16..22], b"geheim");
    c.interfaces[0].auth_key = AuthKey::Md5 { key_id: 1, key: b"geheim".to_vec() };
    let digest = step(&mut running(&c), Event::HelloTick, START + 1000);
    assert!(matches!(digest[0], Effect::Sign(0, 1, _)));
}

#[test]
fn unreadable_packets_change_nothing() {
    let mut a = running(&config(ip(1, 1, 1, 1), vec![interface("wan", ip(10, 0, 0, 1), 24)]));
    let mut data = vec![0u8; 24];
    data[0] = 7;
    let rx = RxPacket {
        sw_if_index: 1,
        src_addr: ip(10, 0, 0, 2),
        dst_addr: ALL_SPF_ROUTERS,
        data,
    };
    let effects = step(&mut a, Event::Received(rx, false), START);
    assert!(matches!(effects[0], Effect::Unreadable(_)));
    assert_eq!(effects.len(), 1);
    assert!(a.interfaces[0].neighbors.is_empty());
}

#[test]
fn reload_applies_what_can_change_and_names_the_rest() {
    let mut a = running(&config(
        ip(1, 1, 1, 1),
        vec![interface("wan", ip(10, 0, 0, 1), 24), interface("lan", ip(10, 9, 0, 1), 16)],
    ));
    let mut new = config(ip(9, 9, 9, 9), vec![interface("wan", ip(10, 0, 0, 1), 24)]);
    new.interfaces[0].cost = 77;
    new.interfaces[0].hello_interval = 5;
    new.interfaces[0].area_id = ip(0, 0, 0, 1);
    new.interfaces[0].network_type = "broadcast".to_string();
    new.interfaces.push(interface("new", ip(10, 8, 0, 1), 16));
    let effects = step(&mut a, Event::Reloaded(new), START + 1000);
    let texts: Vec<String> = effects.iter().map(|e| format!("{e:?}")).collect();
    assert_eq!(
        texts,
        vec![
            "Restart(RouterId)",
            "Restart(Area(\"wan\"))",
            "Restart(NetworkType(\"wan\"))",
            "Restart(NewInterface(\"new\"))",
            "Restart(RemovedInterface(\"lan\"))",
            "Applied(true)",
        ]
    );
    assert_eq!(a.router_id, ip(1, 1, 1, 1));
    assert_eq!(a.interfaces.len(), 2);
    assert_eq!(a.interfaces[0].cost, 77);
    assert_eq!(a.interfaces[0].hello_interval, 5);
    assert_eq!(a.interfaces[0].area_id, 0);
    assert_eq!(a.interfaces[1].cost, 10);
    assert!(matches!(step(&mut a, Event::ReloadFailed, START)[0], Effect::Kept));
}

#[test]
fn an_unchanged_configuration_changes_nothing() {
    let c = || config(ip(1, 1, 1, 1), vec![interface("wan", ip(10, 0, 0, 1), 24)]);
    let mut a = running(&c());
    assert!(a.restart_reasons(&c()).is_empty());
    let effects = step(&mut a, Event::Reloaded(c()), START);
    assert!(matches!(effects[..], [Effect::Applied(false)]));
    let other = config(ip(1, 1, 1, 2), vec![interface("wan", ip(10, 0, 0, 1), 24)]);
    assert!(matches!(a.restart_reasons(&other)[..], [RestartReason::RouterId]));
}

#[test]
fn a_lost_address_takes_the_interface_down() {
    let mut a = running(&config(ip(1, 1, 1, 1), vec![interface("wan", ip(10, 0, 0, 1), 24)]));
    let lost = Snapshot { sw_if_index: 1, address: None, up: true };
    assert!(step(&mut a, Event::Refreshed(vec![lost]), START + 1000).is_empty());
    assert_eq!(a.interfaces[0].state, InterfaceState::Down);
    let back = Snapshot { sw_if_index: 1, address: Some((ip(10, 0, 0, 7), 24)), up: true };
    step(&mut a, Event::Refreshed(vec![back]), START + 2000);
    assert_eq!(a.interfaces[0].state, InterfaceState::PointToPoint);
    assert_eq!(a.interfaces[0].address, ip(10, 0, 0, 7));
}

#[test]
fn shutdown_leaves() {
    let mut a = running(&config(ip(1, 1, 1, 1), Vec::new()));
    assert!(matches!(step(&mut a, Event::Shutdown, START)[..], [Effect::Leave]));
    assert!(step(&mut a, Event::LsdbTick, START + 1000).is_empty());
}

#[test]
fn a_passive_interface_sends_no_hellos() {
    let c = |passive: bool| {
        let mut c = config(ip(1, 1, 1, 1), vec![interface("wan", ip(10, 0, 0, 1), 24)]);
        c.interfaces[0].passive = passive;
        c
    };
    let mut a = running(&c(false));
    assert_eq!(sent(step(&mut a, Event::HelloTick, START + 1000)).len(), 1);
    step(&mut a, Event::Reloaded(c(true)), START + 2000);
    assert!(sent(step(&mut a, Event::HelloTick, START + 20_000)).is_empty());
    step(&mut a, Event::Reloaded(c(false)), START + 21_000);
    assert_eq!(sent(step(&mut a, Event::HelloTick, START + 22_000)).len(), 1);
}

#[test]
fn a_reload_floods_what_it_reissues() {
    let mut a = running(&config(ip(1, 1, 1, 1), vec![interface("wan", ip(10, 0, 0, 1), 24)]));
    let mut b = running(&config(ip(2, 2, 2, 2), vec![interface("wan", ip(10, 0, 0, 2), 24)]));
    let now = talk(&mut a, &mut b, 60);
    let mut new = config(ip(1, 1, 1, 1), vec![interface("wan", ip(10, 0, 0, 1), 24)]);
    new.interfaces[0].cost = 77;
    let effects = step(&mut a, Event::Reloaded(new), now + 1000);
    assert!(matches!(effects.last(), Some(Effect::Applied(true))));
    let packets = sent(effects);
    assert_eq!(packets.len(), 1);
    assert!(matches!(
        OspfPacket::parse(&packets[0].data),
        Ok(OspfPacket::LinkStateUpdate(_, u)) if u.lsas.len() == 1
    ));
    // A timer alone reissues nothing.
    let mut timer = config(ip(1, 1, 1, 1), vec![interface("wan", ip(10, 0, 0, 1), 24)]);
    timer.interfaces[0].cost = 77;
    timer.interfaces[0].hello_interval = 5;
    let effects = step(&mut a, Event::Reloaded(timer), now + 2000);
    assert!(matches!(effects[..], [Effect::Applied(true)]));
}

#[test]
fn a_second_reload_of_a_configuration_changes_nothing() {
    let mut a = running(&config(ip(1, 1, 1, 1), vec![interface("wan", ip(10, 0, 0, 1), 24)]));
    let new = || {
        let mut c = config(ip(1, 1, 1, 1), vec![interface("wan", ip(10, 0, 0, 1), 24)]);
        c.interfaces[0].cost = 77;
        c.interfaces[0].hello_interval = 5;
        c
    };
    let effects = step(&mut a, Event::Reloaded(new()), START + 1000);
    assert!(matches!(effects.last(), Some(Effect::Applied(true))));
    let effects = step(&mut a, Event::Reloaded(new()), START + 2000);
    assert!(matches!(effects[..], [Effect::Applied(false)]));
}

#[test]
fn new_summary_ranges_are_announced_after_a_reload() {
    let c = |ranges: Vec<ParsedSummaryAddress>| {
        let mut c = config(ip(1, 1, 1, 1), vec![interface("wan", ip(10, 0, 0, 1), 24)]);
        c.redistribute = vec![RedistributeConfig {
            source: RedistributeSource::Connected,
            metric: 20,
            metric_type: 2,
            route_map: None,
        }];
        c.default_originate = true;
        c.summary_addresses = ranges;
        c
    };
    let range = ParsedSummaryAddress {
        prefix: ip(20, 0, 0, 0),
        prefix_len: 8,
        no_advertise: false,
        tag: 5,
        metric: 30,
        metric_type: 1,
    };
    let mut a = running(&c(Vec::new()));
    assert_eq!(a.as_external_lsdb.all_headers(START).len(), 1);
    let effects = step(&mut a, Event::Reloaded(c(vec![range])), START + 1000);
    assert!(matches!(effects[..], [Effect::Applied(true), Effect::Discover]));
    let found = External { prefix: ip(20, 1, 0, 0), mask: ip(255, 255, 0, 0), matched: Vec::new() };
    step(&mut a, Event::Discovered(vec![found]), START + 1000);
    let mut ids: Vec<u32> =
        a.as_external_lsdb.all_headers(START + 1000).iter().map(|h| h.link_state_id).collect();
    ids.sort();
    assert_eq!(ids, vec![0, ip(20, 0, 0, 0)]);
    // Without the range the aggregate goes and the default route stays.
    step(&mut a, Event::Reloaded(c(Vec::new())), START + 2000);
    step(&mut a, Event::Discovered(Vec::new()), START + 2000);
    let left = a.as_external_lsdb.all_headers(START + 2000);
    assert_eq!(left.iter().map(|h| h.link_state_id).collect::<Vec<_>>(), vec![0]);
}

#[test]
fn withdrawn_routes_are_flooded_at_their_maximal_age() {
    let mut a = running(&config(ip(1, 1, 1, 1), vec![interface("wan", ip(10, 0, 0, 1), 24)]));
    let mut c = config(ip(2, 2, 2, 2), vec![interface("wan", ip(10, 0, 0, 2), 24)]);
    c.redistribute = vec![RedistributeConfig {
        source: RedistributeSource::Connected,
        metric: 20,
        metric_type: 2,
        route_map: None,
    }];
    let mut b = running(&c);
    let now = talk(&mut a, &mut b, 60);
    let route = |n: u8| External {
        prefix: ip(172, n, 0, 0),
        mask: ip(255, 255, 0, 0),
        matched: Vec::new(),
    };
    let announced = |effects: Vec<Effect>| -> Vec<(u32, u16)> {
        sent(effects)
            .into_iter()
            .flat_map(|p| match OspfPacket::parse(&p.data) {
                Ok(OspfPacket::LinkStateUpdate(_, u)) => u.lsas,
                p => panic!("unexpected {p:?}"),
            })
            .map(|l| (l.header.link_state_id, l.header.ls_age))
            .collect()
    };
    let first = step(&mut b, Event::Discovered(vec![route(1), route(2)]), now);
    assert_eq!(announced(first), vec![(ip(172, 1, 0, 0), 0), (ip(172, 2, 0, 0), 0)]);
    let second = step(&mut b, Event::Discovered(vec![route(2)]), now + 1000);
    assert_eq!(announced(second), vec![(ip(172, 1, 0, 0), 3600), (ip(172, 2, 0, 0), 0)]);
    // What was withdrawn before is not withdrawn again.
    let third = step(&mut b, Event::Discovered(vec![route(2)]), now + 2000);
    assert_eq!(announced(third), vec![(ip(172, 2, 0, 0), 0)]);
}
