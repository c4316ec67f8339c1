use ospfd::config::assemble::{parse_area_id_value, parse_summary_v4, ConfigError};
use ospfd::config::assemble_v3::parse_summary_v6;
use ospfd::config::yaml::{
    AddrEntry, AreaConfigEntry, AreaIdValue, InterfaceConfig, Ipv4AddressConfig, LoopbackConfig,
    OspfConfig, OspfNeighborConfig, OspfVrfYaml, RedistributeEntry, RouteMapEntry, RouterConfig,
    SubInterfaceConfig, SummaryAddressEntry, VrfYaml,
};
use ospfd::config::{Ospf6DaemonConfig, OspfDaemonConfig};
use serde_yaml::Value;

fn ip(a: u8, b: u8, c: u8, d: u8) -> u32 {
    u32::from_be_bytes([a, b, c, d])
}

fn text(v: &Value, key: &str) -> Option<String> {
    v.get(key).and_then(Value::as_str).map(str::to_string)
}

fn number(v: &Value, key: &str) -> Option<u64> {
    v.get(key).and_then(Value::as_u64)
}

fn list<T>(v: &Value, key: &str, read: fn(&Value) -> T) -> Vec<T> {
    v.get(key).and_then(Value::as_sequence).map_or(Vec::new(), |s| s.iter().map(read).collect())
}

fn area(v: &Value, key: &str) -> Option<AreaIdValue> {
    v.get(key).map(|a| match a {
        Value::Number(n) => n.as_u64().map_or(AreaIdValue::OtherNumber, AreaIdValue::Number),
        Value::String(s) => AreaIdValue::Text(s.clone()),
        _ => AreaIdValue::Other,
    })
}

fn addr(v: &Value) -> AddrEntry {
    AddrEntry::Cidr(v.as_str().unwrap().to_string())
}

fn sub(v: &Value) -> SubInterfaceConfig {
    SubInterfaceConfig {
        vlan_id: number(v, "vlan_id").unwrap() as u16,
        vrf: text(v, "vrf"),
        ipv4: list(v, "ipv4", addr),
        ipv6: list(v, "ipv6", addr),
        ospf_area: area(v, "ospf_area"),
        ospf3_area: area(v, "ospf6_area"),
        ..SubInterfaceConfig::default()
    }
}

fn interface(v: &Value) -> InterfaceConfig {
    InterfaceConfig {
        name: text(v, "name"),
        vrf: text(v, "vrf"),
        subinterfaces: list(v, "subinterfaces", sub),
        ..InterfaceConfig::default()
    }
}

fn loopback(v: &Value) -> LoopbackConfig {
    LoopbackConfig {
        name: text(v, "name"),
        ipv4: list(v, "ipv4", addr),
        ospf_area: area(v, "ospf_area"),
        ..LoopbackConfig::default()
    }
}

fn vrf_block(v: &Value) -> OspfVrfYaml {
    OspfVrfYaml {
        name: text(v, "name").unwrap(),
        enabled: v.get("enabled").and_then(Value::as_bool).unwrap_or(true),
        router_id: text(v, "router_id"),
        ..OspfVrfYaml::default()
    }
}

fn block(v: &Value, key: &str) -> OspfConfig {
    match v.get(key) {
        Some(b) => OspfConfig {
            enabled: b.get("enabled").and_then(Value::as_bool).unwrap_or(false),
            router_id: text(b, "router_id"),
            vrfs: list(b, "vrfs", vrf_block),
            ..OspfConfig::default()
        },
        None => OspfConfig::default(),
    }
}

fn vrf(v: &Value) -> VrfYaml {
    VrfYaml {
        name: text(v, "name").unwrap(),
        table_id_v4: number(v, "table_id_v4").unwrap() as u32,
        table_id_v6: number(v, "table_id_v6").unwrap() as u32,
        description: None,
    }
}

fn read(yaml: &str) -> RouterConfig {
    let v: Value = serde_yaml::from_str(yaml).expect("parse router.yaml");
    RouterConfig {
        ospf: block(&v, "ospf"),
        ospf3: block(&v, "ospf3"),
        interfaces: list(&v, "interfaces", interface),
        loopbacks: list(&v, "loopbacks", loopback),
        route_maps: Vec::new(),
        vrfs: list(&v, "vrfs", vrf),
    }
}

fn yaml_with_subinterface_ospf(extra: &str) -> RouterConfig {
    let body = format!(
        r#"
ospf:
  enabled: true
  router_id: "10.0.0.1"
ospf3:
  enabled: true
  router_id: "10.0.0.1"
interfaces:
  - name: lan
    iface: enp4s0f1np1
    pci: "0000:04:00.1"
    subinterfaces:
      - vlan_id: 110
        ipv4:
          - "192.168.37.5/24"
        ipv6:
          - "2001:db8:37::5/64"
        create_lcp: true
        ospf_area: 0
        ospf6_area: 0
        {extra}
"#
    );
    read(&body)
}

#[test]
fn subinterface_ospf_v2_lands_with_dotted_name() {
    let cfg = yaml_with_subinterface_ospf("");
    let parsed = OspfDaemonConfig::from_router_yaml(&cfg, None).unwrap();
    let lan_110 = parsed
        .interfaces
        .iter()
        .find(|i| i.name == "lan.110")
        .expect("lan.110 in OSPFv2 interface list");
    assert_eq!(lan_110.address, ip(192, 168, 37, 5));
    assert_eq!(lan_110.prefix_len, 24);
    assert_eq!(lan_110.area_id, 0);
}

#[test]
fn subinterface_ospf_v3_lands_with_dotted_name() {
    let cfg = yaml_with_subinterface_ospf("");
    let parsed = Ospf6DaemonConfig::from_router_yaml(&cfg, None).unwrap().expect("v6 cfg");
    let lan_110 = parsed
        .interfaces
        .iter()
        .find(|i| i.name == "lan.110")
        .expect("lan.110 in OSPFv3 interface list");
    assert_eq!(lan_110.area_id, 0);
}

#[test]
fn loopback_ipv4_list_shape_parses() {
    let yaml = r#"
ospf:
  enabled: true
  router_id: "10.0.0.1"
loopbacks:
  - instance: 0
    name: lo0
    ipv4:
      - "10.255.255.100/32"
    create_lcp: true
    ospf_area: 0
"#;
    let cfg = read(yaml);
    let parsed = OspfDaemonConfig::from_router_yaml(&cfg, None).unwrap();
    let lo0 = parsed
        .interfaces
        .iter()
        .find(|i| i.name == "lo0")
        .expect("lo0 in OSPFv2 interface list");
    assert_eq!(lo0.address, ip(10, 255, 255, 100));
    assert_eq!(lo0.prefix_len, 32);
}

#[test]
fn subinterface_in_other_vrf_skipped_by_default_instance() {
    let cfg = yaml_with_subinterface_ospf("vrf: customer_vrf");
    let default_vrf = OspfDaemonConfig::from_router_yaml(&cfg, None).unwrap();
    assert!(
        default_vrf.interfaces.iter().all(|i| i.name != "lan.110"),
        "default-VRF instance must not pick up customer_vrf sub"
    );

    let yaml = r#"
vrfs:
  - name: customer_vrf
    table_id_v4: 100
    table_id_v6: 100
ospf:
  enabled: true
  router_id: "10.0.0.1"
  vrfs:
    - name: customer_vrf
      enabled: true
      router_id: "10.0.0.2"
interfaces:
  - name: lan
    iface: enp4s0f1np1
    pci: "0000:04:00.1"
    subinterfaces:
      - vlan_id: 110
        ipv4:
          - "192.168.37.5/24"
        create_lcp: true
        ospf_area: 0
        vrf: customer_vrf
"#;
    let cfg = read(yaml);
    let customer = OspfDaemonConfig::from_router_yaml(&cfg, Some("customer_vrf")).unwrap();
    assert!(
        customer.interfaces.iter().any(|i| i.name == "lan.110"),
        "customer_vrf instance must pick up its sub even when parent is default-VRF"
    );
}

#[test]
fn load_all_returns_default_plus_per_vrf_instances() {
    let yaml = r#"
vrfs:
  - name: customer_vrf
    table_id_v4: 10
    table_id_v6: 10
  - name: customer2_vrf
    table_id_v4: 20
    table_id_v6: 20
ospf:
  enabled: true
  router_id: "10.0.0.1"
  vrfs:
    - name: customer_vrf
      enabled: true
      router_id: "10.0.0.2"
    - name: customer2_vrf
      enabled: true
      router_id: "10.0.0.3"
    - name: undeclared_vrf
      enabled: true
      router_id: "10.0.0.4"
interfaces: []
"#;
    let configs = OspfDaemonConfig::load_all(&read(yaml));
    assert_eq!(
        configs.len(),
        3,
        "expected default + 2 declared VRFs (got {} entries)",
        configs.len(),
    );

    let names: Vec<Option<String>> = configs.iter().map(|c| c.vrf_name.clone()).collect();
    assert!(names.contains(&None), "default-VRF instance missing");
    assert!(names.contains(&Some("customer_vrf".to_string())));
    assert!(names.contains(&Some("customer2_vrf".to_string())));
    assert!(!names.contains(&Some("undeclared_vrf".to_string())));

    let default = configs.iter().find(|c| c.vrf_name.is_none()).expect("default cfg");
    assert_eq!(default.table_id_v4, 0);
    let customer = configs
        .iter()
        .find(|c| c.vrf_name.as_deref() == Some("customer_vrf"))
        .expect("customer_vrf cfg");
    assert_eq!(customer.table_id_v4, 10);
    let customer2 = configs
        .iter()
        .find(|c| c.vrf_name.as_deref() == Some("customer2_vrf"))
        .expect("customer2_vrf cfg");
    assert_eq!(customer2.table_id_v4, 20);
}

#[test]
fn load_all_returns_empty_when_ospf_disabled_and_no_vrfs() {
    let yaml = r#"
ospf:
  enabled: false
interfaces: []
"#;
    let configs = OspfDaemonConfig::load_all(&read(yaml));
    assert!(configs.is_empty());
}

fn enabled(id: &str) -> OspfConfig {
    OspfConfig { enabled: true, router_id: Some(id.to_string()), ..OspfConfig::default() }
}

#[test]
fn configuration_errors() {
    let off = RouterConfig::default();
    assert!(matches!(
        OspfDaemonConfig::from_router_yaml(&off, None),
        Err(ConfigError::NotEnabled)
    ));
    let bad_id = RouterConfig { ospf: enabled("300.1.1.1"), ..RouterConfig::default() };
    assert!(matches!(
        OspfDaemonConfig::from_router_yaml(&bad_id, None),
        Err(ConfigError::InvalidRouterId)
    ));
    let zero_id = RouterConfig { ospf: enabled("0.0.0.0"), ..RouterConfig::default() };
    assert!(matches!(
        OspfDaemonConfig::from_router_yaml(&zero_id, None),
        Err(ConfigError::NoRouterId)
    ));
    let plain = RouterConfig { ospf: enabled("1.1.1.1"), ..RouterConfig::default() };
    assert!(matches!(
        OspfDaemonConfig::from_router_yaml(&plain, Some("red")),
        Err(ConfigError::NoVrfBlock)
    ));
}

#[test]
fn vrf_errors() {
    let with = |vrfs: Vec<VrfYaml>| {
        let mut ospf = enabled("1.1.1.1");
        ospf.vrfs = vec![OspfVrfYaml {
            name: "red".to_string(),
            enabled: true,
            router_id: Some("2.2.2.2".to_string()),
            ..OspfVrfYaml::default()
        }];
        RouterConfig { ospf, vrfs, ..RouterConfig::default() }
    };
    let declared = |table: u32| VrfYaml {
        name: "red".to_string(),
        table_id_v4: table,
        table_id_v6: table,
        description: None,
    };
    assert!(matches!(
        OspfDaemonConfig::from_router_yaml(&with(vec![]), Some("red")),
        Err(ConfigError::VrfNotDeclared)
    ));
    assert!(matches!(
        OspfDaemonConfig::from_router_yaml(&with(vec![declared(0)]), Some("red")),
        Err(ConfigError::ReservedTable)
    ));
    let ok = OspfDaemonConfig::from_router_yaml(&with(vec![declared(7)]), Some("red")).unwrap();
    assert_eq!(ok.router_id, ip(2, 2, 2, 2));
    assert_eq!(ok.table_id_v4, 7);
}

fn with_area(area_id: AreaIdValue) -> RouterConfig {
    let mut ospf = enabled("1.1.1.1");
    ospf.areas = vec![AreaConfigEntry {
        area_id,
        area_type: Some("stub".to_string()),
        default_cost: Some(5),
    }];
    RouterConfig { ospf, ..RouterConfig::default() }
}

#[test]
fn area_ids_are_numbers_or_addresses() {
    let id = |v: AreaIdValue| {
        OspfDaemonConfig::from_router_yaml(&with_area(v), None).map(|c| c.areas[0].area_id)
    };
    assert_eq!(id(AreaIdValue::Number(7)).unwrap(), 7);
    assert_eq!(id(AreaIdValue::Text("0.0.1.2".to_string())).unwrap(), ip(0, 0, 1, 2));
    assert_eq!(id(AreaIdValue::Text("12".to_string())).unwrap(), 12);
    assert!(matches!(id(AreaIdValue::OtherNumber), Err(ConfigError::NegativeAreaId)));
    assert!(matches!(id(AreaIdValue::Other), Err(ConfigError::AreaIdNotScalar)));
    assert!(matches!(
        id(AreaIdValue::Text("backbone".to_string())),
        Err(ConfigError::InvalidAreaId(s)) if s == "backbone"
    ));
}

#[test]
fn route_map_errors() {
    let map = |name: &str, permits: Option<Vec<bool>>| RouteMapEntry {
        name: name.to_string(),
        permits,
    };
    let with = |maps: Vec<RouteMapEntry>, wanted: &str| {
        let mut ospf = enabled("1.1.1.1");
        ospf.redistribute = vec![RedistributeEntry {
            protocol: "connected".to_string(),
            metric: None,
            metric_type: None,
            route_map: Some(wanted.to_string()),
        }];
        let config = RouterConfig { ospf, route_maps: maps, ..RouterConfig::default() };
        OspfDaemonConfig::from_router_yaml(&config, None)
    };
    assert!(with(vec![map("m", Some(vec![true]))], "m").is_ok());
    assert!(matches!(
        with(vec![map("m", Some(vec![])), map("m", Some(vec![]))], "m"),
        Err(ConfigError::DuplicateRouteMap(s)) if s == "m"
    ));
    assert!(matches!(
        with(vec![map("m", None)], "m"),
        Err(ConfigError::BadRouteMap(s)) if s == "m"
    ));
    assert!(matches!(
        with(vec![map("m", Some(vec![]))], "n"),
        Err(ConfigError::UnknownRouteMap(s)) if s == "n"
    ));
}

#[test]
fn interface_addresses_are_read_in_both_shapes() {
    let mut a = InterfaceConfig {
        name: Some("wan".to_string()),
        ipv4: vec![Ipv4AddressConfig::Cidr("10.1.2.3/20".to_string())],
        ospf_area: Some(AreaIdValue::Number(0)),
        ..InterfaceConfig::default()
    };
    let parsed = |i: InterfaceConfig| {
        let config = RouterConfig {
            ospf: enabled("1.1.1.1"),
            interfaces: vec![i],
            ..RouterConfig::default()
        };
        OspfDaemonConfig::from_router_yaml(&config, None).unwrap()
    };
    a.ospf_cost = Some(33);
    let c = parsed(a);
    assert_eq!((c.interfaces[0].address, c.interfaces[0].prefix_len), (ip(10, 1, 2, 3), 20));
    assert_eq!(c.interfaces[0].cost, 33);
    let b = InterfaceConfig {
        name: Some("wan".to_string()),
        ipv4: vec![Ipv4AddressConfig::Split { address: "10.1.2.3".to_string(), prefix: 21 }],
        ospf_area: Some(AreaIdValue::Number(0)),
        ..InterfaceConfig::default()
    };
    assert_eq!(parsed(b).interfaces[0].prefix_len, 21);
}

#[test]
fn an_area_id_reads_the_same_in_every_spelling() {
    for n in [0u32, 7, 256, 0x0a00_0001, u32::MAX] {
        let dotted = n.to_be_bytes().map(|b| b.to_string()).join(".");
        for v in [
            AreaIdValue::Number(n as u64),
            AreaIdValue::Text(n.to_string()),
            AreaIdValue::Text(dotted),
        ] {
            assert!(matches!(parse_area_id_value(&v), Ok(m) if m == n), "{v:?}");
        }
    }
    assert!(matches!(
        parse_area_id_value(&AreaIdValue::OtherNumber),
        Err(ConfigError::NegativeAreaId)
    ));
    assert!(matches!(
        parse_area_id_value(&AreaIdValue::Other),
        Err(ConfigError::AreaIdNotScalar)
    ));
    for bad in ["", "backbone", "4294967296", "1.2.3", "-1", "1.2.3.256"] {
        assert!(matches!(
            parse_area_id_value(&AreaIdValue::Text(bad.to_string())),
            Err(ConfigError::InvalidAreaId(s)) if s == bad
        ));
    }
}

#[test]
fn a_summary_range_is_no_longer_than_an_address() {
    let range = |prefix: &str| SummaryAddressEntry {
        prefix: prefix.to_string(),
        no_advertise: false,
        tag: None,
        metric: None,
        metric_type: None,
    };
    let whole = parse_summary_v4(&range("10.0.0.0/32")).unwrap();
    assert_eq!((whole.prefix, whole.prefix_len), (ip(10, 0, 0, 0), 32));
    assert_eq!((whole.metric, whole.metric_type, whole.tag), (20, 2, 0));
    assert!(parse_summary_v4(&range("10.0.0.0/33")).is_none());
    assert!(parse_summary_v4(&range("10.0.0.0/255")).is_none());
    assert_eq!(parse_summary_v6(&range("2001:db8::/128")).unwrap().prefix_len, 128);
    assert!(parse_summary_v6(&range("2001:db8::/129")).is_none());
}

#[test]
fn neighbors_are_configured_on_non_broadcast_networks_only() {
    for (kind, count) in
        [("non-broadcast", 1), ("broadcast", 0), ("point-to-point", 0), ("point-to-multipoint", 0)]
    {
        let wan = InterfaceConfig {
            name: Some("wan".to_string()),
            ipv4: vec![Ipv4AddressConfig::Cidr("10.1.2.3/20".to_string())],
            ospf_area: Some(AreaIdValue::Number(0)),
            ospf_network_type: Some(kind.to_string()),
            ospf_neighbors: vec![OspfNeighborConfig {
                address: "10.1.2.9".to_string(),
                priority: None,
            }],
            ..InterfaceConfig::default()
        };
        let config = RouterConfig {
            ospf: enabled("1.1.1.1"),
            interfaces: vec![wan],
            ..RouterConfig::default()
        };
        let c = OspfDaemonConfig::from_router_yaml(&config, None).unwrap();
        assert_eq!(c.interfaces[0].static_neighbors.len(), count, "{kind}");
    }
}
