//! Building the OSPFv3 configuration of an instance from the configuration file.
use vstd::prelude::*;

use crate::config;
use crate::config::assemble;
use crate::config::assemble::{
    belongs_to, build_areas, build_rules, compile_route_maps, find_block, find_vrf, kind_text,
    name_text, parse_area_id_value, parse_router_id, vlan_text, ConfigError, ConfigErrorView,
};
use crate::config::yaml::{
    InterfaceConfig, LoopbackConfig, Ospf6NeighborConfig, OspfBlock, RouterConfig,
    SubInterfaceConfig, SummaryAddressEntry,
};
use crate::config::{Ospf6DaemonConfig, Ospf6InterfaceConfig, ParsedSummaryAddress6};
use crate::text;
use crate::text::{parse_ipv6, split_cidr};
use crate::wire;
use crate::wire::same_text;

verus! {

broadcast use {wire::lemma_views_push, wire::lemma_views_update};

/// The configured neighbors whose address can be read, from `from` on.
pub open spec fn neighbors_of(ns: Seq<Ospf6NeighborConfig>, from: int) -> Seq<(u128, u8)>
    decreases ns.len() - from,
{
    if from < 0 || from >= ns.len() {
        Seq::empty()
    } else {
        match text::ipv6(ns[from].address@) {
            Some(a) => seq![(a, assemble::or(ns[from].priority, 1u8))] + neighbors_of(ns, from + 1),
            None => neighbors_of(ns, from + 1),
        }
    }
}

/// The configured neighbors of an interface of the given kind. Only a non-broadcast network has any.
pub open spec fn kind_neighbors(kind: Seq<char>, ns: Seq<Ospf6NeighborConfig>) -> Seq<(u128, u8)> {
    if kind == "non-broadcast"@ {
        neighbors_of(ns, 0)
    } else {
        Seq::empty()
    }
}

/// The configured neighbors of an interface of the given kind.
fn static_neighbors(kind: &str, ns: &Vec<Ospf6NeighborConfig>) -> (r: Vec<(u128, u8)>)
    ensures
        r@ == kind_neighbors(kind@, ns@),
{
    let mut v: Vec<(u128, u8)> = Vec::new();
    if !same_text(kind, "non-broadcast") {
        assert(v@ =~= Seq::empty());
        return v;
    }
    let mut i: usize = 0;
    assert(v@ + neighbors_of(ns@, 0) =~= neighbors_of(ns@, 0));
    while i < ns.len()
        invariant
            i <= ns@.len(),
            neighbors_of(ns@, 0) == v@ + neighbors_of(ns@, i as int),
        decreases ns.len() - i,
    {
        match parse_ipv6(ns[i].address.as_str()) {
            Some(a) => {
                let prio: u8 = match ns[i].priority {
                    Some(p) => p,
                    None => 1,
                };
                let ghost before = v@;
                v.push((a, prio));
                assert(before + (seq![(a, prio)] + neighbors_of(ns@, i + 1)) =~= v@
                    + neighbors_of(ns@, i + 1));
            },
            None => {},
        }
        i = i + 1;
    }
    assert(v@ + Seq::<(u128, u8)>::empty() =~= v@);
    v
}

/// What an interface itself contributes.
pub open spec fn parent_part(
    f: InterfaceConfig,
    passive: bool,
    vrf: Option<Seq<char>>,
) -> Result<Seq<config::Ospf6InterfaceConfigView>, ConfigErrorView> {
    match f.ospf3_area {
        Some(v) if assemble::in_vrf(config::opt_text(f.vrf), vrf) => match assemble::area_id_of(v) {
            Err(e) => Err(e),
            Ok(area_id) => {
                Ok(
                    seq![
                        config::Ospf6InterfaceConfigView {
                            name: assemble::name_of(f.name),
                            area_id,
                            cost: assemble::or(f.ospf3_cost, 10u16),
                            passive: assemble::or(f.ospf3_passive, passive),
                            network_type: assemble::kind_of(f.ospf3_network_type),
                            hello_interval: assemble::or(f.ospf3_hello_interval, 10u16),
                            dead_interval: assemble::or(f.ospf3_dead_interval, 40u32),
                            retransmit_interval: assemble::or(f.ospf3_retransmit_interval, 5u16),
                            transmit_delay: assemble::or(f.ospf3_transmit_delay, 1u16),
                            priority: assemble::or(f.ospf3_priority, 1u8),
                            instance_id: assemble::or(f.ospf3_instance_id, 0u8),
                            static_neighbors: kind_neighbors(
                                assemble::kind_of(f.ospf3_network_type),
                                f.ospf3_neighbors@,
                            ),
                        },
                    ],
                )
            },
        },
        _ => Ok(Seq::empty()),
    }
}

/// What a VLAN on an interface contributes.
pub open spec fn sub_part(
    parent: Seq<char>,
    f: SubInterfaceConfig,
    passive: bool,
    vrf: Option<Seq<char>>,
) -> Result<Seq<config::Ospf6InterfaceConfigView>, ConfigErrorView> {
    match f.ospf3_area {
        Some(v) if assemble::in_vrf(config::opt_text(f.vrf), vrf) => match assemble::area_id_of(v) {
            Err(e) => Err(e),
            Ok(area_id) => {
                Ok(
                    seq![
                        config::Ospf6InterfaceConfigView {
                            name: assemble::vlan_name(parent, f.vlan_id),
                            area_id,
                            cost: assemble::or(f.ospf3_cost, 10u16),
                            passive: assemble::or(f.ospf3_passive, passive),
                            network_type: assemble::kind_of(f.ospf3_network_type),
                            hello_interval: assemble::or(f.ospf3_hello_interval, 10u16),
                            dead_interval: assemble::or(f.ospf3_dead_interval, 40u32),
                            retransmit_interval: assemble::or(f.ospf3_retransmit_interval, 5u16),
                            transmit_delay: assemble::or(f.ospf3_transmit_delay, 1u16),
                            priority: assemble::or(f.ospf3_priority, 1u8),
                            instance_id: assemble::or(f.ospf3_instance_id, 0u8),
                            static_neighbors: kind_neighbors(
                                assemble::kind_of(f.ospf3_network_type),
                                f.ospf3_neighbors@,
                            ),
                        },
                    ],
                )
            },
        },
        _ => Ok(Seq::empty()),
    }
}

/// What a loopback contributes: a passive point-to-point interface unless it says otherwise.
pub open spec fn loopback_part(f: LoopbackConfig, vrf: Option<Seq<char>>) -> Result<
    Seq<config::Ospf6InterfaceConfigView>,
    ConfigErrorView,
> {
    match f.ospf3_area {
        Some(v) if assemble::in_vrf(config::opt_text(f.vrf), vrf) => match assemble::area_id_of(v) {
            Err(e) => Err(e),
            Ok(area_id) => {
                Ok(
                    seq![
                        config::Ospf6InterfaceConfigView {
                            name: assemble::name_of(f.name),
                            area_id,
                            cost: assemble::or(f.ospf3_cost, 1u16),
                            passive: assemble::or(f.ospf3_passive, true),
                            network_type: "point-to-point"@,
                            hello_interval: 10,
                            dead_interval: 40,
                            retransmit_interval: 5,
                            transmit_delay: 1,
                            priority: 0,
                            instance_id: 0,
                            static_neighbors: Seq::empty(),
                        },
                    ],
                )
            },
        },
        _ => Ok(Seq::empty()),
    }
}

/// What the VLANs from `from` on contribute.
pub open spec fn sub_parts(
    parent: Seq<char>,
    fs: Seq<SubInterfaceConfig>,
    passive: bool,
    vrf: Option<Seq<char>>,
    from: int,
) -> Result<Seq<config::Ospf6InterfaceConfigView>, ConfigErrorView>
    decreases fs.len() - from,
{
    if from < 0 || from >= fs.len() {
        Ok(Seq::empty())
    } else {
        assemble::chained(
            sub_part(parent, fs[from], passive, vrf),
            sub_parts(parent, fs, passive, vrf, from + 1),
        )
    }
}

/// What an interface and its VLANs contribute. The VLANs of an interface without a name are left
/// out.
pub open spec fn interface_part(
    f: InterfaceConfig,
    passive: bool,
    vrf: Option<Seq<char>>,
) -> Result<Seq<config::Ospf6InterfaceConfigView>, ConfigErrorView> {
    assemble::chained(
        parent_part(f, passive, vrf),
        match f.name {
            Some(n) if n@.len() > 0 => sub_parts(n@, f.subinterfaces@, passive, vrf, 0),
            _ => Ok(Seq::empty()),
        },
    )
}

/// What the interfaces from `from` on contribute.
pub open spec fn interface_parts(
    fs: Seq<InterfaceConfig>,
    passive: bool,
    vrf: Option<Seq<char>>,
    from: int,
) -> Result<Seq<config::Ospf6InterfaceConfigView>, ConfigErrorView>
    decreases fs.len() - from,
{
    if from < 0 || from >= fs.len() {
        Ok(Seq::empty())
    } else {
        assemble::chained(
            interface_part(fs[from], passive, vrf),
            interface_parts(fs, passive, vrf, from + 1),
        )
    }
}

/// What the loopbacks from `from` on contribute.
pub open spec fn loopback_parts(fs: Seq<LoopbackConfig>, vrf: Option<Seq<char>>, from: int) -> Result<
    Seq<config::Ospf6InterfaceConfigView>,
    ConfigErrorView,
>
    decreases fs.len() - from,
{
    if from < 0 || from >= fs.len() {
        Ok(Seq::empty())
    } else {
        assemble::chained(loopback_part(fs[from], vrf), loopback_parts(fs, vrf, from + 1))
    }
}

/// The summary range of an entry; nothing if its prefix cannot be read or is longer than an address.
pub open spec fn summary_of(e: SummaryAddressEntry) -> Option<ParsedSummaryAddress6> {
    match text::cidr(e.prefix@) {
        None => None,
        Some((a, prefix_len)) => match text::ipv6(a) {
            None => None,
            Some(_) if prefix_len > 128 => None,
            Some(prefix) => Some(
                ParsedSummaryAddress6 {
                    prefix,
                    prefix_len,
                    no_advertise: e.no_advertise,
                    tag: assemble::or(e.tag, 0u32),
                    metric: assemble::or(e.metric, 20u32),
                    metric_type: assemble::or(e.metric_type, 2u8),
                },
            ),
        },
    }
}

/// The summary ranges from `from` on whose prefix can be read.
pub open spec fn summaries_of(es: Seq<SummaryAddressEntry>, from: int) -> Seq<ParsedSummaryAddress6>
    decreases es.len() - from,
{
    if from < 0 || from >= es.len() {
        Seq::empty()
    } else {
        match summary_of(es[from]) {
            Some(s) => seq![s] + summaries_of(es, from + 1),
            None => summaries_of(es, from + 1),
        }
    }
}

/// The configuration of the instance that a block describes; nothing if it is not enabled.
pub open spec fn built(c: RouterConfig, b: OspfBlock, vrf: Option<Seq<char>>, table_id_v6: u32) -> Result<
    Option<config::Ospf6DaemonConfigView>,
    ConfigErrorView,
> {
    if !b.enabled {
        Ok(None)
    } else {
        match assemble::router_id_of(*b.router_id) {
            Err(e) => Err(e),
            Ok(router_id) => match assemble::chained(
                interface_parts(c.interfaces@, b.passive_default, vrf, 0),
                loopback_parts(c.loopbacks@, vrf, 0),
            ) {
                Err(e) => Err(e),
                Ok(interfaces) => match assemble::compiled_maps(c.route_maps@, 0) {
                    Err(e) => Err(e),
                    Ok(route_maps) => match assemble::rules_of(b.redistribute@, route_maps, 0) {
                        Err(e) => Err(e),
                        Ok(redistribute) => match assemble::areas_of(b.areas@, 0) {
                            Err(e) => Err(e),
                            Ok(areas) => Ok(
                                Some(
                                    config::Ospf6DaemonConfigView {
                                        vrf_name: vrf,
                                        table_id_v6,
                                        router_id,
                                        reference_bandwidth: assemble::or(
                                            b.reference_bandwidth,
                                            100u32,
                                        ),
                                        interfaces,
                                        redistribute,
                                        areas,
                                        distance: b.distance,
                                        default_originate: b.default_originate,
                                        default_originate_metric: assemble::or(
                                            b.default_originate_metric,
                                            1u32,
                                        ),
                                        default_originate_metric_type: assemble::or(
                                            b.default_originate_metric_type,
                                            2u8,
                                        ),
                                        summary_addresses: summaries_of(b.summary_addresses@, 0),
                                        route_maps,
                                    },
                                ),
                            ),
                        },
                    },
                },
            },
        }
    }
}

/// The configuration of the instance of `vrf`. The default VRF has the flat block and FIB 0; any
/// other needs a block of its own and a declaration with another FIB.
pub open spec fn instance_config(c: RouterConfig, vrf: Option<Seq<char>>) -> Result<
    Option<config::Ospf6DaemonConfigView>,
    ConfigErrorView,
> {
    match vrf {
        None => built(c, c.ospf3.spec_block(), vrf, 0),
        Some(name) => match assemble::block_pos(c.ospf3.vrfs@, name, 0) {
            None => Err(ConfigErrorView::NoVrfBlock),
            Some(i) => match assemble::vrf_pos(c.vrfs@, name, 0) {
                None => Err(ConfigErrorView::VrfNotDeclared),
                Some(j) => if c.vrfs@[j].table_id_v6 == 0 {
                    Err(ConfigErrorView::ReservedTable)
                } else {
                    built(c, c.ospf3.vrfs@[i].spec_block(), vrf, c.vrfs@[j].table_id_v6)
                },
            },
        },
    }
}

/// The configurations of the VRF blocks from `from` on; those that are not enabled or not valid are
/// left out.
pub open spec fn vrf_configs(c: RouterConfig, from: int) -> Seq<config::Ospf6DaemonConfigView>
    decreases c.ospf3.vrfs@.len() - from,
{
    if from < 0 || from >= c.ospf3.vrfs@.len() {
        Seq::empty()
    } else {
        match instance_config(c, Some(c.ospf3.vrfs@[from].name@)) {
            Ok(Some(v)) => seq![v] + vrf_configs(c, from + 1),
            _ => vrf_configs(c, from + 1),
        }
    }
}

/// The configurations of all instances: the default one if it is enabled and valid, and those of
/// other VRFs that are.
pub open spec fn all_configs(c: RouterConfig) -> Seq<config::Ospf6DaemonConfigView> {
    (match instance_config(c, None) {
        Ok(Some(v)) => seq![v],
        _ => Seq::empty(),
    }) + vrf_configs(c, 0)
}

/// What an interface itself contributes.
fn build_parent(f: &InterfaceConfig, passive: bool, vrf: Option<&str>) -> (r: Result<
    Option<Ospf6InterfaceConfig>,
    ConfigError,
>)
    ensures
        match (r, parent_part(*f, passive, assemble::opt_name(vrf))) {
            (Ok(Some(x)), Ok(s)) => s == seq![x@],
            (Ok(None), Ok(s)) => s == Seq::<config::Ospf6InterfaceConfigView>::empty(),
            (Err(e), Err(g)) => e@ == g,
            _ => false,
        },
{
    if !belongs_to(&f.vrf, vrf) {
        return Ok(None);
    }
    let v = match &f.ospf3_area {
        None => {
            return Ok(None);
        },
        Some(v) => v,
    };
    let area_id: u32 = match parse_area_id_value(v) {
        Err(e) => {
            return Err(e);
        },
        Ok(a) => a,
    };
    let kind = kind_text(&f.ospf3_network_type);
    let neighbors = static_neighbors(kind.as_str(), &f.ospf3_neighbors);
    Ok(
        Some(
            Ospf6InterfaceConfig {
                name: name_text(&f.name),
                area_id,
                cost: f.ospf3_cost.unwrap_or(10),
                passive: f.ospf3_passive.unwrap_or(passive),
                network_type: kind,
                hello_interval: f.ospf3_hello_interval.unwrap_or(10),
                dead_interval: f.ospf3_dead_interval.unwrap_or(40),
                retransmit_interval: f.ospf3_retransmit_interval.unwrap_or(5),
                transmit_delay: f.ospf3_transmit_delay.unwrap_or(1),
                priority: f.ospf3_priority.unwrap_or(1),
                instance_id: f.ospf3_instance_id.unwrap_or(0),
                static_neighbors: neighbors,
            },
        ),
    )
}

/// What a VLAN on an interface contributes.
fn build_sub(parent: &str, f: &SubInterfaceConfig, passive: bool, vrf: Option<&str>) -> (r: Result<
    Option<Ospf6InterfaceConfig>,
    ConfigError,
>)
    ensures
        match (r, sub_part(parent@, *f, passive, assemble::opt_name(vrf))) {
            (Ok(Some(x)), Ok(s)) => s == seq![x@],
            (Ok(None), Ok(s)) => s == Seq::<config::Ospf6InterfaceConfigView>::empty(),
            (Err(e), Err(g)) => e@ == g,
            _ => false,
        },
{
    if !belongs_to(&f.vrf, vrf) {
        return Ok(None);
    }
    let v = match &f.ospf3_area {
        None => {
            return Ok(None);
        },
        Some(v) => v,
    };
    let area_id: u32 = match parse_area_id_value(v) {
        Err(e) => {
            return Err(e);
        },
        Ok(a) => a,
    };
    let kind = kind_text(&f.ospf3_network_type);
    let neighbors = static_neighbors(kind.as_str(), &f.ospf3_neighbors);
    Ok(
        Some(
            Ospf6InterfaceConfig {
                name: vlan_text(parent, f.vlan_id),
                area_id,
                cost: f.ospf3_cost.unwrap_or(10),
                passive: f.ospf3_passive.unwrap_or(passive),
                network_type: kind,
                hello_interval: f.ospf3_hello_interval.unwrap_or(10),
                dead_interval: f.ospf3_dead_interval.unwrap_or(40),
                retransmit_interval: f.ospf3_retransmit_interval.unwrap_or(5),
                transmit_delay: f.ospf3_transmit_delay.unwrap_or(1),
                priority: f.ospf3_priority.unwrap_or(1),
                instance_id: f.ospf3_instance_id.unwrap_or(0),
                static_neighbors: neighbors,
            },
        ),
    )
}

/// What a loopback contributes.
fn build_loopback(f: &LoopbackConfig, vrf: Option<&str>) -> (r: Result<
    Option<Ospf6InterfaceConfig>,
    ConfigError,
>)
    ensures
        match (r, loopback_part(*f, assemble::opt_name(vrf))) {
            (Ok(Some(x)), Ok(s)) => s == seq![x@],
            (Ok(None), Ok(s)) => s == Seq::<config::Ospf6InterfaceConfigView>::empty(),
            (Err(e), Err(g)) => e@ == g,
            _ => false,
        },
{
    if !belongs_to(&f.vrf, vrf) {
        return Ok(None);
    }
    let v = match &f.ospf3_area {
        None => {
            return Ok(None);
        },
        Some(v) => v,
    };
    let area_id: u32 = match parse_area_id_value(v) {
        Err(e) => {
            return Err(e);
        },
        Ok(a) => a,
    };
    let none: Vec<(u128, u8)> = Vec::new();
    assert(none@ =~= Seq::empty());
    Ok(
        Some(
            Ospf6InterfaceConfig {
                name: name_text(&f.name),
                area_id,
                cost: f.ospf3_cost.unwrap_or(1),
                passive: f.ospf3_passive.unwrap_or(true),
                network_type: "point-to-point".to_owned(),
                hello_interval: 10,
                dead_interval: 40,
                retransmit_interval: 5,
                transmit_delay: 1,
                priority: 0,
                instance_id: 0,
                static_neighbors: none,
            },
        ),
    )
}

/// Appends what the VLANs of an interface contribute.
fn build_subs(
    parent: &str,
    fs: &Vec<SubInterfaceConfig>,
    passive: bool,
    vrf: Option<&str>,
    out: &mut Vec<Ospf6InterfaceConfig>,
) -> (r: Result<(), ConfigError>)
    ensures
        match (r, sub_parts(parent@, fs@, passive, assemble::opt_name(vrf), 0)) {
            (Ok(_), Ok(s)) => wire::views(final(out)@) == wire::views(old(out)@) + s,
            (Err(e), Err(g)) => e@ == g,
            _ => false,
        },
{
    let ghost start = wire::views(out@);
    let ghost v = assemble::opt_name(vrf);
    let ghost all = sub_parts(parent@, fs@, passive, v, 0);
    let mut i: usize = 0;
    assert(all matches Ok(s) ==> start + s =~= wire::views(out@) + s);
    while i < fs.len()
        invariant
            i <= fs@.len(),
            v == assemble::opt_name(vrf),
            all == sub_parts(parent@, fs@, passive, v, 0),
            match (all, sub_parts(parent@, fs@, passive, v, i as int)) {
                (Ok(s), Ok(rest)) => start + s == wire::views(out@) + rest,
                (Err(e), Err(g)) => e == g,
                _ => false,
            },
        decreases fs.len() - i,
    {
        match build_sub(parent, &fs[i], passive, vrf) {
            Err(e) => {
                return Err(e);
            },
            Ok(None) => {
                proof {
                    match sub_parts(parent@, fs@, passive, v, i + 1) {
                        Ok(rest) => {
                            assert(Seq::<config::Ospf6InterfaceConfigView>::empty() + rest =~= rest);
                        },
                        Err(_) => {},
                    }
                }
            },
            Ok(Some(x)) => {
                let ghost before = wire::views(out@);
                let ghost xv = x@;
                out.push(x);
                proof {
                    match sub_parts(parent@, fs@, passive, v, i + 1) {
                        Ok(rest) => {
                            assert(before + (seq![xv] + rest) =~= wire::views(out@) + rest);
                        },
                        Err(_) => {},
                    }
                }
            },
        }
        i = i + 1;
    }
    assert(wire::views(out@) + Seq::<config::Ospf6InterfaceConfigView>::empty() =~= wire::views(
        out@,
    ));
    Ok(())
}

/// Appends what an interface and its VLANs contribute.
fn build_interface(
    f: &InterfaceConfig,
    passive: bool,
    vrf: Option<&str>,
    out: &mut Vec<Ospf6InterfaceConfig>,
) -> (r: Result<(), ConfigError>)
    ensures
        match (r, interface_part(*f, passive, assemble::opt_name(vrf))) {
            (Ok(_), Ok(s)) => wire::views(final(out)@) == wire::views(old(out)@) + s,
            (Err(e), Err(g)) => e@ == g,
            _ => false,
        },
{
    let ghost start = wire::views(out@);
    let ghost want = interface_part(*f, passive, assemble::opt_name(vrf));
    let ghost own = parent_part(*f, passive, assemble::opt_name(vrf));
    match build_parent(f, passive, vrf) {
        Err(e) => {
            return Err(e);
        },
        Ok(None) => {
            assert(wire::views(out@) =~= start + own->Ok_0);
        },
        Ok(Some(x)) => {
            let ghost xv = x@;
            out.push(x);
            assert(wire::views(out@) =~= start + seq![xv]);
        },
    }
    assert(wire::views(out@) == start + own->Ok_0);
    let ghost mid = wire::views(out@);
    match &f.name {
        Some(n) => {
            if n.as_str().is_empty() {
                assert(own->Ok_0 + Seq::<config::Ospf6InterfaceConfigView>::empty()
                    =~= own->Ok_0);
                return Ok(());
            }
            match build_subs(n.as_str(), &f.subinterfaces, passive, vrf, out) {
                Err(e) => Err(e),
                Ok(_) => {
                    let ghost subs = sub_parts(
                        n@,
                        f.subinterfaces@,
                        passive,
                        assemble::opt_name(vrf),
                        0,
                    )->Ok_0;
                    assert((start + own->Ok_0) + subs =~= start + (own->Ok_0 + subs));
                    Ok(())
                },
            }
        },
        None => {
            assert(own->Ok_0 + Seq::<config::Ospf6InterfaceConfigView>::empty() =~= own->Ok_0);
            Ok(())
        },
    }
}

/// Appends what the interfaces contribute.
fn build_interfaces(
    fs: &Vec<InterfaceConfig>,
    passive: bool,
    vrf: Option<&str>,
    out: &mut Vec<Ospf6InterfaceConfig>,
) -> (r: Result<(), ConfigError>)
    ensures
        match (r, interface_parts(fs@, passive, assemble::opt_name(vrf), 0)) {
            (Ok(_), Ok(s)) => wire::views(final(out)@) == wire::views(old(out)@) + s,
            (Err(e), Err(g)) => e@ == g,
            _ => false,
        },
{
    let ghost start = wire::views(out@);
    let ghost v = assemble::opt_name(vrf);
    let ghost all = interface_parts(fs@, passive, v, 0);
    let mut i: usize = 0;
    assert(all matches Ok(s) ==> start + s =~= wire::views(out@) + s);
    while i < fs.len()
        invariant
            i <= fs@.len(),
            v == assemble::opt_name(vrf),
            all == interface_parts(fs@, passive, v, 0),
            match (all, interface_parts(fs@, passive, v, i as int)) {
                (Ok(s), Ok(rest)) => start + s == wire::views(out@) + rest,
                (Err(e), Err(g)) => e == g,
                _ => false,
            },
        decreases fs.len() - i,
    {
        let ghost before = wire::views(out@);
        match build_interface(&fs[i], passive, vrf, out) {
            Err(e) => {
                return Err(e);
            },
            Ok(_) => {
                proof {
                    match interface_parts(fs@, passive, v, i + 1) {
                        Ok(rest) => {
                            let x = interface_part(fs@[i as int], passive, v)->Ok_0;
                            assert(before + (x + rest) =~= wire::views(out@) + rest);
                        },
                        Err(_) => {},
                    }
                }
            },
        }
        i = i + 1;
    }
    assert(wire::views(out@) + Seq::<config::Ospf6InterfaceConfigView>::empty() =~= wire::views(
        out@,
    ));
    Ok(())
}

/// Appends what the loopbacks contribute.
fn build_loopbacks(
    fs: &Vec<LoopbackConfig>,
    vrf: Option<&str>,
    out: &mut Vec<Ospf6InterfaceConfig>,
) -> (r: Result<(), ConfigError>)
    ensures
        match (r, loopback_parts(fs@, assemble::opt_name(vrf), 0)) {
            (Ok(_), Ok(s)) => wire::views(final(out)@) == wire::views(old(out)@) + s,
            (Err(e), Err(g)) => e@ == g,
            _ => false,
        },
{
    let ghost start = wire::views(out@);
    let ghost v = assemble::opt_name(vrf);
    let ghost all = loopback_parts(fs@, v, 0);
    let mut i: usize = 0;
    assert(all matches Ok(s) ==> start + s =~= wire::views(out@) + s);
    while i < fs.len()
        invariant
            i <= fs@.len(),
            v == assemble::opt_name(vrf),
            all == loopback_parts(fs@, v, 0),
            match (all, loopback_parts(fs@, v, i as int)) {
                (Ok(s), Ok(rest)) => start + s == wire::views(out@) + rest,
                (Err(e), Err(g)) => e == g,
                _ => false,
            },
        decreases fs.len() - i,
    {
        match build_loopback(&fs[i], vrf) {
            Err(e) => {
                return Err(e);
            },
            Ok(None) => {
                proof {
                    match loopback_parts(fs@, v, i + 1) {
                        Ok(rest) => {
                            assert(Seq::<config::Ospf6InterfaceConfigView>::empty() + rest =~= rest);
                        },
                        Err(_) => {},
                    }
                }
            },
            Ok(Some(x)) => {
                let ghost before = wire::views(out@);
                let ghost xv = x@;
                out.push(x);
                proof {
                    match loopback_parts(fs@, v, i + 1) {
                        Ok(rest) => {
                            assert(before + (seq![xv] + rest) =~= wire::views(out@) + rest);
                        },
                        Err(_) => {},
                    }
                }
            },
        }
        i = i + 1;
    }
    assert(wire::views(out@) + Seq::<config::Ospf6InterfaceConfigView>::empty() =~= wire::views(
        out@,
    ));
    Ok(())
}

/// The summary range of an entry.
pub fn parse_summary_v6(e: &SummaryAddressEntry) -> (r: Option<ParsedSummaryAddress6>)
    ensures
        r == summary_of(*e),
{
    match split_cidr(e.prefix.as_str()) {
        None => None,
        Some((a, prefix_len)) => match parse_ipv6(a) {
            None => None,
            Some(_) if prefix_len > 128 => None,
            Some(prefix) => Some(
                ParsedSummaryAddress6 {
                    prefix,
                    prefix_len,
                    no_advertise: e.no_advertise,
                    tag: e.tag.unwrap_or(0),
                    metric: e.metric.unwrap_or(20),
                    metric_type: e.metric_type.unwrap_or(2),
                },
            ),
        },
    }
}

/// The summary ranges whose prefix can be read.
fn build_summaries(es: &Vec<SummaryAddressEntry>) -> (r: Vec<ParsedSummaryAddress6>)
    ensures
        r@ == summaries_of(es@, 0),
{
    let mut v: Vec<ParsedSummaryAddress6> = Vec::new();
    let mut i: usize = 0;
    assert(v@ + summaries_of(es@, 0) =~= summaries_of(es@, 0));
    while i < es.len()
        invariant
            i <= es@.len(),
            summaries_of(es@, 0) == v@ + summaries_of(es@, i as int),
        decreases es.len() - i,
    {
        match parse_summary_v6(&es[i]) {
            Some(s) => {
                let ghost before = v@;
                v.push(s);
                assert(before + (seq![s] + summaries_of(es@, i + 1)) =~= v@ + summaries_of(
                    es@,
                    i + 1,
                ));
            },
            None => {},
        }
        i = i + 1;
    }
    assert(v@ + Seq::<ParsedSummaryAddress6>::empty() =~= v@);
    v
}

/// The configuration of the instance that a block describes; nothing if it is not enabled.
fn build(c: &RouterConfig, b: &OspfBlock<'_>, vrf: Option<&str>, table_id_v6: u32) -> (r: Result<
    Option<Ospf6DaemonConfig>,
    ConfigError,
>)
    ensures
        match (r, built(*c, *b, assemble::opt_name(vrf), table_id_v6)) {
            (Ok(Some(x)), Ok(Some(v))) => x@ == v,
            (Ok(None), Ok(None)) => true,
            (Err(e), Err(f)) => e@ == f,
            _ => false,
        },
{
    if !b.enabled {
        return Ok(None);
    }
    let router_id: u32 = match parse_router_id(b.router_id) {
        Err(e) => {
            return Err(e);
        },
        Ok(a) => a,
    };
    let mut interfaces: Vec<Ospf6InterfaceConfig> = Vec::new();
    let ghost none = wire::views(interfaces@);
    match build_interfaces(&c.interfaces, b.passive_default, vrf, &mut interfaces) {
        Err(e) => {
            return Err(e);
        },
        Ok(_) => {},
    }
    let ghost first = interface_parts(c.interfaces@, b.passive_default, assemble::opt_name(vrf), 0)->Ok_0;
    assert(wire::views(interfaces@) =~= first);
    match build_loopbacks(&c.loopbacks, vrf, &mut interfaces) {
        Err(e) => {
            return Err(e);
        },
        Ok(_) => {},
    }
    let route_maps = match compile_route_maps(&c.route_maps) {
        Err(e) => {
            return Err(e);
        },
        Ok(m) => m,
    };
    let redistribute = match build_rules(b.redistribute, &route_maps) {
        Err(e) => {
            return Err(e);
        },
        Ok(m) => m,
    };
    let areas = match build_areas(b.areas) {
        Err(e) => {
            return Err(e);
        },
        Ok(m) => m,
    };
    Ok(
        Some(
        Ospf6DaemonConfig {
            vrf_name: match vrf {
                Some(n) => Some(n.to_owned()),
                None => None,
            },
            table_id_v6,
            router_id,
            reference_bandwidth: b.reference_bandwidth.unwrap_or(100),
            interfaces,
            redistribute,
            areas,
            distance: b.distance,
            default_originate: b.default_originate,
            default_originate_metric: b.default_originate_metric.unwrap_or(1),
            default_originate_metric_type: b.default_originate_metric_type.unwrap_or(2),
            summary_addresses: build_summaries(b.summary_addresses),
            route_maps,
        },
        ),
    )
}

impl Ospf6DaemonConfig {
    /// Builds the configuration of the default instance, or of that of a VRF; nothing if it is not
    /// enabled.
    pub fn from_router_yaml(config: &RouterConfig, vrf_name: Option<&str>) -> (r: Result<
        Option<Ospf6DaemonConfig>,
        ConfigError,
    >)
        ensures
            match (r, instance_config(*config, assemble::opt_name(vrf_name))) {
                (Ok(Some(x)), Ok(Some(v))) => x@ == v,
                (Ok(None), Ok(None)) => true,
                (Err(e), Err(f)) => e@ == f,
                _ => false,
            },
    {
        match vrf_name {
            None => build(config, &config.ospf3.block(), vrf_name, 0),
            Some(name) => match find_block(&config.ospf3.vrfs, name) {
                None => Err(ConfigError::NoVrfBlock),
                Some(i) => match find_vrf(&config.vrfs, name) {
                    None => Err(ConfigError::VrfNotDeclared),
                    Some(j) => {
                        let table: u32 = config.vrfs[j].table_id_v6;
                        if table == 0 {
                            Err(ConfigError::ReservedTable)
                        } else {
                            build(config, &config.ospf3.vrfs[i].block(), vrf_name, table)
                        }
                    },
                },
            },
        }
    }

    /// Builds the configurations of all instances that the file describes. One that is not valid is
    /// left out and does not keep the others from running.
    pub fn load_all(config: &RouterConfig) -> (r: Vec<Ospf6DaemonConfig>)
        ensures
            wire::views(r@) == all_configs(*config),
    {
        let mut out: Vec<Ospf6DaemonConfig> = Vec::new();
        assert(wire::views(out@) =~= Seq::empty());
        match Ospf6DaemonConfig::from_router_yaml(config, None) {
            Ok(Some(c)) => {
                let ghost cv = c@;
                out.push(c);
                assert(wire::views(out@) =~= seq![cv]);
            },
            _ => {},
        }
        let ghost first = wire::views(out@);
        let mut i: usize = 0;
        while i < config.ospf3.vrfs.len()
            invariant
                i <= config.ospf3.vrfs@.len(),
                first + vrf_configs(*config, 0) == wire::views(out@) + vrf_configs(
                    *config,
                    i as int,
                ),
            decreases config.ospf3.vrfs.len() - i,
        {
            let name = config.ospf3.vrfs[i].name.as_str();
            match Ospf6DaemonConfig::from_router_yaml(config, Some(name)) {
                Ok(Some(c)) => {
                    let ghost before = wire::views(out@);
                    let ghost cv = c@;
                    out.push(c);
                    assert(before + (seq![cv] + vrf_configs(*config, i + 1)) =~= wire::views(out@)
                        + vrf_configs(*config, i + 1));
                },
                _ => {},
            }
            i = i + 1;
        }
        assert(wire::views(out@) + Seq::<config::Ospf6DaemonConfigView>::empty() =~= wire::views(
            out@,
        ));
        out
    }
}

} // verus!
