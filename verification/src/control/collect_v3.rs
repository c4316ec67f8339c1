//! What the replies say of an OSPFv3 instance.
use vstd::prelude::*;

use crate::config::ParsedSummaryAddress6;
use crate::control::collect;
use crate::control::collect::{as_filter, copy_name, time_left};
use crate::control::order;
use crate::control::order::in_listing_order;
use crate::control::reply;
use crate::control::reply::{
    AreaStatus, ControlRequest, ControlResponse, DatabaseReply, InterfaceStatus, InterfacesReply,
    LsaSummary, NeighborStatus, NeighborsReply, Route6NextHop, Route6Status, Routes6Reply,
    StatusReply, SummaryAddressStatus,
};
use crate::instance_v3;
use crate::instance_v3::inter_area;
use crate::instance_v3::{
    InstanceV3, InterfaceStateV3, InterfaceV3, NeighborStateV3, NeighborV3, NetworkTypeV3,
};
use crate::lsdb_v3;
use crate::lsdb_v3::LsaEntryV3;
use crate::packet_v3::LsaV3Type;
use crate::spf_v3;
use crate::spf_v3::{calculate_spf_v3, SpfRouteV3};
use crate::text;
use crate::text::{append_decimal, append_ipv4, folds_to, ipv4_string, ipv6_string};
use crate::wire;
use crate::wire::same_text;

verus! {

broadcast use {wire::lemma_views_push, wire::lemma_views_update};

/// The name of an adjacency state.
pub open spec fn neighbor_state_name(s: NeighborStateV3) -> Seq<char> {
    match s {
        NeighborStateV3::Down => "Down"@,
        NeighborStateV3::Init => "Init"@,
        NeighborStateV3::TwoWay => "TwoWay"@,
        NeighborStateV3::ExStart => "ExStart"@,
        NeighborStateV3::Exchange => "Exchange"@,
        NeighborStateV3::Loading => "Loading"@,
        NeighborStateV3::Full => "Full"@,
    }
}

fn name_of_neighbor_state(s: NeighborStateV3) -> (r: &'static str)
    ensures
        r@ == neighbor_state_name(s),
{
    match s {
        NeighborStateV3::Down => "Down",
        NeighborStateV3::Init => "Init",
        NeighborStateV3::TwoWay => "TwoWay",
        NeighborStateV3::ExStart => "ExStart",
        NeighborStateV3::Exchange => "Exchange",
        NeighborStateV3::Loading => "Loading",
        NeighborStateV3::Full => "Full",
    }
}

/// The name of an interface state.
pub open spec fn interface_state_name(s: InterfaceStateV3) -> Seq<char> {
    match s {
        InterfaceStateV3::Down => "Down"@,
        InterfaceStateV3::PointToPoint => "PointToPoint"@,
        InterfaceStateV3::Waiting => "Waiting"@,
        InterfaceStateV3::DR => "DR"@,
        InterfaceStateV3::Backup => "Backup"@,
        InterfaceStateV3::DROther => "DROther"@,
    }
}

fn name_of_interface_state(s: InterfaceStateV3) -> (r: &'static str)
    ensures
        r@ == interface_state_name(s),
{
    match s {
        InterfaceStateV3::Down => "Down",
        InterfaceStateV3::PointToPoint => "PointToPoint",
        InterfaceStateV3::Waiting => "Waiting",
        InterfaceStateV3::DR => "DR",
        InterfaceStateV3::Backup => "Backup",
        InterfaceStateV3::DROther => "DROther",
    }
}

/// The name of a network type.
pub open spec fn network_type_name(t: NetworkTypeV3) -> Seq<char> {
    match t {
        NetworkTypeV3::Broadcast => "Broadcast"@,
        NetworkTypeV3::PointToPoint => "PointToPoint"@,
        NetworkTypeV3::NonBroadcast => "NonBroadcast"@,
        NetworkTypeV3::PointToMultipoint => "PointToMultipoint"@,
    }
}

fn name_of_network_type(t: NetworkTypeV3) -> (r: &'static str)
    ensures
        r@ == network_type_name(t),
{
    match t {
        NetworkTypeV3::Broadcast => "Broadcast",
        NetworkTypeV3::PointToPoint => "PointToPoint",
        NetworkTypeV3::NonBroadcast => "NonBroadcast",
        NetworkTypeV3::PointToMultipoint => "PointToMultipoint",
    }
}

/// The name of an LSA type.
pub open spec fn ls_type_name(t: LsaV3Type) -> Seq<char> {
    match t {
        LsaV3Type::Router => "Router"@,
        LsaV3Type::Network => "Network"@,
        LsaV3Type::InterAreaPrefix => "InterAreaPrefix"@,
        LsaV3Type::InterAreaRouter => "InterAreaRouter"@,
        LsaV3Type::AsExternal => "AsExternal"@,
        LsaV3Type::Nssa => "Nssa"@,
        LsaV3Type::Link => "Link"@,
        LsaV3Type::IntraAreaPrefix => "IntraAreaPrefix"@,
    }
}

fn name_of_ls_type(t: LsaV3Type) -> (r: &'static str)
    ensures
        r@ == ls_type_name(t),
{
    match t {
        LsaV3Type::Router => "Router",
        LsaV3Type::Network => "Network",
        LsaV3Type::InterAreaPrefix => "InterAreaPrefix",
        LsaV3Type::InterAreaRouter => "InterAreaRouter",
        LsaV3Type::AsExternal => "AsExternal",
        LsaV3Type::Nssa => "Nssa",
        LsaV3Type::Link => "Link",
        LsaV3Type::IntraAreaPrefix => "IntraAreaPrefix",
    }
}

/// The LSA type that a client means by `word`, in capital or small letters.
pub open spec fn ls_type_meant(word: Seq<char>) -> Option<LsaV3Type> {
    let w = text::folded(word);
    if w == "router"@ || w == "1"@ {
        Some(LsaV3Type::Router)
    } else if w == "network"@ || w == "2"@ {
        Some(LsaV3Type::Network)
    } else if w == "inter-area-prefix"@ || w == "inter-area"@ || w == "3"@ {
        Some(LsaV3Type::InterAreaPrefix)
    } else if w == "inter-area-router"@ || w == "4"@ {
        Some(LsaV3Type::InterAreaRouter)
    } else if w == "external"@ || w == "as-external"@ || w == "5"@ {
        Some(LsaV3Type::AsExternal)
    } else if w == "nssa"@ || w == "7"@ {
        Some(LsaV3Type::Nssa)
    } else if w == "link"@ || w == "8"@ {
        Some(LsaV3Type::Link)
    } else if w == "intra-area-prefix"@ || w == "9"@ {
        Some(LsaV3Type::IntraAreaPrefix)
    } else {
        None
    }
}

/// Whether `filter` names the LSA type. A word that names none selects nothing.
pub fn matches_ls_type_v3(ls_type: &LsaV3Type, filter: &str) -> (r: bool)
    ensures
        r == (ls_type_meant(filter@) == Some(*ls_type)),
{
    if folds_to(filter, "router") || folds_to(filter, "1") {
        *ls_type == LsaV3Type::Router
    } else if folds_to(filter, "network") || folds_to(filter, "2") {
        *ls_type == LsaV3Type::Network
    } else if folds_to(filter, "inter-area-prefix") || folds_to(filter, "inter-area") || folds_to(
        filter,
        "3",
    ) {
        *ls_type == LsaV3Type::InterAreaPrefix
    } else if folds_to(filter, "inter-area-router") || folds_to(filter, "4") {
        *ls_type == LsaV3Type::InterAreaRouter
    } else if folds_to(filter, "external") || folds_to(filter, "as-external") || folds_to(
        filter,
        "5",
    ) {
        *ls_type == LsaV3Type::AsExternal
    } else if folds_to(filter, "nssa") || folds_to(filter, "7") {
        *ls_type == LsaV3Type::Nssa
    } else if folds_to(filter, "link") || folds_to(filter, "8") {
        *ls_type == LsaV3Type::Link
    } else if folds_to(filter, "intra-area-prefix") || folds_to(filter, "9") {
        *ls_type == LsaV3Type::IntraAreaPrefix
    } else {
        false
    }
}

/// How many of the neighbors are fully adjacent.
pub open spec fn full_in(s: Seq<instance_v3::NeighborV3View>) -> nat
    decreases s.len(),
{
    if s.len() == 0 {
        0
    } else {
        full_in(s.drop_last()) + if s.last().state == NeighborStateV3::Full {
            1nat
        } else {
            0
        }
    }
}

fn count_full(ns: &Vec<NeighborV3>) -> (n: usize)
    ensures
        n == full_in(wire::views(ns@)),
{
    let ghost s = wire::views(ns@);
    let mut n: usize = 0;
    let mut i: usize = 0;
    assert(s.take(0) =~= Seq::empty());
    while i < ns.len()
        invariant
            i <= ns@.len(),
            n <= i,
            s == wire::views(ns@),
            n == full_in(s.take(i as int)),
        decreases ns.len() - i,
    {
        assert(s.take(i + 1).drop_last() =~= s.take(i as int));
        if ns[i].state == NeighborStateV3::Full {
            n = n + 1;
        }
        i = i + 1;
    }
    assert(s.take(i as int) =~= s);
    n
}

/// How many of the interfaces belong to an area.
pub open spec fn interfaces_in(s: Seq<instance_v3::InterfaceV3View>, area: u32) -> nat
    decreases s.len(),
{
    if s.len() == 0 {
        0
    } else {
        interfaces_in(s.drop_last(), area) + if s.last().area_id == area {
            1nat
        } else {
            0
        }
    }
}

/// How many neighbors in an area are fully adjacent.
pub open spec fn adjacent_in(s: Seq<instance_v3::InterfaceV3View>, area: u32) -> nat
    decreases s.len(),
{
    if s.len() == 0 {
        0
    } else {
        adjacent_in(s.drop_last(), area) + if s.last().area_id == area {
            full_in(s.last().neighbors)
        } else {
            0
        }
    }
}

/// The figures of one area. The database is not split by area, so each area reports all of it.
pub open spec fn area_status(
    area: u32,
    ifs: Seq<instance_v3::InterfaceV3View>,
    lsas: nat,
) -> reply::AreaStatusView {
    reply::AreaStatusView {
        area_id: text::ipv4_text(area),
        lsa_count: lsas as usize,
        interface_count: interfaces_in(ifs, area) as usize,
        fully_adjacent_neighbors: collect::counted(adjacent_in(ifs, area)),
    }
}

fn status_of_area(area: u32, ifs: &Vec<InterfaceV3>, lsas: usize) -> (r: AreaStatus)
    ensures
        r@ == area_status(area, wire::views(ifs@), lsas as nat),
{
    let ghost s = wire::views(ifs@);
    let mut n: usize = 0;
    let mut full: usize = 0;
    let mut i: usize = 0;
    assert(s.take(0) =~= Seq::empty());
    while i < ifs.len()
        invariant
            i <= ifs@.len(),
            n <= i,
            s == wire::views(ifs@),
            n == interfaces_in(s.take(i as int), area),
            full == collect::counted(adjacent_in(s.take(i as int), area)),
        decreases ifs.len() - i,
    {
        assert(s.take(i + 1).drop_last() =~= s.take(i as int));
        assert(s.take(i + 1).last() == ifs@[i as int]@);
        if ifs[i].area_id == area {
            n = n + 1;
            full = full.saturating_add(count_full(&ifs[i].neighbors));
        }
        i = i + 1;
    }
    assert(s.take(i as int) =~= s);
    AreaStatus {
        area_id: ipv4_string(area),
        lsa_count: lsas,
        interface_count: n,
        fully_adjacent_neighbors: full,
    }
}

/// A summary range.
pub open spec fn summary_status(s: ParsedSummaryAddress6) -> reply::SummaryAddressStatusView {
    reply::SummaryAddressStatusView {
        prefix: text::ipv6_text(s.prefix) + "/"@ + text::decimal_text(s.prefix_len as nat),
        no_advertise: s.no_advertise,
        tag: s.tag,
        metric: s.metric,
        metric_type: s.metric_type,
    }
}

fn status_of_summary(s: &ParsedSummaryAddress6) -> (r: SummaryAddressStatus)
    ensures
        r@ == summary_status(*s),
{
    let mut prefix = ipv6_string(s.prefix);
    prefix.append("/");
    append_decimal(&mut prefix, s.prefix_len as u32);
    SummaryAddressStatus {
        prefix,
        no_advertise: s.no_advertise,
        tag: s.tag,
        metric: s.metric,
        metric_type: s.metric_type,
    }
}

/// How many of the LSAs are AS-external.
pub open spec fn externals_in(s: Seq<lsdb_v3::LsaEntryV3View>) -> nat
    decreases s.len(),
{
    if s.len() == 0 {
        0
    } else {
        externals_in(s.drop_last()) + if s.last().header.ls_type == LsaV3Type::AsExternal {
            1nat
        } else {
            0
        }
    }
}

fn count_externals(es: &Vec<LsaEntryV3>) -> (n: usize)
    ensures
        n == externals_in(wire::views(es@)),
{
    let ghost s = wire::views(es@);
    let mut n: usize = 0;
    let mut i: usize = 0;
    assert(s.take(0) =~= Seq::empty());
    while i < es.len()
        invariant
            i <= es@.len(),
            n <= i,
            s == wire::views(es@),
            n == externals_in(s.take(i as int)),
        decreases es.len() - i,
    {
        assert(s.take(i + 1).drop_last() =~= s.take(i as int));
        if es[i].header.ls_type == LsaV3Type::AsExternal {
            n = n + 1;
        }
        i = i + 1;
    }
    assert(s.take(i as int) =~= s);
    n
}

/// An instance in figures. Border routers are not reported, and installed routes are kept outside
/// the instance.
pub open spec fn status(inst: instance_v3::InstanceV3View) -> reply::StatusReplyView {
    let areas = instance_v3::areas_of(inst.interfaces);
    reply::StatusReplyView {
        vrf_name: inst.vrf_name,
        router_id: text::ipv4_text(inst.router_id),
        areas: order::listed::<AreaStatus>(
            Seq::new(
                areas.len(),
                |i: int| area_status(areas[i], inst.interfaces, inst.lsdb.entries.len()),
            ),
            0,
            1,
        ),
        is_abr: false,
        as_external_lsa_count: externals_in(inst.lsdb.entries) as usize,
        installed_route_count: 0,
        summary_addresses: Seq::new(
            inst.summary_addresses.len(),
            |i: int| summary_status(inst.summary_addresses[i]),
        ),
    }
}

/// An instance in figures.
pub fn collect_status_v3(inst: &InstanceV3) -> (r: StatusReply)
    ensures
        r@ == status(inst@),
{
    let ids: Vec<u32> = inst.areas();
    let lsas: usize = inst.lsdb.len();
    let mut areas: Vec<AreaStatus> = Vec::new();
    let mut i: usize = 0;
    let ghost want = Seq::new(
        ids@.len(),
        |k: int| area_status(ids@[k], inst@.interfaces, inst@.lsdb.entries.len()),
    );
    while i < ids.len()
        invariant
            i <= ids@.len(),
            want.len() == ids@.len(),
            lsas == inst@.lsdb.entries.len(),
            forall|k: int|
                0 <= k < want.len() ==> want[k] == area_status(
                    ids@[k],
                    inst@.interfaces,
                    inst@.lsdb.entries.len(),
                ),
            wire::views(areas@) =~= want.take(i as int),
        decreases ids.len() - i,
    {
        areas.push(status_of_area(ids[i], &inst.interfaces, lsas));
        i = i + 1;
    }
    assert(want.take(i as int) =~= want);
    let areas = in_listing_order(areas, 0, 1);
    let mut ranges: Vec<SummaryAddressStatus> = Vec::new();
    let mut j: usize = 0;
    while j < inst.summary_addresses.len()
        invariant
            j <= inst.summary_addresses@.len(),
            wire::views(ranges@) =~= Seq::new(
                j as nat,
                |k: int| summary_status(inst.summary_addresses@[k]),
            ),
        decreases inst.summary_addresses.len() - j,
    {
        ranges.push(status_of_summary(&inst.summary_addresses[j]));
        j = j + 1;
    }
    StatusReply {
        vrf_name: copy_name(&inst.vrf_name),
        router_id: ipv4_string(inst.router_id),
        areas,
        is_abr: false,
        as_external_lsa_count: count_externals(inst.lsdb.iter()),
        installed_route_count: 0,
        summary_addresses: ranges,
    }
}

/// One neighbor.
pub open spec fn neighbor_status(
    n: instance_v3::NeighborV3View,
    iface: instance_v3::InterfaceV3View,
    now: u64,
) -> reply::NeighborStatusView {
    reply::NeighborStatusView {
        router_id: text::ipv4_text(n.router_id),
        address: text::ipv6_text(n.link_local),
        interface: iface.io.name,
        area_id: text::ipv4_text(iface.area_id),
        state: neighbor_state_name(n.state),
        priority: n.priority,
        dr: text::ipv4_text(n.dr),
        bdr: text::ipv4_text(n.bdr),
        dead_seconds_remaining: collect::seconds_left(
            iface.dead_interval * 1000,
            n.last_hello,
            now,
        ),
    }
}

/// The neighbors of the interfaces, interface by interface.
pub open spec fn neighbor_statuses(s: Seq<instance_v3::InterfaceV3View>, now: u64) -> Seq<
    reply::NeighborStatusView,
>
    decreases s.len(),
{
    if s.len() == 0 {
        Seq::empty()
    } else {
        neighbor_statuses(s.drop_last(), now) + Seq::new(
            s.last().neighbors.len(),
            |i: int| neighbor_status(s.last().neighbors[i], s.last(), now),
        )
    }
}

fn push_neighbors(iface: &InterfaceV3, now: u64, out: &mut Vec<NeighborStatus>)
    ensures
        wire::views(final(out)@) == wire::views(old(out)@) + Seq::new(
            iface@.neighbors.len(),
            |i: int| neighbor_status(iface@.neighbors[i], iface@, now),
        ),
{
    let ghost before = wire::views(out@);
    let mut i: usize = 0;
    while i < iface.neighbors.len()
        invariant
            i <= iface.neighbors@.len(),
            wire::views(out@) =~= before + Seq::new(
                i as nat,
                |k: int| neighbor_status(iface@.neighbors[k], iface@, now),
            ),
        decreases iface.neighbors.len() - i,
    {
        let n = &iface.neighbors[i];
        out.push(
            NeighborStatus {
                router_id: ipv4_string(n.router_id),
                address: ipv6_string(n.link_local),
                interface: iface.io.name.as_str().to_owned(),
                area_id: ipv4_string(iface.area_id),
                state: name_of_neighbor_state(n.state).to_owned(),
                priority: n.priority,
                dr: ipv4_string(n.dr),
                bdr: ipv4_string(n.bdr),
                dead_seconds_remaining: time_left(
                    iface.dead_interval as u64 * 1000,
                    n.last_hello,
                    now,
                ),
            },
        );
        i = i + 1;
    }
}

/// The neighbors by the text of their router ids.
pub fn collect_neighbors_v3(inst: &InstanceV3, now: u64) -> (r: NeighborsReply)
    ensures
        r@.neighbors == order::listed::<NeighborStatus>(
            neighbor_statuses(inst@.interfaces, now),
            0,
            1,
        ),
{
    let mut out: Vec<NeighborStatus> = Vec::new();
    let ghost s = inst@.interfaces;
    let mut i: usize = 0;
    assert(s.take(0) =~= Seq::empty());
    assert(wire::views(out@) =~= Seq::empty());
    while i < inst.interfaces.len()
        invariant
            i <= inst.interfaces@.len(),
            s == inst@.interfaces,
            wire::views(out@) == neighbor_statuses(s.take(i as int), now),
        decreases inst.interfaces.len() - i,
    {
        assert(s.take(i + 1).drop_last() =~= s.take(i as int));
        assert(s.take(i + 1).last() == inst.interfaces@[i as int]@);
        push_neighbors(&inst.interfaces[i], now, &mut out);
        i = i + 1;
    }
    assert(s.take(i as int) =~= s);
    NeighborsReply { neighbors: in_listing_order(out, 0, 1) }
}

/// One interface. A link-local address has no mask to report, and the cost is the common one.
pub open spec fn interface_status(i: instance_v3::InterfaceV3View) -> reply::InterfaceStatusView {
    reply::InterfaceStatusView {
        name: i.io.name,
        sw_if_index: i.io.sw_if_index,
        address: text::ipv6_text(i.io.link_local),
        mask: ""@,
        area_id: text::ipv4_text(i.area_id),
        state: interface_state_name(i.state),
        network_type: network_type_name(i.network_type),
        cost: 10,
        priority: i.priority,
        hello_interval: i.hello_interval,
        dead_interval: i.dead_interval as u32,
        dr: text::ipv4_text(i.dr),
        bdr: text::ipv4_text(i.bdr),
        neighbor_count: i.neighbors.len() as usize,
    }
}

/// The interfaces in the order in which they were added.
pub fn collect_interfaces_v3(inst: &InstanceV3) -> (r: InterfacesReply)
    ensures
        r@.interfaces == Seq::new(
            inst@.interfaces.len(),
            |k: int| interface_status(inst@.interfaces[k]),
        ),
{
    let mut out: Vec<InterfaceStatus> = Vec::new();
    let mut i: usize = 0;
    while i < inst.interfaces.len()
        invariant
            i <= inst.interfaces@.len(),
            wire::views(out@) =~= Seq::new(
                i as nat,
                |k: int| interface_status(inst@.interfaces[k]),
            ),
        decreases inst.interfaces.len() - i,
    {
        let f = &inst.interfaces[i];
        out.push(
            InterfaceStatus {
                name: f.io.name.as_str().to_owned(),
                sw_if_index: f.io.sw_if_index,
                address: ipv6_string(f.io.link_local),
                mask: "".to_owned(),
                area_id: ipv4_string(f.area_id),
                state: name_of_interface_state(f.state).to_owned(),
                network_type: name_of_network_type(f.network_type).to_owned(),
                cost: 10,
                priority: f.priority,
                hello_interval: f.hello_interval,
                dead_interval: f.dead_interval as u32,
                dr: ipv4_string(f.dr),
                bdr: ipv4_string(f.bdr),
                neighbor_count: f.neighbors.len(),
            },
        );
        i = i + 1;
    }
    InterfacesReply { interfaces: out }
}

/// The heading under which an LSA is filed: AS-external LSAs apart, a Link-LSA under its link,
/// everything else under the backbone.
pub open spec fn heading(e: lsdb_v3::LsaEntryV3View) -> Seq<char> {
    if e.header.ls_type == LsaV3Type::AsExternal {
        "external"@
    } else if e.header.ls_type == LsaV3Type::Link {
        "link:"@ + text::ipv4_text(e.header.link_state_id)
    } else {
        "0.0.0.0"@
    }
}

/// One stored LSA.
pub open spec fn lsa_summary(e: lsdb_v3::LsaEntryV3View, router_id: u32) -> reply::LsaSummaryView {
    reply::LsaSummaryView {
        area_id: heading(e),
        ls_type: ls_type_name(e.header.ls_type),
        link_state_id: text::ipv4_text(e.header.link_state_id),
        advertising_router: text::ipv4_text(e.header.advertising_router),
        ls_age: e.header.ls_age,
        ls_sequence_number: e.header.ls_sequence_number,
        length: e.header.length,
        self_originated: e.header.advertising_router == router_id,
    }
}

/// Whether the filters let the LSA through. The only area that selects is `external`.
pub open spec fn passes(
    e: lsdb_v3::LsaEntryV3View,
    area: Option<Seq<char>>,
    ls_type: Option<Seq<char>>,
) -> bool {
    &&& match ls_type {
        Some(w) => ls_type_meant(w) == Some(e.header.ls_type),
        None => true,
    }
    &&& area == Some("external"@) ==> e.header.ls_type == LsaV3Type::AsExternal
}

/// The LSAs that the filters let through.
pub open spec fn database(
    s: Seq<lsdb_v3::LsaEntryV3View>,
    area: Option<Seq<char>>,
    ls_type: Option<Seq<char>>,
    router_id: u32,
) -> Seq<reply::LsaSummaryView>
    decreases s.len(),
{
    if s.len() == 0 {
        Seq::empty()
    } else {
        let front = database(s.drop_last(), area, ls_type, router_id);
        if passes(s.last(), area, ls_type) {
            front.push(lsa_summary(s.last(), router_id))
        } else {
            front
        }
    }
}

fn heading_of(e: &LsaEntryV3) -> (r: String)
    ensures
        r@ == heading(e@),
{
    if e.header.ls_type == LsaV3Type::AsExternal {
        "external".to_owned()
    } else if e.header.ls_type == LsaV3Type::Link {
        let mut t: String = "link:".to_owned();
        append_ipv4(&mut t, e.header.link_state_id);
        t
    } else {
        "0.0.0.0".to_owned()
    }
}

/// The LSAs that the filters let through, by type, link state id and advertising router.
pub fn collect_database_v3(
    inst: &InstanceV3,
    area_filter: Option<&str>,
    type_filter: Option<&str>,
) -> (r: DatabaseReply)
    ensures
        r@.lsas == order::listed::<LsaSummary>(
            database(
                inst@.lsdb.entries,
                collect::opt_str(area_filter),
                collect::opt_str(type_filter),
                inst@.router_id,
            ),
            1,
            4,
        ),
{
    let es: &Vec<LsaEntryV3> = inst.lsdb.iter();
    let only_external = match area_filter {
        Some(f) => same_text(f, "external"),
        None => false,
    };
    let ghost s = inst@.lsdb.entries;
    let ghost area = collect::opt_str(area_filter);
    let ghost ls_type = collect::opt_str(type_filter);
    let mut out: Vec<LsaSummary> = Vec::new();
    let mut i: usize = 0;
    assert(s.take(0) =~= Seq::empty());
    assert(wire::views(out@) =~= Seq::empty());
    while i < es.len()
        invariant
            i <= es@.len(),
            s == wire::views(es@),
            area == collect::opt_str(area_filter),
            ls_type == collect::opt_str(type_filter),
            only_external == (area == Some("external"@)),
            wire::views(out@) == database(s.take(i as int), area, ls_type, inst@.router_id),
        decreases es.len() - i,
    {
        assert(s.take(i + 1).drop_last() =~= s.take(i as int));
        let e = &es[i];
        assert(s.take(i + 1).last() == e@);
        let wanted = match type_filter {
            Some(w) => matches_ls_type_v3(&e.header.ls_type, w),
            None => true,
        };
        if wanted && (!only_external || e.header.ls_type == LsaV3Type::AsExternal) {
            out.push(
                LsaSummary {
                    area_id: heading_of(e),
                    ls_type: name_of_ls_type(e.header.ls_type).to_owned(),
                    link_state_id: ipv4_string(e.header.link_state_id),
                    advertising_router: ipv4_string(e.header.advertising_router),
                    ls_age: e.header.ls_age,
                    ls_sequence_number: e.header.ls_sequence_number,
                    length: e.header.length,
                    self_originated: e.header.advertising_router == inst.router_id,
                },
            );
        }
        i = i + 1;
    }
    assert(s.take(i as int) =~= s);
    DatabaseReply { lsas: in_listing_order(out, 1, 4) }
}

/// One path.
pub open spec fn next_hop_status(h: (u128, u32)) -> reply::Route6NextHopView {
    reply::Route6NextHopView { address: text::ipv6_text(h.0), sw_if_index: h.1 }
}

/// One route.
pub open spec fn route_status(r: spf_v3::SpfRouteV3View) -> reply::Route6StatusView {
    reply::Route6StatusView {
        prefix: text::ipv6_text(r.prefix),
        prefix_len: r.prefix_len,
        cost: r.cost,
        next_hops: Seq::new(r.next_hops.len(), |k: int| next_hop_status(r.next_hops[k])),
    }
}

fn status_of_route(r: &SpfRouteV3) -> (s: Route6Status)
    ensures
        s@ == route_status(r@),
{
    let mut hops: Vec<Route6NextHop> = Vec::new();
    let mut i: usize = 0;
    while i < r.next_hops.len()
        invariant
            i <= r.next_hops@.len(),
            wire::views(hops@) =~= Seq::new(i as nat, |k: int| next_hop_status(r.next_hops@[k])),
        decreases r.next_hops.len() - i,
    {
        let h: (u128, u32) = r.next_hops[i];
        hops.push(Route6NextHop { address: ipv6_string(h.0), sw_if_index: h.1 });
        i = i + 1;
    }
    Route6Status {
        prefix: ipv6_string(r.prefix),
        prefix_len: r.prefix_len,
        cost: r.cost,
        next_hops: hops,
    }
}

/// The computed routes.
pub fn collect_routes_v3(routes: &Vec<SpfRouteV3>) -> (r: Routes6Reply)
    ensures
        r@.routes == Seq::new(routes@.len(), |k: int| route_status(routes@[k]@)),
{
    let mut out: Vec<Route6Status> = Vec::new();
    let mut i: usize = 0;
    while i < routes.len()
        invariant
            i <= routes@.len(),
            wire::views(out@) =~= Seq::new(i as nat, |k: int| route_status(routes@[k]@)),
        decreases routes.len() - i,
    {
        out.push(status_of_route(&routes[i]));
        i = i + 1;
    }
    Routes6Reply { routes: out }
}

/// What the instance answers to a request.
pub open spec fn answer(
    req: reply::ControlRequestView,
    inst: instance_v3::InstanceV3View,
    routes: Seq<spf_v3::SpfRouteV3View>,
    now: u64,
) -> reply::ControlResponseView {
    match req {
        reply::ControlRequestView::Status6 => reply::ControlResponseView::Status6(status(inst)),
        reply::ControlRequestView::Neighbors6 => reply::ControlResponseView::Neighbors6(
            reply::NeighborsReplyView {
                neighbors: order::listed::<NeighborStatus>(
                    neighbor_statuses(inst.interfaces, now),
                    0,
                    1,
                ),
            },
        ),
        reply::ControlRequestView::Interfaces6 => reply::ControlResponseView::Interfaces6(
            reply::InterfacesReplyView {
                interfaces: Seq::new(
                    inst.interfaces.len(),
                    |k: int| interface_status(inst.interfaces[k]),
                ),
            },
        ),
        reply::ControlRequestView::Database6 { area, ls_type } => {
            reply::ControlResponseView::Database6(
                reply::DatabaseReplyView {
                    lsas: order::listed::<LsaSummary>(
                        database(inst.lsdb.entries, area, ls_type, inst.router_id),
                        1,
                        4,
                    ),
                },
            )
        },
        reply::ControlRequestView::Routes6 => reply::ControlResponseView::Routes6(
            reply::Routes6ReplyView {
                routes: Seq::new(routes.len(), |k: int| route_status(routes[k])),
            },
        ),
        _ => reply::ControlResponseView::Error { error: "not a v3 request"@ },
    }
}

/// What the OSPFv3 instance answers to a request, given the routes that were computed.
pub fn answer_with_routes(
    req: &ControlRequest,
    inst: &InstanceV3,
    routes: &Vec<SpfRouteV3>,
    now: u64,
) -> (r: ControlResponse)
    ensures
        r@ == answer(req@, inst@, wire::views(routes@), now),
{
    match req {
        ControlRequest::Status6 => ControlResponse::Status6(collect_status_v3(inst)),
        ControlRequest::Neighbors6 => ControlResponse::Neighbors6(collect_neighbors_v3(inst, now)),
        ControlRequest::Interfaces6 => ControlResponse::Interfaces6(collect_interfaces_v3(inst)),
        ControlRequest::Database6 { area, ls_type } => ControlResponse::Database6(
            collect_database_v3(inst, as_filter(area), as_filter(ls_type)),
        ),
        ControlRequest::Routes6 => {
            let reply = collect_routes_v3(routes);
            assert(reply@.routes =~= Seq::new(
                wire::views(routes@).len(),
                |k: int| route_status(wire::views(routes@)[k]),
            ));
            ControlResponse::Routes6(reply)
        },
        _ => ControlResponse::Error { error: "not a v3 request".to_owned() },
    }
}

/// What the OSPFv3 instance answers to a request. Routes are computed for the reply.
pub fn handle_request_v3(req: &ControlRequest, inst: &InstanceV3, now: u64) -> (r: ControlResponse)
    ensures
        exists|routes: Seq<spf_v3::SpfRouteV3View>|
            #[trigger] spf_v3::computed(
                inst@.lsdb.entries,
                inst@.router_id,
                inter_area::full_neighbors_of(inst@.interfaces),
                routes,
            ) && r@ == answer(req@, inst@, routes, now),
{
    let neighbors = inst.spf_neighbors();
    let routes = calculate_spf_v3(inst.router_id, &inst.lsdb, &neighbors);
    answer_with_routes(req, inst, &routes, now)
}

} // verus!
