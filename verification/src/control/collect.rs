//! What the replies say of an OSPFv2 instance.
use vstd::prelude::*;

use crate::area;
use crate::area::Area;
use crate::config;
use crate::config::ParsedSummaryAddress;
use crate::control::order;
use crate::control::order::in_listing_order;
use crate::control::reply;
use crate::control::reply::{
    AreaStatus, ControlRequest, ControlResponse, DatabaseReply, InstalledRoute, InterfaceStatus,
    InterfacesReply, LsaSummary, NeighborStatus, NeighborsReply, RouteStatus, RoutesReply,
    StatusReply, SummaryAddressStatus,
};
use crate::instance;
use crate::instance::OspfInstance;
use crate::lsdb;
use crate::lsdb::{Lsdb, LsdbEntry};
use crate::packet::lsa::LsaType;
use crate::proto::interface;
use crate::proto::interface::{InterfaceState, NetworkType, OspfInterface};
use crate::proto::neighbor;
use crate::proto::neighbor::{Neighbor, NeighborState};
use crate::text;
use crate::text::{append_decimal, folds_to, ipv4_string};
use crate::wire;
use crate::wire::same_text;

verus! {

broadcast use {wire::lemma_views_push, wire::lemma_views_update};

/// The name of an adjacency state.
pub open spec fn neighbor_state_name(s: NeighborState) -> Seq<char> {
    match s {
        NeighborState::Down => "Down"@,
        NeighborState::Attempt => "Attempt"@,
        NeighborState::Init => "Init"@,
        NeighborState::TwoWay => "TwoWay"@,
        NeighborState::ExStart => "ExStart"@,
        NeighborState::Exchange => "Exchange"@,
        NeighborState::Loading => "Loading"@,
        NeighborState::Full => "Full"@,
    }
}

fn name_of_neighbor_state(s: NeighborState) -> (r: &'static str)
    ensures
        r@ == neighbor_state_name(s),
{
    match s {
        NeighborState::Down => "Down",
        NeighborState::Attempt => "Attempt",
        NeighborState::Init => "Init",
        NeighborState::TwoWay => "TwoWay",
        NeighborState::ExStart => "ExStart",
        NeighborState::Exchange => "Exchange",
        NeighborState::Loading => "Loading",
        NeighborState::Full => "Full",
    }
}

/// The name of an interface state.
pub open spec fn interface_state_name(s: InterfaceState) -> Seq<char> {
    match s {
        InterfaceState::Down => "Down"@,
        InterfaceState::Waiting => "Waiting"@,
        InterfaceState::PointToPoint => "PointToPoint"@,
        InterfaceState::DROther => "DROther"@,
        InterfaceState::Backup => "Backup"@,
        InterfaceState::DR => "DR"@,
    }
}

fn name_of_interface_state(s: InterfaceState) -> (r: &'static str)
    ensures
        r@ == interface_state_name(s),
{
    match s {
        InterfaceState::Down => "Down",
        InterfaceState::Waiting => "Waiting",
        InterfaceState::PointToPoint => "PointToPoint",
        InterfaceState::DROther => "DROther",
        InterfaceState::Backup => "Backup",
        InterfaceState::DR => "DR",
    }
}

/// The name of a network type.
pub open spec fn network_type_name(t: NetworkType) -> Seq<char> {
    match t {
        NetworkType::Broadcast => "Broadcast"@,
        NetworkType::PointToPoint => "PointToPoint"@,
        NetworkType::NonBroadcast => "NonBroadcast"@,
        NetworkType::PointToMultipoint => "PointToMultipoint"@,
    }
}

fn name_of_network_type(t: NetworkType) -> (r: &'static str)
    ensures
        r@ == network_type_name(t),
{
    match t {
        NetworkType::Broadcast => "Broadcast",
        NetworkType::PointToPoint => "PointToPoint",
        NetworkType::NonBroadcast => "NonBroadcast",
        NetworkType::PointToMultipoint => "PointToMultipoint",
    }
}

/// The name of an LSA type.
pub open spec fn ls_type_name(t: LsaType) -> Seq<char> {
    match t {
        LsaType::Router => "Router"@,
        LsaType::Network => "Network"@,
        LsaType::SummaryNetwork => "SummaryNetwork"@,
        LsaType::SummaryAsbr => "SummaryAsbr"@,
        LsaType::AsExternal => "AsExternal"@,
    }
}

fn name_of_ls_type(t: LsaType) -> (r: &'static str)
    ensures
        r@ == ls_type_name(t),
{
    match t {
        LsaType::Router => "Router",
        LsaType::Network => "Network",
        LsaType::SummaryNetwork => "SummaryNetwork",
        LsaType::SummaryAsbr => "SummaryAsbr",
        LsaType::AsExternal => "AsExternal",
    }
}

/// The LSA type that a client means by `word`, in capital or small letters.
pub open spec fn ls_type_meant(word: Seq<char>) -> Option<LsaType> {
    let w = text::folded(word);
    if w == "router"@ || w == "1"@ {
        Some(LsaType::Router)
    } else if w == "network"@ || w == "2"@ {
        Some(LsaType::Network)
    } else if w == "summary"@ || w == "summary-network"@ || w == "3"@ {
        Some(LsaType::SummaryNetwork)
    } else if w == "summary-asbr"@ || w == "4"@ {
        Some(LsaType::SummaryAsbr)
    } else if w == "external"@ || w == "as-external"@ || w == "5"@ {
        Some(LsaType::AsExternal)
    } else {
        None
    }
}

/// Whether `filter` names the LSA type. A word that names none selects nothing.
pub fn matches_ls_type(ls_type: &LsaType, filter: &str) -> (r: bool)
    ensures
        r == (ls_type_meant(filter@) == Some(*ls_type)),
{
    if folds_to(filter, "router") || folds_to(filter, "1") {
        *ls_type == LsaType::Router
    } else if folds_to(filter, "network") || folds_to(filter, "2") {
        *ls_type == LsaType::Network
    } else if folds_to(filter, "summary") || folds_to(filter, "summary-network") || folds_to(
        filter,
        "3",
    ) {
        *ls_type == LsaType::SummaryNetwork
    } else if folds_to(filter, "summary-asbr") || folds_to(filter, "4") {
        *ls_type == LsaType::SummaryAsbr
    } else if folds_to(filter, "external") || folds_to(filter, "as-external") || folds_to(
        filter,
        "5",
    ) {
        *ls_type == LsaType::AsExternal
    } else {
        false
    }
}

/// `n`, or the largest count there is.
pub open spec fn counted(n: nat) -> usize {
    if n <= usize::MAX {
        n as usize
    } else {
        usize::MAX
    }
}

/// How many of the interfaces belong to an area.
pub open spec fn interfaces_in(s: Seq<interface::OspfInterfaceView>, area: u32) -> nat
    decreases s.len(),
{
    if s.len() == 0 {
        0
    } else {
        interfaces_in(s.drop_last(), area) + if s.last().area_id == area {
            1nat
        } else {
            0
        }
    }
}

/// How many of the neighbors are fully adjacent.
pub open spec fn full_in(s: Seq<neighbor::NeighborView>) -> nat
    decreases s.len(),
{
    if s.len() == 0 {
        0
    } else {
        full_in(s.drop_last()) + if s.last().state == NeighborState::Full {
            1nat
        } else {
            0
        }
    }
}

/// How many neighbors in an area are fully adjacent.
pub open spec fn adjacent_in(s: Seq<interface::OspfInterfaceView>, area: u32) -> nat
    decreases s.len(),
{
    if s.len() == 0 {
        0
    } else {
        adjacent_in(s.drop_last(), area) + if s.last().area_id == area {
            full_in(s.last().neighbors)
        } else {
            0
        }
    }
}

fn count_full(ns: &Vec<Neighbor>) -> (n: usize)
    ensures
        n == full_in(wire::views(ns@)),
        n <= ns@.len(),
{
    let ghost s = wire::views(ns@);
    let mut n: usize = 0;
    let mut i: usize = 0;
    assert(s.take(0) =~= Seq::empty());
    while i < ns.len()
        invariant
            i <= ns@.len(),
            n <= i,
            s == wire::views(ns@),
            n == full_in(s.take(i as int)),
        decreases ns.len() - i,
    {
        assert(s.take(i + 1).drop_last() =~= s.take(i as int));
        if ns[i].state == NeighborState::Full {
            n = n + 1;
        }
        i = i + 1;
    }
    assert(s.take(i as int) =~= s);
    n
}

/// The figures of one area.
pub open spec fn area_status(
    a: area::AreaView,
    ifs: Seq<interface::OspfInterfaceView>,
) -> reply::AreaStatusView {
    reply::AreaStatusView {
        area_id: text::ipv4_text(a.area_id),
        lsa_count: a.lsdb.entries.len() as usize,
        interface_count: interfaces_in(ifs, a.area_id) as usize,
        fully_adjacent_neighbors: counted(adjacent_in(ifs, a.area_id)),
    }
}

fn status_of_area(a: &Area, ifs: &Vec<OspfInterface>) -> (r: AreaStatus)
    ensures
        r@ == area_status(a@, wire::views(ifs@)),
{
    let ghost s = wire::views(ifs@);
    let mut n: usize = 0;
    let mut full: usize = 0;
    let mut i: usize = 0;
    assert(s.take(0) =~= Seq::empty());
    while i < ifs.len()
        invariant
            i <= ifs@.len(),
            n <= i,
            s == wire::views(ifs@),
            n == interfaces_in(s.take(i as int), a.area_id),
            full == counted(adjacent_in(s.take(i as int), a.area_id)),
        decreases ifs.len() - i,
    {
        assert(s.take(i + 1).drop_last() =~= s.take(i as int));
        assert(s.take(i + 1).last() == ifs@[i as int]@);
        if ifs[i].area_id == a.area_id {
            n = n + 1;
            full = full.saturating_add(count_full(&ifs[i].neighbors));
        }
        i = i + 1;
    }
    assert(s.take(i as int) =~= s);
    AreaStatus {
        area_id: ipv4_string(a.area_id),
        lsa_count: a.lsdb.entries_count(),
        interface_count: n,
        fully_adjacent_neighbors: full,
    }
}

/// A summary range.
pub open spec fn summary_status(s: ParsedSummaryAddress) -> reply::SummaryAddressStatusView {
    reply::SummaryAddressStatusView {
        prefix: text::ipv4_text(s.prefix) + "/"@ + text::decimal_text(s.prefix_len as nat),
        no_advertise: s.no_advertise,
        tag: s.tag,
        metric: s.metric,
        metric_type: s.metric_type,
    }
}

fn status_of_summary(s: &ParsedSummaryAddress) -> (r: SummaryAddressStatus)
    ensures
        r@ == summary_status(*s),
{
    let mut prefix = ipv4_string(s.prefix);
    prefix.append("/");
    append_decimal(&mut prefix, s.prefix_len as u32);
    SummaryAddressStatus {
        prefix,
        no_advertise: s.no_advertise,
        tag: s.tag,
        metric: s.metric,
        metric_type: s.metric_type,
    }
}

/// An instance in figures: its areas by the text of their ids, its summary ranges as configured.
pub open spec fn status(
    inst: instance::OspfInstanceView,
    installed: nat,
) -> reply::StatusReplyView {
    reply::StatusReplyView {
        vrf_name: inst.vrf_name,
        router_id: text::ipv4_text(inst.router_id),
        areas: order::listed::<AreaStatus>(
            Seq::new(inst.areas.len(), |i: int| area_status(inst.areas[i], inst.interfaces)),
            0,
            1,
        ),
        is_abr: inst.border(),
        as_external_lsa_count: inst.as_external_lsdb.entries.len() as usize,
        installed_route_count: installed as usize,
        summary_addresses: Seq::new(
            inst.summary_addresses.len(),
            |i: int| summary_status(inst.summary_addresses[i]),
        ),
    }
}

/// A copy of an optional text.
pub fn copy_name(name: &Option<String>) -> (r: Option<String>)
    ensures
        config::opt_text(r) == config::opt_text(*name),
{
    match name {
        Some(s) => Some(s.as_str().to_owned()),
        None => None,
    }
}

/// An instance in figures.
pub fn collect_status(inst: &OspfInstance, installed: usize) -> (r: StatusReply)
    ensures
        r@ == status(inst@, installed as nat),
{
    let mut areas: Vec<AreaStatus> = Vec::new();
    let mut i: usize = 0;
    let ghost want = Seq::new(
        inst@.areas.len(),
        |k: int| area_status(inst@.areas[k], inst@.interfaces),
    );
    while i < inst.areas.len()
        invariant
            i <= inst.areas@.len(),
            want.len() == inst.areas@.len(),
            forall|k: int| 0 <= k < want.len() ==> want[k] == area_status(inst.areas@[k]@, inst@.interfaces),
            wire::views(areas@) =~= want.take(i as int),
        decreases inst.areas.len() - i,
    {
        areas.push(status_of_area(&inst.areas[i], &inst.interfaces));
        i = i + 1;
    }
    assert(want.take(i as int) =~= want);
    let areas = in_listing_order(areas, 0, 1);
    let mut ranges: Vec<SummaryAddressStatus> = Vec::new();
    let mut j: usize = 0;
    while j < inst.summary_addresses.len()
        invariant
            j <= inst.summary_addresses@.len(),
            wire::views(ranges@) =~= Seq::new(
                j as nat,
                |k: int| summary_status(inst.summary_addresses@[k]),
            ),
        decreases inst.summary_addresses.len() - j,
    {
        ranges.push(status_of_summary(&inst.summary_addresses[j]));
        j = j + 1;
    }
    StatusReply {
        vrf_name: copy_name(&inst.vrf_name),
        router_id: ipv4_string(inst.router_id),
        areas,
        is_abr: inst.is_abr(),
        as_external_lsa_count: inst.as_external_lsdb.entries_count(),
        installed_route_count: installed,
        summary_addresses: ranges,
    }
}

/// Whole seconds that are left of `dead` milliseconds after `last` at `now`.
pub open spec fn seconds_left(dead: int, last: u64, now: u64) -> u64 {
    let gone = instance::elapsed(now, last);
    if dead >= gone {
        ((dead - gone) / 1000) as u64
    } else {
        0
    }
}

/// Whole seconds that are left of `dead` milliseconds after `last` at `now`.
pub fn time_left(dead: u64, last: u64, now: u64) -> (r: u64)
    ensures
        r == seconds_left(dead as int, last, now),
{
    let gone: u64 = now.saturating_sub(last);
    dead.saturating_sub(gone) / 1000
}

/// One neighbor.
pub open spec fn neighbor_status(
    n: neighbor::NeighborView,
    iface: interface::OspfInterfaceView,
    now: u64,
) -> reply::NeighborStatusView {
    reply::NeighborStatusView {
        router_id: text::ipv4_text(n.router_id),
        address: text::ipv4_text(n.address),
        interface: iface.name,
        area_id: text::ipv4_text(iface.area_id),
        state: neighbor_state_name(n.state),
        priority: n.priority,
        dr: text::ipv4_text(n.dr),
        bdr: text::ipv4_text(n.bdr),
        dead_seconds_remaining: seconds_left(
            interface::millis(iface.dead_interval),
            n.last_heard,
            now,
        ),
    }
}

/// The neighbors of the interfaces, interface by interface.
pub open spec fn neighbor_statuses(s: Seq<interface::OspfInterfaceView>, now: u64) -> Seq<
    reply::NeighborStatusView,
>
    decreases s.len(),
{
    if s.len() == 0 {
        Seq::empty()
    } else {
        neighbor_statuses(s.drop_last(), now) + Seq::new(
            s.last().neighbors.len(),
            |i: int| neighbor_status(s.last().neighbors[i], s.last(), now),
        )
    }
}

fn push_neighbors(iface: &OspfInterface, now: u64, out: &mut Vec<NeighborStatus>)
    ensures
        wire::views(final(out)@) == wire::views(old(out)@) + Seq::new(
            iface@.neighbors.len(),
            |i: int| neighbor_status(iface@.neighbors[i], iface@, now),
        ),
{
    let ghost before = wire::views(out@);
    let mut i: usize = 0;
    while i < iface.neighbors.len()
        invariant
            i <= iface.neighbors@.len(),
            wire::views(out@) =~= before + Seq::new(
                i as nat,
                |k: int| neighbor_status(iface@.neighbors[k], iface@, now),
            ),
        decreases iface.neighbors.len() - i,
    {
        let n = &iface.neighbors[i];
        out.push(
            NeighborStatus {
                router_id: ipv4_string(n.router_id),
                address: ipv4_string(n.address),
                interface: iface.name.as_str().to_owned(),
                area_id: ipv4_string(iface.area_id),
                state: name_of_neighbor_state(n.state).to_owned(),
                priority: n.priority,
                dr: ipv4_string(n.dr),
                bdr: ipv4_string(n.bdr),
                dead_seconds_remaining: time_left(iface.dead_duration(), n.last_heard, now),
            },
        );
        i = i + 1;
    }
}

/// The neighbors by the text of their router ids.
pub fn collect_neighbors(inst: &OspfInstance, now: u64) -> (r: NeighborsReply)
    ensures
        r@.neighbors == order::listed::<NeighborStatus>(
            neighbor_statuses(inst@.interfaces, now),
            0,
            1,
        ),
{
    let mut out: Vec<NeighborStatus> = Vec::new();
    let ghost s = inst@.interfaces;
    let mut i: usize = 0;
    assert(s.take(0) =~= Seq::empty());
    assert(wire::views(out@) =~= Seq::empty());
    while i < inst.interfaces.len()
        invariant
            i <= inst.interfaces@.len(),
            s == inst@.interfaces,
            wire::views(out@) == neighbor_statuses(s.take(i as int), now),
        decreases inst.interfaces.len() - i,
    {
        assert(s.take(i + 1).drop_last() =~= s.take(i as int));
        assert(s.take(i + 1).last() == inst.interfaces@[i as int]@);
        push_neighbors(&inst.interfaces[i], now, &mut out);
        i = i + 1;
    }
    assert(s.take(i as int) =~= s);
    NeighborsReply { neighbors: in_listing_order(out, 0, 1) }
}

/// One interface.
pub open spec fn interface_status(i: interface::OspfInterfaceView) -> reply::InterfaceStatusView {
    reply::InterfaceStatusView {
        name: i.name,
        sw_if_index: i.sw_if_index,
        address: text::ipv4_text(i.address),
        mask: text::ipv4_text(i.mask),
        area_id: text::ipv4_text(i.area_id),
        state: interface_state_name(i.state),
        network_type: network_type_name(i.network_type),
        cost: i.cost,
        priority: i.priority,
        hello_interval: i.hello_interval,
        dead_interval: i.dead_interval,
        dr: text::ipv4_text(i.dr),
        bdr: text::ipv4_text(i.bdr),
        neighbor_count: i.neighbors.len() as usize,
    }
}

/// The interfaces as they were configured.
pub fn collect_interfaces(inst: &OspfInstance) -> (r: InterfacesReply)
    ensures
        r@.interfaces == Seq::new(
            inst@.interfaces.len(),
            |k: int| interface_status(inst@.interfaces[k]),
        ),
{
    let mut out: Vec<InterfaceStatus> = Vec::new();
    let mut i: usize = 0;
    while i < inst.interfaces.len()
        invariant
            i <= inst.interfaces@.len(),
            wire::views(out@) =~= Seq::new(
                i as nat,
                |k: int| interface_status(inst@.interfaces[k]),
            ),
        decreases inst.interfaces.len() - i,
    {
        let f = &inst.interfaces[i];
        out.push(
            InterfaceStatus {
                name: f.name.as_str().to_owned(),
                sw_if_index: f.sw_if_index,
                address: ipv4_string(f.address),
                mask: ipv4_string(f.mask),
                area_id: ipv4_string(f.area_id),
                state: name_of_interface_state(f.state).to_owned(),
                network_type: name_of_network_type(f.network_type).to_owned(),
                cost: f.cost,
                priority: f.priority,
                hello_interval: f.hello_interval,
                dead_interval: f.dead_interval,
                dr: ipv4_string(f.dr),
                bdr: ipv4_string(f.bdr),
                neighbor_count: f.neighbors.len(),
            },
        );
        i = i + 1;
    }
    InterfacesReply { interfaces: out }
}

/// One stored LSA, filed under `heading`.
pub open spec fn lsa_summary(e: lsdb::LsdbEntryView, heading: Seq<char>, now: u64) ->
    reply::LsaSummaryView {
    reply::LsaSummaryView {
        area_id: heading,
        ls_type: ls_type_name(e.lsa.header.ls_type),
        link_state_id: text::ipv4_text(e.lsa.header.link_state_id),
        advertising_router: text::ipv4_text(e.lsa.header.advertising_router),
        ls_age: e.age(now),
        ls_sequence_number: e.lsa.header.ls_sequence_number,
        length: e.lsa.header.length,
        self_originated: e.self_originated,
    }
}

/// Whether a type filter lets the LSA through; no filter lets everything through.
pub open spec fn passes(e: lsdb::LsdbEntryView, ls_type: Option<Seq<char>>) -> bool {
    match ls_type {
        Some(w) => ls_type_meant(w) == Some(e.lsa.header.ls_type),
        None => true,
    }
}

/// The LSAs of one database that the filter lets through.
pub open spec fn lsa_summaries(
    s: Seq<lsdb::LsdbEntryView>,
    heading: Seq<char>,
    ls_type: Option<Seq<char>>,
    now: u64,
) -> Seq<reply::LsaSummaryView>
    decreases s.len(),
{
    if s.len() == 0 {
        Seq::empty()
    } else {
        let front = lsa_summaries(s.drop_last(), heading, ls_type, now);
        if passes(s.last(), ls_type) {
            front.push(lsa_summary(s.last(), heading, now))
        } else {
            front
        }
    }
}

/// The LSAs of the areas that the filters let through.
pub open spec fn area_summaries(
    s: Seq<area::AreaView>,
    area: Option<Seq<char>>,
    ls_type: Option<Seq<char>>,
    now: u64,
) -> Seq<reply::LsaSummaryView>
    decreases s.len(),
{
    if s.len() == 0 {
        Seq::empty()
    } else {
        let front = area_summaries(s.drop_last(), area, ls_type, now);
        let heading = text::ipv4_text(s.last().area_id);
        if area is None || area == Some(heading) {
            front + lsa_summaries(s.last().lsdb.entries, heading, ls_type, now)
        } else {
            front
        }
    }
}

/// The LSAs that the filters let through, those of AS scope under the heading `external`.
pub open spec fn database(
    inst: instance::OspfInstanceView,
    area: Option<Seq<char>>,
    ls_type: Option<Seq<char>>,
    now: u64,
) -> Seq<reply::LsaSummaryView> {
    area_summaries(inst.areas, area, ls_type, now) + if area is None || area == Some("external"@) {
        lsa_summaries(inst.as_external_lsdb.entries, "external"@, ls_type, now)
    } else {
        Seq::empty()
    }
}

/// The characters of an optional text.
pub open spec fn opt_str(o: Option<&str>) -> Option<Seq<char>> {
    match o {
        Some(s) => Some(s@),
        None => None,
    }
}

fn push_lsas(
    db: &Lsdb,
    heading: &str,
    ls_type: Option<&str>,
    now: u64,
    out: &mut Vec<LsaSummary>,
)
    ensures
        wire::views(final(out)@) == wire::views(old(out)@) + lsa_summaries(
            db@.entries,
            heading@,
            opt_str(ls_type),
            now,
        ),
{
    let es: &Vec<LsdbEntry> = db.all_entries();
    let ghost s = db@.entries;
    let ghost before = wire::views(out@);
    let mut i: usize = 0;
    assert(s.take(0) =~= Seq::empty());
    assert(before + Seq::<reply::LsaSummaryView>::empty() =~= before);
    while i < es.len()
        invariant
            i <= es@.len(),
            s == wire::views(es@),
            wire::views(out@) == before + lsa_summaries(
                s.take(i as int),
                heading@,
                opt_str(ls_type),
                now,
            ),
        decreases es.len() - i,
    {
        let ghost had = lsa_summaries(s.take(i as int), heading@, opt_str(ls_type), now);
        assert(s.take(i + 1).drop_last() =~= s.take(i as int));
        let e = &es[i];
        assert(s.take(i + 1).last() == e@);
        let shown = match ls_type {
            Some(w) => matches_ls_type(&e.lsa.header.ls_type, w),
            None => true,
        };
        if shown {
            out.push(
                LsaSummary {
                    area_id: heading.to_owned(),
                    ls_type: name_of_ls_type(e.lsa.header.ls_type).to_owned(),
                    link_state_id: ipv4_string(e.lsa.header.link_state_id),
                    advertising_router: ipv4_string(e.lsa.header.advertising_router),
                    ls_age: e.current_age(now),
                    ls_sequence_number: e.lsa.header.ls_sequence_number,
                    length: e.lsa.header.length,
                    self_originated: e.self_originated,
                },
            );
            assert(wire::views(out@) =~= before + had.push(lsa_summary(e@, heading@, now)));
        }
        i = i + 1;
    }
    assert(s.take(i as int) =~= s);
}

/// The LSAs that the filters let through, by area, type, link state id and advertising router.
pub fn collect_database(
    inst: &OspfInstance,
    area_filter: Option<&str>,
    type_filter: Option<&str>,
    now: u64,
) -> (r: DatabaseReply)
    ensures
        r@.lsas == order::listed::<LsaSummary>(
            database(inst@, opt_str(area_filter), opt_str(type_filter), now),
            0,
            4,
        ),
{
    let mut out: Vec<LsaSummary> = Vec::new();
    let ghost s = inst@.areas;
    let mut i: usize = 0;
    assert(s.take(0) =~= Seq::empty());
    assert(wire::views(out@) =~= Seq::empty());
    while i < inst.areas.len()
        invariant
            i <= inst.areas@.len(),
            s == inst@.areas,
            wire::views(out@) == area_summaries(
                s.take(i as int),
                opt_str(area_filter),
                opt_str(type_filter),
                now,
            ),
        decreases inst.areas.len() - i,
    {
        assert(s.take(i + 1).drop_last() =~= s.take(i as int));
        let a = &inst.areas[i];
        assert(s.take(i + 1).last() == a@);
        let heading = ipv4_string(a.area_id);
        let shown = match area_filter {
            Some(f) => same_text(f, heading.as_str()),
            None => true,
        };
        if shown {
            push_lsas(&a.lsdb, heading.as_str(), type_filter, now, &mut out);
        }
        i = i + 1;
    }
    assert(s.take(i as int) =~= s);
    let shown = match area_filter {
        Some(f) => same_text(f, "external"),
        None => true,
    };
    let ghost mid = wire::views(out@);
    if shown {
        push_lsas(&inst.as_external_lsdb, "external", type_filter, now, &mut out);
    }
    assert(mid + Seq::<reply::LsaSummaryView>::empty() =~= mid);
    DatabaseReply { lsas: in_listing_order(out, 0, 4) }
}

/// One installed route.
pub open spec fn route_status(r: InstalledRoute) -> reply::RouteStatusView {
    reply::RouteStatusView {
        prefix: text::ipv4_text(r.prefix),
        prefix_len: r.prefix_len,
        next_hop: text::ipv4_text(r.next_hop),
        sw_if_index: r.sw_if_index,
        cost: r.cost,
    }
}

/// The installed routes.
pub fn collect_routes(installed: &Vec<InstalledRoute>) -> (r: RoutesReply)
    ensures
        r@.routes == Seq::new(installed@.len(), |k: int| route_status(installed@[k])),
{
    let mut out: Vec<RouteStatus> = Vec::new();
    let mut i: usize = 0;
    while i < installed.len()
        invariant
            i <= installed@.len(),
            wire::views(out@) =~= Seq::new(i as nat, |k: int| route_status(installed@[k])),
        decreases installed.len() - i,
    {
        let f = installed[i];
        out.push(
            RouteStatus {
                prefix: ipv4_string(f.prefix),
                prefix_len: f.prefix_len,
                next_hop: ipv4_string(f.next_hop),
                sw_if_index: f.sw_if_index,
                cost: f.cost,
            },
        );
        i = i + 1;
    }
    RoutesReply { routes: out }
}

/// What the instance answers to a request.
pub open spec fn answer(
    req: reply::ControlRequestView,
    inst: instance::OspfInstanceView,
    installed: Seq<InstalledRoute>,
    now: u64,
) -> reply::ControlResponseView {
    match req {
        reply::ControlRequestView::Status => reply::ControlResponseView::Status(
            status(inst, installed.len()),
        ),
        reply::ControlRequestView::Neighbors => reply::ControlResponseView::Neighbors(
            reply::NeighborsReplyView {
                neighbors: order::listed::<NeighborStatus>(
                    neighbor_statuses(inst.interfaces, now),
                    0,
                    1,
                ),
            },
        ),
        reply::ControlRequestView::Interfaces => reply::ControlResponseView::Interfaces(
            reply::InterfacesReplyView {
                interfaces: Seq::new(
                    inst.interfaces.len(),
                    |k: int| interface_status(inst.interfaces[k]),
                ),
            },
        ),
        reply::ControlRequestView::Database { area, ls_type } => {
            reply::ControlResponseView::Database(
                reply::DatabaseReplyView {
                    lsas: order::listed::<LsaSummary>(database(inst, area, ls_type, now), 0, 4),
                },
            )
        },
        reply::ControlRequestView::Routes => reply::ControlResponseView::Routes(
            reply::RoutesReplyView {
                routes: Seq::new(installed.len(), |k: int| route_status(installed[k])),
            },
        ),
        _ => reply::ControlResponseView::Error { error: "not a v2 request"@ },
    }
}

/// An optional text as a slice.
pub fn as_filter(o: &Option<String>) -> (r: Option<&str>)
    ensures
        opt_str(r) == config::opt_text(*o),
{
    match o {
        Some(s) => Some(s.as_str()),
        None => None,
    }
}

/// What the OSPFv2 instance answers to a request, given the routes that are installed.
pub fn handle_request(
    req: &ControlRequest,
    inst: &OspfInstance,
    installed: &Vec<InstalledRoute>,
    now: u64,
) -> (r: ControlResponse)
    ensures
        r@ == answer(req@, inst@, installed@, now),
{
    match req {
        ControlRequest::Status => ControlResponse::Status(collect_status(inst, installed.len())),
        ControlRequest::Neighbors => ControlResponse::Neighbors(collect_neighbors(inst, now)),
        ControlRequest::Interfaces => ControlResponse::Interfaces(collect_interfaces(inst)),
        ControlRequest::Database { area, ls_type } => ControlResponse::Database(
            collect_database(inst, as_filter(area), as_filter(ls_type), now),
        ),
        ControlRequest::Routes => ControlResponse::Routes(collect_routes(installed)),
        _ => ControlResponse::Error { error: "not a v2 request".to_owned() },
    }
}

} // verus!
