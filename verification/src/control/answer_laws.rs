//! Laws of the answers to control requests: every neighbor, interface, LSA and route is shown with
//! its own values, and nothing else is.
use vstd::prelude::*;

use crate::area;
use crate::control::collect;
use crate::control::collect_v3;
use crate::control::order;
use crate::control::order::Listed;
use crate::control::reply;
use crate::control::reply::{InstalledRoute, LsaSummary, NeighborStatus};
use crate::instance;
use crate::instance_v3;
use crate::lsdb;
use crate::lsdb_v3;
use crate::proto::interface;
use crate::proto::neighbor;
use crate::spf_v3;
use crate::text;

verus! {

/// Whether the seconds are what is left of `dead` seconds after `last` at `now`, in whole seconds.
pub open spec fn is_left(seconds: u64, dead: int, last: u64, now: u64) -> bool {
    if now < last {
        seconds == dead
    } else if now - last >= dead * 1000 {
        seconds == 0
    } else {
        seconds * 1000 <= dead * 1000 - (now - last) < seconds * 1000 + 1000
    }
}

proof fn lemma_left(dead: u32, last: u64, now: u64)
    ensures
        is_left(collect::seconds_left(dead * 1000, last, now), dead as int, last, now),
{
}

proof fn lemma_same_members<T: Listed>(s: Seq<T::V>, from: int, to: int, x: T::V)
    ensures
        order::listed::<T>(s, from, to).contains(x) <==> s.contains(x),
{
    order::lemma_listed::<T>(s, from, to);
    let r = order::listed::<T>(s, from, to);
    r.to_multiset_ensures();
    s.to_multiset_ensures();
    assert(r.contains(x) <==> r.to_multiset().count(x) > 0);
    assert(s.contains(x) <==> s.to_multiset().count(x) > 0);
}

/// Whether `v` shows the OSPFv2 neighbor `n` on the interface `f`.
#[verifier::opaque]
pub open spec fn shows_neighbor(
    v: reply::NeighborStatusView,
    f: interface::OspfInterfaceView,
    n: neighbor::NeighborView,
    now: u64,
) -> bool {
    &&& text::ipv4(v.router_id) == Some(n.router_id)
    &&& text::ipv4(v.address) == Some(n.address)
    &&& v.interface == f.name
    &&& text::ipv4(v.area_id) == Some(f.area_id)
    &&& v.state == collect::neighbor_state_name(n.state)
    &&& v.priority == n.priority
    &&& text::ipv4(v.dr) == Some(n.dr)
    &&& text::ipv4(v.bdr) == Some(n.bdr)
    &&& is_left(v.dead_seconds_remaining, f.dead_interval as int, n.last_heard, now)
}

proof fn lemma_neighbor(f: interface::OspfInterfaceView, n: neighbor::NeighborView, now: u64)
    ensures
        shows_neighbor(collect::neighbor_status(n, f, now), f, n, now),
{
    reveal(shows_neighbor);
    lemma_left(f.dead_interval as u32, n.last_heard, now);
    text::lemma_ipv4_roundtrip(n.address);
    text::lemma_ipv4_roundtrip(n.router_id);
    text::lemma_ipv4_roundtrip(f.area_id);
    text::lemma_ipv4_roundtrip(n.dr);
    text::lemma_ipv4_roundtrip(n.bdr);
}

/// Whether one of the rows shows the OSPFv2 neighbor.
pub open spec fn has_neighbor(
    vs: Seq<reply::NeighborStatusView>,
    f: interface::OspfInterfaceView,
    n: neighbor::NeighborView,
    now: u64,
) -> bool {
    exists|q: int| 0 <= q < vs.len() && shows_neighbor(#[trigger] vs[q], f, n, now)
}

/// Whether the row shows an OSPFv2 neighbor on one of the interfaces.
pub open spec fn is_neighbor(v: reply::NeighborStatusView, fs: Seq<interface::OspfInterfaceView>, now: u64) -> bool {
    exists|i: int, j: int|
        0 <= i < fs.len() && 0 <= j < fs[i].neighbors.len() && shows_neighbor(
            v,
            #[trigger] fs[i],
            #[trigger] fs[i].neighbors[j],
            now,
        )
}

proof fn lemma_row_held(fs: Seq<interface::OspfInterfaceView>, now: u64, i: int, j: int)
    requires
        0 <= i < fs.len(),
        0 <= j < fs[i].neighbors.len(),
    ensures
        collect::neighbor_statuses(fs, now).contains(
            collect::neighbor_status(fs[i].neighbors[j], fs[i], now),
        ),
    decreases fs.len(),
{
    let rest = fs.drop_last();
    let before = collect::neighbor_statuses(rest, now);
    let all = collect::neighbor_statuses(fs, now);
    let x = collect::neighbor_status(fs[i].neighbors[j], fs[i], now);
    if i < rest.len() {
        assert(rest[i] == fs[i]);
        lemma_row_held(rest, now, i, j);
        assert(all[before.index_of(x)] == x);
    } else {
        assert(all[before.len() + j] == x);
    }
}

proof fn lemma_row_source(fs: Seq<interface::OspfInterfaceView>, now: u64, q: int)
    requires
        0 <= q < collect::neighbor_statuses(fs, now).len(),
    ensures
        is_neighbor(collect::neighbor_statuses(fs, now)[q], fs, now),
    decreases fs.len(),
{
    let rest = fs.drop_last();
    let last = fs.len() - 1;
    let before = collect::neighbor_statuses(rest, now);
    let v = collect::neighbor_statuses(fs, now)[q];
    if q < before.len() {
        assert(before[q] == v);
        lemma_row_source(rest, now, q);
        let (i, j) = choose|i: int, j: int|
            0 <= i < rest.len() && 0 <= j < rest[i].neighbors.len() && shows_neighbor(
                v,
                #[trigger] rest[i],
                #[trigger] rest[i].neighbors[j],
                now,
            );
        assert(shows_neighbor(v, fs[i], fs[i].neighbors[j], now));
    } else {
        let j = q - before.len();
        lemma_neighbor(fs[last], fs[last].neighbors[j], now);
        assert(shows_neighbor(v, fs[last], fs[last].neighbors[j], now));
    }
}

proof fn lemma_listed_held(fs: Seq<interface::OspfInterfaceView>, now: u64, i: int, j: int)
    requires
        0 <= i < fs.len(),
        0 <= j < fs[i].neighbors.len(),
    ensures
        has_neighbor(
            order::listed::<NeighborStatus>(collect::neighbor_statuses(fs, now), 0, 1),
            fs[i],
            fs[i].neighbors[j],
            now,
        ),
{
    let s = collect::neighbor_statuses(fs, now);
    let r = order::listed::<NeighborStatus>(s, 0, 1);
    let x = collect::neighbor_status(fs[i].neighbors[j], fs[i], now);
    lemma_row_held(fs, now, i, j);
    lemma_same_members::<NeighborStatus>(s, 0, 1, x);
    lemma_neighbor(fs[i], fs[i].neighbors[j], now);
    let q = r.index_of(x);
    assert(shows_neighbor(r[q], fs[i], fs[i].neighbors[j], now));
}

proof fn lemma_listed_source(fs: Seq<interface::OspfInterfaceView>, now: u64, q: int)
    requires
        0 <= q < order::listed::<NeighborStatus>(collect::neighbor_statuses(fs, now), 0, 1).len(),
    ensures
        is_neighbor(
            order::listed::<NeighborStatus>(collect::neighbor_statuses(fs, now), 0, 1)[q],
            fs,
            now,
        ),
{
    let s = collect::neighbor_statuses(fs, now);
    let r = order::listed::<NeighborStatus>(s, 0, 1);
    lemma_same_members::<NeighborStatus>(s, 0, 1, r[q]);
    assert(r.contains(r[q]));
    lemma_row_source(fs, now, s.index_of(r[q]));
}

/// Asked for the neighbors, an OSPFv2 instance shows each of them, and nothing else.
pub proof fn lemma_neighbors(me: instance::OspfInstanceView, rs: Seq<InstalledRoute>, now: u64)
    ensures
        collect::answer(reply::ControlRequestView::Neighbors, me, rs, now)
            matches reply::ControlResponseView::Neighbors(r) && {
            &&& forall|i: int, j: int|
                0 <= i < me.interfaces.len() && 0 <= j < me.interfaces[i].neighbors.len()
                    ==> has_neighbor(
                    r.neighbors,
                    me.interfaces[i],
                    #[trigger] me.interfaces[i].neighbors[j],
                    now,
                )
            &&& forall|q: int|
                0 <= q < r.neighbors.len() ==> is_neighbor(
                    #[trigger] r.neighbors[q],
                    me.interfaces,
                    now,
                )
        },
{
    let fs = me.interfaces;
    let r = order::listed::<NeighborStatus>(collect::neighbor_statuses(fs, now), 0, 1);
    assert(collect::answer(reply::ControlRequestView::Neighbors, me, rs, now)
        == reply::ControlResponseView::Neighbors(reply::NeighborsReplyView { neighbors: r }));
    assert forall|i: int, j: int| 0 <= i < fs.len() && 0 <= j < fs[i].neighbors.len() implies has_neighbor(
        r,
        fs[i],
        #[trigger] fs[i].neighbors[j],
        now,
    ) by {
        lemma_listed_held(fs, now, i, j);
    }
    assert forall|q: int| 0 <= q < r.len() implies is_neighbor(#[trigger] r[q], fs, now) by {
        lemma_listed_source(fs, now, q);
    }
}

/// Whether `v` shows the OSPFv2 interface.
pub open spec fn shows_interface(v: reply::InterfaceStatusView, f: interface::OspfInterfaceView) -> bool {
    &&& v.name == f.name
    &&& v.sw_if_index == f.sw_if_index
    &&& text::ipv4(v.address) == Some(f.address) && text::ipv4(v.mask) == Some(f.mask)
    &&& text::ipv4(v.area_id) == Some(f.area_id)
    &&& v.state == collect::interface_state_name(f.state)
    &&& v.network_type == collect::network_type_name(f.network_type)
    &&& v.cost == f.cost
    &&& v.priority == f.priority
    &&& v.hello_interval == f.hello_interval
    &&& v.dead_interval == f.dead_interval
    &&& text::ipv4(v.dr) == Some(f.dr)
    &&& text::ipv4(v.bdr) == Some(f.bdr)
}

/// Asked for the interfaces, an OSPFv2 instance shows each of them, one for one.
pub proof fn lemma_interfaces(me: instance::OspfInstanceView, rs: Seq<InstalledRoute>, now: u64)
    ensures
        collect::answer(reply::ControlRequestView::Interfaces, me, rs, now)
            matches reply::ControlResponseView::Interfaces(r) && {
            &&& r.interfaces.len() == me.interfaces.len()
            &&& forall|i: int|
                0 <= i < r.interfaces.len() ==> shows_interface(
                    #[trigger] r.interfaces[i],
                    me.interfaces[i],
                )
        },
{
    assert forall|i: int| 0 <= i < me.interfaces.len() implies shows_interface(
        #[trigger] collect::interface_status(me.interfaces[i]),
        me.interfaces[i],
    ) by {
        let f = me.interfaces[i];
        text::lemma_ipv4_roundtrip(f.address);
        text::lemma_ipv4_roundtrip(f.mask);
        text::lemma_ipv4_roundtrip(f.area_id);
        text::lemma_ipv4_roundtrip(f.dr);
        text::lemma_ipv4_roundtrip(f.bdr);
    }
}

/// Whether `v` shows the OSPFv2 LSA.
#[verifier::opaque]
pub open spec fn shows_lsa(v: reply::LsaSummaryView, e: lsdb::LsdbEntryView, now: u64) -> bool {
    &&& v.ls_type == collect::ls_type_name(e.lsa.header.ls_type)
    &&& text::ipv4(v.link_state_id) == Some(e.lsa.header.link_state_id)
    &&& text::ipv4(v.advertising_router) == Some(e.lsa.header.advertising_router)
    &&& v.ls_age == e.age(now)
    &&& v.ls_sequence_number == e.lsa.header.ls_sequence_number
    &&& v.length == e.lsa.header.length
    &&& v.self_originated == (e.self_originated)
}

/// Whether the row is filed under the area.
#[verifier::opaque]
pub open spec fn is_filed(v: reply::LsaSummaryView, area: u32) -> bool {
    text::ipv4(v.area_id) == Some(area)
}

/// Whether one of the rows shows the LSA of the area.
pub open spec fn has_lsa(
    vs: Seq<reply::LsaSummaryView>,
    e: lsdb::LsdbEntryView,
    area: u32,
    now: u64,
) -> bool {
    exists|q: int| 0 <= q < vs.len() && shows_lsa(#[trigger] vs[q], e, now) && is_filed(vs[q], area)
}

proof fn lemma_lsa(e: lsdb::LsdbEntryView, area: u32, now: u64)
    ensures
        shows_lsa(collect::lsa_summary(e, text::ipv4_text(area), now), e, now),
        is_filed(collect::lsa_summary(e, text::ipv4_text(area), now), area),
{
    reveal(shows_lsa);
    reveal(is_filed);
    text::lemma_ipv4_roundtrip(area);
    text::lemma_ipv4_roundtrip(e.lsa.header.link_state_id);
    text::lemma_ipv4_roundtrip(e.lsa.header.advertising_router);
}

proof fn lemma_lsas(
    s: Seq<lsdb::LsdbEntryView>,
    heading: Seq<char>,
    ls_type: Option<Seq<char>>,
    now: u64,
    v: reply::LsaSummaryView,
)
    ensures
        collect::lsa_summaries(s, heading, ls_type, now).contains(v) <==> exists|k: int|
            0 <= k < s.len() && collect::passes(s[k], ls_type) && v == collect::lsa_summary(
                #[trigger] s[k],
                heading,
                now,
            ),
    decreases s.len(),
{
    if s.len() > 0 {
        let rest = s.drop_last();
        let before = collect::lsa_summaries(rest, heading, ls_type, now);
        let all = collect::lsa_summaries(s, heading, ls_type, now);
        lemma_lsas(rest, heading, ls_type, now, v);
        if before.contains(v) {
            assert(all[before.index_of(v)] == v);
            let k = choose|k: int|
                0 <= k < rest.len() && collect::passes(rest[k], ls_type) && v
                    == collect::lsa_summary(#[trigger] rest[k], heading, now);
            assert(s[k] == rest[k]);
        }
        if all.contains(v) {
            let q = all.index_of(v);
            if q < before.len() {
                assert(before[q] == v);
            } else {
                assert(s[s.len() - 1] == s.last());
            }
        }
        if exists|k: int|
            0 <= k < s.len() && collect::passes(s[k], ls_type) && v == collect::lsa_summary(
                #[trigger] s[k],
                heading,
                now,
            ) {
            let k = choose|k: int|
                0 <= k < s.len() && collect::passes(s[k], ls_type) && v == collect::lsa_summary(
                    #[trigger] s[k],
                    heading,
                    now,
                );
            if k < rest.len() {
                assert(rest[k] == s[k]);
            } else {
                assert(all[before.len() as int] == v);
            }
        }
    }
}

proof fn lemma_areas_shown(
    s: Seq<area::AreaView>,
    area: Option<Seq<char>>,
    ls_type: Option<Seq<char>>,
    now: u64,
    i: int,
    k: int,
)
    requires
        0 <= i < s.len(),
        0 <= k < s[i].lsdb.entries.len(),
        collect::passes(s[i].lsdb.entries[k], ls_type),
        area is None || area == Some(text::ipv4_text(s[i].area_id)),
    ensures
        collect::area_summaries(s, area, ls_type, now).contains(
            collect::lsa_summary(s[i].lsdb.entries[k], text::ipv4_text(s[i].area_id), now),
        ),
    decreases s.len(),
{
    let rest = s.drop_last();
    let before = collect::area_summaries(rest, area, ls_type, now);
    let all = collect::area_summaries(s, area, ls_type, now);
    let v = collect::lsa_summary(s[i].lsdb.entries[k], text::ipv4_text(s[i].area_id), now);
    if i < rest.len() {
        assert(rest[i] == s[i]);
        lemma_areas_shown(rest, area, ls_type, now, i, k);
        assert(all[before.index_of(v)] == v);
    } else {
        let h = text::ipv4_text(s[i].area_id);
        let more = collect::lsa_summaries(s[i].lsdb.entries, h, ls_type, now);
        lemma_lsas(s[i].lsdb.entries, h, ls_type, now, v);
        assert(more.contains(v));
        assert(all[before.len() + more.index_of(v)] == v);
    }
}

/// Asked for the database without a filter, an instance shows each LSA of each area.
pub proof fn lemma_database(
    me: instance::OspfInstanceView,
    rs: Seq<InstalledRoute>,
    now: u64,
    i: int,
    k: int,
)
    requires
        0 <= i < me.areas.len(),
        0 <= k < me.areas[i].lsdb.entries.len(),
    ensures
        collect::answer(
            reply::ControlRequestView::Database { area: None, ls_type: None },
            me,
            rs,
            now,
        ) matches reply::ControlResponseView::Database(r) && has_lsa(
            r.lsas,
            me.areas[i].lsdb.entries[k],
            me.areas[i].area_id,
            now,
        ),
{
    let s = collect::database(me, None, None, now);
    let a = collect::area_summaries(me.areas, None, None, now);
    let e = me.areas[i].lsdb.entries[k];
    let v = collect::lsa_summary(e, text::ipv4_text(me.areas[i].area_id), now);
    lemma_areas_shown(me.areas, None, None, now, i, k);
    assert(s[a.index_of(v)] == v);
    lemma_same_members::<LsaSummary>(s, 0, 4, v);
    let r = order::listed::<LsaSummary>(s, 0, 4);
    let q = r.index_of(v);
    assert(r[q] == v);
    lemma_lsa(e, me.areas[i].area_id, now);
    assert(collect::answer(
        reply::ControlRequestView::Database { area: None, ls_type: None },
        me,
        rs,
        now,
    ) == reply::ControlResponseView::Database(reply::DatabaseReplyView { lsas: r }));
    assert(s.contains(v));
    assert(r.contains(v));
    assert(0 <= q < r.len());
    assert(shows_lsa(r[q], e, now));
    assert(is_filed(r[q], me.areas[i].area_id));
    assert(has_lsa(r, e, me.areas[i].area_id, now));
}

/// Asked for the routes, an instance shows each that is installed, one for one.
pub proof fn lemma_routes(me: instance::OspfInstanceView, rs: Seq<InstalledRoute>, now: u64)
    ensures
        collect::answer(reply::ControlRequestView::Routes, me, rs, now)
            matches reply::ControlResponseView::Routes(r) && {
            &&& r.routes.len() == rs.len()
            &&& forall|i: int|
                0 <= i < rs.len() ==> text::ipv4((#[trigger] r.routes[i]).prefix) == Some(rs[i].prefix)
                    && r.routes[i].prefix_len == rs[i].prefix_len && text::ipv4(r.routes[i].next_hop)
                    == Some(rs[i].next_hop) && r.routes[i].sw_if_index == rs[i].sw_if_index
                    && r.routes[i].cost == rs[i].cost
        },
{
    assert forall|i: int| 0 <= i < rs.len() implies text::ipv4(
        (#[trigger] collect::route_status(rs[i])).prefix,
    ) == Some(rs[i].prefix) && text::ipv4(collect::route_status(rs[i]).next_hop) == Some(
        rs[i].next_hop,
    ) by {
        text::lemma_ipv4_roundtrip(rs[i].prefix);
        text::lemma_ipv4_roundtrip(rs[i].next_hop);
    }
}

/// Whether `v` shows the OSPFv3 neighbor `n` on the interface `f`.
#[verifier::opaque]
pub open spec fn shows_neighbor_v3(
    v: reply::NeighborStatusView,
    f: instance_v3::InterfaceV3View,
    n: instance_v3::NeighborV3View,
    now: u64,
) -> bool {
    &&& text::ipv4(v.router_id) == Some(n.router_id)
    &&& v.address == text::ipv6_text(n.link_local)
    &&& v.interface == f.io.name
    &&& text::ipv4(v.area_id) == Some(f.area_id)
    &&& v.state == collect_v3::neighbor_state_name(n.state)
    &&& v.priority == n.priority
    &&& text::ipv4(v.dr) == Some(n.dr)
    &&& text::ipv4(v.bdr) == Some(n.bdr)
    &&& is_left(v.dead_seconds_remaining, f.dead_interval as int, n.last_hello, now)
}

proof fn lemma_neighbor_v3(f: instance_v3::InterfaceV3View, n: instance_v3::NeighborV3View, now: u64)
    ensures
        shows_neighbor_v3(collect_v3::neighbor_status(n, f, now), f, n, now),
{
    reveal(shows_neighbor_v3);
    lemma_left(f.dead_interval as u32, n.last_hello, now);
    text::lemma_ipv4_roundtrip(n.router_id);
    text::lemma_ipv4_roundtrip(f.area_id);
    text::lemma_ipv4_roundtrip(n.dr);
    text::lemma_ipv4_roundtrip(n.bdr);
}

/// Whether one of the rows shows the OSPFv3 neighbor.
pub open spec fn has_neighbor_v3(
    vs: Seq<reply::NeighborStatusView>,
    f: instance_v3::InterfaceV3View,
    n: instance_v3::NeighborV3View,
    now: u64,
) -> bool {
    exists|q: int| 0 <= q < vs.len() && shows_neighbor_v3(#[trigger] vs[q], f, n, now)
}

/// Whether the row shows an OSPFv3 neighbor on one of the interfaces.
pub open spec fn is_neighbor_v3(v: reply::NeighborStatusView, fs: Seq<instance_v3::InterfaceV3View>, now: u64) -> bool {
    exists|i: int, j: int|
        0 <= i < fs.len() && 0 <= j < fs[i].neighbors.len() && shows_neighbor_v3(
            v,
            #[trigger] fs[i],
            #[trigger] fs[i].neighbors[j],
            now,
        )
}

proof fn lemma_row_held_v3(fs: Seq<instance_v3::InterfaceV3View>, now: u64, i: int, j: int)
    requires
        0 <= i < fs.len(),
        0 <= j < fs[i].neighbors.len(),
    ensures
        collect_v3::neighbor_statuses(fs, now).contains(
            collect_v3::neighbor_status(fs[i].neighbors[j], fs[i], now),
        ),
    decreases fs.len(),
{
    let rest = fs.drop_last();
    let before = collect_v3::neighbor_statuses(rest, now);
    let all = collect_v3::neighbor_statuses(fs, now);
    let x = collect_v3::neighbor_status(fs[i].neighbors[j], fs[i], now);
    if i < rest.len() {
        assert(rest[i] == fs[i]);
        lemma_row_held_v3(rest, now, i, j);
        assert(all[before.index_of(x)] == x);
    } else {
        assert(all[before.len() + j] == x);
    }
}

proof fn lemma_row_source_v3(fs: Seq<instance_v3::InterfaceV3View>, now: u64, q: int)
    requires
        0 <= q < collect_v3::neighbor_statuses(fs, now).len(),
    ensures
        is_neighbor_v3(collect_v3::neighbor_statuses(fs, now)[q], fs, now),
    decreases fs.len(),
{
    let rest = fs.drop_last();
    let last = fs.len() - 1;
    let before = collect_v3::neighbor_statuses(rest, now);
    let v = collect_v3::neighbor_statuses(fs, now)[q];
    if q < before.len() {
        assert(before[q] == v);
        lemma_row_source_v3(rest, now, q);
        let (i, j) = choose|i: int, j: int|
            0 <= i < rest.len() && 0 <= j < rest[i].neighbors.len() && shows_neighbor_v3(
                v,
                #[trigger] rest[i],
                #[trigger] rest[i].neighbors[j],
                now,
            );
        assert(shows_neighbor_v3(v, fs[i], fs[i].neighbors[j], now));
    } else {
        let j = q - before.len();
        lemma_neighbor_v3(fs[last], fs[last].neighbors[j], now);
        assert(shows_neighbor_v3(v, fs[last], fs[last].neighbors[j], now));
    }
}

proof fn lemma_listed_held_v3(fs: Seq<instance_v3::InterfaceV3View>, now: u64, i: int, j: int)
    requires
        0 <= i < fs.len(),
        0 <= j < fs[i].neighbors.len(),
    ensures
        has_neighbor_v3(
            order::listed::<NeighborStatus>(collect_v3::neighbor_statuses(fs, now), 0, 1),
            fs[i],
            fs[i].neighbors[j],
            now,
        ),
{
    let s = collect_v3::neighbor_statuses(fs, now);
    let r = order::listed::<NeighborStatus>(s, 0, 1);
    let x = collect_v3::neighbor_status(fs[i].neighbors[j], fs[i], now);
    lemma_row_held_v3(fs, now, i, j);
    lemma_same_members::<NeighborStatus>(s, 0, 1, x);
    lemma_neighbor_v3(fs[i], fs[i].neighbors[j], now);
    let q = r.index_of(x);
    assert(shows_neighbor_v3(r[q], fs[i], fs[i].neighbors[j], now));
}

proof fn lemma_listed_source_v3(fs: Seq<instance_v3::InterfaceV3View>, now: u64, q: int)
    requires
        0 <= q < order::listed::<NeighborStatus>(collect_v3::neighbor_statuses(fs, now), 0, 1).len(),
    ensures
        is_neighbor_v3(
            order::listed::<NeighborStatus>(collect_v3::neighbor_statuses(fs, now), 0, 1)[q],
            fs,
            now,
        ),
{
    let s = collect_v3::neighbor_statuses(fs, now);
    let r = order::listed::<NeighborStatus>(s, 0, 1);
    lemma_same_members::<NeighborStatus>(s, 0, 1, r[q]);
    assert(r.contains(r[q]));
    lemma_row_source_v3(fs, now, s.index_of(r[q]));
}

/// Asked for the neighbors, an OSPFv3 instance shows each of them, and nothing else.
pub proof fn lemma_neighbors_v3(me: instance_v3::InstanceV3View, rs: Seq<spf_v3::SpfRouteV3View>, now: u64)
    ensures
        collect_v3::answer(reply::ControlRequestView::Neighbors6, me, rs, now)
            matches reply::ControlResponseView::Neighbors6(r) && {
            &&& forall|i: int, j: int|
                0 <= i < me.interfaces.len() && 0 <= j < me.interfaces[i].neighbors.len()
                    ==> has_neighbor_v3(
                    r.neighbors,
                    me.interfaces[i],
                    #[trigger] me.interfaces[i].neighbors[j],
                    now,
                )
            &&& forall|q: int|
                0 <= q < r.neighbors.len() ==> is_neighbor_v3(
                    #[trigger] r.neighbors[q],
                    me.interfaces,
                    now,
                )
        },
{
    let fs = me.interfaces;
    let r = order::listed::<NeighborStatus>(collect_v3::neighbor_statuses(fs, now), 0, 1);
    assert(collect_v3::answer(reply::ControlRequestView::Neighbors6, me, rs, now)
        == reply::ControlResponseView::Neighbors6(reply::NeighborsReplyView { neighbors: r }));
    assert forall|i: int, j: int| 0 <= i < fs.len() && 0 <= j < fs[i].neighbors.len() implies has_neighbor_v3(
        r,
        fs[i],
        #[trigger] fs[i].neighbors[j],
        now,
    ) by {
        lemma_listed_held_v3(fs, now, i, j);
    }
    assert forall|q: int| 0 <= q < r.len() implies is_neighbor_v3(#[trigger] r[q], fs, now) by {
        lemma_listed_source_v3(fs, now, q);
    }
}

/// Whether `v` shows the OSPFv3 interface.
pub open spec fn shows_interface_v3(v: reply::InterfaceStatusView, f: instance_v3::InterfaceV3View) -> bool {
    &&& v.name == f.io.name
    &&& v.sw_if_index == f.io.sw_if_index
    &&& v.address == text::ipv6_text(f.io.link_local)
    &&& text::ipv4(v.area_id) == Some(f.area_id)
    &&& v.state == collect_v3::interface_state_name(f.state)
    &&& v.network_type == collect_v3::network_type_name(f.network_type)
    &&& v.cost == 10
    &&& v.priority == f.priority
    &&& v.hello_interval == f.hello_interval
    &&& v.dead_interval == f.dead_interval
    &&& text::ipv4(v.dr) == Some(f.dr)
    &&& text::ipv4(v.bdr) == Some(f.bdr)
}

/// Asked for the interfaces, an OSPFv3 instance shows each of them, one for one.
pub proof fn lemma_interfaces_v3(me: instance_v3::InstanceV3View, rs: Seq<spf_v3::SpfRouteV3View>, now: u64)
    ensures
        collect_v3::answer(reply::ControlRequestView::Interfaces6, me, rs, now)
            matches reply::ControlResponseView::Interfaces6(r) && {
            &&& r.interfaces.len() == me.interfaces.len()
            &&& forall|i: int|
                0 <= i < r.interfaces.len() ==> shows_interface_v3(
                    #[trigger] r.interfaces[i],
                    me.interfaces[i],
                )
        },
{
    assert forall|i: int| 0 <= i < me.interfaces.len() implies shows_interface_v3(
        #[trigger] collect_v3::interface_status(me.interfaces[i]),
        me.interfaces[i],
    ) by {
        let f = me.interfaces[i];
        text::lemma_ipv4_roundtrip(f.area_id);
        text::lemma_ipv4_roundtrip(f.dr);
        text::lemma_ipv4_roundtrip(f.bdr);
    }
}

/// Whether `v` shows the OSPFv3 LSA.
#[verifier::opaque]
pub open spec fn shows_lsa_v3(v: reply::LsaSummaryView, e: lsdb_v3::LsaEntryV3View, me: u32) -> bool {
    &&& v.ls_type == collect_v3::ls_type_name(e.header.ls_type)
    &&& text::ipv4(v.link_state_id) == Some(e.header.link_state_id)
    &&& text::ipv4(v.advertising_router) == Some(e.header.advertising_router)
    &&& v.ls_age == e.header.ls_age
    &&& v.ls_sequence_number == e.header.ls_sequence_number
    &&& v.length == e.header.length
    &&& v.self_originated == (e.header.advertising_router == me)
}

/// Whether one of the rows shows the OSPFv3 LSA.
pub open spec fn has_lsa_v3(
    vs: Seq<reply::LsaSummaryView>,
    e: lsdb_v3::LsaEntryV3View,
    me: u32,
) -> bool {
    exists|q: int| 0 <= q < vs.len() && shows_lsa_v3(#[trigger] vs[q], e, me)
}

proof fn lemma_lsa_v3(e: lsdb_v3::LsaEntryV3View, id: u32)
    ensures
        shows_lsa_v3(collect_v3::lsa_summary(e, id), e, id),
{
    reveal(shows_lsa_v3);
    text::lemma_ipv4_roundtrip(e.header.link_state_id);
    text::lemma_ipv4_roundtrip(e.header.advertising_router);
}

/// Asked for the database without a filter, an OSPFv3 instance shows each LSA.
pub proof fn lemma_database_v3(
    me: instance_v3::InstanceV3View,
    rs: Seq<spf_v3::SpfRouteV3View>,
    now: u64,
    k: int,
)
    requires
        0 <= k < me.lsdb.entries.len(),
    ensures
        collect_v3::answer(
            reply::ControlRequestView::Database6 { area: None, ls_type: None },
            me,
            rs,
            now,
        ) matches reply::ControlResponseView::Database6(r) && has_lsa_v3(
            r.lsas,
            me.lsdb.entries[k],
            me.router_id,
        ),
{
    let s = collect_v3::database(me.lsdb.entries, None, None, me.router_id);
    let e = me.lsdb.entries[k];
    let v = collect_v3::lsa_summary(e, me.router_id);
    lemma_entry_shown(me.lsdb.entries, me.router_id, k);
    lemma_same_members::<LsaSummary>(s, 1, 4, v);
    let r = order::listed::<LsaSummary>(s, 1, 4);
    let q = r.index_of(v);
    assert(r[q] == v);
    lemma_lsa_v3(e, me.router_id);
    assert(collect_v3::answer(
        reply::ControlRequestView::Database6 { area: None, ls_type: None },
        me,
        rs,
        now,
    ) == reply::ControlResponseView::Database6(reply::DatabaseReplyView { lsas: r }));
    assert(s.contains(v));
    assert(r.contains(v));
    assert(0 <= q < r.len());
    assert(shows_lsa_v3(r[q], e, me.router_id));
    assert(has_lsa_v3(r, e, me.router_id));
}

proof fn lemma_entry_shown(s: Seq<lsdb_v3::LsaEntryV3View>, id: u32, k: int)
    requires
        0 <= k < s.len(),
    ensures
        collect_v3::database(s, None, None, id).contains(collect_v3::lsa_summary(s[k], id)),
    decreases s.len(),
{
    let rest = s.drop_last();
    let before = collect_v3::database(rest, None, None, id);
    let all = collect_v3::database(s, None, None, id);
    let v = collect_v3::lsa_summary(s[k], id);
    if k < rest.len() {
        assert(rest[k] == s[k]);
        lemma_entry_shown(rest, id, k);
        assert(all[before.index_of(v)] == v);
    } else {
        assert(all[before.len() as int] == v);
    }
}

/// Asked for the routes, an OSPFv3 instance shows each with all its next hops, one for one.
pub proof fn lemma_routes_v3(
    me: instance_v3::InstanceV3View,
    rs: Seq<spf_v3::SpfRouteV3View>,
    now: u64,
)
    ensures
        collect_v3::answer(reply::ControlRequestView::Routes6, me, rs, now)
            matches reply::ControlResponseView::Routes6(r) && {
            &&& r.routes.len() == rs.len()
            &&& forall|i: int|
                0 <= i < rs.len() ==> (#[trigger] r.routes[i]).prefix == text::ipv6_text(rs[i].prefix)
                    && r.routes[i].prefix_len == rs[i].prefix_len && r.routes[i].cost == rs[i].cost
                    && r.routes[i].next_hops.len() == rs[i].next_hops.len()
            &&& forall|i: int, j: int|
                0 <= i < rs.len() && 0 <= j < rs[i].next_hops.len() ==> (
                #[trigger] r.routes[i].next_hops[j]).address == text::ipv6_text(
                    rs[i].next_hops[j].0,
                ) && r.routes[i].next_hops[j].sw_if_index == rs[i].next_hops[j].1
        },
{
}

} // verus!
