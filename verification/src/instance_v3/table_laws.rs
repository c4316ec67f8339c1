//! Laws of the tables that area border routers announce: which prefixes they hold and at what cost.
use vstd::prelude::*;

use crate::instance_v3::inter_area;
use crate::instance_v3::inter_area::{AreaRoute, PrefixCost};
use crate::instance_v3::routes;
use crate::instance_v3::{InstanceV3View, InterfaceV3View, NeighborStateV3, NeighborV3View};
use crate::lsdb_v3::LsaEntryV3View;
use crate::packet_v3::lsa;
use crate::packet_v3::lsa::InterAreaPrefixLsaV3;
use crate::packet_v3::prefix::Ospfv3Prefix;
use crate::packet_v3::roundtrip;
use crate::packet_v3::LsaV3Type;
use crate::spf_v3::{SpfNeighborV3, SpfRouteV3View};

verus! {

/// Whether the table holds the prefix at this cost or less.
pub open spec fn within(t: Seq<PrefixCost>, address: u128, len: u8, cost: int) -> bool {
    exists|i: int|
        0 <= i < t.len() && (#[trigger] t[i]).address == address && t[i].len == len && t[i].cost
            <= cost
}

proof fn lemma_put(t: Seq<PrefixCost>, p: PrefixCost)
    requires
        inter_area::ordered(t),
    ensures
        inter_area::ordered(inter_area::put_min(t, p)),
        within(inter_area::put_min(t, p), p.address, p.len, p.cost as int),
        forall|i: int|
            0 <= i < inter_area::put_min(t, p).len() ==> #[trigger] inter_area::put_min(t, p)[i]
                == p || t.contains(inter_area::put_min(t, p)[i]),
{
    inter_area::lemma_put_min(t, p);
    let r = inter_area::put_min(t, p);
    let i = inter_area::slot(t, p, 0);
    inter_area::lemma_slot(t, p, 0);
    assert forall|k: int| 0 <= k < r.len() implies #[trigger] r[k] == p || t.contains(r[k]) by {
        if i < t.len() && t[i].same_prefix(p) {
            assert(r[k] == p || r[k] == t[k]);
        } else if k < i {
            assert(r[k] == t[k]);
        } else if k > i {
            assert(r[k] == t[k - 1]);
        }
    }
}

proof fn lemma_put_keeps(t: Seq<PrefixCost>, p: PrefixCost, address: u128, len: u8, cost: int)
    requires
        within(t, address, len, cost),
    ensures
        within(inter_area::put_min(t, p), address, len, cost),
{
    let r = inter_area::put_min(t, p);
    let i = inter_area::slot(t, p, 0);
    inter_area::lemma_slot(t, p, 0);
    let k = choose|k: int|
        0 <= k < t.len() && (#[trigger] t[k]).address == address && t[k].len == len && t[k].cost
            <= cost;
    if i < t.len() && t[i].same_prefix(p) {
        assert(r[k] == t[k] || r[k] == p);
    } else if k < i {
        assert(r[k] == t[k]);
    } else {
        assert(r[k + 1] == t[k]);
    }
}

/// Whether the prefix is among `ps`.
pub open spec fn lists(ps: Seq<Ospfv3Prefix>, address: u128, len: u8) -> bool {
    exists|k: int|
        0 <= k < ps.len() && (#[trigger] ps[k]).address == address && ps[k].prefix_length == len
}

proof fn lemma_put_own(t: Seq<PrefixCost>, ps: Seq<Ospfv3Prefix>)
    requires
        inter_area::ordered(t),
    ensures
        inter_area::ordered(inter_area::put_own(t, ps)),
        forall|i: int|
            0 <= i < inter_area::put_own(t, ps).len() ==> t.contains(
                #[trigger] inter_area::put_own(t, ps)[i],
            ) || (inter_area::put_own(t, ps)[i].cost == 0 && lists(
                ps,
                inter_area::put_own(t, ps)[i].address,
                inter_area::put_own(t, ps)[i].len,
            )),
    decreases ps.len(),
{
    if ps.len() > 0 {
        let rest = ps.drop_last();
        let before = inter_area::put_own(t, rest);
        let all = inter_area::put_own(t, ps);
        let p = PrefixCost { address: ps.last().address, len: ps.last().prefix_length, cost: 0 };
        lemma_put_own(t, rest);
        lemma_put(before, p);
        assert forall|i: int| 0 <= i < all.len() implies t.contains(#[trigger] all[i]) || (
        all[i].cost == 0 && lists(ps, all[i].address, all[i].len)) by {
            if all[i] == p {
                assert(ps[ps.len() - 1].address == p.address);
            } else {
                let k = before.index_of(all[i]);
                assert(before[k] == all[i]);
                if !t.contains(before[k]) {
                    let j = choose|j: int|
                        0 <= j < rest.len() && (#[trigger] rest[j]).address == before[k].address
                            && rest[j].prefix_length == before[k].len;
                    assert(ps[j] == rest[j]);
                }
            }
        }
    } else {
        assert forall|i: int| 0 <= i < t.len() implies t.contains(#[trigger] t[i]) by {}
    }
}

proof fn lemma_own_put(
    t: Seq<PrefixCost>,
    ps: Seq<Ospfv3Prefix>,
    address: u128,
    len: u8,
    cost: int,
)
    requires
        inter_area::ordered(t),
        0 <= cost,
    ensures
        within(t, address, len, cost) || lists(ps, address, len) ==> within(
            inter_area::put_own(t, ps),
            address,
            len,
            cost,
        ),
    decreases ps.len(),
{
    if ps.len() > 0 {
        let rest = ps.drop_last();
        let before = inter_area::put_own(t, rest);
        let p = PrefixCost { address: ps.last().address, len: ps.last().prefix_length, cost: 0 };
        lemma_own_put(t, rest, address, len, cost);
        lemma_put_own(t, rest);
        lemma_put(before, p);
        if within(before, address, len, cost) {
            lemma_put_keeps(before, p, address, len, cost);
        } else if lists(ps, address, len) {
            let k = choose|k: int|
                0 <= k < ps.len() && (#[trigger] ps[k]).address == address && ps[k].prefix_length
                    == len;
            if k < rest.len() {
                assert(rest[k] == ps[k]);
            } else {
                let all = inter_area::put_min(before, p);
                let i = choose|i: int|
                    0 <= i < all.len() && (#[trigger] all[i]).address == p.address && all[i].len
                        == p.len && all[i].cost <= p.cost;
                assert(all[i].cost <= cost);
            }
        }
    }
}

/// Whether `e` is an Intra-Area-Prefix-LSA of `me` in `area` that lists the prefix.
pub open spec fn tells(e: LsaEntryV3View, me: u32, area: u32, address: u128, len: u8) -> bool {
    &&& e.header.ls_type == LsaV3Type::IntraAreaPrefix
    &&& e.header.advertising_router == me
    &&& e.area == Some(area)
    &&& lsa::intra_area_prefix_parse(e.body()) matches Ok(ps) && lists(ps, address, len)
}

/// Whether the prefix is one of `me` in `area`.
pub open spec fn is_ours(
    es: Seq<LsaEntryV3View>,
    me: u32,
    area: u32,
    address: u128,
    len: u8,
) -> bool {
    exists|j: int| 0 <= j < es.len() && #[trigger] tells(es[j], me, area, address, len)
}

proof fn lemma_own_table(es: Seq<LsaEntryV3View>, me: u32, area: u32)
    ensures
        inter_area::ordered(inter_area::own_table(es, me, area)),
        forall|i: int|
            0 <= i < inter_area::own_table(es, me, area).len() ==> (
            #[trigger] inter_area::own_table(es, me, area)[i]).cost == 0 && is_ours(
                es,
                me,
                area,
                inter_area::own_table(es, me, area)[i].address,
                inter_area::own_table(es, me, area)[i].len,
            ),
    decreases es.len(),
{
    if es.len() > 0 {
        let rest = es.drop_last();
        let before = inter_area::own_table(rest, me, area);
        let ps = inter_area::own_prefixes(es.last(), me, area);
        let all = inter_area::own_table(es, me, area);
        lemma_own_table(rest, me, area);
        lemma_put_own(before, ps);
        assert forall|i: int| 0 <= i < all.len() implies (#[trigger] all[i]).cost == 0 && is_ours(
            es,
            me,
            area,
            all[i].address,
            all[i].len,
        ) by {
            if before.contains(all[i]) {
                let k = before.index_of(all[i]);
                assert(before[k].cost == 0);
                let j = choose|j: int|
                    0 <= j < rest.len() && #[trigger] tells(
                        rest[j],
                        me,
                        area,
                        all[i].address,
                        all[i].len,
                    );
                assert(tells(es[j], me, area, all[i].address, all[i].len));
            } else {
                assert(tells(es[es.len() - 1], me, area, all[i].address, all[i].len));
            }
        }
    }
}

proof fn lemma_ours_held(es: Seq<LsaEntryV3View>, me: u32, area: u32, address: u128, len: u8)
    requires
        is_ours(es, me, area, address, len),
    ensures
        within(inter_area::own_table(es, me, area), address, len, 0),
    decreases es.len(),
{
    let rest = es.drop_last();
    let ps = inter_area::own_prefixes(es.last(), me, area);
    lemma_own_table(rest, me, area);
    lemma_own_put(inter_area::own_table(rest, me, area), ps, address, len, 0);
    let j = choose|j: int|
        0 <= j < es.len() && #[trigger] tells(es[j], me, area, address, len);
    if j < rest.len() {
        assert(tells(rest[j], me, area, address, len));
        lemma_ours_held(rest, me, area, address, len);
    }
}

proof fn lemma_put_routes(t: Seq<PrefixCost>, rs: Seq<AreaRoute>, area: u32)
    requires
        inter_area::ordered(t),
    ensures
        inter_area::ordered(inter_area::put_routes(t, rs, area)),
        forall|i: int|
            0 <= i < inter_area::put_routes(t, rs, area).len() ==> t.contains(
                #[trigger] inter_area::put_routes(t, rs, area)[i],
            ) || rs.contains(
                AreaRoute { area, prefix: inter_area::put_routes(t, rs, area)[i] },
            ),
    decreases rs.len(),
{
    let all = inter_area::put_routes(t, rs, area);
    if rs.len() > 0 {
        let rest = rs.drop_last();
        let before = inter_area::put_routes(t, rest, area);
        let p = rs.last().prefix;
        lemma_put_routes(t, rest, area);
        lemma_put(before, p);
        assert forall|i: int| 0 <= i < all.len() implies t.contains(#[trigger] all[i])
            || rs.contains(AreaRoute { area, prefix: all[i] }) by {
            if before.contains(all[i]) {
                let k = before.index_of(all[i]);
                assert(before[k] == all[i]);
                let r = AreaRoute { area, prefix: all[i] };
                if rest.contains(r) {
                    assert(rs[rest.index_of(r)] == r);
                }
            } else if rs.last().area == area {
                assert(rs[rs.len() - 1] == AreaRoute { area, prefix: all[i] });
            } else {
                assert(before[i] == all[i]);
            }
        }
    } else {
        assert forall|i: int| 0 <= i < all.len() implies t.contains(#[trigger] all[i]) by {}
    }
}

proof fn lemma_routes_put(
    t: Seq<PrefixCost>,
    rs: Seq<AreaRoute>,
    area: u32,
    address: u128,
    len: u8,
    cost: int,
)
    requires
        inter_area::ordered(t),
        within(t, address, len, cost) || exists|k: int|
            0 <= k < rs.len() && (#[trigger] rs[k]).area == area && rs[k].prefix.address == address
                && rs[k].prefix.len == len && rs[k].prefix.cost <= cost,
    ensures
        within(inter_area::put_routes(t, rs, area), address, len, cost),
    decreases rs.len(),
{
    if rs.len() > 0 {
        let rest = rs.drop_last();
        let before = inter_area::put_routes(t, rest, area);
        let p = rs.last().prefix;
        lemma_put_routes(t, rest, area);
        lemma_put(before, p);
        let here = rs.last().area == area && p.address == address && p.len == len && p.cost <= cost;
        if here {
            let all = inter_area::put_min(before, p);
            let i = choose|i: int|
                0 <= i < all.len() && (#[trigger] all[i]).address == p.address && all[i].len == p.len
                    && all[i].cost <= p.cost;
            assert(all[i].cost <= cost);
        } else {
            if !within(t, address, len, cost) {
                let k = choose|k: int|
                    0 <= k < rs.len() && (#[trigger] rs[k]).area == area && rs[k].prefix.address
                        == address && rs[k].prefix.len == len && rs[k].prefix.cost <= cost;
                assert(k < rest.len());
                assert(rest[k] == rs[k]);
            }
            lemma_routes_put(t, rest, area, address, len, cost);
            lemma_put_keeps(before, p, address, len, cost);
        }
    }
}

/// The table of an area holds no prefix twice; each entry is a prefix of ours at no cost or a route
/// of the area.
pub proof fn lemma_table_source(me: InstanceV3View, rs: Seq<AreaRoute>, area: u32, i: int, j: int)
    requires
        0 <= i < me.area_table(rs, area).len(),
        0 <= j < me.area_table(rs, area).len(),
    ensures
        ({
            let t = me.area_table(rs, area);
            let p = t[i];
            &&& i != j ==> p.address != t[j].address || p.len != t[j].len
            &&& (p.cost == 0 && is_ours(me.lsdb.entries, me.router_id, area, p.address, p.len))
                || rs.contains(AreaRoute { area, prefix: p })
        }),
{
    let own = inter_area::own_table(me.lsdb.entries, me.router_id, area);
    let t = me.area_table(rs, area);
    lemma_own_table(me.lsdb.entries, me.router_id, area);
    lemma_put_routes(own, rs, area);
    if own.contains(t[i]) {
        let k = own.index_of(t[i]);
        assert(own[k] == t[i]);
    }
    if i < j {
        assert(t[i].before(t[j]));
    } else if j < i {
        assert(t[j].before(t[i]));
    }
}

/// The table of an area holds each prefix of ours there, at no cost.
pub proof fn lemma_table_ours(
    me: InstanceV3View,
    rs: Seq<AreaRoute>,
    area: u32,
    address: u128,
    len: u8,
)
    requires
        is_ours(me.lsdb.entries, me.router_id, area, address, len),
    ensures
        within(me.area_table(rs, area), address, len, 0),
{
    lemma_own_table(me.lsdb.entries, me.router_id, area);
    lemma_ours_held(me.lsdb.entries, me.router_id, area, address, len);
    let own = inter_area::own_table(me.lsdb.entries, me.router_id, area);
    lemma_routes_put(own, rs, area, address, len, 0);
}

/// The table of an area holds the prefix of each route there, at the cost of the route or less.
pub proof fn lemma_table_routes(me: InstanceV3View, rs: Seq<AreaRoute>, k: int)
    requires
        0 <= k < rs.len(),
    ensures
        within(
            me.area_table(rs, rs[k].area),
            rs[k].prefix.address,
            rs[k].prefix.len,
            rs[k].prefix.cost as int,
        ),
{
    let own = inter_area::own_table(me.lsdb.entries, me.router_id, rs[k].area);
    lemma_own_table(me.lsdb.entries, me.router_id, rs[k].area);
    lemma_routes_put(
        own,
        rs,
        rs[k].area,
        rs[k].prefix.address,
        rs[k].prefix.len,
        rs[k].prefix.cost as int,
    );
}

/// Whether `n` tells path computation of a Full neighbor on one of the interfaces: its router id,
/// its link-local address and the interface it is met on.
pub open spec fn is_met(ifs: Seq<InterfaceV3View>, n: SpfNeighborV3) -> bool {
    exists|i: int, j: int|
        0 <= i < ifs.len() && 0 <= j < ifs[i].neighbors.len() && meets(
            #[trigger] ifs[i],
            #[trigger] ifs[i].neighbors[j],
            n,
        )
}

/// Whether `n` stands for the Full neighbor `m` on the interface `f`.
pub open spec fn meets(f: InterfaceV3View, m: NeighborV3View, n: SpfNeighborV3) -> bool {
    m.state == NeighborStateV3::Full && n.router_id == m.router_id && n.link_local == m.link_local
        && n.sw_if_index == f.io.sw_if_index
}

proof fn lemma_met_on(f: InterfaceV3View, ms: Seq<NeighborV3View>, n: SpfNeighborV3)
    ensures
        inter_area::full_neighbors_on(f, ms).contains(n) <==> exists|j: int|
            0 <= j < ms.len() && meets(f, #[trigger] ms[j], n),
    decreases ms.len(),
{
    if ms.len() > 0 {
        let rest = ms.drop_last();
        let before = inter_area::full_neighbors_on(f, rest);
        let all = inter_area::full_neighbors_on(f, ms);
        lemma_met_on(f, rest, n);
        if before.contains(n) {
            assert(all[before.index_of(n)] == n);
            let j = choose|j: int| 0 <= j < rest.len() && meets(f, #[trigger] rest[j], n);
            assert(meets(f, ms[j], n));
        }
        if all.contains(n) {
            let k = all.index_of(n);
            if k < before.len() {
                assert(before[k] == n);
            } else {
                assert(meets(f, ms[ms.len() - 1], n));
            }
        }
        if exists|j: int| 0 <= j < ms.len() && meets(f, #[trigger] ms[j], n) {
            let j = choose|j: int| 0 <= j < ms.len() && meets(f, #[trigger] ms[j], n);
            if j < rest.len() {
                assert(meets(f, rest[j], n));
            } else {
                assert(all[before.len() as int] == n);
            }
        }
    }
}

/// Path computation is told of exactly the Full neighbors.
pub proof fn lemma_neighbors_met(ifs: Seq<InterfaceV3View>, n: SpfNeighborV3)
    ensures
        inter_area::full_neighbors_of(ifs).contains(n) <==> is_met(ifs, n),
    decreases ifs.len(),
{
    if ifs.len() > 0 {
        let rest = ifs.drop_last();
        let f = ifs.last();
        let last = ifs.len() - 1;
        assert(ifs[last] == f);
        lemma_neighbors_met(rest, n);
        lemma_met_on(f, f.neighbors, n);
        let before = inter_area::full_neighbors_of(rest);
        let more = inter_area::full_neighbors_on(f, f.neighbors);
        let all = inter_area::full_neighbors_of(ifs);
        if before.contains(n) {
            assert(all[before.index_of(n)] == n);
            let (i, j) = choose|i: int, j: int|
                0 <= i < rest.len() && 0 <= j < rest[i].neighbors.len() && meets(
                    #[trigger] rest[i],
                    #[trigger] rest[i].neighbors[j],
                    n,
                );
            assert(meets(ifs[i], ifs[i].neighbors[j], n));
        }
        if more.contains(n) {
            assert(all[before.len() + more.index_of(n)] == n);
            let j = choose|j: int| 0 <= j < f.neighbors.len() && meets(f, #[trigger] f.neighbors[j], n);
            assert(meets(ifs[last], ifs[last].neighbors[j], n));
        }
        if all.contains(n) {
            let k = all.index_of(n);
            if k < before.len() {
                assert(before[k] == n);
            } else {
                assert(more[k - before.len()] == n);
            }
        }
        if is_met(ifs, n) {
            let (i, j) = choose|i: int, j: int|
                0 <= i < ifs.len() && 0 <= j < ifs[i].neighbors.len() && meets(
                    #[trigger] ifs[i],
                    #[trigger] ifs[i].neighbors[j],
                    n,
                );
            if i < rest.len() {
                assert(meets(rest[i], rest[i].neighbors[j], n));
            } else {
                assert(meets(f, f.neighbors[j], n));
            }
        }
    }
}

/// Paths inside an area come from exactly the LSAs of the area.
pub proof fn lemma_area_entries(es: Seq<LsaEntryV3View>, area: u32, e: LsaEntryV3View)
    ensures
        routes::area_entries(es, area).contains(e) <==> es.contains(e) && e.area == Some(area),
    decreases es.len(),
{
    if es.len() > 0 {
        let rest = es.drop_last();
        let before = routes::area_entries(rest, area);
        let all = routes::area_entries(es, area);
        lemma_area_entries(rest, area, e);
        assert(es[es.len() - 1] == es.last());
        if rest.contains(e) {
            assert(es[rest.index_of(e)] == e);
        }
        if es.contains(e) {
            let k = es.index_of(e);
            if k < rest.len() {
                assert(rest[k] == e);
            } else if e.area == Some(area) {
                assert(all[before.len() as int] == e);
            }
        }
        if before.contains(e) {
            assert(all[before.index_of(e)] == e);
        }
        if all.contains(e) {
            let k = all.index_of(e);
            if k < before.len() {
                assert(before[k] == e);
            }
        }
    }
}

/// Whether `r` tells the prefix and the cost of the route.
pub open spec fn tells_route(r: AreaRoute, area: u32, q: SpfRouteV3View) -> bool {
    r.area == area && r.prefix.address == q.prefix && r.prefix.len == q.prefix_len && r.prefix.cost
        == q.cost
}

proof fn lemma_costs(areas: Seq<u32>, ts: Seq<Seq<SpfRouteV3View>>, n: int, r: AreaRoute)
    requires
        n <= ts.len(),
        n <= areas.len(),
    ensures
        routes::all_costs(areas, ts, n).contains(r) <==> exists|i: int, k: int|
            0 <= i < n && 0 <= k < ts[i].len() && tells_route(
                r,
                #[trigger] areas[i],
                #[trigger] ts[i][k],
            ),
    decreases n,
{
    if n > 0 {
        lemma_costs(areas, ts, n - 1, r);
        let before = routes::all_costs(areas, ts, n - 1);
        let more = routes::costs(areas[n - 1], ts[n - 1]);
        let all = routes::all_costs(areas, ts, n);
        if before.contains(r) {
            assert(all[before.index_of(r)] == r);
        }
        if all.contains(r) {
            let x = all.index_of(r);
            if x < before.len() {
                assert(before[x] == r);
            } else {
                let k = x - before.len();
                assert(more[k] == r);
                assert(tells_route(r, areas[n - 1], ts[n - 1][k]));
            }
        }
        if exists|i: int, k: int|
            0 <= i < n && 0 <= k < ts[i].len() && tells_route(
                r,
                #[trigger] areas[i],
                #[trigger] ts[i][k],
            ) {
            let (i, k) = choose|i: int, k: int|
                0 <= i < n && 0 <= k < ts[i].len() && tells_route(
                    r,
                    #[trigger] areas[i],
                    #[trigger] ts[i][k],
                );
            if i == n - 1 {
                assert(more[k] == r);
                assert(all[before.len() + k] == r);
            }
        }
    }
}

/// The table of an area, as a border router announces it, holds each route inside the area at its
/// cost or less.
pub proof fn lemma_routes_held(
    me: InstanceV3View,
    areas: Seq<u32>,
    ts: Seq<Seq<SpfRouteV3View>>,
    i: int,
    k: int,
)
    requires
        ts.len() <= areas.len(),
        0 <= i < ts.len(),
        0 <= k < ts[i].len(),
    ensures
        within(
            me.area_table(routes::all_costs(areas, ts, ts.len() as int), areas[i]),
            ts[i][k].prefix,
            ts[i][k].prefix_len,
            ts[i][k].cost as int,
        ),
{
    let q = ts[i][k];
    let r = AreaRoute {
        area: areas[i],
        prefix: PrefixCost { address: q.prefix, len: q.prefix_len, cost: q.cost },
    };
    let rs = routes::all_costs(areas, ts, ts.len() as int);
    assert(tells_route(r, areas[i], ts[i][k]));
    lemma_costs(areas, ts, ts.len() as int, r);
    let x = rs.index_of(r);
    lemma_table_routes(me, rs, x);
}

/// Each entry of the table of an area is a prefix of ours there at no cost, or stands for a route
/// inside an area of that id, at its cost.
pub proof fn lemma_held_source(
    me: InstanceV3View,
    areas: Seq<u32>,
    ts: Seq<Seq<SpfRouteV3View>>,
    area: u32,
    x: int,
)
    requires
        ts.len() <= areas.len(),
        0 <= x < me.area_table(routes::all_costs(areas, ts, ts.len() as int), area).len(),
    ensures
        ({
            let p = me.area_table(routes::all_costs(areas, ts, ts.len() as int), area)[x];
            ||| p.cost == 0 && is_ours(me.lsdb.entries, me.router_id, area, p.address, p.len)
            ||| exists|i: int, k: int|
                0 <= i < ts.len() && 0 <= k < ts[i].len() && tells_route(
                    AreaRoute { area, prefix: p },
                    #[trigger] areas[i],
                    #[trigger] ts[i][k],
                )
        }),
{
    let rs = routes::all_costs(areas, ts, ts.len() as int);
    lemma_table_source(me, rs, area, x, x);
    lemma_costs(
        areas,
        ts,
        ts.len() as int,
        AreaRoute { area, prefix: me.area_table(rs, area)[x] },
    );
}

/// What announces a prefix is read back as that prefix at that cost.
pub proof fn lemma_summary_read(p: PrefixCost)
    requires
        p.cost < 0x1000000,
        roundtrip::trimmed(
            Ospfv3Prefix {
                prefix_length: p.len,
                prefix_options: 0,
                prefix_or_metric: 0,
                address: p.address,
            },
        ),
    ensures
        InterAreaPrefixLsaV3::spec_parse(inter_area::summary_body(p)) matches Ok(b) && b.metric
            == p.cost && b.prefix.address == p.address && b.prefix.prefix_length == p.len
            && b.prefix.prefix_options == 0 && b.prefix.prefix_or_metric == 0,
{
    roundtrip::lemma_inter_area_prefix_roundtrip(
        InterAreaPrefixLsaV3 {
            metric: p.cost,
            prefix: Ospfv3Prefix::spec_plain(p.address, p.len),
        },
    );
}

} // verus!
