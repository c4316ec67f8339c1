//! What holds of the routes that the instance computes, said of its databases.
use vstd::prelude::*;

use crate::instance::routes;
use crate::instance::OspfInstanceView;
use crate::lsdb;
use crate::packet::lsa;
use crate::packet::lsa::RouterLinkType;
use crate::proto::interface;
use crate::proto::interface::InterfaceState;
use crate::proto::neighbor;
use crate::proto::neighbor::NeighborState;
use crate::proto::paths;
use crate::proto::spf;
use crate::proto::spf::{OspfRouteKind, SpfInterface, SpfNeighbor, SpfRoute};
use crate::proto::spf_laws;
use crate::proto::trail_laws;

verus! {

/// Whether the entry at position `k` of a database is alive.
pub open spec fn alive(s: Seq<lsdb::LsdbEntryView>, k: int, now: u64) -> bool {
    &&& 0 <= k < s.len()
    &&& s[k].lsa.header.ls_age + (if now >= s[k].installed_at {
        (now - s[k].installed_at) / 1000
    } else {
        0
    }) < 3600
}

/// Whether a route of the kind takes the place of `r`: it leads to the same prefix and costs no more.
pub open spec fn route_for(rs: Seq<SpfRoute>, r: SpfRoute) -> bool {
    exists|i: int|
        0 <= i < rs.len() && (#[trigger] rs[i]).prefix == r.prefix && rs[i].prefix_len
            == r.prefix_len && rs[i].cost <= r.cost && (rs[i].kind == r.kind || (r.kind
            == OspfRouteKind::External1 || r.kind == OspfRouteKind::External2) && (rs[i].kind
            == OspfRouteKind::External1 || rs[i].kind == OspfRouteKind::External2))
}

/// Whether the routes hold, for each network that a living Summary-LSA of an area announces and whose
/// border router the paths of the area lead to, a route between areas that costs no more than the
/// path and the metric.
pub open spec fn serves_summaries(
    me: OspfInstanceView,
    now: u64,
    ts: Seq<routes::AreaTableView>,
    rs: Seq<SpfRoute>,
) -> bool {
    forall|a: int, k: int, j: int, r: SpfRoute|
        0 <= a < me.areas.len() && alive(me.areas[a].lsdb.entries, k, now) && spf_laws::first_path(
            ts[a].paths,
            j,
        ) && #[trigger] spf_laws::by_summary(
            me.areas[a].lsdb.entries[k].lsa,
            ts[a].paths[j],
            r,
        ) ==> route_for(rs, r)
}

/// Whether the routes hold, for each network outside that a living AS-external-LSA announces and whose
/// router the paths of the backbone lead to, a route to the outside that costs no more than announced.
pub open spec fn serves_externals(
    me: OspfInstanceView,
    now: u64,
    ts: Seq<routes::AreaTableView>,
    rs: Seq<SpfRoute>,
) -> bool {
    forall|a: int, k: int, j: int, r: SpfRoute|
        is_backbone(ts, a) && alive(me.as_external_lsdb.entries, k, now) && spf_laws::first_path(
            ts[a].paths,
            j,
        ) && #[trigger] spf_laws::by_external(
            me.as_external_lsdb.entries[k].lsa,
            ts[a].paths[j],
            r,
        ) ==> route_for(rs, r)
}

/// Whether the first table of the backbone stands at position `a`.
pub open spec fn is_backbone(ts: Seq<routes::AreaTableView>, a: int) -> bool {
    &&& 0 <= a < ts.len()
    &&& ts[a].area_id == 0
    &&& forall|b: int| 0 <= b < a ==> (#[trigger] ts[b]).area_id != 0
}

/// Whether a route has a source: the table of an area, a living Summary-LSA of an area, or a living
/// AS-external-LSA, each with a path to whoever announces it.
pub open spec fn has_source(
    me: OspfInstanceView,
    now: u64,
    ts: Seq<routes::AreaTableView>,
    r: SpfRoute,
) -> bool {
    match r.kind {
        OspfRouteKind::Intra => exists|a: int|
            0 <= a < ts.len() && (#[trigger] ts[a]).routes.contains(r),
        OspfRouteKind::Inter => exists|a: int, k: int, j: int|
            0 <= a < ts.len() && alive(me.areas[a].lsdb.entries, k, now) && spf_laws::first_path(
                ts[a].paths,
                j,
            ) && #[trigger] spf_laws::by_summary(
                me.areas[a].lsdb.entries[k].lsa,
                ts[a].paths[j],
                r,
            ),
        _ => exists|a: int, k: int, j: int|
            is_backbone(ts, a) && alive(me.as_external_lsdb.entries, k, now)
                && spf_laws::first_path(ts[a].paths, j) && #[trigger] spf_laws::by_external(
                me.as_external_lsdb.entries[k].lsa,
                ts[a].paths[j],
                r,
            ),
    }
}

/// What the routes of an instance are, said of its databases: those inside areas stand as they are;
/// every network that can be reached by a Summary-LSA or an AS-external-LSA has a route; and no route
/// comes from nowhere.
pub open spec fn are_routes(
    me: OspfInstanceView,
    now: u64,
    ts: Seq<routes::AreaTableView>,
    rs: Seq<SpfRoute>,
) -> bool {
    &&& forall|a: int, i: int|
        0 <= a < ts.len() && 0 <= i < ts[a].routes.len() ==> rs.contains(
            #[trigger] ts[a].routes[i],
        )
    &&& serves_summaries(me, now, ts, rs)
    &&& serves_externals(me, now, ts, rs)
    &&& forall|i: int| 0 <= i < rs.len() ==> has_source(me, now, ts, #[trigger] rs[i])
}

proof fn lemma_live(s: Seq<lsdb::LsdbEntryView>, now: u64)
    ensures
        forall|k: int|
            #[trigger] alive(s, k, now) ==> exists|i: int|
                0 <= i < lsdb::live_lsas(s, now).len() && (#[trigger] lsdb::live_lsas(
                    s,
                    now,
                )[i]).body == s[k].lsa.body && same_lsa(
                    lsdb::live_lsas(s, now)[i],
                    s[k].lsa,
                ),
        forall|i: int|
            0 <= i < lsdb::live_lsas(s, now).len() ==> exists|k: int|
                #[trigger] alive(s, k, now) && same_lsa(
                    #[trigger] lsdb::live_lsas(s, now)[i],
                    s[k].lsa,
                ),
    decreases s.len(),
{
    if s.len() > 0 {
        let front = s.drop_last();
        let last = s.len() - 1;
        lemma_live(front, now);
        let a = lsdb::live_lsas(front, now);
        let b = lsdb::live_lsas(s, now);
        assert forall|k: int| #[trigger] alive(s, k, now) implies exists|i: int|
            0 <= i < b.len() && (#[trigger] b[i]).body == s[k].lsa.body && same_lsa(
                b[i],
                s[k].lsa,
            ) by {
            if k < last {
                assert(alive(front, k, now));
                let i = choose|i: int|
                    0 <= i < a.len() && (#[trigger] a[i]).body == front[k].lsa.body && same_lsa(
                        a[i],
                        front[k].lsa,
                    );
                assert(b[i] == a[i]);
            } else {
                assert(!s[last].expired(now));
                assert(b[b.len() - 1].body == s[k].lsa.body);
            }
        }
        assert forall|i: int| 0 <= i < b.len() implies exists|k: int|
            #[trigger] alive(s, k, now) && same_lsa(#[trigger] b[i], s[k].lsa) by {
            if i < a.len() {
                let k = choose|k: int|
                    #[trigger] alive(front, k, now) && same_lsa(a[i], front[k].lsa);
                assert(b[i] == a[i]);
                assert(alive(s, k, now));
            } else {
                assert(alive(s, last, now));
            }
        }
    }
}

/// Whether two LSAs differ in nothing but their ages.
pub open spec fn same_lsa(a: lsa::LsaView, b: lsa::LsaView) -> bool {
    &&& a.body == b.body
    &&& a.header == (lsa::LsaHeader { ls_age: a.header.ls_age, ..b.header })
}

proof fn lemma_inner_holds(
    me: OspfInstanceView,
    now: u64,
    ts: Seq<routes::AreaTableView>,
    n: int,
    a: int,
    r: SpfRoute,
)
    requires
        0 <= a < n <= ts.len(),
        ts[a].routes.contains(r) || spf::inter_routes(
            lsdb::live_lsas(me.areas[a].lsdb.entries, now),
            ts[a].paths,
        ).contains(r),
    ensures
        me.inner_routes(now, ts, n).contains(r),
    decreases n,
{
    let before = me.inner_routes(now, ts, n - 1);
    let own = ts[n - 1].routes;
    let inter = spf::inter_routes(
        lsdb::live_lsas(me.areas[n - 1].lsdb.entries, now),
        ts[n - 1].paths,
    );
    let all = me.inner_routes(now, ts, n);
    assert(all =~= before + own + inter);
    if a < n - 1 {
        lemma_inner_holds(me, now, ts, n - 1, a, r);
        let i = choose|i: int| 0 <= i < before.len() && before[i] == r;
        assert(all[i] == r);
    } else if own.contains(r) {
        let i = choose|i: int| 0 <= i < own.len() && own[i] == r;
        assert(all[before.len() + i] == r);
    } else {
        let i = choose|i: int| 0 <= i < inter.len() && inter[i] == r;
        assert(all[before.len() + own.len() + i] == r);
    }
}

proof fn lemma_inner_source(
    me: OspfInstanceView,
    now: u64,
    ts: Seq<routes::AreaTableView>,
    n: int,
    r: SpfRoute,
) -> (a: int)
    requires
        0 <= n <= ts.len(),
        me.inner_routes(now, ts, n).contains(r),
    ensures
        0 <= a < n,
        ts[a].routes.contains(r) || spf::inter_routes(
            lsdb::live_lsas(me.areas[a].lsdb.entries, now),
            ts[a].paths,
        ).contains(r),
    decreases n,
{
    let all = me.inner_routes(now, ts, n);
    let i = choose|i: int| 0 <= i < all.len() && all[i] == r;
    let before = me.inner_routes(now, ts, n - 1);
    let own = ts[n - 1].routes;
    let inter = spf::inter_routes(
        lsdb::live_lsas(me.areas[n - 1].lsdb.entries, now),
        ts[n - 1].paths,
    );
    assert(all =~= before + own + inter);
    if i < before.len() {
        assert(before[i] == r);
        lemma_inner_source(me, now, ts, n - 1, r)
    } else {
        if i < before.len() + own.len() {
            assert(own[i - before.len()] == r);
        } else {
            assert(inter[i - before.len() - own.len()] == r);
        }
        n - 1
    }
}

proof fn lemma_table_kinds(me: OspfInstanceView, now: u64, a: int, t: routes::AreaTableView)
    requires
        me.is_table(a, now, t),
    ensures
        forall|i: int|
            0 <= i < t.routes.len() ==> (#[trigger] t.routes[i]).kind == OspfRouteKind::Intra,
{
    let id = me.areas[a].area_id;
    let is = routes::area_interfaces(me.interfaces, id);
    let ls = lsdb::live_lsas(me.areas[a].lsdb.entries, now);
    if is.len() > 0 {
        if let Some(root) = spf::router_pos(ls, me.router_id, 0) {
            let es = spf::edges_upto(
                ls,
                ls.len() as int,
                is,
                routes::area_neighbors(me.interfaces, id),
            );
            let (ds, labels) = choose|ds: Seq<Option<u128>>, labels: Seq<Seq<paths::Label>>|
                {
                    &&& ds.len() == ls.len()
                    &&& paths::distances(es, root, ds)
                    &&& #[trigger] spf::labelled(es, root, ds, labels)
                    &&& t.routes == spf::intra_routes(
                        ls,
                        ls.len() as int,
                        ds,
                        spf::hops_of(labels),
                    )
                    &&& t.paths == spf::router_paths(
                        ls,
                        ls.len() as int,
                        ds,
                        spf::hops_of(labels),
                    )
                };
            spf_laws::lemma_intra_kinds(ls, ls.len() as int, ds, spf::hops_of(labels));
        }
    }
}

proof fn lemma_backbone(ts: Seq<routes::AreaTableView>, from: int)
    requires
        0 <= from,
    ensures
        (forall|b: int| from <= b < ts.len() ==> (#[trigger] ts[b]).area_id != 0)
            ==> routes::paths_of(ts, 0, from).len() == 0,
        forall|a: int|
            from <= a < ts.len() && (#[trigger] ts[a]).area_id == 0 && (forall|b: int|
                from <= b < a ==> (#[trigger] ts[b]).area_id != 0) ==> routes::paths_of(
                ts,
                0,
                from,
            ) == ts[a].paths,
    decreases ts.len() - from,
{
    if from < ts.len() {
        lemma_backbone(ts, from + 1);
        assert forall|a: int|
            from <= a < ts.len() && (#[trigger] ts[a]).area_id == 0 && (forall|b: int|
                from <= b < a ==> (#[trigger] ts[b]).area_id != 0) implies routes::paths_of(
            ts,
            0,
            from,
        ) == ts[a].paths by {
            if a > from {
                assert(ts[from].area_id != 0);
                assert forall|b: int| from + 1 <= b < a implies (#[trigger] ts[b]).area_id != 0 by {}
            }
        }
        if forall|b: int| from <= b < ts.len() ==> (#[trigger] ts[b]).area_id != 0 {
            assert(ts[from].area_id != 0);
        }
    }
}

proof fn lemma_first_backbone(ts: Seq<routes::AreaTableView>, at: int) -> (a: int)
    requires
        0 <= at < ts.len(),
        ts[at].area_id == 0,
    ensures
        is_backbone(ts, a),
    decreases at,
{
    if exists|b: int| 0 <= b < at && (#[trigger] ts[b]).area_id == 0 {
        let b = choose|b: int| 0 <= b < at && (#[trigger] ts[b]).area_id == 0;
        lemma_first_backbone(ts, b)
    } else {
        at
    }
}

/// The routes that are computed are those that the databases call for. In particular a network that a
/// border router of an area announces gets a route between areas, at the cost of the path to the
/// border router and the metric or less.
pub proof fn lemma_routes(
    me: OspfInstanceView,
    now: u64,
    ts: Seq<routes::AreaTableView>,
    rs: Seq<SpfRoute>,
)
    requires
        me.are_tables(now, ts),
        rs == me.all_routes(now, ts),
    ensures
        are_routes(me, now, ts, rs),
{
    let n = ts.len() as int;
    let inner = me.inner_routes(now, ts, n);
    let outside = lsdb::live_lsas(me.as_external_lsdb.entries, now);
    let back = routes::paths_of(ts, 0, 0);
    let external = spf::external_routes(outside, back);
    assert(rs =~= inner + external);
    assert forall|r: SpfRoute| #[trigger] inner.contains(r) implies rs.contains(r) by {
        let i = choose|i: int| 0 <= i < inner.len() && inner[i] == r;
        assert(rs[i] == r);
    }
    assert forall|a: int, i: int| 0 <= a < n && 0 <= i < ts[a].routes.len() implies rs.contains(
        #[trigger] ts[a].routes[i],
    ) by {
        lemma_inner_holds(me, now, ts, n, a, ts[a].routes[i]);
    }
    assert forall|a: int, k: int, j: int, r: SpfRoute|
        0 <= a < me.areas.len() && alive(me.areas[a].lsdb.entries, k, now) && spf_laws::first_path(
            ts[a].paths,
            j,
        ) && #[trigger] spf_laws::by_summary(
            me.areas[a].lsdb.entries[k].lsa,
            ts[a].paths[j],
            r,
        ) implies route_for(rs, r) by {
        let s = me.areas[a].lsdb.entries;
        let ls = lsdb::live_lsas(s, now);
        lemma_live(s, now);
        let i = choose|i: int|
            0 <= i < ls.len() && (#[trigger] ls[i]).body == s[k].lsa.body && same_lsa(
                ls[i],
                s[k].lsa,
            );
        assert(spf_laws::by_summary(ls[i], ts[a].paths[j], r));
        spf_laws::lemma_summary_yields(ls, ts[a].paths, i, j, r);
        let inter = spf::inter_routes(ls, ts[a].paths);
        let q = choose|q: int|
            0 <= q < inter.len() && (#[trigger] inter[q]).prefix == r.prefix && inter[q].prefix_len
                == r.prefix_len && inter[q].cost <= r.cost;
        spf_laws::lemma_inter_announced(ls, ts[a].paths, q);
        assert(inter.contains(inter[q]));
        lemma_inner_holds(me, now, ts, n, a, inter[q]);
        let p = choose|p: int| 0 <= p < rs.len() && rs[p] == inter[q];
        assert(rs[p].prefix == r.prefix);
    }
    lemma_backbone(ts, 0);
    assert forall|a: int, k: int, j: int, r: SpfRoute|
        is_backbone(ts, a) && alive(me.as_external_lsdb.entries, k, now) && spf_laws::first_path(
            ts[a].paths,
            j,
        ) && #[trigger] spf_laws::by_external(
            me.as_external_lsdb.entries[k].lsa,
            ts[a].paths[j],
            r,
        ) implies route_for(rs, r) by {
        let s = me.as_external_lsdb.entries;
        lemma_live(s, now);
        let i = choose|i: int|
            0 <= i < outside.len() && (#[trigger] outside[i]).body == s[k].lsa.body && same_lsa(
                outside[i],
                s[k].lsa,
            );
        assert(ts[a].paths == back);
        assert(spf_laws::by_external(outside[i], back[j], r));
        spf_laws::lemma_external_yields(outside, back, i, j, r);
        let q = choose|q: int|
            0 <= q < external.len() && (#[trigger] external[q]).prefix == r.prefix
                && external[q].prefix_len == r.prefix_len && external[q].cost <= r.cost;
        spf_laws::lemma_external_announced(outside, back, q);
        assert(rs[inner.len() + q] == external[q]);
    }
    assert forall|i: int| 0 <= i < rs.len() implies has_source(me, now, ts, #[trigger] rs[i]) by {
        let r = rs[i];
        if i < inner.len() {
            assert(inner[i] == r);
            let a = lemma_inner_source(me, now, ts, n, r);
            lemma_table_kinds(me, now, a, ts[a]);
            if ts[a].routes.contains(r) {
                let q = choose|q: int| 0 <= q < ts[a].routes.len() && ts[a].routes[q] == r;
                assert(ts[a].routes[q].kind == OspfRouteKind::Intra);
            } else {
                let s = me.areas[a].lsdb.entries;
                let ls = lsdb::live_lsas(s, now);
                let inter = spf::inter_routes(ls, ts[a].paths);
                let q = choose|q: int| 0 <= q < inter.len() && inter[q] == r;
                spf_laws::lemma_inter_announced(ls, ts[a].paths, q);
                let (x, j) = choose|x: int, j: int|
                    0 <= x < ls.len() && spf_laws::first_path(ts[a].paths, j)
                        && #[trigger] spf_laws::by_summary(ls[x], ts[a].paths[j], r);
                lemma_live(s, now);
                let k = choose|k: int| #[trigger] alive(s, k, now) && same_lsa(ls[x], s[k].lsa);
                assert(spf_laws::by_summary(s[k].lsa, ts[a].paths[j], r));
            }
        } else {
            let q = i - inner.len();
            assert(external[q] == r);
            spf_laws::lemma_external_announced(outside, back, q);
            let (x, j) = choose|x: int, j: int|
                0 <= x < outside.len() && spf_laws::first_path(back, j)
                    && #[trigger] spf_laws::by_external(outside[x], back[j], r);
            let s = me.as_external_lsdb.entries;
            lemma_live(s, now);
            let k = choose|k: int| #[trigger] alive(s, k, now) && same_lsa(outside[x], s[k].lsa);
            assert(back.len() > 0);
            let at = choose|b: int| 0 <= b < ts.len() && (#[trigger] ts[b]).area_id == 0;
            let a = lemma_first_backbone(ts, at);
            assert(ts[a].paths == back);
            assert(spf_laws::by_external(s[k].lsa, ts[a].paths[j], r));
        }
    }
}

/// Whether route computation sees the interface as it is.
pub open spec fn seen(s: SpfInterface, f: interface::OspfInterfaceView) -> bool {
    &&& s.address == f.address
    &&& s.mask == f.mask
    &&& s.sw_if_index == f.sw_if_index
    &&& s.cost == f.cost
}

/// Route computation in an area sees exactly the interfaces that are up there.
pub proof fn lemma_interfaces_seen(is: Seq<interface::OspfInterfaceView>, id: u32)
    ensures
        forall|k: int|
            0 <= k < is.len() && (#[trigger] is[k]).area_id == id && is[k].state
                != InterfaceState::Down ==> exists|q: int|
                0 <= q < routes::area_interfaces(is, id).len() && seen(
                    #[trigger] routes::area_interfaces(is, id)[q],
                    is[k],
                ),
        forall|q: int|
            0 <= q < routes::area_interfaces(is, id).len() ==> sees(
                is,
                id,
                #[trigger] routes::area_interfaces(is, id)[q],
            ),
    decreases is.len(),
{
    if is.len() > 0 {
        let front = is.drop_last();
        let last = is.len() - 1;
        let a = routes::area_interfaces(front, id);
        let b = routes::area_interfaces(is, id);
        lemma_interfaces_seen(front, id);
        assert forall|k: int|
            0 <= k < is.len() && (#[trigger] is[k]).area_id == id && is[k].state
                != InterfaceState::Down implies exists|q: int|
            0 <= q < b.len() && seen(#[trigger] b[q], is[k]) by {
            if k < last {
                assert(front[k] == is[k]);
                let q = choose|q: int| 0 <= q < a.len() && seen(#[trigger] a[q], front[k]);
                assert(b[q] == a[q]);
            } else {
                assert(seen(b[a.len() as int], is[k]));
            }
        }
        assert forall|q: int| 0 <= q < b.len() implies sees(is, id, #[trigger] b[q]) by {
            if q < a.len() {
                assert(b[q] == a[q]);
                let k = choose|k: int|
                    0 <= k < front.len() && (#[trigger] front[k]).area_id == id && front[k].state
                        != InterfaceState::Down && seen(a[q], front[k]);
                assert(is[k] == front[k]);
            } else {
                assert(seen(b[q], is[last]));
            }
        }
    }
}

/// Whether one of the interfaces that are up in the area is seen so.
pub open spec fn sees(is: Seq<interface::OspfInterfaceView>, id: u32, s: SpfInterface) -> bool {
    exists|k: int|
        0 <= k < is.len() && (#[trigger] is[k]).area_id == id && is[k].state
            != InterfaceState::Down && seen(s, is[k])
}

/// Whether the neighbor is reached so: by its address, on the interface on which it hears us.
pub open spec fn met(
    s: SpfNeighbor,
    f: interface::OspfInterfaceView,
    n: neighbor::NeighborView,
) -> bool {
    &&& s.router_id == n.router_id
    &&& s.address == n.address
    &&& s.sw_if_index == f.sw_if_index
}

/// Whether the neighbor and we hear each other.
pub open spec fn two_way(n: neighbor::NeighborView) -> bool {
    n.state != NeighborState::Down && n.state != NeighborState::Attempt && n.state
        != NeighborState::Init
}

proof fn lemma_hearing(f: interface::OspfInterfaceView, ns: Seq<neighbor::NeighborView>)
    ensures
        forall|k: int|
            0 <= k < ns.len() && two_way(#[trigger] ns[k]) ==> exists|q: int|
                0 <= q < routes::hearing(ns, f.sw_if_index).len() && met(
                    #[trigger] routes::hearing(ns, f.sw_if_index)[q],
                    f,
                    ns[k],
                ),
    decreases ns.len(),
{
    if ns.len() > 0 {
        let front = ns.drop_last();
        let last = ns.len() - 1;
        let a = routes::hearing(front, f.sw_if_index);
        let b = routes::hearing(ns, f.sw_if_index);
        lemma_hearing(f, front);
        assert forall|k: int| 0 <= k < ns.len() && two_way(#[trigger] ns[k]) implies exists|q: int|
            0 <= q < b.len() && met(#[trigger] b[q], f, ns[k]) by {
            if k < last {
                assert(front[k] == ns[k]);
                let q = choose|q: int| 0 <= q < a.len() && met(#[trigger] a[q], f, front[k]);
                assert(b[q] == a[q]);
            } else {
                assert(met(b[a.len() as int], f, ns[k]));
            }
        }
    }
}

/// Every neighbor that hears us on an interface of the area is a way out of it.
pub proof fn lemma_neighbors_met(is: Seq<interface::OspfInterfaceView>, id: u32, i: int, k: int)
    requires
        0 <= i < is.len(),
        is[i].area_id == id,
        is[i].state != InterfaceState::Down,
        0 <= k < is[i].neighbors.len(),
        two_way(is[i].neighbors[k]),
    ensures
        exists|q: int|
            0 <= q < routes::area_neighbors(is, id).len() && met(
                #[trigger] routes::area_neighbors(is, id)[q],
                is[i],
                is[i].neighbors[k],
            ),
    decreases is.len(),
{
    let front = is.drop_last();
    let last = is.len() - 1;
    let a = routes::area_neighbors(front, id);
    let b = routes::area_neighbors(is, id);
    if i < last {
        assert(front[i] == is[i]);
        lemma_neighbors_met(front, id, i, k);
        let q = choose|q: int|
            0 <= q < a.len() && met(#[trigger] a[q], is[i], is[i].neighbors[k]);
        assert(b[q] == a[q]);
    } else {
        let f = is[i];
        let h = routes::hearing(f.neighbors, f.sw_if_index);
        lemma_hearing(f, f.neighbors);
        let q = choose|q: int| 0 <= q < h.len() && met(#[trigger] h[q], f, f.neighbors[k]);
        assert(b[a.len() + q] == h[q]);
    }
}

/// Whatever a trail of living LSAs leads to from our own Router-LSA in an area is reached, at no more
/// than the trail costs: a router by a path, its stub networks and networks by routes of the result.
pub proof fn lemma_area_reached(
    me: OspfInstanceView,
    now: u64,
    ts: Seq<routes::AreaTableView>,
    rs: Seq<SpfRoute>,
    a: int,
    root: int,
    t: Seq<(int, int)>,
)
    requires
        me.are_tables(now, ts),
        rs == me.all_routes(now, ts),
        0 <= a < me.areas.len(),
        exists|k: int|
            0 <= k < me.interfaces.len() && (#[trigger] me.interfaces[k]).area_id
                == me.areas[a].area_id && me.interfaces[k].state != InterfaceState::Down,
        ({
            let ls = lsdb::live_lsas(me.areas[a].lsdb.entries, now);
            let id = me.areas[a].area_id;
            &&& ls.len() <= usize::MAX
            &&& spf_laws::first_of_its_kind(ls, root)
            &&& ls[root].body is Router
            &&& ls[root].header.advertising_router == me.router_id
            &&& trail_laws::starts_known(
                ls,
                root,
                routes::area_interfaces(me.interfaces, id),
                routes::area_neighbors(me.interfaces, id),
            )
            &&& trail_laws::is_trail(ls, root, t)
            &&& trail_laws::end_of(root, t) != root
        }),
    ensures
        ({
            let ls = lsdb::live_lsas(me.areas[a].lsdb.entries, now);
            let v = trail_laws::end_of(root, t);
            let c = trail_laws::trail_cost(t);
            match ls[v].body {
                lsa::LsaBodyView::Router { flags, links } => {
                    &&& trail_laws::path_within(ts[a].paths, ls[v].header.advertising_router, c)
                    &&& forall|k: int|
                        0 <= k < links.len() && (#[trigger] links[k]).link_type
                            == RouterLinkType::StubNetwork ==> trail_laws::route_within(
                            rs,
                            links[k].link_id,
                            links[k].link_data,
                            c + links[k].metric,
                        )
                },
                lsa::LsaBodyView::Network { network_mask, attached_routers } => {
                    trail_laws::route_within(rs, ls[v].header.link_state_id, network_mask, c)
                },
                _ => true,
            }
        }),
{
    let id = me.areas[a].area_id;
    let ls = lsdb::live_lsas(me.areas[a].lsdb.entries, now);
    let is = routes::area_interfaces(me.interfaces, id);
    let k = choose|k: int|
        0 <= k < me.interfaces.len() && (#[trigger] me.interfaces[k]).area_id == id
            && me.interfaces[k].state != InterfaceState::Down;
    lemma_interfaces_seen(me.interfaces, id);
    assert(is.len() > 0) by {
        let q = choose|q: int| 0 <= q < is.len() && seen(#[trigger] is[q], me.interfaces[k]);
    }
    assert(me.is_table(a, now, ts[a]));
    trail_laws::lemma_trail_served(
        ls,
        me.router_id,
        is,
        routes::area_neighbors(me.interfaces, id),
        ts[a].routes,
        ts[a].paths,
        root,
        t,
    );
    lemma_routes(me, now, ts, rs);
    assert forall|x: u32, m: u32, c: int|
        trail_laws::route_within(ts[a].routes, x, m, c) implies #[trigger] trail_laws::route_within(
        rs,
        x,
        m,
        c,
    ) by {
        let own = ts[a].routes;
        let i = choose|i: int|
            0 <= i < own.len() && spf_laws::leads_to(#[trigger] own[i], x, m) && own[i].cost <= c;
        assert(rs.contains(ts[a].routes[i]));
        let q = choose|q: int| 0 <= q < rs.len() && rs[q] == own[i];
        assert(spf_laws::leads_to(rs[q], x, m));
    }
}

} // verus!
