//! What holds of the LSAs by which a border router announces the routes of its areas to each other.
use vstd::prelude::*;

use crate::area::AreaType;
use crate::instance;
use crate::instance::flooding;
use crate::instance::originate;
use crate::instance::routes;
use crate::instance::OspfInstanceView;
use crate::packet::lsa;
use crate::packet::lsa::{LsaType, SummaryLsa};
use crate::prefix;
use crate::proto::interface::InterfaceState;
use crate::proto::spf::SpfRoute;

verus! {

/// Whether the LSA, issued into the area `id` by the router `me`, announces a network with that
/// metric.
pub open spec fn announces(
    x: (u32, lsa::LsaView),
    id: u32,
    me: u32,
    prefix: u32,
    len: int,
    metric: int,
) -> bool {
    &&& x.0 == id
    &&& x.1.header.ls_type == LsaType::SummaryNetwork
    &&& x.1.header.link_state_id == prefix
    &&& x.1.header.advertising_router == me
    &&& x.1.header.ls_age == 0
    &&& x.1.body == lsa::LsaBodyView::Summary(
        SummaryLsa { network_mask: prefix::mask_v4(len), metric: (metric % 0x1000000) as u32 },
    )
}

/// Whether one of our interfaces in the area has the network for its own.
pub open spec fn is_local(me: OspfInstanceView, prefix: u32, id: u32) -> bool {
    exists|k: int|
        0 <= k < me.interfaces.len() && (#[trigger] me.interfaces[k]).area_id == id
            && me.interfaces[k].address & me.interfaces[k].mask == prefix
}

/// Whether one of our interfaces in the area is up.
pub open spec fn is_active(me: OspfInstanceView, id: u32) -> bool {
    exists|k: int|
        0 <= k < me.interfaces.len() && (#[trigger] me.interfaces[k]).area_id == id
            && me.interfaces[k].state != InterfaceState::Down
}

/// Whether two instances have the same interfaces and the same areas, but for what these hold.
pub open spec fn same_frame(a: OspfInstanceView, b: OspfInstanceView) -> bool {
    &&& a.router_id == b.router_id
    &&& a.interfaces == b.interfaces
    &&& a.areas.len() == b.areas.len()
    &&& forall|k: int|
        0 <= k < a.areas.len() ==> (#[trigger] a.areas[k]).area_id == b.areas[k].area_id
            && a.areas[k].area_type == b.areas[k].area_type && a.areas[k].default_cost
            == b.areas[k].default_cost
}

/// Whether the LSA announces the route into the area `id`, where it is not local.
pub open spec fn announces_route(
    x: (u32, lsa::LsaView),
    me: OspfInstanceView,
    id: u32,
    r: SpfRoute,
) -> bool {
    &&& announces(x, id, me.router_id, r.prefix, r.prefix_len as int, r.cost as int)
    &&& !is_local(me, r.prefix, id)
}

/// Whether the list holds an LSA that announces the route into the area `id`.
pub open spec fn told(
    out: Seq<(u32, lsa::LsaView)>,
    me: OspfInstanceView,
    id: u32,
    r: SpfRoute,
) -> bool {
    exists|q: int| 0 <= q < out.len() && #[trigger] announces_route(out[q], me, id, r)
}

proof fn lemma_told_longer(
    a: Seq<(u32, lsa::LsaView)>,
    b: Seq<(u32, lsa::LsaView)>,
    me: OspfInstanceView,
    id: u32,
    r: SpfRoute,
)
    ensures
        told(a, me, id, r) ==> told(a + b, me, id, r),
        told(b, me, id, r) ==> told(a + b, me, id, r),
{
    if told(a, me, id, r) {
        let q = choose|q: int| 0 <= q < a.len() && #[trigger] announces_route(a[q], me, id, r);
        assert((a + b)[q] == a[q]);
    }
    if told(b, me, id, r) {
        let q = choose|q: int| 0 <= q < b.len() && #[trigger] announces_route(b[q], me, id, r);
        assert((a + b)[a.len() + q] == b[q]);
    }
}

proof fn lemma_route_summaries(me: OspfInstanceView, a: int, rs: Seq<SpfRoute>, now: u64)
    requires
        0 <= a < me.areas.len(),
    ensures
        same_frame(me.route_summaries(a, rs, now).0, me),
        forall|i: int|
            0 <= i < rs.len() && !is_local(me, (#[trigger] rs[i]).prefix, me.areas[a].area_id)
                ==> told(me.route_summaries(a, rs, now).1, me, me.areas[a].area_id, rs[i]),
        forall|q: int|
            0 <= q < me.route_summaries(a, rs, now).1.len() ==> exists|i: int|
                0 <= i < rs.len() && announces_route(
                    #[trigger] me.route_summaries(a, rs, now).1[q],
                    me,
                    me.areas[a].area_id,
                    #[trigger] rs[i],
                ),
    decreases rs.len(),
{
    if rs.len() > 0 {
        let id = me.areas[a].area_id;
        let rest = rs.drop_last();
        let last = rs.len() - 1;
        let front = me.route_summaries(a, rest, now);
        let all = me.route_summaries(a, rs, now);
        lemma_route_summaries(me, a, rest, now);
        assert(me.local_in(rs.last().prefix, id) == is_local(me, rs.last().prefix, id));
        if !is_local(me, rs.last().prefix, id) {
            let x = all.1.last();
            assert(all.1 =~= front.1.push(x));
            assert(announces_route(x, me, id, rs[last]));
            assert(all.1[front.1.len() as int] == x);
        }
        assert forall|i: int| 0 <= i < rs.len() && !is_local(me, (#[trigger] rs[i]).prefix, id) implies told(
            all.1,
            me,
            id,
            rs[i],
        ) by {
            if i < last {
                assert(rest[i] == rs[i]);
                let q = choose|q: int|
                    0 <= q < front.1.len() && #[trigger] announces_route(front.1[q], me, id, rs[i]);
                assert(all.1[q] == front.1[q]);
            }
        }
        assert forall|q: int| 0 <= q < all.1.len() implies exists|i: int|
            0 <= i < rs.len() && announces_route(#[trigger] all.1[q], me, id, #[trigger] rs[i]) by {
            if q < front.1.len() {
                assert(all.1[q] == front.1[q]);
                let i = choose|i: int|
                    0 <= i < rest.len() && announces_route(front.1[q], me, id, #[trigger] rest[i]);
                assert(rs[i] == rest[i]);
            } else {
                assert(announces_route(all.1[q], me, id, rs[last]));
            }
        }
    }
}

/// Whether the instance has an area with that id.
pub open spec fn has_area(me: OspfInstanceView, id: u32) -> bool {
    exists|a: int| 0 <= a < me.areas.len() && (#[trigger] me.areas[a]).area_id == id
}

proof fn lemma_same_view(
    a: OspfInstanceView,
    b: OspfInstanceView,
    x: (u32, lsa::LsaView),
    id: u32,
    r: SpfRoute,
)
    requires
        same_frame(a, b),
    ensures
        is_local(a, r.prefix, id) == is_local(b, r.prefix, id),
        is_active(a, id) == is_active(b, id),
        announces_route(x, a, id, r) == announces_route(x, b, id, r),
        has_area(a, id) == has_area(b, id),
{
    if has_area(a, id) {
        let k = choose|k: int| 0 <= k < a.areas.len() && (#[trigger] a.areas[k]).area_id == id;
        assert(b.areas[k].area_id == id);
    }
    if has_area(b, id) {
        let k = choose|k: int| 0 <= k < b.areas.len() && (#[trigger] b.areas[k]).area_id == id;
        assert(a.areas[k].area_id == id);
    }
}

proof fn lemma_told_same(
    out: Seq<(u32, lsa::LsaView)>,
    a: OspfInstanceView,
    b: OspfInstanceView,
    id: u32,
    r: SpfRoute,
)
    requires
        same_frame(a, b),
        told(out, a, id, r),
    ensures
        told(out, b, id, r),
{
    let q = choose|q: int| 0 <= q < out.len() && #[trigger] announces_route(out[q], a, id, r);
    lemma_same_view(a, b, out[q], id, r);
}

proof fn lemma_dest_frame(
    me: OspfInstanceView,
    src: u32,
    ids: Seq<u32>,
    rs: Seq<SpfRoute>,
    now: u64,
)
    ensures
        same_frame(me.dest_summaries(src, ids, rs, now).0, me),
    decreases ids.len(),
{
    if ids.len() > 0 {
        lemma_dest_frame(me, src, ids.drop_last(), rs, now);
        let front = me.dest_summaries(src, ids.drop_last(), rs, now).0;
        flooding::lemma_area_pos(front.areas, ids.last(), 0);
        if let Some(a) = instance::area_pos(front.areas, ids.last(), 0) {
            lemma_route_summaries(front, a, rs, now);
        }
    }
}

proof fn lemma_dest_tells(
    me: OspfInstanceView,
    src: u32,
    ids: Seq<u32>,
    rs: Seq<SpfRoute>,
    now: u64,
    k: int,
    i: int,
)
    requires
        0 <= k < ids.len(),
        has_area(me, ids[k]),
        0 <= i < rs.len(),
        ids[k] != src,
        !is_local(me, rs[i].prefix, ids[k]),
    ensures
        told(me.dest_summaries(src, ids, rs, now).1, me, ids[k], rs[i]),
    decreases ids.len(),
{
    let rest = ids.drop_last();
    let last = ids.len() - 1;
    let front = me.dest_summaries(src, rest, rs, now);
    let all = me.dest_summaries(src, ids, rs, now);
    lemma_dest_frame(me, src, rest, rs, now);
    flooding::lemma_area_pos(front.0.areas, ids[last], 0);
    let pos = instance::area_pos(front.0.areas, ids[last], 0);
    if k < last {
        assert(rest[k] == ids[k]);
        lemma_dest_tells(me, src, rest, rs, now, k, i);
        if pos is Some && ids[last] != src {
            let more = front.0.route_summaries(pos->0, rs, now);
            lemma_told_longer(front.1, more.1, me, ids[k], rs[i]);
        }
    } else {
        let at = choose|a: int| 0 <= a < me.areas.len() && (#[trigger] me.areas[a]).area_id == ids[k];
        assert(front.0.areas[at].area_id == me.areas[at].area_id);
        let more = front.0.route_summaries(pos->0, rs, now);
        lemma_route_summaries(front.0, pos->0, rs, now);
        lemma_same_view(front.0, me, arbitrary(), ids[k], rs[i]);
        assert(told(more.1, front.0, ids[k], rs[i]));
        lemma_told_same(more.1, front.0, me, ids[k], rs[i]);
        lemma_told_longer(front.1, more.1, me, ids[k], rs[i]);
    }
}

proof fn lemma_dest_source(
    me: OspfInstanceView,
    src: u32,
    ids: Seq<u32>,
    rs: Seq<SpfRoute>,
    now: u64,
    q: int,
) -> (i: int)
    requires
        0 <= q < me.dest_summaries(src, ids, rs, now).1.len(),
    ensures
        0 <= i < rs.len(),
        me.dest_summaries(src, ids, rs, now).1[q].0 != src,
        announces_route(
            me.dest_summaries(src, ids, rs, now).1[q],
            me,
            me.dest_summaries(src, ids, rs, now).1[q].0,
            rs[i],
        ),
    decreases ids.len(),
{
    let rest = ids.drop_last();
    let front = me.dest_summaries(src, rest, rs, now);
    let all = me.dest_summaries(src, ids, rs, now);
    if q < front.1.len() {
        assert(all.1[q] == front.1[q]);
        lemma_dest_source(me, src, rest, rs, now, q)
    } else {
        lemma_dest_frame(me, src, rest, rs, now);
        flooding::lemma_area_pos(front.0.areas, ids.last(), 0);
        let a = instance::area_pos(front.0.areas, ids.last(), 0)->0;
        let more = front.0.route_summaries(a, rs, now);
        lemma_route_summaries(front.0, a, rs, now);
        let x = more.1[q - front.1.len()];
        assert(all.1[q] == x);
        let i = choose|i: int|
            0 <= i < rs.len() && announces_route(
                x,
                front.0,
                front.0.areas[a].area_id,
                #[trigger] rs[i],
            );
        lemma_same_view(front.0, me, x, x.0, rs[i]);
        i
    }
}

/// Whether the LSA announces the route of another area, one in which we are active, into its own.
pub open spec fn from_elsewhere(
    x: (u32, lsa::LsaView),
    me: OspfInstanceView,
    ts: Seq<originate::AreaRoutesView>,
    t: int,
    r: SpfRoute,
) -> bool {
    &&& 0 <= t < ts.len()
    &&& ts[t].area_id != x.0
    &&& is_active(me, ts[t].area_id)
    &&& ts[t].routes.contains(r)
    &&& announces_route(x, me, x.0, r)
}

/// Whether the LSA announces a route of another area.
pub open spec fn tells_route(
    x: (u32, lsa::LsaView),
    me: OspfInstanceView,
    ts: Seq<originate::AreaRoutesView>,
) -> bool {
    exists|t: int, r: SpfRoute| #[trigger] from_elsewhere(x, me, ts, t, r)
}

proof fn lemma_routes_of(ts: Seq<originate::AreaRoutesView>, id: u32, from: int)
    requires
        0 <= from,
    ensures
        (exists|t: int| from <= t < ts.len() && (#[trigger] ts[t]).area_id == id) ==> exists|t: int|
            from <= t < ts.len() && (#[trigger] ts[t]).area_id == id && ts[t].routes
                == originate::routes_of(ts, id, from) && forall|u: int|
                from <= u < t ==> (#[trigger] ts[u]).area_id != id,
        (forall|t: int| from <= t < ts.len() ==> (#[trigger] ts[t]).area_id != id)
            ==> originate::routes_of(ts, id, from).len() == 0,
    decreases ts.len() - from,
{
    if from < ts.len() {
        lemma_routes_of(ts, id, from + 1);
        if ts[from].area_id == id {
            assert(ts[from].routes == originate::routes_of(ts, id, from));
        } else {
            if exists|t: int| from <= t < ts.len() && (#[trigger] ts[t]).area_id == id {
                let w = choose|t: int| from <= t < ts.len() && (#[trigger] ts[t]).area_id == id;
                assert(from + 1 <= w);
                let t = choose|t: int|
                    from + 1 <= t < ts.len() && (#[trigger] ts[t]).area_id == id && ts[t].routes
                        == originate::routes_of(ts, id, from + 1) && forall|u: int|
                        from + 1 <= u < t ==> (#[trigger] ts[u]).area_id != id;
                assert(ts[t].routes == originate::routes_of(ts, id, from));
                assert forall|u: int| from <= u < t implies (#[trigger] ts[u]).area_id != id by {}
            }
            if forall|t: int| from <= t < ts.len() ==> (#[trigger] ts[t]).area_id != id {
                assert forall|t: int| from + 1 <= t < ts.len() implies (
                #[trigger] ts[t]).area_id != id by {}
            }
        }
    }
}

/// Whether the first table of its area stands at position `t`.
pub open spec fn first_table(ts: Seq<originate::AreaRoutesView>, t: int) -> bool {
    &&& 0 <= t < ts.len()
    &&& forall|u: int| 0 <= u < t ==> (#[trigger] ts[u]).area_id != ts[t].area_id
}

proof fn lemma_source_frame(
    me: OspfInstanceView,
    srcs: Seq<u32>,
    ids: Seq<u32>,
    ts: Seq<originate::AreaRoutesView>,
    now: u64,
)
    ensures
        same_frame(me.source_summaries(srcs, ids, ts, now).0, me),
    decreases srcs.len(),
{
    if srcs.len() > 0 {
        lemma_source_frame(me, srcs.drop_last(), ids, ts, now);
        let front = me.source_summaries(srcs.drop_last(), ids, ts, now).0;
        lemma_dest_frame(front, srcs.last(), ids, originate::routes_of(ts, srcs.last(), 0), now);
    }
}

proof fn lemma_table_found(ts: Seq<originate::AreaRoutesView>, t: int)
    requires
        first_table(ts, t),
    ensures
        originate::routes_of(ts, ts[t].area_id, 0) == ts[t].routes,
{
    let id = ts[t].area_id;
    lemma_routes_of(ts, id, 0);
    let u = choose|u: int|
        0 <= u < ts.len() && (#[trigger] ts[u]).area_id == id && ts[u].routes
            == originate::routes_of(ts, id, 0) && forall|v: int|
            0 <= v < u ==> (#[trigger] ts[v]).area_id != id;
    if u < t {
        assert(ts[u].area_id != ts[t].area_id);
    }
    assert(u == t);
}

proof fn lemma_source_tells(
    me: OspfInstanceView,
    srcs: Seq<u32>,
    ids: Seq<u32>,
    ts: Seq<originate::AreaRoutesView>,
    now: u64,
    s: int,
    k: int,
    t: int,
    i: int,
)
    requires
        0 <= s < srcs.len(),
        0 <= k < ids.len(),
        has_area(me, ids[k]),
        first_table(ts, t),
        0 <= i < ts[t].routes.len(),
        ts[t].area_id == srcs[s],
        is_active(me, srcs[s]),
        ids[k] != srcs[s],
        !is_local(me, ts[t].routes[i].prefix, ids[k]),
    ensures
        told(me.source_summaries(srcs, ids, ts, now).1, me, ids[k], ts[t].routes[i]),
    decreases srcs.len(),
{
    let rest = srcs.drop_last();
    let last = srcs.len() - 1;
    let src = srcs[last];
    let r = ts[t].routes[i];
    let front = me.source_summaries(rest, ids, ts, now);
    let rs = originate::routes_of(ts, src, 0);
    let more = front.0.dest_summaries(src, ids, rs, now);
    assert(me.active_in(src) == is_active(me, src));
    lemma_told_longer(front.1, more.1, me, ids[k], r);
    if s < last {
        assert(rest[s] == srcs[s]);
        lemma_source_tells(me, rest, ids, ts, now, s, k, t, i);
    } else {
        lemma_source_frame(me, rest, ids, ts, now);
        lemma_table_found(ts, t);
        lemma_same_view(front.0, me, arbitrary(), ids[k], r);
        lemma_dest_tells(front.0, src, ids, rs, now, k, i);
        lemma_told_same(more.1, front.0, me, ids[k], r);
    }
}

proof fn lemma_source_source(
    me: OspfInstanceView,
    srcs: Seq<u32>,
    ids: Seq<u32>,
    ts: Seq<originate::AreaRoutesView>,
    now: u64,
    q: int,
)
    requires
        0 <= q < me.source_summaries(srcs, ids, ts, now).1.len(),
    ensures
        tells_route(me.source_summaries(srcs, ids, ts, now).1[q], me, ts),
    decreases srcs.len(),
{
    let rest = srcs.drop_last();
    let src = srcs.last();
    let front = me.source_summaries(rest, ids, ts, now);
    let all = me.source_summaries(srcs, ids, ts, now);
    assert(me.active_in(src) == is_active(me, src));
    if q < front.1.len() {
        assert(all.1[q] == front.1[q]);
        lemma_source_source(me, rest, ids, ts, now, q);
    } else {
        let rs = originate::routes_of(ts, src, 0);
        let more = front.0.dest_summaries(src, ids, rs, now);
        let x = more.1[q - front.1.len()];
        assert(all.1[q] == x);
        let i = lemma_dest_source(front.0, src, ids, rs, now, q - front.1.len());
        lemma_source_frame(me, rest, ids, ts, now);
        lemma_same_view(front.0, me, x, x.0, rs[i]);
        lemma_routes_of(ts, src, 0);
        assert(rs.len() > 0);
        let u = choose|u: int|
            0 <= u < ts.len() && (#[trigger] ts[u]).area_id == src && ts[u].routes == rs && forall|
                v: int,
            | 0 <= v < u ==> (#[trigger] ts[v]).area_id != src;
        assert(from_elsewhere(x, me, ts, u, rs[i]));
    }
}

/// Whether the LSA announces the default route into an area that takes no external routes, at the
/// cost that is configured for the area.
pub open spec fn announces_default(
    x: (u32, lsa::LsaView),
    me: OspfInstanceView,
    a: int,
) -> bool {
    &&& 0 <= a < me.areas.len()
    &&& me.areas[a].area_type != AreaType::Normal
    &&& announces(
        x,
        me.areas[a].area_id,
        me.router_id,
        0,
        0,
        me.areas[a].default_cost as int,
    )
}

/// Whether the LSA announces the default route.
pub open spec fn tells_default(x: (u32, lsa::LsaView), me: OspfInstanceView) -> bool {
    exists|a: int| #[trigger] announces_default(x, me, a)
}

proof fn lemma_stub_frame(me: OspfInstanceView, ids: Seq<u32>, now: u64)
    ensures
        same_frame(me.stub_defaults(ids, now).0, me),
    decreases ids.len(),
{
    if ids.len() > 0 {
        lemma_stub_frame(me, ids.drop_last(), now);
        let front = me.stub_defaults(ids.drop_last(), now).0;
        flooding::lemma_area_pos(front.areas, ids.last(), 0);
    }
}

/// Whether the first area with its id stands at position `a`.
pub open spec fn first_area(me: OspfInstanceView, a: int) -> bool {
    &&& 0 <= a < me.areas.len()
    &&& forall|b: int| 0 <= b < a ==> (#[trigger] me.areas[b]).area_id != me.areas[a].area_id
}

proof fn lemma_default_source(me: OspfInstanceView, ids: Seq<u32>, now: u64, q: int)
    requires
        0 <= q < me.stub_defaults(ids, now).1.len(),
    ensures
        tells_default(me.stub_defaults(ids, now).1[q], me),
    decreases ids.len(),
{
    let rest = ids.drop_last();
    let front = me.stub_defaults(rest, now);
    let all = me.stub_defaults(ids, now);
    if q < front.1.len() {
        assert(all.1[q] == front.1[q]);
        lemma_default_source(me, rest, now, q);
    } else {
        lemma_stub_frame(me, rest, now);
        flooding::lemma_area_pos(front.0.areas, ids.last(), 0);
        let a = instance::area_pos(front.0.areas, ids.last(), 0)->0;
        assert(front.0.areas[a].area_id == me.areas[a].area_id);
        assert(announces_default(all.1[q], me, a));
    }
}

/// Whether the list holds an LSA that announces the default route into the area at position `a`.
pub open spec fn default_told(
    out: Seq<(u32, lsa::LsaView)>,
    me: OspfInstanceView,
    a: int,
) -> bool {
    exists|q: int| 0 <= q < out.len() && announces_default(#[trigger] out[q], me, a)
}

proof fn lemma_default_told(me: OspfInstanceView, ids: Seq<u32>, now: u64, k: int, a: int)
    requires
        0 <= k < ids.len(),
        first_area(me, a),
        ids[k] == me.areas[a].area_id,
        me.areas[a].area_type != AreaType::Normal,
    ensures
        default_told(me.stub_defaults(ids, now).1, me, a),
    decreases ids.len(),
{
    let rest = ids.drop_last();
    let last = ids.len() - 1;
    let front = me.stub_defaults(rest, now);
    let all = me.stub_defaults(ids, now);
    lemma_stub_frame(me, rest, now);
    flooding::lemma_area_pos(front.0.areas, ids[last], 0);
    if k < last {
        assert(rest[k] == ids[k]);
        lemma_default_told(me, rest, now, k, a);
        let q = choose|q: int| 0 <= q < front.1.len() && announces_default(
            #[trigger] front.1[q],
            me,
            a,
        );
        assert(all.1[q] == front.1[q]);
    } else {
        assert(front.0.areas[a].area_id == me.areas[a].area_id);
        let b = instance::area_pos(front.0.areas, ids[last], 0)->0;
        assert(front.0.areas[b].area_id == me.areas[b].area_id);
        assert(b == a);
        assert(announces_default(all.1[front.1.len() as int], me, a));
    }
}

/// What a border router owes its areas: every route of an area in which it is active is announced
/// into every other area, at the cost of the route, unless the network is local there; the default
/// route is announced into each area that takes no external routes; and nothing else is announced. In
/// particular no route goes back into the area that it comes from.
pub open spec fn are_summaries(
    me: OspfInstanceView,
    ts: Seq<originate::AreaRoutesView>,
    out: Seq<(u32, lsa::LsaView)>,
) -> bool {
    &&& forall|s: int, d: int, t: int, i: int|
        0 <= s < me.areas.len() && 0 <= d < me.areas.len() && first_table(ts, t) && 0 <= i
            < ts[t].routes.len() && ts[t].area_id == (#[trigger] me.areas[s]).area_id && is_active(
            me,
            me.areas[s].area_id,
        ) && (#[trigger] me.areas[d]).area_id != me.areas[s].area_id && !is_local(
            me,
            (#[trigger] ts[t].routes[i]).prefix,
            me.areas[d].area_id,
        ) ==> told(out, me, me.areas[d].area_id, ts[t].routes[i])
    &&& forall|a: int|
        #[trigger] first_area(me, a) && me.areas[a].area_type != AreaType::Normal ==> default_told(
            out,
            me,
            a,
        )
    &&& forall|q: int|
        0 <= q < out.len() ==> tells_route(#[trigger] out[q], me, ts) || tells_default(out[q], me)
}

/// A border router announces the routes of each area into the others, and nothing else; a router that
/// is none announces nothing.
pub proof fn lemma_summaries(me: OspfInstanceView, ts: Seq<originate::AreaRoutesView>, now: u64)
    ensures
        (exists|i: int, j: int|
            0 <= i < me.interfaces.len() && 0 <= j < me.interfaces.len() && (
            #[trigger] me.interfaces[i]).area_id == 0 && (#[trigger] me.interfaces[j]).area_id
                != 0) ==> are_summaries(me, ts, me.summaries(ts, now).1),
        (forall|i: int, j: int|
            0 <= i < me.interfaces.len() && 0 <= j < me.interfaces.len() && (
            #[trigger] me.interfaces[i]).area_id == 0 ==> (#[trigger] me.interfaces[j]).area_id
                == 0) ==> me.summaries(ts, now) == (me, Seq::<(u32, lsa::LsaView)>::empty()),
{
    if exists|i: int, j: int|
        0 <= i < me.interfaces.len() && 0 <= j < me.interfaces.len() && (
        #[trigger] me.interfaces[i]).area_id == 0 && (#[trigger] me.interfaces[j]).area_id != 0 {
        let out = me.summaries(ts, now).1;
        let ids = originate::area_ids(me.areas);
        let d = me.stub_defaults(ids, now);
        let s = d.0.source_summaries(ids, ids, ts, now);
        assert(me.border());
        assert(out == d.1 + s.1);
        lemma_stub_frame(me, ids, now);
        assert forall|x: int, y: int, t: int, i: int|
            0 <= x < me.areas.len() && 0 <= y < me.areas.len() && first_table(ts, t) && 0 <= i
                < ts[t].routes.len() && ts[t].area_id == (#[trigger] me.areas[x]).area_id
                && is_active(me, me.areas[x].area_id) && (#[trigger] me.areas[y]).area_id
                != me.areas[x].area_id && !is_local(
                me,
                (#[trigger] ts[t].routes[i]).prefix,
                me.areas[y].area_id,
            ) implies told(out, me, me.areas[y].area_id, ts[t].routes[i]) by {
            let r = ts[t].routes[i];
            let id = me.areas[y].area_id;
            assert(ids[x] == me.areas[x].area_id && ids[y] == id);
            assert(has_area(me, id));
            lemma_same_view(d.0, me, arbitrary(), id, r);
            lemma_same_view(d.0, me, arbitrary(), ids[x], r);
            lemma_source_tells(d.0, ids, ids, ts, now, x, y, t, i);
            lemma_told_same(s.1, d.0, me, id, r);
            lemma_told_longer(d.1, s.1, me, id, r);
        }
        assert forall|a: int|
            #[trigger] first_area(me, a) && me.areas[a].area_type != AreaType::Normal implies default_told(
            out,
            me,
            a,
        ) by {
            assert(ids[a] == me.areas[a].area_id);
            lemma_default_told(me, ids, now, a, a);
            let q = choose|q: int| 0 <= q < d.1.len() && announces_default(#[trigger] d.1[q], me, a);
            assert(out[q] == d.1[q]);
        }
        assert forall|q: int| 0 <= q < out.len() implies tells_route(#[trigger] out[q], me, ts)
            || tells_default(out[q], me) by {
            if q < d.1.len() {
                assert(out[q] == d.1[q]);
                lemma_default_source(me, ids, now, q);
            } else {
                let x = s.1[q - d.1.len()];
                assert(out[q] == x);
                lemma_source_source(d.0, ids, ids, ts, now, q - d.1.len());
                let (t, r) = choose|t: int, r: SpfRoute| #[trigger] from_elsewhere(x, d.0, ts, t, r);
                lemma_same_view(d.0, me, x, x.0, r);
                lemma_same_view(d.0, me, x, ts[t].area_id, r);
                assert(from_elsewhere(x, me, ts, t, r));
            }
        }
    } else if me.border() {
        let i = choose|i: int|
            0 <= i < me.interfaces.len() && (#[trigger] me.interfaces[i]).area_id == 0;
        let j = choose|j: int|
            0 <= j < me.interfaces.len() && (#[trigger] me.interfaces[j]).area_id != 0;
        assert(me.interfaces[i].area_id == 0 && me.interfaces[j].area_id != 0);
    }
}

/// What a border router owes its areas, said of the tables of all areas: every route of an area in
/// which it is active is announced into every other area where it is not local, and every
/// announcement but a default route is of a route of another area. Other routers announce nothing.
pub open spec fn are_announcements(
    me: OspfInstanceView,
    ts: Seq<routes::AreaTableView>,
    out: Seq<(u32, lsa::LsaView)>,
) -> bool {
    if exists|i: int, j: int|
        0 <= i < me.interfaces.len() && 0 <= j < me.interfaces.len() && (
        #[trigger] me.interfaces[i]).area_id == 0 && (#[trigger] me.interfaces[j]).area_id != 0 {
        &&& forall|s: int, d: int, i: int|
            #[trigger] first_area(me, s) && 0 <= d < me.areas.len() && 0 <= i < ts[s].routes.len()
                && is_active(me, me.areas[s].area_id) && (#[trigger] me.areas[d]).area_id
                != me.areas[s].area_id && !is_local(
                me,
                (#[trigger] ts[s].routes[i]).prefix,
                me.areas[d].area_id,
            ) ==> told(out, me, me.areas[d].area_id, ts[s].routes[i])
        &&& forall|a: int|
            #[trigger] first_area(me, a) && me.areas[a].area_type != AreaType::Normal
                ==> default_told(out, me, a)
        &&& forall|q: int|
            0 <= q < out.len() ==> tells_default(#[trigger] out[q], me) || announces_table(
                out[q],
                me,
                ts,
            )
    } else {
        out.len() == 0
    }
}

/// Whether the LSA announces a route of the table of another area.
pub open spec fn announces_table(
    x: (u32, lsa::LsaView),
    me: OspfInstanceView,
    ts: Seq<routes::AreaTableView>,
) -> bool {
    exists|t: int, i: int|
        0 <= t < ts.len() && 0 <= i < ts[t].routes.len() && ts[t].area_id != x.0 && is_active(
            me,
            ts[t].area_id,
        ) && announces_route(x, me, x.0, #[trigger] ts[t].routes[i])
}

/// A border router announces the routes of the table of each area into the others, and nothing else.
pub proof fn lemma_announcements(me: OspfInstanceView, ts: Seq<routes::AreaTableView>, now: u64)
    requires
        me.are_tables(now, ts),
    ensures
        are_announcements(me, ts, me.summaries(routes::announced(ts), now).1),
{
    let at = routes::announced(ts);
    let out = me.summaries(at, now).1;
    lemma_summaries(me, at, now);
    if exists|i: int, j: int|
        0 <= i < me.interfaces.len() && 0 <= j < me.interfaces.len() && (
        #[trigger] me.interfaces[i]).area_id == 0 && (#[trigger] me.interfaces[j]).area_id != 0 {
        assert forall|s: int, d: int, i: int|
            #[trigger] first_area(me, s) && 0 <= d < me.areas.len() && 0 <= i < ts[s].routes.len()
                && is_active(me, me.areas[s].area_id) && (#[trigger] me.areas[d]).area_id
                != me.areas[s].area_id && !is_local(
                me,
                (#[trigger] ts[s].routes[i]).prefix,
                me.areas[d].area_id,
            ) implies told(out, me, me.areas[d].area_id, ts[s].routes[i]) by {
            assert(me.is_table(s, now, ts[s]));
            assert(at[s].routes == ts[s].routes && at[s].area_id == me.areas[s].area_id);
            assert(first_table(at, s)) by {
                assert forall|u: int| 0 <= u < s implies (#[trigger] at[u]).area_id
                    != at[s].area_id by {
                    assert(me.is_table(u, now, ts[u]));
                    assert(me.areas[u].area_id != me.areas[s].area_id);
                }
            }
            assert(at[s].routes[i] == ts[s].routes[i]);
        }
        assert forall|q: int| 0 <= q < out.len() implies tells_default(#[trigger] out[q], me)
            || announces_table(out[q], me, ts) by {
            if !tells_default(out[q], me) {
                let (t, r) = choose|t: int, r: SpfRoute| #[trigger]
                    from_elsewhere(out[q], me, at, t, r);
                let i = choose|i: int| 0 <= i < at[t].routes.len() && at[t].routes[i] == r;
                assert(ts[t].routes[i] == r);
                assert(announces_table(out[q], me, ts));
            }
        }
    }
}

} // verus!
