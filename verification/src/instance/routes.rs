//! Routes: what is computed from the databases of all areas, and what a border router announces of
//! it.
use vstd::prelude::*;

use crate::instance::originate;
use crate::instance::originate::AreaRoutes;
use crate::instance::route_laws;
use crate::instance::summary_laws;
use crate::instance::{OspfInstance, OspfInstanceView, Outgoing};
use crate::lsdb;
use crate::packet::lsa::Lsa;
use crate::proto::interface;
use crate::proto::interface::InterfaceState;
use crate::proto::neighbor;
use crate::proto::neighbor::{Neighbor, NeighborState};
use crate::proto::spf;
use crate::proto::spf::{
    calculate_external_routes, calculate_inter_area_routes, calculate_spf_with_paths, RouterPath,
    SpfInterface, SpfNeighbor, SpfRoute,
};
use crate::wire;

verus! {

broadcast use {wire::lemma_views_push, wire::lemma_views_update};

/// The interfaces of an area that are up.
pub open spec fn area_interfaces(is: Seq<interface::OspfInterfaceView>, id: u32) -> Seq<
    SpfInterface,
>
    decreases is.len(),
{
    if is.len() == 0 {
        Seq::empty()
    } else {
        let front = area_interfaces(is.drop_last(), id);
        let i = is.last();
        if i.state != InterfaceState::Down && i.area_id == id {
            front.push(
                SpfInterface {
                    address: i.address,
                    mask: i.mask,
                    sw_if_index: i.sw_if_index,
                    cost: i.cost,
                },
            )
        } else {
            front
        }
    }
}

/// The neighbors that hear us, on the interface with that index.
pub open spec fn hearing(ns: Seq<neighbor::NeighborView>, sw_if_index: u32) -> Seq<SpfNeighbor>
    decreases ns.len(),
{
    if ns.len() == 0 {
        Seq::empty()
    } else {
        let front = hearing(ns.drop_last(), sw_if_index);
        let n = ns.last();
        if n.state.at_least(NeighborState::TwoWay) {
            front.push(SpfNeighbor { router_id: n.router_id, address: n.address, sw_if_index })
        } else {
            front
        }
    }
}

/// The neighbors that hear us, on the interfaces of an area that are up.
pub open spec fn area_neighbors(is: Seq<interface::OspfInterfaceView>, id: u32) -> Seq<SpfNeighbor>
    decreases is.len(),
{
    if is.len() == 0 {
        Seq::empty()
    } else {
        let front = area_neighbors(is.drop_last(), id);
        let i = is.last();
        if i.state != InterfaceState::Down && i.area_id == id {
            front + hearing(i.neighbors, i.sw_if_index)
        } else {
            front
        }
    }
}

/// What was computed inside an area.
#[derive(Debug)]
pub struct AreaTable {
    pub area_id: u32,
    /// Routes within the area.
    pub routes: Vec<SpfRoute>,
    /// Paths to its routers.
    pub paths: Vec<RouterPath>,
}

/// What was computed inside an area.
pub struct AreaTableView {
    pub area_id: u32,
    pub routes: Seq<SpfRoute>,
    pub paths: Seq<RouterPath>,
}

impl View for AreaTable {
    type V = AreaTableView;

    open spec fn view(&self) -> AreaTableView {
        AreaTableView { area_id: self.area_id, routes: self.routes@, paths: self.paths@ }
    }
}

/// The paths of the area; none if there is no table for it.
pub open spec fn paths_of(ts: Seq<AreaTableView>, id: u32, from: int) -> Seq<RouterPath>
    decreases ts.len() - from,
{
    if from < 0 || from >= ts.len() {
        Seq::empty()
    } else if ts[from].area_id == id {
        ts[from].paths
    } else {
        paths_of(ts, id, from + 1)
    }
}

impl OspfInstanceView {
    /// Whether the table is one of the area at position `a`: computed from its LSAs that are alive.
    /// An area without interfaces that are up has no routes.
    pub open spec fn is_table(self, a: int, now: u64, t: AreaTableView) -> bool {
        let id = self.areas[a].area_id;
        let is = area_interfaces(self.interfaces, id);
        &&& t.area_id == id
        &&& spf::tidy(t.routes)
        &&& if is.len() == 0 {
            t.routes == Seq::<SpfRoute>::empty() && t.paths == Seq::<RouterPath>::empty()
        } else {
            spf::computed(
                lsdb::live_lsas(self.areas[a].lsdb.entries, now),
                self.router_id,
                is,
                area_neighbors(self.interfaces, id),
                t.routes,
                t.paths,
            )
        }
    }

    /// Whether the tables are those of all areas.
    pub open spec fn are_tables(self, now: u64, ts: Seq<AreaTableView>) -> bool {
        &&& ts.len() == self.areas.len()
        &&& forall|a: int| 0 <= a < ts.len() ==> self.is_table(a, now, #[trigger] ts[a])
    }

    /// The routes within and between the first `n` areas, area by area.
    pub open spec fn inner_routes(self, now: u64, ts: Seq<AreaTableView>, n: int) -> Seq<SpfRoute>
        decreases n,
    {
        if n <= 0 {
            Seq::empty()
        } else {
            self.inner_routes(now, ts, n - 1) + ts[n - 1].routes + spf::inter_routes(
                lsdb::live_lsas(self.areas[n - 1].lsdb.entries, now),
                ts[n - 1].paths,
            )
        }
    }

    /// All routes. External ones go by the routers of the backbone.
    pub open spec fn all_routes(self, now: u64, ts: Seq<AreaTableView>) -> Seq<SpfRoute> {
        self.inner_routes(now, ts, ts.len() as int) + spf::external_routes(
            lsdb::live_lsas(self.as_external_lsdb.entries, now),
            paths_of(ts, 0, 0),
        )
    }

    /// The instance after routes were computed.
    pub open spec fn computed_at(self, now: u64) -> OspfInstanceView {
        OspfInstanceView { spf_scheduled: None, spf_last_run: Some(now), ..self }
    }
}

/// What the tables hold for announcements between areas.
pub open spec fn announced(ts: Seq<AreaTableView>) -> Seq<originate::AreaRoutesView> {
    Seq::new(
        ts.len(),
        |k: int| originate::AreaRoutesView { area_id: ts[k].area_id, routes: ts[k].routes },
    )
}

fn add_hearing(ns: &Vec<Neighbor>, sw_if_index: u32, out: &mut Vec<SpfNeighbor>)
    ensures
        final(out)@ == old(out)@ + hearing(wire::views(ns@), sw_if_index),
{
    let ghost s = wire::views(ns@);
    let ghost start = out@;
    let mut i: usize = 0;
    assert(s.take(0) =~= Seq::empty());
    assert(start + Seq::<SpfNeighbor>::empty() =~= start);
    while i < ns.len()
        invariant
            i <= ns@.len(),
            s == wire::views(ns@),
            out@ == start + hearing(s.take(i as int), sw_if_index),
        decreases ns.len() - i,
    {
        assert(s.take(i + 1).drop_last() =~= s.take(i as int));
        assert(s.take(i + 1).last() == ns@[i as int]@);
        let ghost had = hearing(s.take(i as int), sw_if_index);
        if ns[i].state.reached(NeighborState::TwoWay) {
            let n = SpfNeighbor {
                router_id: ns[i].router_id,
                address: ns[i].address,
                sw_if_index,
            };
            out.push(n);
            assert(out@ =~= start + had.push(n));
        }
        i = i + 1;
    }
    assert(s.take(i as int) =~= s);
}

impl OspfInstance {
    /// The interfaces of the area that are up and the neighbors that hear us on them.
    fn surroundings(&self, id: u32) -> (r: (Vec<SpfInterface>, Vec<SpfNeighbor>))
        ensures
            r.0@ == area_interfaces(self@.interfaces, id),
            r.1@ == area_neighbors(self@.interfaces, id),
    {
        let ghost s = self@.interfaces;
        let mut is: Vec<SpfInterface> = Vec::new();
        let mut ns: Vec<SpfNeighbor> = Vec::new();
        let mut i: usize = 0;
        assert(s.take(0) =~= Seq::empty());
        while i < self.interfaces.len()
            invariant
                i <= self.interfaces@.len(),
                s == self@.interfaces,
                is@ == area_interfaces(s.take(i as int), id),
                ns@ == area_neighbors(s.take(i as int), id),
            decreases self.interfaces.len() - i,
        {
            assert(s.take(i + 1).drop_last() =~= s.take(i as int));
            assert(s.take(i + 1).last() == self.interfaces@[i as int]@);
            let f = &self.interfaces[i];
            if f.state != InterfaceState::Down && f.area_id == id {
                is.push(
                    SpfInterface {
                        address: f.address,
                        mask: f.mask,
                        sw_if_index: f.sw_if_index,
                        cost: f.cost,
                    },
                );
                add_hearing(&f.neighbors, f.sw_if_index, &mut ns);
            }
            i = i + 1;
        }
        assert(s.take(i as int) =~= s);
        (is, ns)
    }

    /// Computes the routes inside the area at position `a`.
    fn area_table(&self, a: usize, now: u64) -> (r: (AreaTable, Vec<Lsa>))
        requires
            a < self@.areas.len(),
        ensures
            self@.is_table(a as int, now, r.0@),
            wire::views(r.1@) == lsdb::live_lsas(self@.areas[a as int].lsdb.entries, now),
    {
        assert(self.areas@[a as int]@ == self@.areas[a as int]);
        let area_id: u32 = self.areas[a].area_id;
        let (is, ns) = self.surroundings(area_id);
        let ls = self.areas[a].lsdb.as_lsa_map(now);
        if is.len() == 0 {
            return (AreaTable { area_id, routes: Vec::new(), paths: Vec::new() }, ls);
        }
        let (routes, paths) = calculate_spf_with_paths(self.router_id, &ls, &is, &ns);
        (AreaTable { area_id, routes, paths }, ls)
    }

    /// Computes the routes inside each area.
    pub fn area_tables(&self, now: u64) -> (r: Vec<AreaTable>)
        ensures
            self@.are_tables(now, wire::views(r@)),
    {
        let mut out: Vec<AreaTable> = Vec::new();
        let mut a: usize = 0;
        while a < self.areas.len()
            invariant
                a <= self.areas@.len(),
                out@.len() == a,
                forall|k: int| 0 <= k < a ==> self@.is_table(k, now, (#[trigger] out@[k])@),
            decreases self.areas.len() - a,
        {
            let (t, _ls) = self.area_table(a, now);
            out.push(t);
            a = a + 1;
        }
        out
    }

    /// Computes all routes: inside each area, to the networks that its border routers announce, and
    /// to the outside. Computation is then no longer due.
    pub fn run_spf(&mut self, now: u64) -> (r: Vec<SpfRoute>)
        ensures
            final(self)@ == old(self)@.computed_at(now),
            exists|ts: Seq<AreaTableView>|
                #[trigger] old(self)@.are_tables(now, ts) && r@ == old(self)@.all_routes(now, ts)
                    && route_laws::are_routes(old(self)@, now, ts, r@),
    {
        self.spf_scheduled = None;
        self.spf_last_run = Some(now);
        let ghost me = old(self)@;
        assert(self@ == me.computed_at(now));
        let mut out: Vec<SpfRoute> = Vec::new();
        let mut backbone: Vec<RouterPath> = Vec::new();
        let mut known = false;
        let ghost mut ts: Seq<AreaTableView> = Seq::empty();
        let mut a: usize = 0;
        while a < self.areas.len()
            invariant
                a <= self.areas@.len(),
                self@ == me.computed_at(now),
                ts.len() == a,
                forall|k: int| 0 <= k < a ==> me.is_table(k, now, #[trigger] ts[k]),
                out@ == me.inner_routes(now, ts, a as int),
                known ==> backbone@ == paths_of(ts, 0, 0) && exists|k: int|
                    0 <= k < a && (#[trigger] ts[k]).area_id == 0,
                !known ==> backbone@ == Seq::<RouterPath>::empty(),
                !known ==> forall|k: int| 0 <= k < a ==> (#[trigger] ts[k]).area_id != 0,
            decreases self.areas.len() - a,
        {
            let ghost had = ts;
            let (t, ls) = self.area_table(a, now);
            assert(me.is_table(a as int, now, t@));
            proof {
                ts = ts.push(t@);
                lemma_inner_prefix(me, now, had, ts, a as int);
                lemma_paths_prefix(had, ts, 0, 0);
                if known {
                    let k = choose|k: int| 0 <= k < a && (#[trigger] had[k]).area_id == 0;
                    assert(ts[k].area_id == 0);
                }
            }
            let mut inter = calculate_inter_area_routes(&ls, &t.paths);
            let AreaTable { area_id, mut routes, paths } = t;
            out.append(&mut routes);
            out.append(&mut inter);
            if !known && area_id == 0 {
                proof {
                    assert(ts[a as int].area_id == 0);
                    lemma_paths_at(ts, 0, 0, a as int);
                }
                backbone = paths;
                known = true;
            }
            a = a + 1;
        }
        proof {
            if !known {
                lemma_paths_none(ts, 0, 0);
            }
        }
        let ls = self.as_external_lsdb.as_lsa_map(now);
        let mut external = calculate_external_routes(&ls, &backbone);
        out.append(&mut external);
        assert(me.are_tables(now, ts));
        assert(out@ =~= me.all_routes(now, ts));
        proof {
            route_laws::lemma_routes(me, now, ts, out@);
        }
        out
    }

    /// As a border router, announces the routes of each area into the others, and the default route
    /// into areas that take no external routes. Gives the LSAs with the areas that they belong to.
    pub fn originate_summary_lsas(&mut self, now: u64) -> (r: Vec<(u32, Lsa)>)
        ensures
            exists|ts: Seq<AreaTableView>|
                #[trigger] old(self)@.are_tables(now, ts) && (final(self)@, wire::views(r@))
                    == old(self)@.summaries(announced(ts), now) && summary_laws::are_announcements(
                    old(self)@,
                    ts,
                    wire::views(r@),
                ),
    {
        let ghost me = self@;
        let found = self.area_tables(now);
        let ghost ts = wire::views(found@);
        let mut tables: Vec<AreaRoutes> = Vec::new();
        let mut k: usize = 0;
        while k < found.len()
            invariant
                k <= found@.len(),
                tables@.len() == k,
                ts == wire::views(found@),
                forall|j: int| 0 <= j < ts.len() ==> spf::tidy((#[trigger] ts[j]).routes),
                forall|j: int|
                    0 <= j < k ==> (#[trigger] tables@[j])@ == (originate::AreaRoutesView {
                        area_id: ts[j].area_id,
                        routes: ts[j].routes,
                    }),
            decreases found.len() - k,
        {
            assert(ts[k as int] == found@[k as int]@);
            let routes = copy_routes(&found[k].routes);
            tables.push(AreaRoutes { area_id: found[k].area_id, routes });
            k = k + 1;
        }
        assert(wire::views(tables@) =~= announced(ts));
        assert forall|t: int, k: int|
            0 <= t < tables@.len() && 0 <= k < tables@[t].routes@.len() implies (
        #[trigger] tables@[t].routes@[k]).prefix_len <= 32 by {
            assert(tables@[t]@.routes == ts[t].routes);
        }
        proof {
            summary_laws::lemma_announcements(me, ts, now);
        }
        self.announce_tables(&tables, now)
    }

    /// Announces the routes between areas anew and appends the updates that flood them.
    pub fn announce_areas(&mut self, now: u64, out: &mut Vec<Outgoing>)
        ensures
            exists|ts: Seq<AreaTableView>|
                #[trigger] old(self)@.are_tables(now, ts) && final(self)@ == old(self)@.summaries(
                    announced(ts),
                    now,
                ).0 && wire::views(final(out)@) == wire::views(old(out)@)
                    + final(self)@.flood_own(old(self)@.summaries(announced(ts), now).1),
    {
        let ls = self.originate_summary_lsas(now);
        self.flood_own_lsas(&ls, out);
    }
}

fn copy_routes(rs: &Vec<SpfRoute>) -> (r: Vec<SpfRoute>)
    ensures
        r@ == rs@,
{
    let mut out: Vec<SpfRoute> = Vec::new();
    let mut i: usize = 0;
    while i < rs.len()
        invariant
            i <= rs@.len(),
            out@ =~= rs@.take(i as int),
        decreases rs.len() - i,
    {
        out.push(rs[i]);
        i = i + 1;
    }
    out
}

proof fn lemma_inner_prefix(
    me: OspfInstanceView,
    now: u64,
    a: Seq<AreaTableView>,
    b: Seq<AreaTableView>,
    n: int,
)
    requires
        n <= a.len() <= b.len(),
        forall|k: int| 0 <= k < n ==> a[k] == b[k],
    ensures
        me.inner_routes(now, a, n) == me.inner_routes(now, b, n),
    decreases n,
{
    if n > 0 {
        lemma_inner_prefix(me, now, a, b, n - 1);
    }
}

proof fn lemma_paths_prefix(a: Seq<AreaTableView>, b: Seq<AreaTableView>, id: u32, from: int)
    requires
        0 <= from <= a.len(),
        a.len() <= b.len(),
        forall|k: int| 0 <= k < a.len() ==> a[k] == b[k],
    ensures
        (exists|k: int| from <= k < a.len() && (#[trigger] a[k]).area_id == id) ==> paths_of(
            a,
            id,
            from,
        ) == paths_of(b, id, from),
    decreases a.len() - from,
{
    if from < a.len() {
        lemma_paths_prefix(a, b, id, from + 1);
    }
}

proof fn lemma_paths_at(ts: Seq<AreaTableView>, id: u32, from: int, at: int)
    requires
        0 <= from <= at < ts.len(),
        ts[at].area_id == id,
        forall|k: int| from <= k < at ==> (#[trigger] ts[k]).area_id != id,
    ensures
        paths_of(ts, id, from) == ts[at].paths,
    decreases at - from,
{
    if from < at {
        lemma_paths_at(ts, id, from + 1, at);
    }
}

proof fn lemma_paths_none(ts: Seq<AreaTableView>, id: u32, from: int)
    requires
        0 <= from <= ts.len(),
        forall|k: int| 0 <= k < ts.len() ==> (#[trigger] ts[k]).area_id != id,
    ensures
        paths_of(ts, id, from) == Seq::<RouterPath>::empty(),
    decreases ts.len() - from,
{
    if from < ts.len() {
        lemma_paths_none(ts, id, from + 1);
    }
}

} // verus!
