//! Routes: what is computed inside each area, and what a border router announces of it.
use vstd::prelude::*;

use crate::instance_v3;
use crate::instance_v3::inter_area;
use crate::instance_v3::inter_area::{AreaRoute, PrefixCost};
use crate::instance_v3::{InstanceV3, InstanceV3View};
use crate::lsdb_v3;
use crate::lsdb_v3::LsaEntryV3;
use crate::spf_v3;
use crate::spf_v3::{calculate_from, calculate_spf_v3, SpfRouteV3, SpfRouteV3View};
use crate::wire;

verus! {

broadcast use {wire::lemma_views_push, wire::lemma_views_update};

/// The LSAs of an area.
pub open spec fn area_entries(es: Seq<lsdb_v3::LsaEntryV3View>, area: u32) -> Seq<
    lsdb_v3::LsaEntryV3View,
>
    decreases es.len(),
{
    if es.len() == 0 {
        Seq::empty()
    } else if es.last().area == Some(area) {
        area_entries(es.drop_last(), area).push(es.last())
    } else {
        area_entries(es.drop_last(), area)
    }
}

/// What routes of an area cost.
pub open spec fn costs(area: u32, rs: Seq<SpfRouteV3View>) -> Seq<AreaRoute> {
    Seq::new(
        rs.len(),
        |k: int|
            AreaRoute {
                area,
                prefix: PrefixCost {
                    address: rs[k].prefix,
                    len: rs[k].prefix_len,
                    cost: rs[k].cost,
                },
            },
    )
}

/// What the routes of the first `n` areas cost.
pub open spec fn all_costs(areas: Seq<u32>, ts: Seq<Seq<SpfRouteV3View>>, n: int) -> Seq<AreaRoute>
    decreases n,
{
    if n <= 0 {
        Seq::empty()
    } else {
        all_costs(areas, ts, n - 1) + costs(areas[n - 1], ts[n - 1])
    }
}

impl InstanceV3View {
    /// Whether the routes are those inside the area.
    pub open spec fn is_area_table(self, area: u32, rs: Seq<SpfRouteV3View>) -> bool {
        spf_v3::computed(
            area_entries(self.lsdb.entries, area),
            self.router_id,
            inter_area::full_neighbors_of(self.interfaces),
            rs,
        )
    }

    /// Whether the tables hold the routes inside each area.
    pub open spec fn are_area_tables(self, ts: Seq<Seq<SpfRouteV3View>>) -> bool {
        let areas = instance_v3::areas_of(self.interfaces);
        &&& ts.len() == areas.len()
        &&& forall|k: int| 0 <= k < ts.len() ==> self.is_area_table(areas[k], #[trigger] ts[k])
    }

    /// The instance after a border router announced the routes of the tables.
    pub open spec fn with_tables(self, ts: Seq<Seq<SpfRouteV3View>>) -> InstanceV3View {
        self.with_inter_area_lsas(
            all_costs(instance_v3::areas_of(self.interfaces), ts, ts.len() as int),
        )
    }
}

fn select_entries(es: &Vec<LsaEntryV3>, area: u32) -> (r: Vec<LsaEntryV3>)
    ensures
        wire::views(r@) == area_entries(wire::views(es@), area),
{
    let ghost s = wire::views(es@);
    let mut out: Vec<LsaEntryV3> = Vec::new();
    let mut i: usize = 0;
    assert(s.take(0) =~= Seq::empty());
    assert(wire::views(out@) =~= Seq::empty());
    while i < es.len()
        invariant
            i <= es@.len(),
            s == wire::views(es@),
            wire::views(out@) == area_entries(s.take(i as int), area),
        decreases es.len() - i,
    {
        assert(s.take(i + 1).drop_last() =~= s.take(i as int));
        assert(s.take(i + 1).last() == es@[i as int]@);
        match es[i].area {
            Some(a) => {
                if a == area {
                    out.push(es[i].duplicate());
                }
            },
            None => {},
        }
        i = i + 1;
    }
    assert(s.take(i as int) =~= s);
    out
}

fn add_costs(area: u32, rs: &Vec<SpfRouteV3>, out: &mut Vec<AreaRoute>)
    ensures
        final(out)@ == old(out)@ + costs(area, wire::views(rs@)),
{
    let ghost s = wire::views(rs@);
    let ghost start = out@;
    let mut i: usize = 0;
    while i < rs.len()
        invariant
            i <= rs@.len(),
            s == wire::views(rs@),
            out@ =~= start + costs(area, s).take(i as int),
        decreases rs.len() - i,
    {
        assert(s[i as int] == rs@[i as int]@);
        out.push(
            AreaRoute {
                area,
                prefix: PrefixCost {
                    address: rs[i].prefix,
                    len: rs[i].prefix_len,
                    cost: rs[i].cost,
                },
            },
        );
        i = i + 1;
    }
    assert(costs(area, s).take(i as int) =~= costs(area, s));
}

proof fn lemma_costs_prefix(
    areas: Seq<u32>,
    a: Seq<Seq<SpfRouteV3View>>,
    b: Seq<Seq<SpfRouteV3View>>,
    n: int,
)
    requires
        n <= a.len() <= b.len(),
        forall|k: int| 0 <= k < n ==> a[k] == b[k],
    ensures
        all_costs(areas, a, n) == all_costs(areas, b, n),
    decreases n,
{
    if n > 0 {
        lemma_costs_prefix(areas, a, b, n - 1);
    }
}

impl InstanceV3 {
    /// Announces, as a border router, the prefixes of each area into all others: our own at cost 0
    /// and those that are reached inside the area at theirs. What is attached in the destination
    /// area is left out.
    pub fn originate_inter_area_prefix_lsas(&mut self)
        ensures
            exists|ts: Seq<Seq<SpfRouteV3View>>|
                #[trigger] old(self)@.are_area_tables(ts) && final(self)@ == old(self)@.with_tables(
                    ts,
                ),
    {
        let ghost me = self@;
        let areas = self.areas();
        let neighbors = self.spf_neighbors();
        let mut routes: Vec<AreaRoute> = Vec::new();
        let ghost mut ts: Seq<Seq<SpfRouteV3View>> = Seq::empty();
        let mut i: usize = 0;
        while i < areas.len()
            invariant
                i <= areas@.len(),
                self@ == me,
                areas@ == instance_v3::areas_of(me.interfaces),
                neighbors@ == inter_area::full_neighbors_of(me.interfaces),
                ts.len() == i,
                forall|k: int| 0 <= k < i ==> me.is_area_table(areas@[k], #[trigger] ts[k]),
                routes@ == all_costs(areas@, ts, i as int),
            decreases areas.len() - i,
        {
            let ghost had = ts;
            let inside = select_entries(self.lsdb.iter(), areas[i]);
            let rs = calculate_from(self.router_id, &inside, &neighbors);
            add_costs(areas[i], &rs, &mut routes);
            proof {
                ts = ts.push(wire::views(rs@));
                lemma_costs_prefix(areas@, had, ts, i as int);
                assert(me.is_area_table(areas@[i as int], ts[i as int]));
            }
            i = i + 1;
        }
        self.announce_area_routes(&routes);
        assert(me.are_area_tables(ts));
    }

    /// Announces the routes between areas anew and computes all routes from what is stored then.
    pub fn run_spf(&mut self) -> (r: Vec<SpfRouteV3>)
        ensures
            exists|ts: Seq<Seq<SpfRouteV3View>>|
                #[trigger] old(self)@.are_area_tables(ts) && final(self)@ == old(self)@.with_tables(
                    ts,
                ),
            spf_v3::computed(
                final(self)@.lsdb.entries,
                old(self)@.router_id,
                inter_area::full_neighbors_of(old(self)@.interfaces),
                wire::views(r@),
            ),
    {
        let neighbors = self.spf_neighbors();
        let id: u32 = self.router_id;
        self.originate_inter_area_prefix_lsas();
        calculate_spf_v3(id, &self.lsdb, &neighbors)
    }
}

} // verus!
