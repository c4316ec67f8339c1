//! Origination of Inter-Area-Prefix-LSAs by an area border router.
use vstd::prelude::*;

use crate::instance_v3;
use crate::instance_v3::{InstanceV3, InstanceV3View, NeighborStateV3};
use crate::lsdb_v3::LsaEntryV3View;
use crate::packet_v3::lsa;
use crate::packet_v3::lsa::{InterAreaPrefixLsaV3, IntraAreaPrefixLsaV3};
use crate::packet_v3::prefix::Ospfv3Prefix;
use crate::packet_v3::LsaV3Type;
use crate::spf_v3::SpfNeighborV3;
use crate::wire;

verus! {

broadcast use {wire::lemma_views_push, wire::lemma_views_update};

/// A prefix with the cost to reach it.
#[derive(Clone, Copy, Debug, PartialEq, Eq, Structural)]
pub struct PrefixCost {
    pub address: u128,
    pub len: u8,
    pub cost: u32,
}

/// A route that the path computation within `area` found.
#[derive(Clone, Copy, Debug, PartialEq, Eq, Structural)]
pub struct AreaRoute {
    pub area: u32,
    pub prefix: PrefixCost,
}

impl PrefixCost {
    /// Whether the two stand for the same prefix.
    pub open spec fn same_prefix(self, other: PrefixCost) -> bool {
        self.address == other.address && self.len == other.len
    }

    /// The order in which prefixes are announced: by address, then by length.
    pub open spec fn before(self, other: PrefixCost) -> bool {
        self.address < other.address || (self.address == other.address && self.len < other.len)
    }
}

/// The position at or behind `from` of the first element of `t` that does not stand before `p`.
pub open spec fn slot(t: Seq<PrefixCost>, p: PrefixCost, from: int) -> int
    decreases t.len() - from,
{
    if from < 0 || from >= t.len() {
        t.len() as int
    } else if !t[from].before(p) {
        from
    } else {
        slot(t, p, from + 1)
    }
}

/// The table with `p` in it, at the lower cost where its prefix was there already.
pub open spec fn put_min(t: Seq<PrefixCost>, p: PrefixCost) -> Seq<PrefixCost> {
    let i = slot(t, p, 0);
    if i < t.len() && t[i].same_prefix(p) {
        if p.cost < t[i].cost {
            t.update(i, p)
        } else {
            t
        }
    } else {
        t.insert(i, p)
    }
}

/// The table with the prefixes in it at cost 0.
pub open spec fn put_own(t: Seq<PrefixCost>, ps: Seq<Ospfv3Prefix>) -> Seq<PrefixCost>
    decreases ps.len(),
{
    if ps.len() == 0 {
        t
    } else {
        put_min(
            put_own(t, ps.drop_last()),
            PrefixCost { address: ps.last().address, len: ps.last().prefix_length, cost: 0 },
        )
    }
}

/// The prefixes that an LSA of ours lists in `area`; none for any other LSA.
pub open spec fn own_prefixes(e: LsaEntryV3View, router_id: u32, area: u32) -> Seq<Ospfv3Prefix> {
    if e.header.ls_type == LsaV3Type::IntraAreaPrefix && e.header.advertising_router == router_id
        && e.area == Some(area) {
        match lsa::intra_area_prefix_parse(e.body()) {
            Ok(ps) => ps,
            Err(_) => Seq::empty(),
        }
    } else {
        Seq::empty()
    }
}

/// The table of our own prefixes in `area`.
pub open spec fn own_table(es: Seq<LsaEntryV3View>, router_id: u32, area: u32) -> Seq<PrefixCost>
    decreases es.len(),
{
    if es.len() == 0 {
        Seq::empty()
    } else {
        put_own(
            own_table(es.drop_last(), router_id, area),
            own_prefixes(es.last(), router_id, area),
        )
    }
}

/// The table with the routes within `area` in it.
pub open spec fn put_routes(t: Seq<PrefixCost>, rs: Seq<AreaRoute>, area: u32) -> Seq<PrefixCost>
    decreases rs.len(),
{
    if rs.len() == 0 {
        t
    } else {
        let front = put_routes(t, rs.drop_last(), area);
        if rs.last().area == area {
            put_min(front, rs.last().prefix)
        } else {
            front
        }
    }
}

/// Whether the prefix is directly attached according to the table.
pub open spec fn attached(t: Seq<PrefixCost>, p: PrefixCost) -> bool {
    exists|i: int| 0 <= i < t.len() && (#[trigger] t[i]).same_prefix(p) && t[i].cost == 0
}

/// What of `src` is announced into an area with table `dest`: all that is not attached there.
pub open spec fn summarized(src: Seq<PrefixCost>, dest: Seq<PrefixCost>) -> Seq<PrefixCost>
    decreases src.len(),
{
    if src.len() == 0 {
        Seq::empty()
    } else {
        let front = summarized(src.drop_last(), dest);
        if attached(dest, src.last()) {
            front
        } else {
            front.push(src.last())
        }
    }
}

/// The octets that announce a prefix.
pub open spec fn summary_body(p: PrefixCost) -> Seq<u8> {
    (InterAreaPrefixLsaV3 {
        metric: p.cost,
        prefix: Ospfv3Prefix::spec_plain(p.address, p.len),
    }).bytes()
}

/// The Full neighbors of all interfaces, as path computation needs them.
pub open spec fn full_neighbors_of(ifs: Seq<crate::instance_v3::InterfaceV3View>) -> Seq<SpfNeighborV3>
    decreases ifs.len(),
{
    if ifs.len() == 0 {
        Seq::empty()
    } else {
        full_neighbors_of(ifs.drop_last()) + full_neighbors_on(ifs.last(), ifs.last().neighbors)
    }
}

/// The Full neighbors among `ns` on one interface.
pub open spec fn full_neighbors_on(
    iface: crate::instance_v3::InterfaceV3View,
    ns: Seq<crate::instance_v3::NeighborV3View>,
) -> Seq<SpfNeighborV3>
    decreases ns.len(),
{
    if ns.len() == 0 {
        Seq::empty()
    } else {
        let front = full_neighbors_on(iface, ns.drop_last());
        if ns.last().state == NeighborStateV3::Full {
            front.push(
                SpfNeighborV3 {
                    router_id: ns.last().router_id,
                    link_local: ns.last().link_local,
                    sw_if_index: iface.io.sw_if_index,
                },
            )
        } else {
            front
        }
    }
}

impl InstanceV3View {
    /// The prefixes known in `area`, ours and those that path computation reached.
    pub open spec fn area_table(self, rs: Seq<AreaRoute>, area: u32) -> Seq<PrefixCost> {
        put_routes(own_table(self.lsdb.entries, self.router_id, area), rs, area)
    }

    /// The instance with the prefixes announced into `dest`, numbered from 1 on.
    pub open spec fn inter_area_lsas(self, ps: Seq<PrefixCost>, dest: u32) -> InstanceV3View
        decreases ps.len(),
    {
        if ps.len() == 0 {
            self
        } else {
            self.inter_area_lsas(ps.drop_last(), dest).originated(
                LsaV3Type::InterAreaPrefix,
                (ps.len() % 0x100000000) as u32,
                summary_body(ps.last()),
                Some(dest),
            )
        }
    }

    /// What the areas `srcs` have to announce into the area `dest`, one after the other.
    pub open spec fn gathered(self, rs: Seq<AreaRoute>, srcs: Seq<u32>, dest: u32) -> Seq<PrefixCost>
        decreases srcs.len(),
    {
        if srcs.len() == 0 {
            Seq::empty()
        } else {
            let front = self.gathered(rs, srcs.drop_last(), dest);
            if srcs.last() == dest {
                front
            } else {
                front + summarized(self.area_table(rs, srcs.last()), self.area_table(rs, dest))
            }
        }
    }

    /// The instance with the prefixes of all `areas` announced into each of `dests`; `base` is the
    /// instance that the tables come from.
    pub open spec fn summarized_all(
        self,
        base: InstanceV3View,
        rs: Seq<AreaRoute>,
        dests: Seq<u32>,
        areas: Seq<u32>,
    ) -> InstanceV3View
        decreases dests.len(),
    {
        if dests.len() == 0 {
            self
        } else {
            self.summarized_all(base, rs, dests.drop_last(), areas).inter_area_lsas(
                base.gathered(rs, areas, dests.last()),
                dests.last(),
            )
        }
    }

    /// The instance with all Inter-Area-Prefix-LSAs originated; only a border router has any.
    pub open spec fn with_inter_area_lsas(self, rs: Seq<AreaRoute>) -> InstanceV3View {
        if self.is_abr() {
            let areas = instance_v3::areas_of(self.interfaces);
            self.summarized_all(self, rs, areas, areas)
        } else {
            self
        }
    }
}

/// Puts `p` into the table, at the lower cost where its prefix was there already.
fn insert_min(t: &mut Vec<PrefixCost>, p: PrefixCost)
    ensures
        final(t)@ == put_min(old(t)@, p),
{
    let ghost s = t@;
    let mut i: usize = 0;
    while i < t.len() && (t[i].address < p.address || (t[i].address == p.address && t[i].len < p.len))
        invariant
            i <= t@.len(),
            t@ == s,
            slot(s, p, 0) == slot(s, p, i as int),
        decreases t.len() - i,
    {
        i = i + 1;
    }
    assert(slot(s, p, 0) == i);
    if i < t.len() && t[i].address == p.address && t[i].len == p.len {
        if p.cost < t[i].cost {
            t.set(i, p);
        }
    } else {
        t.insert(i, p);
    }
}

/// Whether the prefix is directly attached according to the table.
fn is_attached(t: &Vec<PrefixCost>, p: &PrefixCost) -> (r: bool)
    ensures
        r == attached(t@, *p),
{
    let mut i: usize = 0;
    while i < t.len()
        invariant
            i <= t@.len(),
            forall|k: int|
                0 <= k < i ==> !((#[trigger] t@[k]).same_prefix(*p) && t@[k].cost == 0),
        decreases t.len() - i,
    {
        if t[i].address == p.address && t[i].len == p.len && t[i].cost == 0 {
            return true;
        }
        i = i + 1;
    }
    false
}

impl InstanceV3 {
    /// The Full neighbors of all interfaces, as path computation needs them.
    pub fn spf_neighbors(&self) -> (r: Vec<SpfNeighborV3>)
        ensures
            r@ == full_neighbors_of(self@.interfaces),
    {
        let mut v: Vec<SpfNeighborV3> = Vec::new();
        let ghost ifs = self@.interfaces;
        let mut i: usize = 0;
        assert(ifs.take(0) =~= Seq::empty());
        while i < self.interfaces.len()
            invariant
                i <= self.interfaces@.len(),
                ifs == self@.interfaces,
                v@ == full_neighbors_of(ifs.take(i as int)),
            decreases self.interfaces.len() - i,
        {
            assert(ifs.take(i + 1).drop_last() =~= ifs.take(i as int));
            let iface = &self.interfaces[i];
            assert(iface@ == ifs[i as int]);
            let ghost ns = iface@.neighbors;
            let ghost start = v@;
            let mut j: usize = 0;
            assert(ns.take(0) =~= Seq::empty());
            assert(v@ =~= start + full_neighbors_on(iface@, ns.take(0)));
            while j < iface.neighbors.len()
                invariant
                    j <= iface.neighbors@.len(),
                    ns == iface@.neighbors,
                    v@ == start + full_neighbors_on(iface@, ns.take(j as int)),
                decreases iface.neighbors.len() - j,
            {
                assert(ns.take(j + 1).drop_last() =~= ns.take(j as int));
                let n = &iface.neighbors[j];
                assert(n@ == ns[j as int]);
                if n.state == NeighborStateV3::Full {
                    v.push(
                        SpfNeighborV3 {
                            router_id: n.router_id,
                            link_local: n.link_local,
                            sw_if_index: iface.io.sw_if_index,
                        },
                    );
                }
                j = j + 1;
                assert(v@ =~= start + full_neighbors_on(iface@, ns.take(j as int)));
            }
            assert(ns.take(j as int) =~= ns);
            i = i + 1;
        }
        assert(ifs.take(i as int) =~= ifs);
        v
    }

    /// The table of our own prefixes in `area`.
    fn own_prefix_table(&self, area: u32) -> (t: Vec<PrefixCost>)
        ensures
            t@ == own_table(self@.lsdb.entries, self@.router_id, area),
    {
        let mut t: Vec<PrefixCost> = Vec::new();
        let ghost es = self@.lsdb.entries;
        let mut i: usize = 0;
        assert(es.take(0) =~= Seq::empty());
        while i < self.lsdb.len()
            invariant
                i <= es.len(),
                es == self@.lsdb.entries,
                t@ == own_table(es.take(i as int), self@.router_id, area),
            decreases es.len() - i,
        {
            assert(es.take(i + 1).drop_last() =~= es.take(i as int));
            let e = self.lsdb.entry(i);
            let same_area = match e.area {
                Some(a) => a == area,
                None => false,
            };
            if e.header.ls_type == LsaV3Type::IntraAreaPrefix && e.header.advertising_router
                == self.router_id && same_area {
                let body = e.body();
                if let Ok(iap) = IntraAreaPrefixLsaV3::parse(body.as_slice()) {
                    let ghost start = t@;
                    let ghost ps = iap.prefixes@;
                    let mut k: usize = 0;
                    assert(ps.take(0) =~= Seq::empty());
                    while k < iap.prefixes.len()
                        invariant
                            k <= iap.prefixes@.len(),
                            ps == iap.prefixes@,
                            t@ == put_own(start, ps.take(k as int)),
                        decreases iap.prefixes.len() - k,
                    {
                        assert(ps.take(k + 1).drop_last() =~= ps.take(k as int));
                        let p = iap.prefixes[k];
                        insert_min(
                            &mut t,
                            PrefixCost { address: p.address, len: p.prefix_length, cost: 0 },
                        );
                        k = k + 1;
                    }
                    assert(ps.take(k as int) =~= ps);
                }
            }
            i = i + 1;
        }
        assert(es.take(i as int) =~= es);
        t
    }

    /// The prefixes known in `area`, ours and those that path computation reached.
    fn prefix_table(&self, routes: &Vec<AreaRoute>, area: u32) -> (t: Vec<PrefixCost>)
        ensures
            t@ == self@.area_table(routes@, area),
    {
        let mut t = self.own_prefix_table(area);
        let ghost own = t@;
        let mut i: usize = 0;
        assert(routes@.take(0) =~= Seq::empty());
        while i < routes.len()
            invariant
                i <= routes@.len(),
                t@ == put_routes(own, routes@.take(i as int), area),
            decreases routes.len() - i,
        {
            assert(routes@.take(i + 1).drop_last() =~= routes@.take(i as int));
            if routes[i].area == area {
                insert_min(&mut t, routes[i].prefix);
            }
            i = i + 1;
        }
        assert(routes@.take(i as int) =~= routes@);
        t
    }

    /// Announces the prefixes into `dest`, numbered from 1 on.
    fn announce_into(&mut self, ps: &Vec<PrefixCost>, dest: u32)
        ensures
            final(self)@ == old(self)@.inter_area_lsas(ps@, dest),
    {
        let ghost me = self@;
        let mut i: usize = 0;
        assert(ps@.take(0) =~= Seq::empty());
        while i < ps.len()
            invariant
                i <= ps@.len(),
                self@ == me.inter_area_lsas(ps@.take(i as int), dest),
            decreases ps.len() - i,
        {
            assert(ps@.take(i + 1).drop_last() =~= ps@.take(i as int));
            let p = ps[i];
            let ia = InterAreaPrefixLsaV3 {
                metric: p.cost,
                prefix: Ospfv3Prefix::plain(p.address, p.len),
            };
            let mut body: Vec<u8> = Vec::new();
            ia.encode(&mut body);
            assert(body@ =~= summary_body(p));
            let id: u32 = ((i + 1) as u64 % 0x100000000) as u32;
            self.insert_self_lsa(LsaV3Type::InterAreaPrefix, id, &body, Some(dest));
            i = i + 1;
        }
        assert(ps@.take(i as int) =~= ps@);
    }

    /// Announces, as an area border router, the prefixes of each area into all others: our own at
    /// cost 0 and those that path computation reached, given in `routes`, at theirs. What is
    /// attached in the destination area is left out.
    pub fn announce_area_routes(&mut self, routes: &Vec<AreaRoute>)
        ensures
            final(self)@ == old(self)@.with_inter_area_lsas(routes@),
    {
        if !self.is_abr() {
            return ;
        }
        let ghost me = self@;
        let areas = self.areas();
        let ghost rs = routes@;
        let mut tables: Vec<Vec<PrefixCost>> = Vec::new();
        let mut t: usize = 0;
        while t < areas.len()
            invariant
                t <= areas@.len(),
                t == tables@.len(),
                self@ == me,
                rs == routes@,
                forall|k: int|
                    0 <= k < t ==> (#[trigger] tables@[k])@ == me.area_table(rs, areas@[k]),
            decreases areas.len() - t,
        {
            let table = self.prefix_table(routes, areas[t]);
            tables.push(table);
            t = t + 1;
        }
        let mut d: usize = 0;
        assert(areas@.take(0) =~= Seq::empty());
        while d < areas.len()
            invariant
                d <= areas@.len() == tables@.len(),
                forall|k: int|
                    0 <= k < areas@.len() ==> (#[trigger] tables@[k])@ == me.area_table(
                        rs,
                        areas@[k],
                    ),
                self@ == me.summarized_all(me, rs, areas@.take(d as int), areas@),
            decreases areas.len() - d,
        {
            assert(areas@.take(d + 1).drop_last() =~= areas@.take(d as int));
            let dest: u32 = areas[d];
            let mut list: Vec<PrefixCost> = Vec::new();
            let mut s: usize = 0;
            assert(areas@.take(0) =~= Seq::empty());
            while s < areas.len()
                invariant
                    d < areas@.len() == tables@.len(),
                    s <= areas@.len(),
                    dest == areas@[d as int],
                    forall|k: int|
                        0 <= k < areas@.len() ==> (#[trigger] tables@[k])@ == me.area_table(
                            rs,
                            areas@[k],
                        ),
                    list@ == me.gathered(rs, areas@.take(s as int), dest),
                decreases areas.len() - s,
            {
                assert(areas@.take(s + 1).drop_last() =~= areas@.take(s as int));
                if areas[s] != dest {
                    let mut more = select_summaries(&tables[s], &tables[d]);
                    list.append(&mut more);
                }
                s = s + 1;
            }
            assert(areas@.take(s as int) =~= areas@);
            self.announce_into(&list, dest);
            d = d + 1;
        }
        assert(areas@.take(d as int) =~= areas@);
    }
}

/// What of `src` is announced into an area with table `dest`.
fn select_summaries(src: &Vec<PrefixCost>, dest: &Vec<PrefixCost>) -> (r: Vec<PrefixCost>)
    ensures
        r@ == summarized(src@, dest@),
{
    let mut v: Vec<PrefixCost> = Vec::new();
    let mut i: usize = 0;
    assert(src@.take(0) =~= Seq::empty());
    while i < src.len()
        invariant
            i <= src@.len(),
            v@ == summarized(src@.take(i as int), dest@),
        decreases src.len() - i,
    {
        assert(src@.take(i + 1).drop_last() =~= src@.take(i as int));
        if !is_attached(dest, &src[i]) {
            v.push(src[i]);
        }
        i = i + 1;
    }
    assert(src@.take(i as int) =~= src@);
    v
}

/// Whether the table is in order and holds no prefix twice.
pub open spec fn ordered(t: Seq<PrefixCost>) -> bool {
    forall|i: int, j: int| 0 <= i < j < t.len() ==> (#[trigger] t[i]).before(#[trigger] t[j])
}

/// Where a prefix belongs: behind all that stand before it.
pub proof fn lemma_slot(t: Seq<PrefixCost>, p: PrefixCost, from: int)
    requires
        0 <= from <= t.len(),
    ensures
        from <= slot(t, p, from) <= t.len(),
        forall|i: int| from <= i < slot(t, p, from) ==> (#[trigger] t[i]).before(p),
        slot(t, p, from) < t.len() ==> !t[slot(t, p, from)].before(p),
    decreases t.len() - from,
{
    if from < t.len() && t[from].before(p) {
        lemma_slot(t, p, from + 1);
    }
}

/// A table stays in order and free of repetitions, and holds the new prefix at no more than the
/// given cost.
pub proof fn lemma_put_min(t: Seq<PrefixCost>, p: PrefixCost)
    requires
        ordered(t),
    ensures
        ordered(put_min(t, p)),
        exists|i: int|
            0 <= i < put_min(t, p).len() && (#[trigger] put_min(t, p)[i]).same_prefix(p) && put_min(
                t,
                p,
            )[i].cost <= p.cost,
{
    lemma_slot(t, p, 0);
    let i = slot(t, p, 0);
    let r = put_min(t, p);
    if i < t.len() && t[i].same_prefix(p) {
        assert(r[i].same_prefix(p));
    } else {
        assert(r[i] == p);
        assert forall|a: int, b: int| 0 <= a < b < r.len() implies (#[trigger] r[a]).before(
            #[trigger] r[b],
        ) by {
            if a < i && b == i {
                assert(r[a] == t[a]);
            } else if a == i && b > i {
                assert(r[b] == t[b - 1]);
                if b - 1 > i {
                    assert(t[i].before(t[b - 1]));
                }
            } else if a < i && b > i {
                assert(r[a] == t[a]);
                assert(r[b] == t[b - 1]);
            } else if a < i && b < i {
                assert(r[a] == t[a] && r[b] == t[b]);
            } else {
                assert(r[a] == t[a - 1] && r[b] == t[b - 1]);
            }
        }
    }
}

} // verus!
