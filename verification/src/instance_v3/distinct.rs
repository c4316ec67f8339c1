//! What every operation keeps: no interface and, on one interface, no neighbor is listed twice, and
//! the database holds no key twice.
use vstd::prelude::*;

use crate::config::{Ospf6DaemonConfig, ParsedSummaryAddress6};
use crate::instance_v3;
use crate::instance_v3::flooding;
use crate::instance_v3::inter_area;
use crate::instance_v3::laws;
use crate::instance_v3::originate;
use crate::instance_v3::routes;
use crate::instance_v3::rx;
use crate::instance_v3::{InstanceV3View, InterfaceV3View, NeighborV3View};
use crate::lsdb_v3;
use crate::lsdb_v3::{LsaEntryV3View, LsaKeyV3, LsdbV3View};
use crate::packet_v3::dd::DbDescV3View;
use crate::packet_v3::hello::HelloV3View;
use crate::packet_v3::lsa;
use crate::packet_v3::lsa::AsExternalLsaV3;
use crate::packet_v3::lsr;
use crate::packet_v3::lsr::LsRequestV3;
use crate::packet_v3::lsu;
use crate::packet_v3::lsu::LsaV3RawView;
use crate::packet_v3::{
    LsaV3Header, LsaV3Type, Options, Ospfv3Header, Ospfv3PacketType, OSPFV3_HEADER_LEN,
};
use crate::spf_v3::SpfRouteV3View;

verus! {

/// Two lists of neighbors with the same ids in the same places.
spec fn same_ids(a: Seq<NeighborV3View>, b: Seq<NeighborV3View>) -> bool {
    &&& a.len() == b.len()
    &&& forall|k: int|
        0 <= k < a.len() ==> (#[trigger] a[k]).router_id == (#[trigger] b[k]).router_id
}

/// Two lists of interfaces with the same indices and the same neighbors in the same places.
spec fn same_members(a: Seq<InterfaceV3View>, b: Seq<InterfaceV3View>) -> bool {
    &&& a.len() == b.len()
    &&& forall|k: int|
        0 <= k < a.len() ==> (#[trigger] a[k]).io.sw_if_index == (#[trigger] b[k]).io.sw_if_index
            && same_ids(a[k].neighbors, b[k].neighbors)
}

/// Whether what is distinct in `a` is distinct in `b`, with the same members.
spec fn kept(a: InstanceV3View, b: InstanceV3View) -> bool {
    &&& same_members(a.interfaces, b.interfaces)
    &&& a.lsdb.wf() ==> b.lsdb.wf()
}

proof fn lemma_same_ids(a: InterfaceV3View, b: InterfaceV3View)
    requires
        a.wf(),
        same_ids(a.neighbors, b.neighbors),
    ensures
        b.wf(),
{
    assert forall|i: int, j: int| 0 <= i < j < b.neighbors.len() implies (
    #[trigger] b.neighbors[i]).router_id != (#[trigger] b.neighbors[j]).router_id by {
        assert(a.neighbors[i].router_id == b.neighbors[i].router_id);
        assert(a.neighbors[j].router_id == b.neighbors[j].router_id);
    }
}

proof fn lemma_kept(a: InstanceV3View, b: InstanceV3View)
    requires
        a.wf(),
        kept(a, b),
    ensures
        b.wf(),
{
    assert forall|i: int| 0 <= i < b.interfaces.len() implies (#[trigger] b.interfaces[i]).wf() by {
        assert(a.interfaces[i].wf());
        assert(a.interfaces[i].io.sw_if_index == b.interfaces[i].io.sw_if_index);
        lemma_same_ids(a.interfaces[i], b.interfaces[i]);
    }
    assert forall|i: int, j: int| 0 <= i < j < b.interfaces.len() implies (
    #[trigger] b.interfaces[i]).io.sw_if_index != (#[trigger] b.interfaces[j]).io.sw_if_index by {
        assert(a.interfaces[i].io.sw_if_index == b.interfaces[i].io.sw_if_index);
        assert(a.interfaces[j].io.sw_if_index == b.interfaces[j].io.sw_if_index);
    }
}

proof fn lemma_kept_on(a: InstanceV3View, b: InstanceV3View, c: InstanceV3View)
    requires
        kept(a, b),
        kept(b, c),
    ensures
        kept(a, c),
{
    assert forall|k: int| 0 <= k < a.interfaces.len() implies (
    #[trigger] a.interfaces[k]).io.sw_if_index == (#[trigger] c.interfaces[k]).io.sw_if_index
        && same_ids(a.interfaces[k].neighbors, c.interfaces[k].neighbors) by {
        let (x, y, z) = (a.interfaces[k], b.interfaces[k], c.interfaces[k]);
        assert(x.io.sw_if_index == y.io.sw_if_index);
        assert(y.io.sw_if_index == z.io.sw_if_index);
        assert forall|n: int| 0 <= n < x.neighbors.len() implies (
        #[trigger] x.neighbors[n]).router_id == (#[trigger] z.neighbors[n]).router_id by {
            assert(x.neighbors[n].router_id == y.neighbors[n].router_id);
            assert(y.neighbors[n].router_id == z.neighbors[n].router_id);
        }
    }
}

/// An instance with one interface changed, but neither its index nor its neighbors' ids.
proof fn lemma_kept_at(me: InstanceV3View, i: int, f: InterfaceV3View)
    requires
        0 <= i < me.interfaces.len(),
        f.io.sw_if_index == me.interfaces[i].io.sw_if_index,
        same_ids(me.interfaces[i].neighbors, f.neighbors),
    ensures
        kept(me, InstanceV3View { interfaces: me.interfaces.update(i, f), ..me }),
{
}

proof fn lemma_stored_wf(db: LsdbV3View, es: Seq<LsaEntryV3View>)
    requires
        db.wf(),
    ensures
        flooding::stored(db, es).wf(),
    decreases es.len(),
{
    if es.len() > 0 {
        lemma_stored_wf(db, es.drop_last());
        flooding::stored(db, es.drop_last()).lemma_insert_wf(es.last());
    }
}

proof fn lemma_on_link_kept(
    me: InstanceV3View,
    e: LsaEntryV3View,
    idx: u32,
    exclude: Option<(u32, u32)>,
)
    ensures
        kept(me, me.flooded_on_link(e, idx, exclude)),
{
    instance_v3::lemma_iface_pos(me.interfaces, idx, 0);
    match instance_v3::iface_pos(me.interfaces, idx, 0) {
        Some(i) => {
            lemma_kept_at(me, i, me.interfaces[i].flooded_here(e, exclude));
        },
        None => {},
    }
}

proof fn lemma_passed_on_all_kept(me: InstanceV3View, es: Seq<LsaEntryV3View>, from: (u32, u32))
    ensures
        kept(me, me.passed_on_all(es, from)),
    decreases es.len(),
{
    if es.len() > 0 {
        let before = me.passed_on_all(es.drop_last(), from);
        lemma_passed_on_all_kept(me, es.drop_last(), from);
        lemma_on_link_kept(before, es.last(), from.0, Some(from));
        assert(kept(before, before.flooded(es.last(), Some(from))));
        lemma_kept_on(me, before, before.passed_on(es.last(), from));
    }
}

proof fn lemma_published_kept(me: InstanceV3View, e: LsaEntryV3View)
    ensures
        kept(me, me.published(e)),
{
    if me.lsdb.wf() {
        me.lsdb.lemma_insert_wf(e);
    }
}

proof fn lemma_originated_kept(
    a: InstanceV3View,
    me: InstanceV3View,
    ls_type: LsaV3Type,
    id: u32,
    body: Seq<u8>,
    area: Option<u32>,
)
    requires
        kept(a, me),
    ensures
        kept(a, me.originated(ls_type, id, body, area)),
{
    let e = me.self_lsa(ls_type, id, body, area);
    lemma_published_kept(me, e);
    lemma_kept_on(a, me, me.published(e));
}

/// Originating an LSA of ours keeps everything distinct.
pub proof fn lemma_originated_wf(
    me: InstanceV3View,
    ls_type: LsaV3Type,
    id: u32,
    body: Seq<u8>,
    area: Option<u32>,
)
    requires
        me.wf(),
    ensures
        me.originated(ls_type, id, body, area).wf(),
{
    lemma_originated_kept(me, me, ls_type, id, body, area);
    lemma_kept(me, me.originated(ls_type, id, body, area));
}

proof fn lemma_router_lsas_kept(me: InstanceV3View, areas: Seq<u32>, flags: u8)
    ensures
        kept(me, me.router_lsas(areas, flags)),
    decreases areas.len(),
{
    if areas.len() > 0 {
        lemma_router_lsas_kept(me, areas.drop_last(), flags);
        let before = me.router_lsas(areas.drop_last(), flags);
        lemma_originated_kept(
            me,
            before,
            LsaV3Type::Router,
            0,
            lsa::router_lsa_bytes(
                flags,
                Options::spec_standard().0,
                originate::area_links(before.interfaces, areas.last(), me.router_id),
            ),
            Some(areas.last()),
        );
    }
}

proof fn lemma_network_lsas_kept(me: InstanceV3View, ifs: Seq<InterfaceV3View>)
    ensures
        kept(me, me.network_lsas(ifs)),
    decreases ifs.len(),
{
    if ifs.len() > 0 {
        lemma_network_lsas_kept(me, ifs.drop_last());
        let before = me.network_lsas(ifs.drop_last());
        let f = ifs.last();
        lemma_originated_kept(
            me,
            before,
            LsaV3Type::Network,
            f.interface_id,
            lsa::network_lsa_bytes(
                Options::spec_standard().0,
                seq![me.router_id] + originate::full_ids(f.neighbors),
            ),
            Some(f.area_id),
        );
    }
}

proof fn lemma_link_lsas_kept(me: InstanceV3View, ifs: Seq<InterfaceV3View>)
    ensures
        kept(me, me.link_lsas(ifs)),
    decreases ifs.len(),
{
    if ifs.len() > 0 {
        lemma_link_lsas_kept(me, ifs.drop_last());
        let before = me.link_lsas(ifs.drop_last());
        let f = ifs.last();
        let e = before.self_lsa(
            LsaV3Type::Link,
            f.interface_id,
            lsa::link_lsa_bytes(
                f.priority,
                Options::spec_standard().0,
                f.io.link_local,
                originate::plain_prefixes(f.global_prefixes),
            ),
            Some(f.area_id),
        );
        if before.lsdb.wf() {
            before.lsdb.lemma_insert_wf(e);
        }
        let mid = InstanceV3View { lsdb: before.lsdb.insert(e), ..before };
        let after = mid.flooded_on_link(e, f.io.sw_if_index, None);
        lemma_on_link_kept(mid, e, f.io.sw_if_index, None);
        assert(kept(before, mid));
        lemma_kept_on(before, mid, after);
        lemma_kept_on(me, before, after);
    }
}

proof fn lemma_network_prefix_lsas_kept(me: InstanceV3View, ifs: Seq<InterfaceV3View>)
    ensures
        kept(me, me.network_prefix_lsas(ifs)),
    decreases ifs.len(),
{
    if ifs.len() > 0 {
        lemma_network_prefix_lsas_kept(me, ifs.drop_last());
        let before = me.network_prefix_lsas(ifs.drop_last());
        let f = ifs.last();
        lemma_originated_kept(
            me,
            before,
            LsaV3Type::IntraAreaPrefix,
            f.interface_id,
            lsa::intra_area_prefix_bytes(
                LsaV3Type::Network.spec_code(),
                f.interface_id,
                me.router_id,
                originate::plain_prefixes(f.global_prefixes),
            ),
            Some(f.area_id),
        );
    }
}

proof fn lemma_router_prefix_lsas_kept(
    me: InstanceV3View,
    areas: Seq<u32>,
    ifs: Seq<InterfaceV3View>,
)
    ensures
        kept(me, me.router_prefix_lsas(areas, ifs)),
    decreases areas.len(),
{
    if areas.len() > 0 {
        lemma_router_prefix_lsas_kept(me, areas.drop_last(), ifs);
        lemma_originated_kept(
            me,
            me.router_prefix_lsas(areas.drop_last(), ifs),
            LsaV3Type::IntraAreaPrefix,
            0,
            lsa::intra_area_prefix_bytes(
                LsaV3Type::Router.spec_code(),
                0,
                me.router_id,
                originate::router_prefixes(ifs, areas.last()),
            ),
            Some(areas.last()),
        );
    }
}

/// Originating our Router-, Network-, Link- and Intra-Area-Prefix-LSAs keeps everything distinct,
/// and so does the refresh that does all of it.
pub proof fn lemma_origination_wf(me: InstanceV3View)
    requires
        me.wf(),
    ensures
        me.with_router_lsas().wf(),
        me.with_network_lsas().wf(),
        me.with_link_lsas().wf(),
        me.with_prefix_lsas().wf(),
        me.self_refreshed().wf(),
{
    lemma_own_lsas_kept(me);
    lemma_kept(me, me.with_router_lsas());
    lemma_kept(me, me.with_network_lsas());
    lemma_kept(me, me.with_link_lsas());
    lemma_kept(me, me.with_prefix_lsas());
    let a = me.requests_taken();
    assert(kept(me, a));
    let b = a.with_router_lsas();
    let c = b.with_network_lsas();
    let d = c.with_prefix_lsas();
    lemma_own_lsas_kept(a);
    lemma_own_lsas_kept(b);
    lemma_own_lsas_kept(c);
    lemma_own_lsas_kept(d);
    lemma_kept_on(me, a, b);
    lemma_kept_on(me, b, c);
    lemma_kept_on(me, c, d);
    lemma_kept_on(me, d, d.with_link_lsas());
    lemma_kept(me, d.with_link_lsas());
}

proof fn lemma_own_lsas_kept(me: InstanceV3View)
    ensures
        kept(me, me.with_router_lsas()),
        kept(me, me.with_network_lsas()),
        kept(me, me.with_link_lsas()),
        kept(me, me.with_prefix_lsas()),
{
    let areas = instance_v3::areas_of(me.interfaces);
    lemma_router_lsas_kept(me, areas, originate::router_flags(me.is_abr(), me.asbr));
    lemma_network_lsas_kept(me, me.interfaces);
    lemma_link_lsas_kept(me, me.interfaces);
    lemma_network_prefix_lsas_kept(me, me.interfaces);
    let mid = me.network_prefix_lsas(me.interfaces);
    lemma_router_prefix_lsas_kept(mid, areas, me.interfaces);
    lemma_kept_on(me, mid, me.with_prefix_lsas());
}

proof fn lemma_summary_lsas_kept(me: InstanceV3View, es: Seq<ParsedSummaryAddress6>)
    ensures
        kept(me, me.summary_lsas(es)),
    decreases es.len(),
{
    if es.len() > 0 {
        lemma_summary_lsas_kept(me, es.drop_last());
        let e = es.last();
        lemma_originated_kept(
            me,
            me.summary_lsas(es.drop_last()),
            LsaV3Type::AsExternal,
            (0x1000 + (es.len() - 1)) as u32,
            AsExternalLsaV3::spec_external(
                e.metric_type == 2,
                e.metric,
                e.prefix,
                e.prefix_len,
                e.tag,
            ).bytes(),
            None,
        );
    }
}

proof fn lemma_withdrawn_kept(me: InstanceV3View, keys: Seq<LsaKeyV3>)
    ensures
        kept(me, me.withdrawn(keys)),
    decreases keys.len(),
{
    if keys.len() > 0 {
        lemma_withdrawn_kept(me, keys.drop_last());
        let before = me.withdrawn(keys.drop_last());
        match before.lsdb.lookup(keys.last()) {
            Some(e) => {
                lemma_published_kept(before, originate::aged_out(e));
                lemma_kept_on(me, before, before.published(originate::aged_out(e)));
            },
            None => {},
        }
    }
}

proof fn lemma_external_lsas_kept(
    me: InstanceV3View,
    ps: Seq<(u128, u8)>,
    metric: u32,
    type_2: bool,
)
    ensures
        kept(me, me.external_lsas(ps, metric, type_2)),
    decreases ps.len(),
{
    if ps.len() > 0 {
        lemma_external_lsas_kept(me, ps.drop_last(), metric, type_2);
        lemma_originated_kept(
            me,
            me.external_lsas(ps.drop_last(), metric, type_2),
            LsaV3Type::AsExternal,
            ps.len() as u32,
            AsExternalLsaV3::spec_external(
                type_2,
                metric,
                ps.last().0,
                ps.last().1,
                0,
            ).bytes(),
            None,
        );
    }
}

/// Redistributing routes, announcing aggregates and withdrawing keep everything distinct.
pub proof fn lemma_redistribution_wf(
    me: InstanceV3View,
    externals: Seq<originate::ExternalV6View>,
    summaries: Seq<ParsedSummaryAddress6>,
    keep: Seq<u32>,
)
    requires
        me.wf(),
    ensures
        me.redistributed(externals, summaries).wf(),
        me.summary_lsas(summaries).wf(),
        me.flushed_outside(keep).wf(),
{
    lemma_summary_lsas_kept(me, summaries);
    lemma_kept(me, me.summary_lsas(summaries));
    lemma_withdrawn_kept(
        me,
        originate::withdrawn_keys(me.lsdb.entries, me.router_id, keep),
    );
    lemma_kept(me, me.flushed_outside(keep));
    lemma_withdrawn_kept(
        me,
        originate::withdrawn_keys(me.lsdb.entries, me.router_id, Seq::empty()),
    );
    if let Some((rule, map)) = me.rule_in_force() {
        let kept = originate::announced(externals, summaries, map);
        let ids = originate::external_ids(kept.len() as int, summaries.len() as int);
        lemma_withdrawn_kept(me, originate::withdrawn_keys(me.lsdb.entries, me.router_id, ids));
        let mid = me.flushed_outside(ids);
        let type_2 = rule.metric_type == 2;
        lemma_external_lsas_kept(mid, kept, rule.metric, type_2);
        lemma_kept_on(me, mid, mid.external_lsas(kept, rule.metric, type_2));
    }
    lemma_kept(me, me.redistributed(externals, summaries));
}

proof fn lemma_inter_area_lsas_kept(
    me: InstanceV3View,
    ps: Seq<inter_area::PrefixCost>,
    dest: u32,
)
    ensures
        kept(me, me.inter_area_lsas(ps, dest)),
    decreases ps.len(),
{
    if ps.len() > 0 {
        lemma_inter_area_lsas_kept(me, ps.drop_last(), dest);
        lemma_originated_kept(
            me,
            me.inter_area_lsas(ps.drop_last(), dest),
            LsaV3Type::InterAreaPrefix,
            (ps.len() % 0x100000000) as u32,
            inter_area::summary_body(ps.last()),
            Some(dest),
        );
    }
}

proof fn lemma_summarized_all_kept(
    me: InstanceV3View,
    base: InstanceV3View,
    rs: Seq<inter_area::AreaRoute>,
    dests: Seq<u32>,
    areas: Seq<u32>,
)
    ensures
        kept(me, me.summarized_all(base, rs, dests, areas)),
    decreases dests.len(),
{
    if dests.len() > 0 {
        lemma_summarized_all_kept(me, base, rs, dests.drop_last(), areas);
        let before = me.summarized_all(base, rs, dests.drop_last(), areas);
        let ps = base.gathered(rs, areas, dests.last());
        lemma_inter_area_lsas_kept(before, ps, dests.last());
        lemma_kept_on(me, before, before.inter_area_lsas(ps, dests.last()));
    }
}

/// Announcing the routes of each area into the others keeps everything distinct.
pub proof fn lemma_inter_area_wf(me: InstanceV3View, rs: Seq<inter_area::AreaRoute>)
    requires
        me.wf(),
    ensures
        me.with_inter_area_lsas(rs).wf(),
{
    let areas = instance_v3::areas_of(me.interfaces);
    lemma_summarized_all_kept(me, me, rs, areas, areas);
    lemma_kept(me, me.with_inter_area_lsas(rs));
}

/// Route computation, which has a border router announce its routes first, keeps everything
/// distinct.
pub proof fn lemma_spf_wf(me: InstanceV3View, ts: Seq<Seq<SpfRouteV3View>>)
    requires
        me.wf(),
    ensures
        me.with_tables(ts).wf(),
{
    lemma_inter_area_wf(
        me,
        routes::all_costs(
            instance_v3::areas_of(me.interfaces),
            ts,
            ts.len() as int,
        ),
    );
}

proof fn lemma_hello_wf(me: InstanceV3View, i: int, src: u32, addr: u128, h: HelloV3View, now: u64)
    requires
        me.wf(),
        0 <= i < me.interfaces.len(),
    ensures
        me.hello_on(i, src, addr, h, now).wf(),
{
    let f = me.interfaces[i];
    let r = f.hello_received(me.router_id, src, addr, h, now);
    instance_v3::lemma_neighbor_pos(f.neighbors, src, 0);
    assert(f.wf());
    assert forall|a: int, b: int| 0 <= a < b < r.neighbors.len() implies (
    #[trigger] r.neighbors[a]).router_id != (#[trigger] r.neighbors[b]).router_id by {
        if a < f.neighbors.len() {
            assert(r.neighbors[a].router_id == f.neighbors[a].router_id);
        }
        if b < f.neighbors.len() {
            assert(r.neighbors[b].router_id == f.neighbors[b].router_id);
        }
    }
}

proof fn lemma_outranked_kept(me: InstanceV3View, hs: Seq<LsaV3Header>, area: u32)
    ensures
        kept(me, me.outranked_by_all(hs, area)),
    decreases hs.len(),
{
    if hs.len() > 0 {
        lemma_outranked_kept(me, hs.drop_last(), area);
        let before = me.outranked_by_all(hs.drop_last(), area);
        let h = hs.last();
        match before.lsdb.lookup(before.own_key(h, area)) {
            Some(e) => {
                let bumped = LsaEntryV3View {
                    header: LsaV3Header { ls_sequence_number: h.ls_sequence_number, ..e.header },
                    ..e
                };
                if before.lsdb.wf() {
                    before.lsdb.lemma_insert_wf(bumped);
                }
            },
            None => {},
        }
        assert(kept(before, before.outranked_by(h, area)));
        lemma_kept_on(me, before, before.outranked_by(h, area));
    }
}

proof fn lemma_dd_kept(me: InstanceV3View, i: int, src: u32, d: DbDescV3View)
    requires
        0 <= i < me.interfaces.len(),
    ensures
        kept(me, me.dd_on(i, src, d)),
{
    let f = me.interfaces[i];
    let ours = rx::describable(me.lsdb.entries, f.interface_id, f.area_id);
    let mid = me.outranked_by_all(d.lsa_headers, f.area_id);
    lemma_outranked_kept(me, d.lsa_headers, f.area_id);
    let g = mid.interfaces[i];
    instance_v3::lemma_neighbor_pos(g.neighbors, src, 0);
    lemma_kept_at(mid, i, g.dd_received(me.router_id, src, d, ours));
    lemma_kept_on(me, mid, me.dd_on(i, src, d));
}

proof fn lemma_updated_kept(me: InstanceV3View, idx: u32, src: u32, lsas: Seq<LsaV3RawView>)
    ensures
        kept(me, me.updated(idx, src, lsas)),
{
    let area = me.area_of(idx);
    let es = flooding::installed(
        lsas,
        area,
        me.area_type(area),
    );
    if me.lsdb.wf() {
        lemma_stored_wf(me.lsdb, es);
    }
    let mid = InstanceV3View { lsdb: flooding::stored(me.lsdb, es), ..me };
    let spread = mid.passed_on_all(es, (idx, src));
    laws::lemma_passed_on_all_db(mid, es, (idx, src));
    lemma_passed_on_all_kept(mid, es, (idx, src));
    assert(kept(me, mid));
    lemma_kept_on(me, mid, spread);
    instance_v3::lemma_iface_pos(spread.interfaces, idx, 0);
    match instance_v3::iface_pos(spread.interfaces, idx, 0) {
        Some(i) => {
            instance_v3::lemma_neighbor_pos(spread.interfaces[i].neighbors, src, 0);
            match instance_v3::neighbor_pos(spread.interfaces[i].neighbors, src, 0) {
                Some(j) => {
                    let r = spread.update_settled(i, j, flooding::headers_of(es));
                    lemma_kept_at(spread, i, r.interfaces[i]);
                    lemma_kept_on(me, spread, r);
                },
                None => {},
            }
        },
        None => {},
    }
}

/// Whatever a packet holds, and whether or not it is taken, receiving it keeps everything distinct.
pub proof fn lemma_packet_wf(
    me: InstanceV3View,
    sw_if_index: u32,
    src_addr: u128,
    data: Seq<u8>,
    now: u64,
)
    requires
        me.wf(),
    ensures
        me.received(sw_if_index, src_addr, data, now).0.wf(),
{
    instance_v3::lemma_iface_pos(me.interfaces, sw_if_index, 0);
    match (
        Ospfv3Header::spec_parse(data),
        instance_v3::iface_pos(me.interfaces, sw_if_index, 0),
    ) {
        (Ok(hdr), Some(i)) => {
            let end = if hdr.packet_length <= data.len() {
                hdr.packet_length as int
            } else {
                data.len() as int
            };
            lemma_body_wf(
                me,
                i,
                hdr.packet_type,
                hdr.router_id,
                src_addr,
                data.subrange(OSPFV3_HEADER_LEN as int, end),
                now,
            );
        },
        _ => {},
    }
}

proof fn lemma_body_wf(
    me: InstanceV3View,
    i: int,
    packet_type: Ospfv3PacketType,
    src: u32,
    src_addr: u128,
    body: Seq<u8>,
    now: u64,
)
    requires
        me.wf(),
        0 <= i < me.interfaces.len(),
    ensures
        me.body_received(i, packet_type, src, src_addr, body, now).0.wf(),
{
    let idx = me.interfaces[i].io.sw_if_index;
    match HelloV3View::spec_parse(body) {
        Ok(h) => {
            lemma_hello_wf(me, i, src, src_addr, h, now);
        },
        Err(_) => {},
    }
    match DbDescV3View::spec_parse(body) {
        Ok(d) => {
            lemma_dd_kept(me, i, src, d);
            lemma_kept(me, me.dd_on(i, src, d));
        },
        Err(_) => {},
    }
    match lsr::requests_from(body, 0) {
        Ok(reqs) => {
            lemma_requested_kept(me, idx, src, reqs);
            lemma_kept(me, me.requested(idx, src, reqs));
        },
        Err(_) => {},
    }
    match lsu::update_parse(body) {
        Ok(u) => {
            lemma_updated_kept(me, idx, src, u);
            lemma_kept(me, me.updated(idx, src, u));
        },
        Err(_) => {},
    }
}

proof fn lemma_requested_kept(
    me: InstanceV3View,
    idx: u32,
    src: u32,
    reqs: Seq<LsRequestV3>,
)
    ensures
        kept(me, me.requested(idx, src, reqs)),
{
    instance_v3::lemma_iface_pos(me.interfaces, idx, 0);
    match instance_v3::iface_pos(me.interfaces, idx, 0) {
        Some(i) => {
            instance_v3::lemma_neighbor_pos(me.interfaces[i].neighbors, src, 0);
        },
        None => {},
    }
}

proof fn lemma_survivors_distinct(f: InterfaceV3View, ns: Seq<NeighborV3View>, now: u64)
    requires
        forall|i: int, j: int|
            0 <= i < j < ns.len() ==> (#[trigger] ns[i]).router_id != (#[trigger] ns[j]).router_id,
    ensures
        ({
            let left = f.survivors(ns, now);
            forall|i: int, j: int|
                0 <= i < j < left.len() ==> (#[trigger] left[i]).router_id != (
                #[trigger] left[j]).router_id
        }),
    decreases ns.len(),
{
    if ns.len() > 0 {
        let rest = ns.drop_last();
        assert forall|i: int, j: int| 0 <= i < j < rest.len() implies (#[trigger] rest[i]).router_id
            != (#[trigger] rest[j]).router_id by {
            assert(ns[i] == rest[i] && ns[j] == rest[j]);
        }
        lemma_survivors_distinct(f, rest, now);
        let front = f.survivors(rest, now);
        let left = f.survivors(ns, now);
        assert forall|i: int, j: int| 0 <= i < j < left.len() implies (#[trigger] left[i]).router_id
            != (#[trigger] left[j]).router_id by {
            if j == front.len() {
                assert(front.contains(left[i])) by {
                    assert(front[i] == left[i]);
                }
                laws::lemma_survivors(f, rest, now, left[i]);
                let w = choose|w: int| 0 <= w < rest.len() && rest[w] == left[i];
                assert(ns[w] == rest[w]);
                assert(ns[ns.len() - 1] == left[j]);
            } else {
                assert(left[i] == front[i] && left[j] == front[j]);
            }
        }
    }
}

/// Sending Hellos, description packets and what is queued, and dropping silent neighbors keep
/// everything distinct.
pub proof fn lemma_timers_wf(me: InstanceV3View, now: u64)
    requires
        me.wf(),
    ensures
        (InstanceV3View {
            interfaces: Seq::new(
                me.interfaces.len(),
                |i: int| me.interfaces[i].after_hello(now),
            ),
            ..me
        }).wf(),
        (InstanceV3View {
            interfaces: Seq::new(
                me.interfaces.len(),
                |i: int| me.interfaces[i].expired(me.router_id, now),
            ),
            ..me
        }).wf(),
        (InstanceV3View {
            interfaces: Seq::new(
                me.interfaces.len(),
                |i: int| me.interfaces[i].after_dds(lsdb_v3::entry_headers(me.lsdb.entries), now),
            ),
            ..me
        }).wf(),
        (InstanceV3View {
            interfaces: Seq::new(me.interfaces.len(), |i: int| me.interfaces[i].after_queued()),
            ..me
        }).wf(),
{
    let hellos = InstanceV3View {
        interfaces: Seq::new(me.interfaces.len(), |i: int| me.interfaces[i].after_hello(now)),
        ..me
    };
    assert(kept(me, hellos));
    lemma_kept(me, hellos);
    let dds = InstanceV3View {
        interfaces: Seq::new(
            me.interfaces.len(),
            |i: int| me.interfaces[i].after_dds(lsdb_v3::entry_headers(me.lsdb.entries), now),
        ),
        ..me
    };
    assert(kept(me, dds));
    lemma_kept(me, dds);
    let queued = InstanceV3View {
        interfaces: Seq::new(me.interfaces.len(), |i: int| me.interfaces[i].after_queued()),
        ..me
    };
    assert(kept(me, queued));
    lemma_kept(me, queued);
    let left = InstanceV3View {
        interfaces: Seq::new(
            me.interfaces.len(),
            |i: int| me.interfaces[i].expired(me.router_id, now),
        ),
        ..me
    };
    assert forall|i: int| 0 <= i < left.interfaces.len() implies (
    #[trigger] left.interfaces[i]).wf() by {
        let f = me.interfaces[i];
        assert(f.wf());
        lemma_survivors_distinct(f, f.neighbors, now);
        assert(left.interfaces[i].neighbors == f.survivors(f.neighbors, now));
    }
    assert forall|i: int, j: int| 0 <= i < j < left.interfaces.len() implies (
    #[trigger] left.interfaces[i]).io.sw_if_index != (
    #[trigger] left.interfaces[j]).io.sw_if_index by {
        assert(me.interfaces[i].io.sw_if_index != me.interfaces[j].io.sw_if_index);
    }
}

/// Reconciling an interface with its link keeps everything distinct.
pub proof fn lemma_refresh_wf(
    me: InstanceV3View,
    i: int,
    link_local: Option<u128>,
    prefixes: Seq<(u128, u8)>,
    oper_up: bool,
)
    requires
        me.wf(),
        0 <= i < me.interfaces.len(),
    ensures
        (InstanceV3View {
            interfaces: me.interfaces.update(
                i,
                me.interfaces[i].refreshed(link_local, prefixes, oper_up).0,
            ),
            ..me
        }).wf(),
{
    assert(me.interfaces[i].wf());
    assert(me.interfaces[i].refreshed(link_local, prefixes, oper_up).0.wf());
}

/// Adding an interface, which takes the place of one with the same index, keeps everything
/// distinct.
pub proof fn lemma_interface_wf(me: InstanceV3View, f: InterfaceV3View)
    requires
        me.wf(),
        f.wf(),
    ensures
        me.with_interface(f).wf(),
{
    instance_v3::lemma_iface_pos(me.interfaces, f.io.sw_if_index, 0);
}

/// Taking over a new configuration keeps everything distinct.
pub proof fn lemma_reload_wf(me: InstanceV3View, c: Ospf6DaemonConfig)
    requires
        me.wf(),
    ensures
        me.reconfigured(c).0.wf(),
{
    laws::lemma_retuned_all(me.interfaces, c.interfaces@);
    assert(kept(me, me.reconfigured(c).0));
    lemma_kept(me, me.reconfigured(c).0);
}

} // verus!
